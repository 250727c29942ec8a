//! The parser for expressions and blocks.

use crate::authored::{
    Argument, Arm, BlockItem, Expr, Function, Item, Lambda, MatchArm, NamePath, Parameter, Term,
    Type, TypeArgument, TypeTerm, argument_terms, arm_terms, copy_authored_types, field_terms,
    items, parameter_terms, terms, type_terms,
};
use crate::cursor::{
    NESTING_LIMIT, Special, Step, Syn, Syntax, aliased, ate_arrow, ate_operator, ate_punct,
    ate_word, name_taken, newlines_skipped, parse_fault, past_newlines, path_taken, segments_from,
    step_texts, tok_at, want_arrow, want_punct,
};
use crate::expr_syntax::{
    alias_qualifies, arguments_from, arm_taken, arms_from, ascribed_ahead, ascription_taken,
    behind_parens, block_call, block_taken, body_taken, bound_value, call_type_arguments,
    explicit_types, expr_taken, field_access, generic_taken, goes_on, if_taken, item_taken,
    items_from, lambda_params, lambda_taken, let_taken, lets_from, list_from, match_taken,
    name_expression, named_taken, operands_from, owner_taken, params_from, parens_taken,
    postfix_from, postfix_once, postfix_taken, primary_taken, tuple_from, tuple_type,
    type_argument, type_arguments_from, type_tag_taken, value_fields, value_fields_from,
    word_taken, zipped_params,
};
use crate::fixity::{Infix, infix_view, infix_views, scan_direct_block_lets, term_read};
use crate::lowering::{
    CallArgument, Passed, find_obvious_types, is_all_positional, label, obvious_expr_type,
    option_term, passed, take_values, want,
};
use crate::text::{cat2, cat4, count_text, same_text, texts};
use crate::tokens::{Fault, Piece, Sort, Tok, toks};
use crate::type_syntax::{ate_end, plain_type, type_atom, type_list, type_list_from, type_taken};
use vstd::prelude::*;
use vstd::string::*;

verus! {

pub open spec fn step_term(syn: Syn, result: Result<Expr, Fault>) -> Step<Term> {
    Step { syn, result: term_read(result) }
}

pub open spec fn step_items(syn: Syn, result: Result<Vec<BlockItem>, Fault>) -> Step<Seq<Item>> {
    Step {
        syn,
        result: match result {
            Ok(list) => Ok(items(list@)),
            Err(fault) => Err(fault@),
        },
    }
}

pub open spec fn step_item(syn: Syn, result: Result<BlockItem, Fault>) -> Step<Item> {
    Step {
        syn,
        result: match result {
            Ok(item) => Ok(item@),
            Err(fault) => Err(fault@),
        },
    }
}

pub open spec fn step_passed(syn: Syn, result: Result<Vec<CallArgument>, Fault>) -> Step<
    Seq<Passed>,
> {
    Step {
        syn,
        result: match result {
            Ok(list) => Ok(passed(list@)),
            Err(fault) => Err(fault@),
        },
    }
}

pub open spec fn step_fields(syn: Syn, result: Result<Vec<(String, Expr)>, Fault>) -> Step<
    Seq<(Seq<char>, Term)>,
> {
    Step {
        syn,
        result: match result {
            Ok(list) => Ok(field_terms(list@)),
            Err(fault) => Err(fault@),
        },
    }
}

pub open spec fn step_arguments(syn: Syn, result: Result<Vec<TypeArgument>, Fault>) -> Step<
    Seq<Argument>,
> {
    Step {
        syn,
        result: match result {
            Ok(list) => Ok(argument_terms(list@)),
            Err(fault) => Err(fault@),
        },
    }
}

pub open spec fn step_terms(syn: Syn, result: Result<Vec<Expr>, Fault>) -> Step<Seq<Term>> {
    Step {
        syn,
        result: match result {
            Ok(list) => Ok(terms(list@)),
            Err(fault) => Err(fault@),
        },
    }
}

pub open spec fn step_arm(syn: Syn, result: Result<MatchArm, Fault>) -> Step<Arm> {
    Step {
        syn,
        result: match result {
            Ok(arm) => Ok(arm@),
            Err(fault) => Err(fault@),
        },
    }
}

pub open spec fn step_arms(syn: Syn, result: Result<Vec<MatchArm>, Fault>) -> Step<Seq<Arm>> {
    Step {
        syn,
        result: match result {
            Ok(arms) => Ok(arm_terms(arms@)),
            Err(fault) => Err(fault@),
        },
    }
}

// ---------------------------------------------------------------------------
// Looking ahead
// ---------------------------------------------------------------------------

/// Whether two states differ at most in their tokens and their cursors.
pub open spec fn kept_else(before: Syn, after: Syn) -> bool {
    after == (Syn { toks: after.toks, at: after.at, ..before })
}

proof fn lemma_segments_keep(syn: Syn, before: Seq<Seq<char>>, left: nat)
    ensures
        kept_else(syn, segments_from(syn, before, left).syn),
    decreases left,
{
    let dot = ate_punct(syn, '.');
    if dot.yes && left > 0 {
        let name = name_taken(dot.syn);
        if let Ok(text) = name.result {
            lemma_segments_keep(name.syn, before.push(text), (left - 1) as nat);
        }
    }
}

proof fn lemma_type_keeps(syn: Syn, fuel: nat)
    ensures
        kept_else(syn, type_taken(syn, fuel).syn),
    decreases fuel, 3int, 0int,
{
    lemma_plain_keeps(syn, fuel);
    let left = plain_type(syn, fuel);
    if let Ok(_) = left.result {
        let arrow = ate_arrow(left.syn);
        if arrow.yes && fuel > 0 {
            lemma_type_keeps(arrow.syn, (fuel - 1) as nat);
        }
    }
}

proof fn lemma_plain_keeps(syn: Syn, fuel: nat)
    ensures
        kept_else(syn, plain_type(syn, fuel).syn),
    decreases fuel, 2int, 0int,
{
    lemma_atom_keeps(syn, fuel);
}

proof fn lemma_atom_keeps(start: Syn, fuel: nat)
    ensures
        kept_else(start, type_atom(start, fuel).syn),
    decreases fuel, 1int, 0int,
{
    let syn = newlines_skipped(start);
    if fuel > 0 {
        let inner = (fuel - 1) as nat;
        let function = ate_word(syn, "fn"@);
        let open = ate_punct(syn, '(');
        if function.yes {
            let open = want_punct(function.syn, '(');
            lemma_list_keeps(open.syn, Some(')'), inner);
            let params = type_list(open.syn, Some(')'), inner);
            let arrow = want_arrow(params.syn);
            lemma_type_keeps(arrow.syn, inner);
        } else if open.yes {
            lemma_list_keeps(open.syn, Some(')'), inner);
        } else {
            let first = name_taken(syn);
            if let Ok(name) = first.result {
                let segments = match aliased(syn, name) {
                    Some(path) => path,
                    None => seq![name],
                };
                lemma_segments_keep(first.syn, segments, NESTING_LIMIT as nat);
            }
            let name = path_taken(syn);
            let bracket = ate_operator(name.syn, "<"@);
            lemma_list_keeps(bracket.syn, None, inner);
        }
    }
}

proof fn lemma_list_keeps(start: Syn, end: Option<char>, fuel: nat)
    ensures
        kept_else(start, type_list(start, end, fuel).syn),
    decreases fuel, 5int, 0int,
{
    let syn = newlines_skipped(start);
    lemma_list_from_keeps(syn, end, Seq::empty(), fuel, NESTING_LIMIT as nat);
}

proof fn lemma_list_from_keeps(
    syn: Syn,
    end: Option<char>,
    before: Seq<TypeTerm>,
    fuel: nat,
    left: nat,
)
    ensures
        kept_else(syn, type_list_from(syn, end, before, fuel, left).syn),
    decreases fuel, 4int, left,
{
    lemma_type_keeps(syn, fuel);
    let item = type_taken(syn, fuel);
    if let Ok(ty) = item.result {
        let close = ate_end(item.syn, end);
        let comma = want_punct(close.syn, ',');
        if left > 0 {
            lemma_list_from_keeps(
                newlines_skipped(comma.syn),
                end,
                before.push(ty),
                fuel,
                (left - 1) as nat,
            );
        }
    }
}

fn copy_pieces(pieces: &Vec<Piece>) -> (copy: Vec<Piece>)
    ensures
        toks(copy@) == toks(pieces@),
{
    let mut copy: Vec<Piece> = Vec::new();
    let mut i: usize = 0;
    while i < pieces.len()
        invariant
            i <= pieces@.len(),
            copy@.len() == i,
            forall|j: int| 0 <= j < i ==> (#[trigger] copy@[j])@ == pieces@[j]@,
        decreases pieces@.len() - i,
    {
        let piece = &pieces[i];
        copy.push(Piece { sort: piece.sort.copy(), from: piece.from, to: piece.to });
        i = i + 1;
    }
    assert(toks(copy@) =~= toks(pieces@));
    copy
}

impl<'a> Syntax<'a> {
    fn find_behind(&self) -> (index: Option<usize>)
        ensures
            match (index, behind_parens(self@, self@.at, 0)) {
                (Some(index), Some(view)) => index == view && index <= self.pieces@.len(),
                (None, None) => true,
                _ => false,
            },
    {
        let length = self.pieces.len();
        let start = self.at;
        let mut depth: usize = 0;
        let mut i: usize = start;
        while i < length
            invariant
                length == self.pieces@.len(),
                start == self.at,
                start <= i,
                depth <= i - start,
                behind_parens(self@, start as int, 0) == behind_parens(
                    self@,
                    i as int,
                    depth as nat,
                ),
            decreases length - i,
        {
            match self.sort_at(i) {
                Sort::Punct(mark) => {
                    if *mark == '(' {
                        depth = depth + 1;
                    } else if *mark == ')' {
                        if depth == 0 {
                            return None;
                        }
                        if depth == 1 {
                            return Some(i + 1);
                        }
                        depth = depth - 1;
                    }
                },
                Sort::Eof => return None,
                _ => {},
            }
            i = i + 1;
        }
        None
    }

    /// The type that is written behind a function in parentheses.
    fn lookahead_ascribed_function_type(&mut self) -> (ty: Option<Type>)
        ensures
            option_term(ty) == ascribed_ahead(old(self)@),
            final(self)@ == old(self)@,
    {
        let ghost before = self@;
        if !self.at_punct('(') {
            return None;
        }
        let bar = match self.ahead(1) {
            Sort::Operator(name) => same_text(name.as_str(), "|"),
            _ => false,
        };
        if !bar {
            return None;
        }
        let behind = match self.find_behind() {
            None => return None,
            Some(index) => index,
        };
        let mut i: usize = behind;
        while self.newline_at(i)
            invariant
                self@ == before,
                past_newlines(before, behind as int) == past_newlines(before, i as int),
                before == old(self)@,
            decreases self.pieces@.len() - i,
        {
            i = i + 1;
        }
        let colon = match self.sort_at(i) {
            Sort::Punct(mark) => *mark == ':',
            _ => false,
        };
        if !colon {
            return None;
        }
        let length = self.pieces.len();
        assert(i < length);
        let at = self.at;
        let pieces = copy_pieces(&self.pieces);
        self.at = i + 1;
        let ghost probe = self@;
        let result = self.parse_type(NESTING_LIMIT);
        proof {
            lemma_type_keeps(probe, NESTING_LIMIT as nat);
        }
        self.pieces = pieces;
        self.at = at;
        assert(self@ == before);
        match result {
            Ok(ty) => Some(ty),
            Err(_) => None,
        }
    }
}

// ---------------------------------------------------------------------------
// Expressions
// ---------------------------------------------------------------------------

fn make_access(value: Expr, name: String) -> (result: Expr)
    ensures
        result@ == field_access(value@, name@),
{
    let ghost value_view = value@;
    let field = Expr::Str(name);
    let ghost field_view = field@;
    let mut args: Vec<Expr> = Vec::new();
    args.push(value);
    args.push(field);
    assert(terms(args@) =~= seq![value_view, field_view]);
    let callee = Expr::Name(NamePath::single("get"));
    assert(callee@ == Term::Name(seq!["get"@]));
    let call = Expr::Call { callee: Box::new(callee), type_args: None, args };
    assert(call@ == Term::Call(Box::new(callee@), None, terms(args@)));
    call
}

fn find_explicit(arguments: &Vec<TypeArgument>) -> (types: Option<Vec<Type>>)
    ensures
        match (types, explicit_types(argument_terms(arguments@), 0)) {
            (Some(types), Some(view)) => type_terms(types@) == view,
            (None, None) => true,
            _ => false,
        },
{
    let ghost all = argument_terms(arguments@);
    let mut types: Vec<Type> = Vec::new();
    proof {
        assert(type_terms(types@) =~= Seq::<TypeTerm>::empty());
        if let Some(rest) = explicit_types(all, 0) {
            assert(type_terms(types@) + rest =~= rest);
        }
    }
    let mut i: usize = 0;
    while i < arguments.len()
        invariant
            i <= arguments@.len(),
            all == argument_terms(arguments@),
            match explicit_types(all, 0) {
                Some(view) => match explicit_types(all, i as int) {
                    Some(rest) => view == type_terms(types@) + rest,
                    None => false,
                },
                None => explicit_types(all, i as int) is None,
            },
        decreases arguments@.len() - i,
    {
        assert(all[i as int] == arguments@[i as int]@);
        match &arguments[i] {
            TypeArgument::Infer => return None,
            TypeArgument::Explicit(ty) => {
                let ghost before = type_terms(types@);
                types.push(ty.copy());
                proof {
                    assert(type_terms(types@) =~= before.push(ty@));
                    if let Some(rest) = explicit_types(all, i + 1) {
                        assert(before + (seq![ty@] + rest) =~= before.push(ty@) + rest);
                    }
                }
            },
        }
        i = i + 1;
    }
    assert(type_terms(types@) + Seq::<TypeTerm>::empty() =~= type_terms(types@));
    Some(types)
}

fn make_parameters_of(names: Vec<String>, types: &Vec<Type>) -> (params: Vec<Parameter>)
    requires
        names@.len() == types@.len(),
    ensures
        parameter_terms(params@) == zipped_params(texts(names@), type_terms(types@)),
{
    let mut params: Vec<Parameter> = Vec::new();
    let mut i: usize = 0;
    while i < names.len()
        invariant
            i <= names@.len(),
            names@.len() == types@.len(),
            params@.len() == i,
            forall|j: int|
                0 <= j < i ==> (#[trigger] params@[j]).name@ == names@[j]@ && params@[j].ty@
                    == types@[j]@,
        decreases names@.len() - i,
    {
        params.push(Parameter { name: names[i].clone(), ty: types[i].copy() });
        i = i + 1;
    }
    assert(parameter_terms(params@) =~= zipped_params(texts(names@), type_terms(types@)));
    params
}

fn one_item(value: Expr) -> (list: Vec<BlockItem>)
    ensures
        items(list@) == seq![Item::Expr(value@)],
{
    let item = BlockItem::Expr(value);
    let ghost view = item@;
    let mut list: Vec<BlockItem> = Vec::new();
    list.push(item);
    assert(items(list@) =~= seq![view]);
    list
}

fn make_bound(value: Expr, type_params: Vec<String>, target: Type) -> (result: Expr)
    ensures
        result@ == bound_value(value@, texts(type_params@), target@),
{
    assert(texts(type_params@).len() == type_params@.len());
    match value {
        Expr::Function(function) => {
            let generic = type_params.len() > 0;
            let ghost names = texts(type_params@);
            let renamed = Function {
                type_params,
                params: function.params,
                result: function.result,
                body: function.body,
            };
            assert(renamed@ == (Lambda { type_params: names, ..function@ }));
            let made = Expr::Function(renamed);
            assert(made@ == Term::Function(Box::new(renamed@)));
            if generic {
                made
            } else {
                let annotated = Expr::Annotate { target, value: Box::new(made) };
                assert(annotated@ == Term::Annotate(target@, Box::new(made@)));
                annotated
            }
        },
        other => {
            let annotated = Expr::Annotate { target, value: Box::new(other) };
            assert(annotated@ == Term::Annotate(target@, Box::new(other@)));
            annotated
        },
    }
}

fn make_block(result: Type, body: Vec<BlockItem>) -> (call: Expr)
    ensures
        call@ == block_call(result@, items(body@)),
{
    let type_params: Vec<String> = Vec::new();
    let params: Vec<Parameter> = Vec::new();
    let args: Vec<Expr> = Vec::new();
    let ghost result_view = result@;
    let ghost body_view = items(body@);
    assert(texts(type_params@) =~= Seq::<Seq<char>>::empty());
    assert(parameter_terms(params@) =~= Seq::<(Seq<char>, TypeTerm)>::empty());
    assert(terms(args@) =~= Seq::<Term>::empty());
    let function = Function { type_params, params, result, body };
    assert(function@ == (Lambda {
        type_params: Seq::empty(),
        params: Seq::empty(),
        result: result_view,
        body: body_view,
    }));
    let callee = Expr::Function(function);
    assert(callee@ == Term::Function(Box::new(function@)));
    let call = Expr::Call { callee: Box::new(callee), type_args: None, args };
    assert(call@ == Term::Call(Box::new(callee@), None, Seq::empty()));
    call
}

fn find_tuple_type(items: &Vec<Expr>, expected: Option<&Type>) -> (ty: Option<Type>)
    ensures
        option_term(ty) == tuple_type(terms(items@), want(expected)),
{
    assert(terms(items@).len() == items@.len());
    if let Some(Type::Product(types)) = expected {
        assert(type_terms(types@).len() == types@.len());
        if types.len() == items.len() {
            return Some(Type::Product(copy_authored_types(types)));
        }
    }
    match find_obvious_types(items) {
        Some(types) => Some(Type::Product(types)),
        None => None,
    }
}

impl<'a> Syntax<'a> {
    /// Reads an expression.
    pub fn parse_expr(&mut self, expected: Option<&Type>, fuel: u64) -> (result: Result<Expr, Fault>)
        ensures
            step_term(final(self)@, result) == expr_taken(
                old(self)@,
                want(expected),
                fuel as nat,
            ),
        decreases fuel, 0int,
    {
        if fuel == 0 {
            return Err(self.nested_fault());
        }
        let first = match self.parse_ascription(expected, fuel - 1) {
            Err(fault) => return Err(fault),
            Ok(first) => first,
        };
        let ghost view = first@;
        let mut operands: Vec<Expr> = Vec::new();
        operands.push(first);
        let mut operators: Vec<(String, usize, usize)> = Vec::new();
        assert(terms(operands@) =~= seq![view]);
        assert(infix_views(operators@) =~= Seq::<Infix>::empty());
        let ghost whole = expr_taken(old(self)@, want(expected), fuel as nat);
        let mut left: u64 = NESTING_LIMIT;
        loop
            invariant
                fuel > 0,
                whole == expr_taken(old(self)@, want(expected), fuel as nat),
                whole == operands_from(
                    self@,
                    terms(operands@),
                    infix_views(operators@),
                    (fuel - 1) as nat,
                    left as nat,
                ),
            decreases left,
        {
            let operator = match self.take_infix_operator() {
                Err(fault) => return Err(fault),
                Ok(None) => return self.reassociate(operands, &operators),
                Ok(Some(operator)) => operator,
            };
            if left == 0 {
                return Err(self.nested_fault());
            }
            self.newlines();
            let operand = match self.parse_ascription(None, fuel - 1) {
                Err(fault) => return Err(fault),
                Ok(operand) => operand,
            };
            let ghost values = terms(operands@);
            let ghost marks = infix_views(operators@);
            let ghost value = operand@;
            let ghost mark = infix_view(operator);
            operands.push(operand);
            operators.push(operator);
            assert(terms(operands@) =~= values.push(value));
            assert(infix_views(operators@) =~= marks.push(mark));
            left = left - 1;
        }
    }

    fn parse_ascription(&mut self, expected: Option<&Type>, fuel: u64) -> (result: Result<
        Expr,
        Fault,
    >)
        ensures
            step_term(final(self)@, result) == ascription_taken(
                old(self)@,
                want(expected),
                fuel as nat,
            ),
        decreases fuel, 8int,
    {
        let value = match self.parse_postfix(expected, fuel) {
            Err(fault) => return Err(fault),
            Ok(value) => value,
        };
        if !self.eat_punct(':') {
            return Ok(value);
        }
        let target = match self.parse_type(NESTING_LIMIT) {
            Err(fault) => return Err(fault),
            Ok(target) => target,
        };
        let invalid = match &value {
            Expr::Invalid(_) => true,
            _ => false,
        };
        assert(invalid == (value@ is Invalid));
        if invalid {
            return Ok(value);
        }
        let made = Expr::Ascribe { target, value: Box::new(value) };
        assert(made@ == Term::Ascribe(target@, Box::new(value@)));
        Ok(made)
    }

    /// Reads an operand with everything that is applied to it.
    fn parse_postfix(&mut self, expected: Option<&Type>, fuel: u64) -> (result: Result<Expr, Fault>)
        ensures
            step_term(final(self)@, result) == postfix_taken(
                old(self)@,
                want(expected),
                fuel as nat,
            ),
        decreases fuel, 7int,
    {
        let ghost whole = postfix_taken(self@, want(expected), fuel as nat);
        let primary = match expected {
            Some(_) => self.parse_primary(expected, fuel),
            None => {
                let inline = self.lookahead_ascribed_function_type();
                self.parse_primary(inline.as_ref(), fuel)
            },
        };
        let mut value = match primary {
            Err(fault) => return Err(fault),
            Ok(value) => value,
        };
        let mut left: u64 = NESTING_LIMIT;
        while self.at_operator("<") || self.at_punct('(') || self.at_punct('.') || (self.braces
            && self.at_punct('{'))
            invariant
                whole == postfix_taken(old(self)@, want(expected), fuel as nat),
                whole == postfix_from(self@, value@, want(expected), fuel as nat, left as nat),
            decreases left,
        {
            if left == 0 {
                return Err(self.nested_fault());
            }
            value = match self.parse_postfix_once(value, expected, fuel) {
                Err(fault) => return Err(fault),
                Ok(value) => value,
            };
            left = left - 1;
        }
        Ok(value)
    }

    fn parse_postfix_once(&mut self, value: Expr, expected: Option<&Type>, fuel: u64) -> (result:
        Result<Expr, Fault>)
        requires
            goes_on(old(self)@),
        ensures
            step_term(final(self)@, result) == postfix_once(
                old(self)@,
                value@,
                want(expected),
                fuel as nat,
            ),
        decreases fuel, 5int,
    {
        if self.at_operator("<") {
            self.bump();
            return self.parse_generic(value, fuel);
        }
        if self.at_punct('(') {
            self.bump();
            return match self.parse_arguments(fuel) {
                Err(fault) => Err(fault),
                Ok(args) => self.lower_call(value, args, expected),
            };
        }
        if self.at_punct('.') {
            self.bump();
            return match self.expect_name() {
                Err(fault) => Err(fault),
                Ok(name) => Ok(make_access(value, name)),
            };
        }
        match value {
            Expr::Name(path) => {
                self.bump();
                match self.parse_value_fields(fuel) {
                    Err(fault) => Err(fault),
                    Ok(fields) => self.build_braced(path, fields, expected),
                }
            },
            _ => Err(self.fault("only a named type can construct braced fields")),
        }
    }

    #[verifier::rlimit(40)]
    fn parse_generic(&mut self, value: Expr, fuel: u64) -> (result: Result<Expr, Fault>)
        ensures
            step_term(final(self)@, result) == generic_taken(old(self)@, value@, fuel as nat),
        decreases fuel, 4int,
    {
        let owner = match &value {
            Expr::Name(path) => path.copy(),
            _ => return Err(self.fault("generic application requires a callable name")),
        };
        let arguments = match self.parse_call_type_arguments() {
            Err(fault) => return Err(fault),
            Ok(arguments) => arguments,
        };
        if self.eat_punct('(') {
            let args = match self.parse_arguments(fuel) {
                Err(fault) => return Err(fault),
                Ok(args) => args,
            };
            if !is_all_positional(&args) {
                return Err(
                    self.fault("named arguments are only valid for named constructor payloads"),
                );
            }
            let values = take_values(args);
            let ghost list = argument_terms(arguments@);
            let call = Expr::Call {
                callee: Box::new(value),
                type_args: Some(arguments),
                args: values,
            };
            assert(call@ == Term::Call(Box::new(value@), Some(list), terms(values@)));
            return Ok(call);
        }
        match find_explicit(&arguments) {
            None => Err(
                self.fault("'_' inference holes are only valid in explicit function calls"),
            ),
            Some(types) => {
                let ty = Type::Apply { constructor: owner, arguments: types };
                self.parse_owner(ty, fuel)
            },
        }
    }

    fn parse_owner(&mut self, owner: Type, fuel: u64) -> (result: Result<Expr, Fault>)
        ensures
            step_term(final(self)@, result) == owner_taken(old(self)@, owner@, fuel as nat),
        decreases fuel, 3int,
    {
        if self.eat_punct('.') {
            let constructor = match self.expect_name() {
                Err(fault) => return Err(fault),
                Ok(name) => name,
            };
            let ghost before = self@;
            assert(before.special.len() == self.special@.len());
            let number = count_text(self.special.len());
            let marker = cat2("#constructor", number.as_str());
            let special = Special { marker: marker.clone(), owner, constructor };
            let ghost view = special@;
            self.special.push(special);
            assert(self@.special =~= before.special.push(view));
            let name = NamePath::single(marker.as_str());
            return Ok(Expr::Name(name));
        }
        if self.braces && self.at_punct('{') {
            self.bump();
            return match self.parse_value_fields(fuel) {
                Err(fault) => Err(fault),
                Ok(fields) => {
                    let record = Expr::Fields(fields);
                    let made = Expr::Ascribe { target: owner, value: Box::new(record) };
                    assert(made@ == Term::Ascribe(owner@, Box::new(record@)));
                    Ok(made)
                },
            };
        }
        Err(self.fault("explicit type arguments must be followed by a call or constructor"))
    }

    fn parse_type_argument(&mut self) -> (result: Result<TypeArgument, Fault>)
        ensures
            (Step {
                syn: final(self)@,
                result: match result {
                    Ok(argument) => Ok(argument@),
                    Err(fault) => Err(fault@),
                },
            }) == type_argument(old(self)@),
    {
        if self.at_word("_") {
            self.bump();
            return Ok(TypeArgument::Infer);
        }
        match self.parse_type(NESTING_LIMIT) {
            Err(fault) => Err(fault),
            Ok(ty) => Ok(TypeArgument::Explicit(ty)),
        }
    }

    fn parse_call_type_arguments(&mut self) -> (result: Result<Vec<TypeArgument>, Fault>)
        ensures
            step_arguments(final(self)@, result) == call_type_arguments(old(self)@),
    {
        self.newlines();
        let mut values: Vec<TypeArgument> = Vec::new();
        assert(argument_terms(values@) =~= Seq::<Argument>::empty());
        if self.eat_close() {
            return Ok(values);
        }
        let ghost whole = call_type_arguments(old(self)@);
        let mut left: u64 = NESTING_LIMIT;
        loop
            invariant
                whole == call_type_arguments(old(self)@),
                whole == type_arguments_from(self@, argument_terms(values@), left as nat),
            decreases left,
        {
            match self.parse_type_argument() {
                Err(fault) => return Err(fault),
                Ok(argument) => {
                    let ghost before = argument_terms(values@);
                    let ghost view = argument@;
                    values.push(argument);
                    assert(argument_terms(values@) =~= before.push(view));
                },
            }
            if self.eat_close() {
                return Ok(values);
            }
            match self.expect_punct(',') {
                Err(fault) => return Err(fault),
                Ok(_) => {},
            }
            if left == 0 {
                return Err(self.nested_fault());
            }
            self.newlines();
            left = left - 1;
        }
    }

    #[verifier::rlimit(40)]
    fn parse_arguments(&mut self, fuel: u64) -> (result: Result<Vec<CallArgument>, Fault>)
        ensures
            step_passed(final(self)@, result) == arguments_from(
                newlines_skipped(old(self)@),
                Seq::empty(),
                fuel as nat,
                NESTING_LIMIT as nat,
            ),
        decreases fuel, 2int,
    {
        self.newlines();
        let ghost start = self@;
        let mut args: Vec<CallArgument> = Vec::new();
        assert(passed(args@) =~= Seq::<Passed>::empty());
        let ghost whole = arguments_from(
            start,
            Seq::empty(),
            fuel as nat,
            NESTING_LIMIT as nat,
        );
        let mut left: u64 = NESTING_LIMIT;
        loop
            invariant
                start == newlines_skipped(old(self)@),
                whole == arguments_from(
                    start,
                    Seq::empty(),
                    fuel as nat,
                    NESTING_LIMIT as nat,
                ),
                whole == arguments_from(self@, passed(args@), fuel as nat, left as nat),
            decreases left,
        {
            if self.eat_punct(')') {
                return Ok(args);
            }
            let word = match self.peek() {
                Sort::Ident(name) => Some(name.clone()),
                _ => None,
            };
            let colon = match self.ahead(1) {
                Sort::Punct(mark) => *mark == ':',
                _ => false,
            };
            let name = if colon {
                word
            } else {
                None
            };
            if name.is_some() {
                self.bump();
                self.bump();
            }
            match self.parse_expr(None, fuel) {
                Err(fault) => return Err(fault),
                Ok(value) => {
                    let ghost before = passed(args@);
                    let ghost view = Passed { name: label(name), value: value@ };
                    args.push(CallArgument { name, value });
                    assert(passed(args@) =~= before.push(view));
                },
            }
            if self.eat_punct(')') {
                return Ok(args);
            }
            match self.expect_punct(',') {
                Err(fault) => return Err(fault),
                Ok(_) => {},
            }
            if left == 0 {
                return Err(self.nested_fault());
            }
            self.newlines();
            left = left - 1;
        }
    }

    fn parse_value_fields(&mut self, fuel: u64) -> (result: Result<Vec<(String, Expr)>, Fault>)
        ensures
            step_fields(final(self)@, result) == value_fields(old(self)@, fuel as nat),
        decreases fuel, 2int,
    {
        self.newlines();
        let mut fields: Vec<(String, Expr)> = Vec::new();
        assert(field_terms(fields@) =~= Seq::<(Seq<char>, Term)>::empty());
        let ghost whole = value_fields(old(self)@, fuel as nat);
        let mut left: u64 = NESTING_LIMIT;
        loop
            invariant
                whole == value_fields(old(self)@, fuel as nat),
                whole == value_fields_from(
                    self@,
                    field_terms(fields@),
                    fuel as nat,
                    left as nat,
                ),
            decreases left,
        {
            if self.eat_punct('}') {
                return Ok(fields);
            }
            let name = match self.expect_name() {
                Err(fault) => return Err(fault),
                Ok(name) => name,
            };
            match self.expect_punct(':') {
                Err(fault) => return Err(fault),
                Ok(_) => {},
            }
            match self.parse_expr(None, fuel) {
                Err(fault) => return Err(fault),
                Ok(value) => {
                    let ghost before = field_terms(fields@);
                    let ghost view = (name@, value@);
                    fields.push((name, value));
                    assert(field_terms(fields@) =~= before.push(view));
                },
            }
            if self.eat_punct('}') {
                return Ok(fields);
            }
            if !self.eat_punct(',') && !self.at_newline() {
                return Err(self.fault("expected ',' or newline between fields"));
            }
            if left == 0 {
                return Err(self.nested_fault());
            }
            self.newlines();
            left = left - 1;
        }
    }

    #[verifier::rlimit(40)]
    fn parse_primary(&mut self, expected: Option<&Type>, fuel: u64) -> (result: Result<Expr, Fault>)
        ensures
            step_term(final(self)@, result) == primary_taken(
                old(self)@,
                want(expected),
                fuel as nat,
            ),
        decreases fuel, 6int,
    {
        self.newlines();
        let (from, to) = self.range_at(self.at);
        let sort = self.peek().copy();
        let ghost tok = tok_at(self@, self@.at);
        assert(sort@ == tok.tag);
        self.bump();
        match sort {
            Sort::Str(value) => Ok(Expr::Str(value)),
            Sort::Int(value) => Ok(Expr::Int(value)),
            Sort::Float(notation) => Ok(Expr::Float(notation)),
            Sort::Ident(word) => self.parse_word(word, expected, fuel),
            Sort::Operator(name) => {
                if same_text(name.as_str(), "|") {
                    self.parse_lambda(expected, from, to, Ghost(tok), fuel)
                } else {
                    let full = self.resolve_name(name.as_str());
                    Ok(Expr::Name(NamePath::single(full.as_str())))
                }
            },
            Sort::Punct(mark) => {
                if mark == '[' {
                    self.parse_list(fuel)
                } else if mark == '{' {
                    self.parse_block_after_open(expected, fuel)
                } else if mark == '(' {
                    self.parse_parens(expected, fuel)
                } else {
                    Err(parse_fault("expected expression".to_owned(), from, to))
                }
            },
            _ => Err(parse_fault("expected expression".to_owned(), from, to)),
        }
    }

    fn parse_word(&mut self, word: String, expected: Option<&Type>, fuel: u64) -> (result: Result<
        Expr,
        Fault,
    >)
        ensures
            step_term(final(self)@, result) == word_taken(
                old(self)@,
                word@,
                want(expected),
                fuel as nat,
            ),
        decreases fuel, 4int,
    {
        let text = word.as_str();
        if same_text(text, "nil") {
            Ok(Expr::Unit)
        } else if same_text(text, "true") {
            Ok(Expr::Bool(true))
        } else if same_text(text, "false") {
            Ok(Expr::Bool(false))
        } else if same_text(text, "if") {
            self.parse_if(expected, fuel)
        } else if same_text(text, "match") {
            self.parse_match(expected, fuel)
        } else if same_text(text, "type_tag") {
            self.parse_type_tag()
        } else if same_text(text, "named") {
            self.parse_named(fuel)
        } else {
            self.parse_name_expression(word)
        }
    }

    fn qualifies(&self, word: &str) -> (yes: bool)
        ensures
            yes == alias_qualifies(self@, word@),
    {
        if self.namespaces.contains(word) {
            return true;
        }
        if self.find_alias(word).is_none() || !self.at_punct('.') {
            return false;
        }
        let named = match self.ahead(1) {
            Sort::Ident(_) => true,
            Sort::Operator(_) => true,
            _ => false,
        };
        if !named {
            return false;
        }
        match self.ahead(2) {
            Sort::Punct(mark) => *mark == '(' || *mark == '{',
            Sort::Operator(name) => same_text(name.as_str(), "<"),
            _ => false,
        }
    }

    fn parse_name_expression(&mut self, word: String) -> (result: Result<Expr, Fault>)
        ensures
            step_term(final(self)@, result) == name_expression(old(self)@, word@),
    {
        let bound = self.bound.contains(word.as_str());
        let imported = self.find_alias(word.as_str()).is_some();
        let goes_on = !bound && self.at_punct('.') && (!imported || self.qualifies(word.as_str()));
        let segments = if bound {
            NamePath::single(word.as_str())
        } else {
            match self.find_alias(word.as_str()) {
                Some(path) => path.copy(),
                None => NamePath::single(word.as_str()),
            }
        };
        if goes_on {
            match self.take_segments(segments.segments) {
                Err(fault) => Err(fault),
                Ok(path) => Ok(Expr::Name(path)),
            }
        } else {
            Ok(Expr::Name(segments))
        }
    }

    fn parse_lambda_params(&mut self) -> (result: Result<Vec<String>, Fault>)
        ensures
            step_texts(final(self)@, result) == lambda_params(old(self)@),
    {
        let mut names: Vec<String> = Vec::new();
        assert(texts(names@) =~= Seq::<Seq<char>>::empty());
        if self.eat_operator("|") {
            return Ok(names);
        }
        let ghost whole = lambda_params(old(self)@);
        let mut left: u64 = NESTING_LIMIT;
        loop
            invariant
                whole == lambda_params(old(self)@),
                whole == params_from(self@, texts(names@), left as nat),
            decreases left,
        {
            match self.expect_name() {
                Err(fault) => return Err(fault),
                Ok(name) => {
                    let ghost before = texts(names@);
                    let ghost view = name@;
                    names.push(name);
                    assert(texts(names@) =~= before.push(view));
                },
            }
            if self.eat_operator("|") {
                return Ok(names);
            }
            match self.expect_punct(',') {
                Err(fault) => return Err(fault),
                Ok(_) => {},
            }
            if left == 0 {
                return Err(self.nested_fault());
            }
            left = left - 1;
        }
    }

    #[verifier::rlimit(40)]
    fn parse_lambda(
        &mut self,
        expected: Option<&Type>,
        from: usize,
        to: usize,
        Ghost(tok): Ghost<Tok>,
        fuel: u64,
    ) -> (result: Result<Expr, Fault>)
        requires
            tok.from == from,
            tok.to == to,
        ensures
            step_term(final(self)@, result) == lambda_taken(
                old(self)@,
                want(expected),
                tok,
                fuel as nat,
            ),
        decreases fuel, 4int,
    {
        let (types, result) = match expected {
            None => return Err(
                parse_fault(
                    "lambda requires a complete expected function type from a let annotation or ascription".to_owned(),
                    from,
                    to,
                ),
            ),
            Some(Type::Function { params, result }) => (params, result),
            Some(_) => return Err(
                parse_fault("lambda expected type must be a function type".to_owned(), from, to),
            ),
        };
        let result: &Type = result;
        assert(want(expected) == Some(
            TypeTerm::Function(type_terms(types@), Box::new(result@)),
        ));
        let names = match self.parse_lambda_params() {
            Err(fault) => return Err(fault),
            Ok(names) => names,
        };
        assert(texts(names@).len() == names@.len());
        assert(type_terms(types@).len() == types@.len());
        if names.len() != types.len() {
            let given = count_text(names.len());
            let wanted = count_text(types.len());
            let message = cat4(
                "lambda has ",
                given.as_str(),
                " parameters but its expected type has ",
                wanted.as_str(),
            );
            return Err(parse_fault(message, from, to));
        }
        match self.expect_fat_arrow() {
            Err(fault) => return Err(fault),
            Ok(_) => {},
        }
        let outer = self.bound.copy();
        self.bound.extend_texts(&names);
        let body = self.parse_body(result, fuel);
        self.bound = outer;
        let body = match body {
            Err(fault) => return Err(fault),
            Ok(body) => body,
        };
        let type_params: Vec<String> = Vec::new();
        assert(texts(type_params@) =~= Seq::<Seq<char>>::empty());
        let function = Function {
            type_params,
            params: make_parameters_of(names, types),
            result: result.copy(),
            body,
        };
        let made = Expr::Function(function);
        assert(made@ == Term::Function(Box::new(function@)));
        Ok(made)
    }

    #[verifier::rlimit(40)]
    fn parse_body(&mut self, result_type: &Type, fuel: u64) -> (result: Result<
        Vec<BlockItem>,
        Fault,
    >)
        ensures
            step_items(final(self)@, result) == body_taken(
                old(self)@,
                result_type@,
                fuel as nat,
            ),
        decreases fuel, 3int,
    {
        if !self.eat_punct('{') {
            return match self.parse_expr(Some(result_type), fuel) {
                Err(fault) => Err(fault),
                Ok(value) => Ok(one_item(value)),
            };
        }
        let outer = self.bound.copy();
        let lets = scan_direct_block_lets(&self.pieces, self.at);
        self.bound.extend(&lets);
        self.newlines();
        let list = match self.parse_items(fuel) {
            Err(fault) => return Err(fault),
            Ok(list) => list,
        };
        self.bound = outer;
        assert(items(list@).len() == list@.len());
        if list.len() == 0 {
            Ok(one_item(Expr::Unit))
        } else {
            Ok(list)
        }
    }

    fn parse_items(&mut self, fuel: u64) -> (result: Result<Vec<BlockItem>, Fault>)
        ensures
            step_items(final(self)@, result) == items_from(
                old(self)@,
                Seq::empty(),
                fuel as nat,
                NESTING_LIMIT as nat,
            ),
        decreases fuel, 2int,
    {
        let mut list: Vec<BlockItem> = Vec::new();
        assert(items(list@) =~= Seq::<Item>::empty());
        let ghost whole = items_from(
            self@,
            Seq::empty(),
            fuel as nat,
            NESTING_LIMIT as nat,
        );
        let mut left: u64 = NESTING_LIMIT;
        loop
            invariant
                whole == items_from(
                    old(self)@,
                    Seq::empty(),
                    fuel as nat,
                    NESTING_LIMIT as nat,
                ),
                whole == items_from(self@, items(list@), fuel as nat, left as nat),
            decreases left,
        {
            if self.eat_punct('}') {
                return Ok(list);
            }
            match self.parse_item(fuel) {
                Err(fault) => return Err(fault),
                Ok(item) => {
                    let ghost before = items(list@);
                    let ghost view = item@;
                    list.push(item);
                    assert(items(list@) =~= before.push(view));
                },
            }
            if !self.at_punct('}') {
                match self.require_separator() {
                    Err(fault) => return Err(fault),
                    Ok(_) => {},
                }
            }
            if left == 0 {
                return Err(self.nested_fault());
            }
            left = left - 1;
        }
    }

    /// Reads a binding or an expression.
    pub fn parse_item(&mut self, fuel: u64) -> (result: Result<BlockItem, Fault>)
        ensures
            step_item(final(self)@, result) == item_taken(old(self)@, fuel as nat),
        decreases fuel, 1int, 1int,
    {
        if self.at_word("let") {
            return self.parse_let(fuel);
        }
        match self.parse_expr(None, fuel) {
            Err(fault) => Err(fault),
            Ok(value) => Ok(BlockItem::Expr(value)),
        }
    }

    #[verifier::rlimit(40)]
    fn parse_let(&mut self, fuel: u64) -> (result: Result<BlockItem, Fault>)
        ensures
            step_item(final(self)@, result) == let_taken(old(self)@, fuel as nat),
        decreases fuel, 1int, 0int,
    {
        match self.expect_word("let") {
            Err(fault) => return Err(fault),
            Ok(_) => {},
        }
        let name = match self.expect_binding_name() {
            Err(fault) => return Err(fault),
            Ok(name) => name,
        };
        self.bound.insert(name.clone());
        let type_params = match self.parse_generic_names() {
            Err(fault) => return Err(fault),
            Ok(type_params) => type_params,
        };
        let expected = if self.eat_punct(':') {
            match self.parse_type(NESTING_LIMIT) {
                Err(fault) => return Err(fault),
                Ok(ty) => Some(ty),
            }
        } else {
            None
        };
        match self.expect_operator("=") {
            Err(fault) => return Err(fault),
            Ok(_) => {},
        }
        let value = match self.parse_expr(expected.as_ref(), fuel) {
            Err(fault) => return Err(fault),
            Ok(value) => value,
        };
        assert(texts(type_params@).len() == type_params@.len());
        match expected {
            Some(target) => {
                let value = make_bound(value, type_params, target);
                Ok(BlockItem::Let { name, value })
            },
            None => {
                if type_params.len() > 0 {
                    return Err(
                        self.fault("generic let parameters require a complete type annotation"),
                    );
                }
                Ok(BlockItem::Let { name, value })
            },
        }
    }

    fn parse_if(&mut self, expected: Option<&Type>, fuel: u64) -> (result: Result<Expr, Fault>)
        ensures
            step_term(final(self)@, result) == if_taken(old(self)@, want(expected), fuel as nat),
        decreases fuel, 1int, 0int,
    {
        let condition = match self.parse_expr(None, fuel) {
            Err(fault) => return Err(fault),
            Ok(condition) => condition,
        };
        match self.expect_word("then") {
            Err(fault) => return Err(fault),
            Ok(_) => {},
        }
        self.newlines();
        let then_branch = match self.parse_expr(expected, fuel) {
            Err(fault) => return Err(fault),
            Ok(value) => value,
        };
        match self.expect_word("else") {
            Err(fault) => return Err(fault),
            Ok(_) => {},
        }
        self.newlines();
        let else_branch = match self.parse_expr(expected, fuel) {
            Err(fault) => return Err(fault),
            Ok(value) => value,
        };
        let made = Expr::If {
            condition: Box::new(condition),
            then_branch: Box::new(then_branch),
            else_branch: Box::new(else_branch),
        };
        assert(made@ == Term::If(
            Box::new(condition@),
            Box::new(then_branch@),
            Box::new(else_branch@),
        ));
        Ok(made)
    }

    fn parse_lets(&mut self, fuel: u64) -> (result: Result<Vec<BlockItem>, Fault>)
        ensures
            step_items(final(self)@, result) == lets_from(
                old(self)@,
                Seq::empty(),
                fuel as nat,
                NESTING_LIMIT as nat,
            ),
        decreases fuel, 2int,
    {
        let mut list: Vec<BlockItem> = Vec::new();
        assert(items(list@) =~= Seq::<Item>::empty());
        let ghost whole = lets_from(self@, Seq::empty(), fuel as nat, NESTING_LIMIT as nat);
        let mut left: u64 = NESTING_LIMIT;
        while self.at_word("let")
            invariant
                whole == lets_from(
                    old(self)@,
                    Seq::empty(),
                    fuel as nat,
                    NESTING_LIMIT as nat,
                ),
                whole == lets_from(self@, items(list@), fuel as nat, left as nat),
            decreases left,
        {
            match self.parse_let(fuel) {
                Err(fault) => return Err(fault),
                Ok(item) => {
                    let ghost before = items(list@);
                    let ghost view = item@;
                    list.push(item);
                    assert(items(list@) =~= before.push(view));
                },
            }
            match self.require_separator() {
                Err(fault) => return Err(fault),
                Ok(_) => {},
            }
            if left == 0 {
                return Err(self.nested_fault());
            }
            left = left - 1;
        }
        Ok(list)
    }

    #[verifier::rlimit(40)]
    fn parse_block_after_open(&mut self, expected: Option<&Type>, fuel: u64) -> (result: Result<
        Expr,
        Fault,
    >)
        ensures
            step_term(final(self)@, result) == block_taken(
                old(self)@,
                want(expected),
                fuel as nat,
            ),
        decreases fuel, 3int,
    {
        let outer = self.bound.copy();
        let lets = scan_direct_block_lets(&self.pieces, self.at);
        self.bound.extend(&lets);
        self.newlines();
        let mut body = match self.parse_lets(fuel) {
            Err(fault) => return Err(fault),
            Ok(body) => body,
        };
        if self.at_punct('}') {
            return Err(self.fault("empty block is invalid; write { () }"));
        }
        let value = match self.parse_expr(expected, fuel) {
            Err(fault) => return Err(fault),
            Ok(value) => value,
        };
        let ty = match expected {
            Some(ty) => Some(ty.copy()),
            None => obvious_expr_type(&value),
        };
        let ty = match ty {
            None => return Err(self.fault("block result type requires an annotation")),
            Some(ty) => ty,
        };
        let ghost before = items(body@);
        let item = BlockItem::Expr(value);
        let ghost view = item@;
        body.push(item);
        assert(items(body@) =~= before.push(view));
        self.newlines();
        match self.expect_punct('}') {
            Err(fault) => return Err(fault),
            Ok(_) => {},
        }
        self.bound = outer;
        Ok(make_block(ty, body))
    }

    #[verifier::rlimit(40)]
    fn parse_arm(&mut self, expected: Option<&Type>, fuel: u64) -> (result: Result<MatchArm, Fault>)
        ensures
            step_arm(final(self)@, result) == arm_taken(old(self)@, want(expected), fuel as nat),
        decreases fuel, 1int, 0int,
    {
        match self.expect_word("case") {
            Err(fault) => return Err(fault),
            Ok(_) => {},
        }
        let pattern = match self.expect_name_path() {
            Err(fault) => return Err(fault),
            Ok(pattern) => pattern,
        };
        match self.expect_punct('(') {
            Err(fault) => return Err(fault),
            Ok(_) => {},
        }
        let binding = match self.expect_name() {
            Err(fault) => return Err(fault),
            Ok(binding) => binding,
        };
        match self.expect_punct(')') {
            Err(fault) => return Err(fault),
            Ok(_) => {},
        }
        match self.expect_fat_arrow() {
            Err(fault) => return Err(fault),
            Ok(_) => {},
        }
        match self.parse_expr(expected, fuel) {
            Err(fault) => Err(fault),
            Ok(body) => Ok(MatchArm { pattern, binding, body }),
        }
    }

    fn parse_arms(&mut self, expected: Option<&Type>, fuel: u64) -> (result: Result<
        Vec<MatchArm>,
        Fault,
    >)
        ensures
            step_arms(final(self)@, result) == arms_from(
                old(self)@,
                want(expected),
                Seq::empty(),
                fuel as nat,
                NESTING_LIMIT as nat,
            ),
        decreases fuel, 2int,
    {
        let mut arms: Vec<MatchArm> = Vec::new();
        assert(arm_terms(arms@) =~= Seq::<Arm>::empty());
        let ghost whole = arms_from(
            self@,
            want(expected),
            Seq::empty(),
            fuel as nat,
            NESTING_LIMIT as nat,
        );
        let mut left: u64 = NESTING_LIMIT;
        loop
            invariant
                whole == arms_from(
                    old(self)@,
                    want(expected),
                    Seq::empty(),
                    fuel as nat,
                    NESTING_LIMIT as nat,
                ),
                whole == arms_from(
                    self@,
                    want(expected),
                    arm_terms(arms@),
                    fuel as nat,
                    left as nat,
                ),
            decreases left,
        {
            if self.eat_punct('}') {
                return Ok(arms);
            }
            match self.parse_arm(expected, fuel) {
                Err(fault) => return Err(fault),
                Ok(arm) => {
                    let ghost before = arm_terms(arms@);
                    let ghost view = arm@;
                    arms.push(arm);
                    assert(arm_terms(arms@) =~= before.push(view));
                },
            }
            if self.eat_punct(',') {
                self.newlines();
            } else if !self.at_punct('}') {
                match self.require_separator() {
                    Err(fault) => return Err(fault),
                    Ok(_) => {},
                }
            }
            if left == 0 {
                return Err(self.nested_fault());
            }
            left = left - 1;
        }
    }

    fn parse_match(&mut self, expected: Option<&Type>, fuel: u64) -> (result: Result<Expr, Fault>)
        ensures
            step_term(final(self)@, result) == match_taken(
                old(self)@,
                want(expected),
                fuel as nat,
            ),
        decreases fuel, 3int,
    {
        let braces = self.braces;
        self.braces = false;
        let value = self.parse_expr(None, fuel);
        self.braces = braces;
        let value = match value {
            Err(fault) => return Err(fault),
            Ok(value) => value,
        };
        match self.expect_punct('{') {
            Err(fault) => return Err(fault),
            Ok(_) => {},
        }
        self.newlines();
        let arms = match self.parse_arms(expected, fuel) {
            Err(fault) => return Err(fault),
            Ok(arms) => arms,
        };
        assert(arm_terms(arms@).len() == arms@.len());
        if arms.len() == 0 {
            return Err(self.fault("match requires at least one arm"));
        }
        let made = Expr::Match { value: Box::new(value), arms };
        assert(made@ == Term::Match(Box::new(value@), arm_terms(arms@)));
        Ok(made)
    }

    fn parse_type_tag(&mut self) -> (result: Result<Expr, Fault>)
        ensures
            step_term(final(self)@, result) == type_tag_taken(old(self)@),
    {
        match self.expect_operator("<") {
            Err(fault) => return Err(fault),
            Ok(_) => {},
        }
        let ty = match self.parse_type(NESTING_LIMIT) {
            Err(fault) => return Err(fault),
            Ok(ty) => ty,
        };
        match self.expect_close() {
            Err(fault) => return Err(fault),
            Ok(_) => {},
        }
        match self.expect_punct('(') {
            Err(fault) => return Err(fault),
            Ok(_) => {},
        }
        match self.expect_punct(')') {
            Err(fault) => return Err(fault),
            Ok(_) => {},
        }
        Ok(Expr::TypeTag(ty))
    }

    fn parse_named(&mut self, fuel: u64) -> (result: Result<Expr, Fault>)
        ensures
            step_term(final(self)@, result) == named_taken(old(self)@, fuel as nat),
        decreases fuel, 1int, 0int,
    {
        match self.expect_punct('(') {
            Err(fault) => return Err(fault),
            Ok(_) => {},
        }
        let owner = match self.parse_type(NESTING_LIMIT) {
            Err(fault) => return Err(fault),
            Ok(owner) => owner,
        };
        match self.expect_punct(',') {
            Err(fault) => return Err(fault),
            Ok(_) => {},
        }
        let constructor = match self.expect_name() {
            Err(fault) => return Err(fault),
            Ok(name) => name,
        };
        match self.expect_punct(',') {
            Err(fault) => return Err(fault),
            Ok(_) => {},
        }
        let payload = match self.parse_expr(None, fuel) {
            Err(fault) => return Err(fault),
            Ok(payload) => payload,
        };
        match self.expect_punct(')') {
            Err(fault) => return Err(fault),
            Ok(_) => {},
        }
        let made = Expr::Construct { owner, constructor, payload: Box::new(payload) };
        assert(made@ == Term::Construct(owner@, constructor@, Box::new(payload@)));
        Ok(made)
    }

    fn parse_list(&mut self, fuel: u64) -> (result: Result<Expr, Fault>)
        ensures
            step_term(final(self)@, result) == list_from(
                newlines_skipped(old(self)@),
                Seq::empty(),
                fuel as nat,
                NESTING_LIMIT as nat,
            ),
        decreases fuel, 1int, 0int,
    {
        self.newlines();
        let ghost start = self@;
        let mut list: Vec<Expr> = Vec::new();
        assert(terms(list@) =~= Seq::<Term>::empty());
        let ghost whole = list_from(start, Seq::empty(), fuel as nat, NESTING_LIMIT as nat);
        let mut left: u64 = NESTING_LIMIT;
        loop
            invariant
                start == newlines_skipped(old(self)@),
                whole == list_from(start, Seq::empty(), fuel as nat, NESTING_LIMIT as nat),
                whole == list_from(self@, terms(list@), fuel as nat, left as nat),
            decreases left,
        {
            if self.eat_punct(']') {
                return Ok(Expr::Vector(list));
            }
            match self.parse_expr(None, fuel) {
                Err(fault) => return Err(fault),
                Ok(value) => {
                    let ghost before = terms(list@);
                    let ghost view = value@;
                    list.push(value);
                    assert(terms(list@) =~= before.push(view));
                },
            }
            if self.eat_punct(']') {
                return Ok(Expr::Vector(list));
            }
            match self.expect_punct(',') {
                Err(fault) => return Err(fault),
                Ok(_) => {},
            }
            if left == 0 {
                return Err(self.nested_fault());
            }
            self.newlines();
            left = left - 1;
        }
    }

    fn parse_tuple(&mut self, first: Expr, fuel: u64) -> (result: Result<Vec<Expr>, Fault>)
        ensures
            step_terms(final(self)@, result) == tuple_from(
                old(self)@,
                seq![first@],
                fuel as nat,
                NESTING_LIMIT as nat,
            ),
        decreases fuel, 1int, 0int,
    {
        let ghost view = first@;
        let mut list: Vec<Expr> = Vec::new();
        list.push(first);
        assert(terms(list@) =~= seq![view]);
        let ghost whole = tuple_from(self@, seq![view], fuel as nat, NESTING_LIMIT as nat);
        let mut left: u64 = NESTING_LIMIT;
        loop
            invariant
                view == first@,
                whole == tuple_from(
                    old(self)@,
                    seq![view],
                    fuel as nat,
                    NESTING_LIMIT as nat,
                ),
                whole == tuple_from(self@, terms(list@), fuel as nat, left as nat),
            decreases left,
        {
            self.newlines();
            if self.eat_punct(')') {
                return Ok(list);
            }
            match self.parse_expr(None, fuel) {
                Err(fault) => return Err(fault),
                Ok(value) => {
                    let ghost before = terms(list@);
                    let ghost added = value@;
                    list.push(value);
                    assert(terms(list@) =~= before.push(added));
                },
            }
            if self.eat_punct(')') {
                return Ok(list);
            }
            match self.expect_punct(',') {
                Err(fault) => return Err(fault),
                Ok(_) => {},
            }
            if left == 0 {
                return Err(self.nested_fault());
            }
            left = left - 1;
        }
    }

    #[verifier::rlimit(40)]
    fn parse_parens(&mut self, expected: Option<&Type>, fuel: u64) -> (result: Result<Expr, Fault>)
        ensures
            step_term(final(self)@, result) == parens_taken(
                old(self)@,
                want(expected),
                fuel as nat,
            ),
        decreases fuel, 5int,
    {
        self.newlines();
        if self.eat_punct(')') {
            return Ok(Expr::Unit);
        }
        let closes = match self.ahead(1) {
            Sort::Punct(mark) => *mark == ')',
            _ => false,
        };
        if closes {
            let name = match self.peek() {
                Sort::Operator(name) => Some(name.clone()),
                Sort::Arrow => Some("->".to_owned()),
                Sort::FatArrow => Some("=>".to_owned()),
                _ => None,
            };
            if let Some(name) = name {
                self.bump();
                self.bump();
                return Ok(Expr::Name(NamePath::single(name.as_str())));
            }
        }
        if self.at_operator("|") {
            let (from, to) = self.range_at(self.at);
            let ghost tok = tok_at(self@, self@.at);
            self.bump();
            let value = match self.parse_lambda(expected, from, to, Ghost(tok), fuel) {
                Err(fault) => return Err(fault),
                Ok(value) => value,
            };
            self.newlines();
            return match self.expect_punct(')') {
                Err(fault) => Err(fault),
                Ok(_) => Ok(value),
            };
        }
        let first = match self.parse_expr(None, fuel) {
            Err(fault) => return Err(fault),
            Ok(first) => first,
        };
        if !self.eat_punct(',') {
            return match self.expect_punct(')') {
                Err(fault) => Err(fault),
                Ok(_) => Ok(first),
            };
        }
        let list = match self.parse_tuple(first, fuel) {
            Err(fault) => return Err(fault),
            Ok(list) => list,
        };
        match find_tuple_type(&list, expected) {
            Some(target) => {
                let vector = Expr::Vector(list);
                let made = Expr::Ascribe { target, value: Box::new(vector) };
                assert(made@ == Term::Ascribe(target@, Box::new(vector@)));
                Ok(made)
            },
            None => Err(self.fault("tuple element types require an annotation")),
        }
    }
}

} // verus!
