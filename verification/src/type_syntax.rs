//! The syntax of types and type declarations.

use crate::authored::{
    AuthoredConstructor, Declaration, DeclarationBody, ModuleForm, NamePath, TopForm, Type,
    TypeDeclaration, TypeDeclarationBody, TypeTerm, authored_constructors, path_text, top_forms,
    type_terms, typed_fields,
};
use crate::cursor::{
    Eaten, NESTING_LIMIT, Step, Syn, Syntax, Variant, VariantMetadata, ate_arrow, ate_close,
    ate_operator, ate_punct, ate_word, flaw_here, flawed, here, is_operator, is_punct, name_taken,
    newlines_skipped, ok, past_newlines, path_taken, step_texts, step_type, step_types, tag_at,
    too_nested, variant_views, want_arrow, want_operator, want_punct, want_word,
};
use crate::text::{cat2, cat3, contains_text, copy_texts, same_text, texts};
use crate::tokens::{Fault, Sort};
use vstd::prelude::*;
use vstd::string::*;

verus! {

// ---------------------------------------------------------------------------
// Types
// ---------------------------------------------------------------------------

/// A type.
pub open spec fn type_taken(syn: Syn, fuel: nat) -> Step<TypeTerm>
    decreases fuel, 3int, 0int,
{
    let left = plain_type(syn, fuel);
    match left.result {
        Err(flaw) => left,
        Ok(first) => {
            let arrow = ate_arrow(left.syn);
            if !arrow.yes {
                left
            } else if fuel == 0 {
                flawed(arrow.syn, too_nested(arrow.syn))
            } else {
                let right = type_taken(arrow.syn, (fuel - 1) as nat);
                match right.result {
                    Err(flaw) => right,
                    Ok(result) => ok(
                        right.syn,
                        TypeTerm::Function(parameters_of(first), Box::new(result)),
                    ),
                }
            }
        },
    }
}

/// The parameters of an arrow type: nothing for an empty tuple.
pub open spec fn parameters_of(left: TypeTerm) -> Seq<TypeTerm> {
    match left {
        TypeTerm::Product(items) => if items.len() == 0 {
            Seq::empty()
        } else {
            seq![left]
        },
        _ => seq![left],
    }
}

/// A type without an arrow; sums and products have no infix form.
pub open spec fn plain_type(syn: Syn, fuel: nat) -> Step<TypeTerm>
    decreases fuel, 2int, 0int,
{
    let atom = type_atom(syn, fuel);
    match atom.result {
        Err(flaw) => atom,
        Ok(_) => if is_operator(here(atom.syn), "|"@) || is_operator(here(atom.syn), "+"@) {
            flawed(
                atom.syn,
                flaw_here(
                    atom.syn,
                    "infix sum and product types are unsupported; use an ADT or tuple type"@,
                ),
            )
        } else {
            atom
        },
    }
}

pub open spec fn tuple_of(items: Seq<TypeTerm>) -> TypeTerm {
    if items.len() == 1 {
        items[0]
    } else {
        TypeTerm::Product(items)
    }
}

pub open spec fn applied_type(name: Seq<Seq<char>>, arguments: Seq<TypeTerm>) -> TypeTerm {
    if path_text(name) == "TypeTag"@ && arguments.len() == 1 {
        TypeTerm::Tag(Box::new(arguments[0]))
    } else {
        TypeTerm::Apply(name, arguments)
    }
}

pub open spec fn type_atom(start: Syn, fuel: nat) -> Step<TypeTerm>
    decreases fuel, 1int, 0int,
{
    let syn = newlines_skipped(start);
    if fuel == 0 {
        flawed(syn, too_nested(syn))
    } else {
        let inner = (fuel - 1) as nat;
        let function = ate_word(syn, "fn"@);
        let open = ate_punct(syn, '(');
        if function.yes {
            let open = want_punct(function.syn, '(');
            match open.result {
                Err(flaw) => flawed(open.syn, flaw),
                Ok(_) => {
                    let params = type_list(open.syn, Some(')'), inner);
                    match params.result {
                        Err(flaw) => flawed(params.syn, flaw),
                        Ok(params_list) => {
                            let arrow = want_arrow(params.syn);
                            match arrow.result {
                                Err(flaw) => flawed(arrow.syn, flaw),
                                Ok(_) => {
                                    let result = type_taken(arrow.syn, inner);
                                    match result.result {
                                        Err(flaw) => result,
                                        Ok(ty) => ok(
                                            result.syn,
                                            TypeTerm::Function(params_list, Box::new(ty)),
                                        ),
                                    }
                                },
                            }
                        },
                    }
                },
            }
        } else if open.yes {
            let items = type_list(open.syn, Some(')'), inner);
            match items.result {
                Err(flaw) => flawed(items.syn, flaw),
                Ok(list) => ok(items.syn, tuple_of(list)),
            }
        } else {
            let name = path_taken(syn);
            match name.result {
                Err(flaw) => flawed(name.syn, flaw),
                Ok(path) => {
                    let bracket = ate_operator(name.syn, "<"@);
                    if bracket.yes {
                        let arguments = type_list(bracket.syn, None, inner);
                        match arguments.result {
                            Err(flaw) => flawed(arguments.syn, flaw),
                            Ok(list) => ok(arguments.syn, applied_type(path, list)),
                        }
                    } else {
                        ok(name.syn, TypeTerm::Name(path))
                    }
                },
            }
        }
    }
}

/// The end of a list: a mark, or a closing bracket.
pub open spec fn ate_end(syn: Syn, end: Option<char>) -> Eaten {
    match end {
        Some(mark) => ate_punct(syn, mark),
        None => ate_close(syn),
    }
}

/// A list of types up to its end.
pub open spec fn type_list(start: Syn, end: Option<char>, fuel: nat) -> Step<Seq<TypeTerm>>
    decreases fuel, 5int, 0int,
{
    let syn = newlines_skipped(start);
    let close = ate_end(syn, end);
    if close.yes {
        ok(close.syn, Seq::empty())
    } else {
        type_list_from(syn, end, Seq::empty(), fuel, NESTING_LIMIT as nat)
    }
}

pub open spec fn type_list_from(
    syn: Syn,
    end: Option<char>,
    before: Seq<TypeTerm>,
    fuel: nat,
    left: nat,
) -> Step<Seq<TypeTerm>>
    decreases fuel, 4int, left,
{
    let item = type_taken(syn, fuel);
    match item.result {
        Err(flaw) => flawed(item.syn, flaw),
        Ok(ty) => {
            let close = ate_end(item.syn, end);
            if close.yes {
                ok(close.syn, before.push(ty))
            } else {
                let comma = want_punct(close.syn, ',');
                match comma.result {
                    Err(flaw) => flawed(comma.syn, flaw),
                    Ok(_) => if left == 0 {
                        flawed(comma.syn, too_nested(comma.syn))
                    } else {
                        type_list_from(
                            newlines_skipped(comma.syn),
                            end,
                            before.push(ty),
                            fuel,
                            (left - 1) as nat,
                        )
                    },
                }
            }
        },
    }
}

impl<'a> Syntax<'a> {
    pub fn parse_type(&mut self, fuel: u64) -> (result: Result<Type, Fault>)
        ensures
            step_type(final(self)@, result) == type_taken(old(self)@, fuel as nat),
        decreases fuel, 3int,
    {
        let left = match self.parse_sum_type(fuel) {
            Err(fault) => return Err(fault),
            Ok(left) => left,
        };
        if !self.eat_arrow() {
            return Ok(left);
        }
        if fuel == 0 {
            return Err(self.nested_fault());
        }
        match self.parse_type(fuel - 1) {
            Err(fault) => Err(fault),
            Ok(result) => {
                let ghost view = left@;
                let params = make_parameters(left);
                let made = Type::Function { params, result: Box::new(result) };
                assert(made@ == TypeTerm::Function(parameters_of(view), Box::new(result@)));
                Ok(made)
            },
        }
    }

    fn parse_sum_type(&mut self, fuel: u64) -> (result: Result<Type, Fault>)
        ensures
            step_type(final(self)@, result) == plain_type(old(self)@, fuel as nat),
        decreases fuel, 2int,
    {
        match self.parse_type_atom(fuel) {
            Err(fault) => Err(fault),
            Ok(ty) => {
                if self.at_operator("|") || self.at_operator("+") {
                    return Err(
                        self.fault(
                            "infix sum and product types are unsupported; use an ADT or tuple type",
                        ),
                    );
                }
                Ok(ty)
            },
        }
    }

    #[verifier::rlimit(40)]
    fn parse_type_atom(&mut self, fuel: u64) -> (result: Result<Type, Fault>)
        ensures
            step_type(final(self)@, result) == type_atom(old(self)@, fuel as nat),
        decreases fuel, 1int,
    {
        self.newlines();
        if fuel == 0 {
            return Err(self.nested_fault());
        }
        if self.eat_word("fn") {
            match self.expect_punct('(') {
                Err(fault) => return Err(fault),
                Ok(_) => {},
            }
            let params = match self.parse_type_list(Some(')'), fuel - 1) {
                Err(fault) => return Err(fault),
                Ok(params) => params,
            };
            match self.expect_arrow() {
                Err(fault) => return Err(fault),
                Ok(_) => {},
            }
            return match self.parse_type(fuel - 1) {
                Err(fault) => Err(fault),
                Ok(result) => {
                    let ghost view = result@;
                    let made = Type::Function { params, result: Box::new(result) };
                    assert(made@ == TypeTerm::Function(type_terms(params@), Box::new(view)));
                    Ok(made)
                },
            };
        }
        if self.eat_punct('(') {
            return match self.parse_type_list(Some(')'), fuel - 1) {
                Err(fault) => Err(fault),
                Ok(items) => Ok(make_tuple(items)),
            };
        }
        let name = match self.expect_name_path() {
            Err(fault) => return Err(fault),
            Ok(name) => name,
        };
        if self.eat_operator("<") {
            match self.parse_type_list(None, fuel - 1) {
                Err(fault) => Err(fault),
                Ok(arguments) => Ok(make_applied(name, arguments)),
            }
        } else {
            Ok(Type::Name(name))
        }
    }

    fn eat_end(&mut self, end: Option<char>) -> (yes: bool)
        ensures
            (Eaten { syn: final(self)@, yes }) == ate_end(old(self)@, end),
    {
        match end {
            Some(mark) => self.eat_punct(mark),
            None => self.eat_close(),
        }
    }

    pub fn parse_type_list(&mut self, end: Option<char>, fuel: u64) -> (result: Result<
        Vec<Type>,
        Fault,
    >)
        ensures
            step_types(final(self)@, result) == type_list(old(self)@, end, fuel as nat),
        decreases fuel, 5int,
    {
        self.newlines();
        let mut values: Vec<Type> = Vec::new();
        assert(type_terms(values@) =~= Seq::<TypeTerm>::empty());
        if self.eat_end(end) {
            return Ok(values);
        }
        let ghost whole = type_list_from(
            self@,
            end,
            Seq::empty(),
            fuel as nat,
            NESTING_LIMIT as nat,
        );
        assert(whole == type_list(old(self)@, end, fuel as nat));
        let mut left: u64 = NESTING_LIMIT;
        loop
            invariant
                whole == type_list(old(self)@, end, fuel as nat),
                whole == type_list_from(
                    self@,
                    end,
                    type_terms(values@),
                    fuel as nat,
                    left as nat,
                ),
            decreases left,
        {
            match self.parse_type(fuel) {
                Err(fault) => return Err(fault),
                Ok(ty) => {
                    let ghost before = type_terms(values@);
                    let ghost view = ty@;
                    values.push(ty);
                    assert(type_terms(values@) =~= before.push(view));
                },
            }
            if self.eat_end(end) {
                return Ok(values);
            }
            match self.expect_punct(',') {
                Err(fault) => return Err(fault),
                Ok(_) => {},
            }
            if left == 0 {
                return Err(self.nested_fault());
            }
            self.newlines();
            left = left - 1;
        }
    }
}

fn make_parameters(left: Type) -> (params: Vec<Type>)
    ensures
        type_terms(params@) == parameters_of(left@),
{
    let ghost view = left@;
    let mut params: Vec<Type> = Vec::new();
    let empty = match &left {
        Type::Product(items) => {
            assert(type_terms(items@).len() == items@.len());
            items.len() == 0
        },
        _ => false,
    };
    assert(type_terms(params@) =~= Seq::<TypeTerm>::empty());
    if !empty {
        params.push(left);
        assert(type_terms(params@) =~= seq![view]);
    }
    params
}

fn make_tuple(items: Vec<Type>) -> (ty: Type)
    ensures
        ty@ == tuple_of(type_terms(items@)),
{
    assert(type_terms(items@).len() == items@.len());
    if items.len() == 1 {
        assert(type_terms(items@)[0] == items@[0]@);
        items[0].copy()
    } else {
        Type::Product(items)
    }
}

fn make_applied(name: NamePath, arguments: Vec<Type>) -> (ty: Type)
    ensures
        ty@ == applied_type(name@, type_terms(arguments@)),
{
    let text = name.text();
    assert(type_terms(arguments@).len() == arguments@.len());
    if arguments.len() == 1 && same_text(text.as_str(), "TypeTag") {
        assert(type_terms(arguments@)[0] == arguments@[0]@);
        let inner = arguments[0].copy();
        let made = Type::Tag(Box::new(inner));
        assert(made@ == TypeTerm::Tag(Box::new(inner@)));
        made
    } else {
        Type::Apply { constructor: name, arguments }
    }
}

// ---------------------------------------------------------------------------
// Parameters and fields
// ---------------------------------------------------------------------------

/// The first name from index `i` on that occurred before it.
pub open spec fn first_repeat(names: Seq<Seq<char>>, i: int) -> Option<Seq<char>>
    decreases names.len() - i,
{
    if i < 0 || i >= names.len() {
        None
    } else if names.take(i).contains(names[i]) {
        Some(names[i])
    } else {
        first_repeat(names, i + 1)
    }
}

pub open spec fn generic_from(syn: Syn, before: Seq<Seq<char>>, left: nat) -> Step<Seq<Seq<char>>>
    decreases left,
{
    let name = name_taken(syn);
    match name.result {
        Err(flaw) => flawed(name.syn, flaw),
        Ok(text) => {
            let close = ate_close(name.syn);
            if close.yes {
                match first_repeat(before.push(text), 0) {
                    Some(repeat) => flawed(
                        close.syn,
                        flaw_here(close.syn, "duplicate generic parameter "@ + repeat),
                    ),
                    None => ok(close.syn, before.push(text)),
                }
            } else {
                let comma = want_punct(close.syn, ',');
                match comma.result {
                    Err(flaw) => flawed(comma.syn, flaw),
                    Ok(_) => if left == 0 {
                        flawed(comma.syn, too_nested(comma.syn))
                    } else {
                        generic_from(comma.syn, before.push(text), (left - 1) as nat)
                    },
                }
            }
        },
    }
}

/// Type parameters in angle brackets, if any are written.
pub open spec fn generic_names(syn: Syn) -> Step<Seq<Seq<char>>> {
    let open = ate_operator(syn, "<"@);
    if !open.yes {
        ok(syn, Seq::empty())
    } else {
        let close = ate_close(open.syn);
        if close.yes {
            ok(close.syn, Seq::empty())
        } else {
            generic_from(open.syn, Seq::empty(), NESTING_LIMIT as nat)
        }
    }
}

/// Fields with their types, up to a closing brace.
pub open spec fn type_fields_from(
    syn: Syn,
    before: Seq<(Seq<char>, TypeTerm)>,
    left: nat,
) -> Step<Seq<(Seq<char>, TypeTerm)>>
    decreases left,
{
    let close = ate_punct(syn, '}');
    if close.yes {
        ok(close.syn, before)
    } else {
        let name = name_taken(syn);
        match name.result {
            Err(flaw) => flawed(name.syn, flaw),
            Ok(text) => {
                let colon = want_punct(name.syn, ':');
                match colon.result {
                    Err(flaw) => flawed(colon.syn, flaw),
                    Ok(_) => {
                        let ty = type_taken(colon.syn, NESTING_LIMIT as nat);
                        match ty.result {
                            Err(flaw) => flawed(ty.syn, flaw),
                            Ok(term) => {
                                let after = before.push((text, term));
                                let close = ate_punct(ty.syn, '}');
                                let comma = ate_punct(ty.syn, ',');
                                if close.yes {
                                    ok(close.syn, after)
                                } else if !comma.yes && !(here(ty.syn) is Newline) {
                                    flawed(
                                        ty.syn,
                                        flaw_here(
                                            ty.syn,
                                            "expected ',' or newline between fields"@,
                                        ),
                                    )
                                } else if left == 0 {
                                    flawed(comma.syn, too_nested(comma.syn))
                                } else {
                                    type_fields_from(
                                        newlines_skipped(comma.syn),
                                        after,
                                        (left - 1) as nat,
                                    )
                                }
                            },
                        }
                    },
                }
            },
        }
    }
}

pub open spec fn type_fields(syn: Syn) -> Step<Seq<(Seq<char>, TypeTerm)>> {
    type_fields_from(newlines_skipped(syn), Seq::empty(), NESTING_LIMIT as nat)
}

pub open spec fn step_type_fields(syn: Syn, result: Result<Vec<(String, Type)>, Fault>) -> Step<
    Seq<(Seq<char>, TypeTerm)>,
> {
    Step {
        syn,
        result: match result {
            Ok(fields) => Ok(typed_fields(fields@)),
            Err(fault) => Err(fault@),
        },
    }
}

fn find_repeat(names: &Vec<String>) -> (repeat: Option<String>)
    ensures
        match (repeat, first_repeat(texts(names@), 0)) {
            (Some(name), Some(view)) => name@ == view,
            (None, None) => true,
            _ => false,
        },
{
    let ghost all = texts(names@);
    let mut seen: Vec<String> = Vec::new();
    assert(texts(seen@) =~= all.take(0));
    let mut i: usize = 0;
    while i < names.len()
        invariant
            i <= names@.len(),
            all == texts(names@),
            all.len() == names@.len(),
            texts(seen@) == all.take(i as int),
            first_repeat(all, 0) == first_repeat(all, i as int),
        decreases names@.len() - i,
    {
        assert(all[i as int] == names@[i as int]@);
        if contains_text(&seen, names[i].as_str()) {
            return Some(names[i].clone());
        }
        let ghost before = texts(seen@);
        seen.push(names[i].clone());
        assert(texts(seen@) =~= before.push(all[i as int]));
        assert(before.push(all[i as int]) =~= all.take(i + 1));
        i = i + 1;
    }
    None
}

impl<'a> Syntax<'a> {
    pub fn parse_generic_names(&mut self) -> (result: Result<Vec<String>, Fault>)
        ensures
            step_texts(final(self)@, result) == generic_names(old(self)@),
    {
        let mut names: Vec<String> = Vec::new();
        assert(texts(names@) =~= Seq::<Seq<char>>::empty());
        if !self.eat_operator("<") {
            return Ok(names);
        }
        if self.eat_close() {
            return Ok(names);
        }
        let ghost whole = generic_from(self@, Seq::empty(), NESTING_LIMIT as nat);
        let mut left: u64 = NESTING_LIMIT;
        loop
            invariant
                whole == generic_names(old(self)@),
                whole == generic_from(self@, texts(names@), left as nat),
            decreases left,
        {
            match self.expect_name() {
                Err(fault) => return Err(fault),
                Ok(name) => {
                    let ghost before = texts(names@);
                    let ghost view = name@;
                    names.push(name);
                    assert(texts(names@) =~= before.push(view));
                },
            }
            if self.eat_close() {
                return match find_repeat(&names) {
                    Some(name) => {
                        let message = cat2("duplicate generic parameter ", name.as_str());
                        Err(self.fault(message.as_str()))
                    },
                    None => Ok(names),
                };
            }
            match self.expect_punct(',') {
                Err(fault) => return Err(fault),
                Ok(_) => {},
            }
            if left == 0 {
                return Err(self.nested_fault());
            }
            left = left - 1;
        }
    }

    pub fn parse_type_fields(&mut self) -> (result: Result<Vec<(String, Type)>, Fault>)
        ensures
            step_type_fields(final(self)@, result) == type_fields(old(self)@),
    {
        self.newlines();
        let mut fields: Vec<(String, Type)> = Vec::new();
        assert(typed_fields(fields@) =~= Seq::<(Seq<char>, TypeTerm)>::empty());
        let ghost whole = type_fields_from(self@, Seq::empty(), NESTING_LIMIT as nat);
        let mut left: u64 = NESTING_LIMIT;
        loop
            invariant
                whole == type_fields(old(self)@),
                whole == type_fields_from(self@, typed_fields(fields@), left as nat),
            decreases left,
        {
            if self.eat_punct('}') {
                return Ok(fields);
            }
            let name = match self.expect_name() {
                Err(fault) => return Err(fault),
                Ok(name) => name,
            };
            match self.expect_punct(':') {
                Err(fault) => return Err(fault),
                Ok(_) => {},
            }
            match self.parse_type(NESTING_LIMIT) {
                Err(fault) => return Err(fault),
                Ok(ty) => {
                    let ghost before = typed_fields(fields@);
                    let ghost view = (name@, ty@);
                    fields.push((name, ty));
                    assert(typed_fields(fields@) =~= before.push(view));
                },
            }
            if self.eat_punct('}') {
                return Ok(fields);
            }
            if !self.eat_punct(',') && !self.at_newline() {
                return Err(self.fault("expected ',' or newline between fields"));
            }
            if left == 0 {
                return Err(self.nested_fault());
            }
            self.newlines();
            left = left - 1;
        }
    }
}

// ---------------------------------------------------------------------------
// Declarations
// ---------------------------------------------------------------------------

/// Whether a constructor with a payload is declared here.
pub open spec fn declares_variant(syn: Syn) -> bool {
    let first = past_newlines(syn, syn.at);
    let name = if is_operator(tag_at(syn, first), "|"@) {
        first + 1
    } else {
        first
    };
    tag_at(syn, name) is Ident && (is_punct(tag_at(syn, name + 1), '(') || is_punct(
        tag_at(syn, name + 1),
        '{',
    ))
}

/// Entries with one under a key, which replaces an earlier one.
pub open spec fn with_variant(
    list: Seq<(Seq<char>, Variant)>,
    key: Seq<char>,
    variant: Variant,
    i: int,
) -> Seq<(Seq<char>, Variant)>
    decreases list.len() - i,
{
    if i < 0 || i >= list.len() {
        list.push((key, variant))
    } else if list[i].0 == key {
        list.update(i, (key, variant))
    } else {
        with_variant(list, key, variant, i + 1)
    }
}

pub open spec fn noting_variant(syn: Syn, key: Seq<char>, variant: Variant) -> Syn {
    Syn { variants: with_variant(syn.variants, key, variant, 0), ..syn }
}

/// The payload type of a constructor with positions.
pub open spec fn positional_payload(items: Seq<TypeTerm>) -> TypeTerm {
    if items.len() == 0 {
        TypeTerm::Name(seq!["Unit"@])
    } else if items.len() == 1 {
        items[0]
    } else {
        TypeTerm::Product(items)
    }
}

pub open spec fn name_terms(names: Seq<Seq<char>>) -> Seq<TypeTerm> {
    Seq::new(names.len(), |i: int| TypeTerm::Name(seq![names[i]]))
}

/// The payload type of a constructor with fields: the record that is declared
/// for it.
pub open spec fn record_payload(helper: Seq<char>, params: Seq<Seq<char>>) -> TypeTerm {
    if params.len() == 0 {
        TypeTerm::Name(seq![helper])
    } else {
        TypeTerm::Apply(seq![helper], name_terms(params))
    }
}

pub open spec fn field_names(fields: Seq<(Seq<char>, TypeTerm)>) -> Seq<Seq<char>> {
    Seq::new(fields.len(), |i: int| fields[i].0)
}

/// A constructor: its name and payload, and the fields that it names.
pub ghost struct Constructed {
    pub name: Seq<char>,
    pub payload: TypeTerm,
    pub fields: Option<Seq<(Seq<char>, TypeTerm)>>,
}

pub open spec fn constructor_taken(
    start: Syn,
    owner: Seq<char>,
    params: Seq<Seq<char>>,
) -> Step<Constructed> {
    let name = name_taken(newlines_skipped(ate_operator(start, "|"@).syn));
    match name.result {
        Err(flaw) => flawed(name.syn, flaw),
        Ok(text) => {
            let open = ate_punct(name.syn, '(');
            let brace = ate_punct(name.syn, '{');
            if open.yes {
                let items = type_list(open.syn, Some(')'), NESTING_LIMIT as nat);
                match items.result {
                    Err(flaw) => flawed(items.syn, flaw),
                    Ok(list) => ok(
                        items.syn,
                        Constructed { name: text, payload: positional_payload(list), fields: None },
                    ),
                }
            } else if brace.yes {
                let fields = type_fields(brace.syn);
                match fields.result {
                    Err(flaw) => flawed(fields.syn, flaw),
                    Ok(list) => ok(
                        fields.syn,
                        Constructed {
                            name: text,
                            payload: record_payload(owner + "."@ + text, params),
                            fields: Some(list),
                        },
                    ),
                }
            } else {
                flawed(
                    name.syn,
                    flaw_here(name.syn, "constructor requires a positional or named payload"@),
                )
            }
        },
    }
}

pub open spec fn variant_of(owner: Seq<char>, params: Seq<Seq<char>>, made: Constructed) -> Variant {
    Variant {
        owner,
        owner_params: params,
        payload: made.payload,
        field_order: match made.fields {
            Some(fields) => field_names(fields),
            None => Seq::empty(),
        },
    }
}

pub open spec fn helper_forms(
    before: Seq<TopForm>,
    owner: Seq<char>,
    params: Seq<Seq<char>>,
    made: Constructed,
) -> Seq<TopForm> {
    match made.fields {
        Some(fields) => before.push(
            TopForm::Type(
                Declaration {
                    name: owner + "."@ + made.name,
                    params,
                    body: DeclarationBody::Fields(fields),
                },
            ),
        ),
        None => before,
    }
}

/// The constructors of a sum, with the records that are declared for them.
pub open spec fn sum_from(
    syn: Syn,
    owner: Seq<char>,
    params: Seq<Seq<char>>,
    helpers: Seq<TopForm>,
    before: Seq<(Seq<char>, TypeTerm)>,
    left: nat,
) -> Step<Seq<TopForm>>
    decreases left,
{
    let made = constructor_taken(syn, owner, params);
    match made.result {
        Err(flaw) => flawed(made.syn, flaw),
        Ok(constructed) => {
            let noted = noting_variant(
                made.syn,
                owner + "."@ + constructed.name,
                variant_of(owner, params, constructed),
            );
            let helpers = helper_forms(helpers, owner, params, constructed);
            let after = before.push((constructed.name, constructed.payload));
            let skipped = newlines_skipped(noted);
            if !is_operator(here(skipped), "|"@) {
                ok(
                    noted,
                    helpers.push(
                        TopForm::Type(
                            Declaration { name: owner, params, body: DeclarationBody::Adt(after) },
                        ),
                    ),
                )
            } else if left == 0 {
                flawed(skipped, too_nested(skipped))
            } else {
                sum_from(skipped, owner, params, helpers, after, (left - 1) as nat)
            }
        },
    }
}

pub open spec fn declared_form(
    syn: Syn,
    name: Seq<char>,
    params: Seq<Seq<char>>,
    body: DeclarationBody,
) -> Step<Seq<TopForm>> {
    ok(syn, seq![TopForm::Type(Declaration { name, params, body })])
}

/// A record declaration.
pub open spec fn record_declared(syn: Syn, name: Seq<char>, params: Seq<Seq<char>>) -> Step<
    Seq<TopForm>,
> {
    let fields = type_fields(syn);
    match fields.result {
        Err(flaw) => flawed(fields.syn, flaw),
        Ok(list) => declared_form(fields.syn, name, params, DeclarationBody::Fields(list)),
    }
}

/// What stands behind the equals sign of a declaration.
pub open spec fn definition_taken(
    syn: Syn,
    newtype: bool,
    name: Seq<char>,
    params: Seq<Seq<char>>,
) -> Step<Seq<TopForm>> {
    if newtype {
        if is_punct(here(syn), '{') || declares_variant(syn) {
            flawed(
                syn,
                flaw_here(syn, "newtype requires '= TypeExpr' and declares no constructors"@),
            )
        } else {
            let ty = type_taken(syn, NESTING_LIMIT as nat);
            match ty.result {
                Err(flaw) => flawed(ty.syn, flaw),
                Ok(term) => declared_form(ty.syn, name, params, DeclarationBody::Newtype(term)),
            }
        }
    } else if declares_variant(syn) {
        sum_from(syn, name, params, Seq::empty(), Seq::empty(), NESTING_LIMIT as nat)
    } else {
        let brace = ate_punct(syn, '{');
        if brace.yes {
            record_declared(brace.syn, name, params)
        } else {
            let ty = type_taken(syn, NESTING_LIMIT as nat);
            match ty.result {
                Err(flaw) => flawed(ty.syn, flaw),
                Ok(term) => declared_form(
                    ty.syn,
                    name,
                    params,
                    DeclarationBody::TransparentAlias(term),
                ),
            }
        }
    }
}

/// A type declaration, and the records that its constructors need.
pub open spec fn declaration_taken(start: Syn) -> Step<Seq<TopForm>> {
    let newtype = ate_word(start, "newtype"@);
    let word = if newtype.yes {
        ok(newtype.syn, ())
    } else {
        want_word(start, "type"@)
    };
    match word.result {
        Err(flaw) => flawed(word.syn, flaw),
        Ok(_) => {
            let name = name_taken(word.syn);
            match name.result {
                Err(flaw) => flawed(name.syn, flaw),
                Ok(text) => {
                    let params = generic_names(name.syn);
                    match params.result {
                        Err(flaw) => flawed(params.syn, flaw),
                        Ok(names) => if newtype.yes && is_punct(here(params.syn), '{') {
                            flawed(
                                params.syn,
                                flaw_here(params.syn, "newtype requires '= TypeExpr'"@),
                            )
                        } else {
                            let brace = ate_punct(params.syn, '{');
                            if brace.yes {
                                record_declared(brace.syn, text, names)
                            } else {
                                let equals = want_operator(params.syn, "="@);
                                match equals.result {
                                    Err(flaw) => flawed(equals.syn, flaw),
                                    Ok(_) => definition_taken(
                                        newlines_skipped(equals.syn),
                                        newtype.yes,
                                        text,
                                        names,
                                    ),
                                }
                            }
                        },
                    }
                },
            }
        },
    }
}

pub open spec fn step_forms(syn: Syn, result: Result<Vec<ModuleForm>, Fault>) -> Step<
    Seq<TopForm>,
> {
    Step {
        syn,
        result: match result {
            Ok(forms) => Ok(top_forms(forms@)),
            Err(fault) => Err(fault@),
        },
    }
}

fn make_names(names: &Vec<String>) -> (types: Vec<Type>)
    ensures
        type_terms(types@) == name_terms(texts(names@)),
{
    let mut types: Vec<Type> = Vec::new();
    let mut i: usize = 0;
    while i < names.len()
        invariant
            i <= names@.len(),
            types@.len() == i,
            forall|j: int|
                0 <= j < i ==> (#[trigger] types@[j])@ == TypeTerm::Name(seq![names@[j]@]),
        decreases names@.len() - i,
    {
        let ty = Type::Name(NamePath::single(names[i].as_str()));
        assert(ty@ == TypeTerm::Name(seq![names@[i as int]@]));
        types.push(ty);
        i = i + 1;
    }
    assert(type_terms(types@) =~= name_terms(texts(names@)));
    types
}

fn make_record_payload(helper: &str, params: &Vec<String>) -> (ty: Type)
    ensures
        ty@ == record_payload(helper@, texts(params@)),
{
    assert(texts(params@).len() == params@.len());
    if params.len() == 0 {
        Type::Name(NamePath::single(helper))
    } else {
        Type::Apply { constructor: NamePath::single(helper), arguments: make_names(params) }
    }
}

fn make_positional(items: Vec<Type>) -> (ty: Type)
    ensures
        ty@ == positional_payload(type_terms(items@)),
{
    assert(type_terms(items@).len() == items@.len());
    if items.len() == 0 {
        Type::Name(NamePath::single("Unit"))
    } else if items.len() == 1 {
        assert(type_terms(items@)[0] == items@[0]@);
        items[0].copy()
    } else {
        Type::Product(items)
    }
}

fn collect_field_names(fields: &Vec<(String, Type)>) -> (names: Vec<String>)
    ensures
        texts(names@) == field_names(typed_fields(fields@)),
{
    let mut names: Vec<String> = Vec::new();
    let mut i: usize = 0;
    while i < fields.len()
        invariant
            i <= fields@.len(),
            names@.len() == i,
            forall|j: int| 0 <= j < i ==> (#[trigger] names@[j])@ == fields@[j].0@,
        decreases fields@.len() - i,
    {
        let field = &fields[i];
        names.push(field.0.clone());
        i = i + 1;
    }
    assert(texts(names@) =~= field_names(typed_fields(fields@)));
    names
}

/// A constructor as it was read.
struct Made {
    name: String,
    payload: Type,
    fields: Option<Vec<(String, Type)>>,
}

impl Made {
    spec fn view(&self) -> Constructed {
        Constructed {
            name: self.name@,
            payload: self.payload@,
            fields: match self.fields {
                Some(fields) => Some(typed_fields(fields@)),
                None => None,
            },
        }
    }
}

spec fn step_made(syn: Syn, result: Result<Made, Fault>) -> Step<Constructed> {
    Step {
        syn,
        result: match result {
            Ok(made) => Ok(made@),
            Err(fault) => Err(fault@),
        },
    }
}

fn one_form(name: String, params: Vec<String>, body: TypeDeclarationBody) -> (forms: Vec<ModuleForm>)
    ensures
        top_forms(forms@) == seq![
            TopForm::Type(Declaration { name: name@, params: texts(params@), body: body@ }),
        ],
{
    let form = ModuleForm::Type(TypeDeclaration { name, params, body });
    let ghost view = form@;
    let mut forms: Vec<ModuleForm> = Vec::new();
    forms.push(form);
    assert(top_forms(forms@) =~= seq![view]);
    forms
}

impl<'a> Syntax<'a> {
    fn peek_variant_declaration(&self) -> (yes: bool)
        ensures
            yes == declares_variant(self@),
    {
        let length = self.pieces.len();
        let mut i: usize = self.at;
        while self.newline_at(i)
            invariant
                past_newlines(self@, self@.at) == past_newlines(self@, i as int),
            decreases self.pieces@.len() - i,
        {
            i = i + 1;
        }
        let bar = match self.sort_at(i) {
            Sort::Operator(name) => same_text(name.as_str(), "|"),
            _ => false,
        };
        if bar {
            i = i + 1;
        }
        let named = match self.sort_at(i) {
            Sort::Ident(_) => true,
            _ => false,
        };
        if !named {
            return false;
        }
        match self.sort_at(i + 1) {
            Sort::Punct(mark) => *mark == '(' || *mark == '{',
            _ => false,
        }
    }

    fn note_variant(&mut self, key: String, variant: VariantMetadata)
        ensures
            final(self)@ == noting_variant(old(self)@, key@, variant@),
    {
        let ghost before = self@;
        let ghost all = self@.variants;
        let ghost entry = (key@, variant@);
        let mut i: usize = 0;
        while i < self.variants.len()
            invariant
                i <= self.variants@.len(),
                self@ == before,
                before == old(self)@,
                all == variant_views(self.variants@),
                entry == (key@, variant@),
                with_variant(all, key@, variant@, 0) == with_variant(
                    all,
                    key@,
                    variant@,
                    i as int,
                ),
            decreases self.variants@.len() - i,
        {
            let found = &self.variants[i];
            assert(all[i as int] == (found.0@, found.1@));
            if same_text(found.0.as_str(), key.as_str()) {
                self.variants.set(i, (key, variant));
                assert(variant_views(self.variants@) =~= all.update(i as int, entry));
                return;
            }
            i = i + 1;
        }
        self.variants.push((key, variant));
        assert(variant_views(self.variants@) =~= all.push(entry));
    }

    fn parse_constructor(&mut self, owner: &str, params: &Vec<String>) -> (result: Result<
        Made,
        Fault,
    >)
        ensures
            step_made(final(self)@, result) == constructor_taken(
                old(self)@,
                owner@,
                texts(params@),
            ),
    {
        let _ = self.eat_operator("|");
        self.newlines();
        let name = match self.expect_name() {
            Err(fault) => return Err(fault),
            Ok(name) => name,
        };
        if self.eat_punct('(') {
            return match self.parse_type_list(Some(')'), NESTING_LIMIT) {
                Err(fault) => Err(fault),
                Ok(items) => Ok(Made { name, payload: make_positional(items), fields: None }),
            };
        }
        if self.eat_punct('{') {
            return match self.parse_type_fields() {
                Err(fault) => Err(fault),
                Ok(fields) => {
                    let helper = cat3(owner, ".", name.as_str());
                    let payload = make_record_payload(helper.as_str(), params);
                    Ok(Made { name, payload, fields: Some(fields) })
                },
            };
        }
        Err(self.fault("constructor requires a positional or named payload"))
    }

    #[verifier::rlimit(40)]
    fn parse_sum(&mut self, name: String, params: Vec<String>) -> (result: Result<
        Vec<ModuleForm>,
        Fault,
    >)
        ensures
            step_forms(final(self)@, result) == sum_from(
                old(self)@,
                name@,
                texts(params@),
                Seq::empty(),
                Seq::empty(),
                NESTING_LIMIT as nat,
            ),
    {
        let ghost whole = sum_from(
            self@,
            name@,
            texts(params@),
            Seq::empty(),
            Seq::empty(),
            NESTING_LIMIT as nat,
        );
        let mut helpers: Vec<ModuleForm> = Vec::new();
        let mut variants: Vec<AuthoredConstructor> = Vec::new();
        assert(top_forms(helpers@) =~= Seq::<TopForm>::empty());
        assert(authored_constructors(variants@) =~= Seq::<(Seq<char>, TypeTerm)>::empty());
        let mut left: u64 = NESTING_LIMIT;
        loop
            invariant
                whole == sum_from(
                    old(self)@,
                    name@,
                    texts(params@),
                    Seq::empty(),
                    Seq::empty(),
                    NESTING_LIMIT as nat,
                ),
                whole == sum_from(
                    self@,
                    name@,
                    texts(params@),
                    top_forms(helpers@),
                    authored_constructors(variants@),
                    left as nat,
                ),
            decreases left,
        {
            let made = match self.parse_constructor(name.as_str(), &params) {
                Err(fault) => return Err(fault),
                Ok(made) => made,
            };
            let ghost constructed = made@;
            let key = cat3(name.as_str(), ".", made.name.as_str());
            let field_order = match &made.fields {
                Some(fields) => collect_field_names(fields),
                None => {
                    let none: Vec<String> = Vec::new();
                    assert(texts(none@) =~= Seq::<Seq<char>>::empty());
                    none
                },
            };
            self.note_variant(
                key.clone(),
                VariantMetadata {
                    owner: name.clone(),
                    owner_params: copy_texts(&params),
                    payload: made.payload.copy(),
                    field_order,
                },
            );
            let ghost earlier = top_forms(helpers@);
            match made.fields {
                Some(fields) => {
                    let form = ModuleForm::Type(
                        TypeDeclaration {
                            name: key,
                            params: copy_texts(&params),
                            body: TypeDeclarationBody::Fields(fields),
                        },
                    );
                    let ghost view = form@;
                    helpers.push(form);
                    assert(top_forms(helpers@) =~= earlier.push(view));
                },
                None => {},
            }
            let ghost before = authored_constructors(variants@);
            variants.push(AuthoredConstructor { name: made.name, payload: made.payload });
            assert(authored_constructors(variants@) =~= before.push(
                (constructed.name, constructed.payload),
            ));
            let separator = self.at;
            self.newlines();
            if !self.at_operator("|") {
                self.at = separator;
                let form = ModuleForm::Type(
                    TypeDeclaration { name, params, body: TypeDeclarationBody::Adt(variants) },
                );
                let ghost view = form@;
                let ghost earlier = top_forms(helpers@);
                helpers.push(form);
                assert(top_forms(helpers@) =~= earlier.push(view));
                return Ok(helpers);
            }
            if left == 0 {
                return Err(self.nested_fault());
            }
            left = left - 1;
        }
    }

    fn parse_record(&mut self, name: String, params: Vec<String>) -> (result: Result<
        Vec<ModuleForm>,
        Fault,
    >)
        ensures
            step_forms(final(self)@, result) == record_declared(
                old(self)@,
                name@,
                texts(params@),
            ),
    {
        match self.parse_type_fields() {
            Err(fault) => Err(fault),
            Ok(fields) => Ok(one_form(name, params, TypeDeclarationBody::Fields(fields))),
        }
    }

    fn parse_definition(&mut self, newtype: bool, name: String, params: Vec<String>) -> (result:
        Result<Vec<ModuleForm>, Fault>)
        ensures
            step_forms(final(self)@, result) == definition_taken(
                old(self)@,
                newtype,
                name@,
                texts(params@),
            ),
    {
        if newtype {
            if self.at_punct('{') || self.peek_variant_declaration() {
                return Err(
                    self.fault("newtype requires '= TypeExpr' and declares no constructors"),
                );
            }
            return match self.parse_type(NESTING_LIMIT) {
                Err(fault) => Err(fault),
                Ok(ty) => Ok(one_form(name, params, TypeDeclarationBody::Newtype(ty))),
            };
        }
        if self.peek_variant_declaration() {
            return self.parse_sum(name, params);
        }
        if self.eat_punct('{') {
            return self.parse_record(name, params);
        }
        match self.parse_type(NESTING_LIMIT) {
            Err(fault) => Err(fault),
            Ok(ty) => Ok(one_form(name, params, TypeDeclarationBody::TransparentAlias(ty))),
        }
    }

    /// Reads a type declaration.
    pub fn parse_type_declaration(&mut self) -> (result: Result<Vec<ModuleForm>, Fault>)
        ensures
            step_forms(final(self)@, result) == declaration_taken(old(self)@),
    {
        let newtype = self.eat_word("newtype");
        if !newtype {
            match self.expect_word("type") {
                Err(fault) => return Err(fault),
                Ok(_) => {},
            }
        }
        let name = match self.expect_name() {
            Err(fault) => return Err(fault),
            Ok(name) => name,
        };
        let params = match self.parse_generic_names() {
            Err(fault) => return Err(fault),
            Ok(params) => params,
        };
        if newtype && self.at_punct('{') {
            return Err(self.fault("newtype requires '= TypeExpr'"));
        }
        if self.eat_punct('{') {
            return self.parse_record(name, params);
        }
        match self.expect_operator("=") {
            Err(fault) => return Err(fault),
            Ok(_) => {},
        }
        self.newlines();
        self.parse_definition(newtype, name, params)
    }
}

} // verus!
