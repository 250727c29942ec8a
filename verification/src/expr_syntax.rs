//! The syntax of expressions and blocks.

use crate::authored::{Argument, Arm, Item, Lambda, Term, TypeTerm};
use crate::cursor::{
    NESTING_LIMIT, Specialized, Step, Syn, aliased, ate_close, ate_operator, ate_punct,
    binding_taken, bumped, flaw_here, flawed, here, is_operator, is_punct, is_word, moved,
    name_taken, newlines_skipped, ok, parse_flaw, past_newlines, path_taken, resolved_name,
    segments_from, separated, tag_at, tok_at, too_nested, want_close, want_fat_arrow,
    want_operator, want_punct, want_word,
};
use crate::fixity::{Infix, block_lets, infix_taken, reassociated};
use crate::lowering::{
    Passed, all_positional, braced, lowered, obvious_type, obvious_types, passed_values,
};
use crate::text::decimal;
use crate::tokens::{Tag, Tok};
use crate::type_syntax::{generic_names, type_taken};
use vstd::prelude::*;
use vstd::string::*;

verus! {

// ---------------------------------------------------------------------------
// What stands where
// ---------------------------------------------------------------------------

/// An expression: operands with infix operators between them.
pub open spec fn expr_taken(syn: Syn, want: Option<TypeTerm>, fuel: nat) -> Step<Term>
    decreases fuel, 0int, 0int,
{
    if fuel == 0 {
        flawed(syn, too_nested(syn))
    } else {
        let inner = (fuel - 1) as nat;
        let first = ascription_taken(syn, want, inner);
        match first.result {
            Err(flaw) => first,
            Ok(value) => operands_from(
                first.syn,
                seq![value],
                Seq::empty(),
                inner,
                NESTING_LIMIT as nat,
            ),
        }
    }
}

pub open spec fn operands_from(
    syn: Syn,
    operands: Seq<Term>,
    operators: Seq<Infix>,
    fuel: nat,
    left: nat,
) -> Step<Term>
    decreases fuel, 9int, left,
{
    let infix = infix_taken(syn);
    match infix.result {
        Err(flaw) => flawed(infix.syn, flaw),
        Ok(None) => Step { syn: infix.syn, result: reassociated(infix.syn, operands, operators) },
        Ok(Some(operator)) => if left == 0 {
            flawed(infix.syn, too_nested(infix.syn))
        } else {
            let operand = ascription_taken(newlines_skipped(infix.syn), None, fuel);
            match operand.result {
                Err(flaw) => operand,
                Ok(value) => operands_from(
                    operand.syn,
                    operands.push(value),
                    operators.push(operator),
                    fuel,
                    (left - 1) as nat,
                ),
            }
        },
    }
}

/// An operand, with its type where one is written behind it.
pub open spec fn ascription_taken(syn: Syn, want: Option<TypeTerm>, fuel: nat) -> Step<Term>
    decreases fuel, 8int, 0int,
{
    let value = postfix_taken(syn, want, fuel);
    match value.result {
        Err(flaw) => value,
        Ok(term) => {
            let colon = ate_punct(value.syn, ':');
            if !colon.yes {
                value
            } else {
                let ty = type_taken(colon.syn, NESTING_LIMIT as nat);
                match ty.result {
                    Err(flaw) => flawed(ty.syn, flaw),
                    Ok(target) => ok(
                        ty.syn,
                        if term is Invalid {
                            term
                        } else {
                            Term::Ascribe(target, Box::new(term))
                        },
                    ),
                }
            }
        },
    }
}

/// The index behind the parenthesis that closes the one at the cursor.
pub open spec fn behind_parens(syn: Syn, i: int, depth: nat) -> Option<int>
    decreases syn.toks.len() - i,
{
    if i < 0 || i >= syn.toks.len() {
        None
    } else if is_punct(tag_at(syn, i), '(') {
        behind_parens(syn, i + 1, depth + 1)
    } else if is_punct(tag_at(syn, i), ')') {
        if depth == 0 {
            None
        } else if depth == 1 {
            Some(i + 1)
        } else {
            behind_parens(syn, i + 1, (depth - 1) as nat)
        }
    } else if tag_at(syn, i) is Eof {
        None
    } else {
        behind_parens(syn, i + 1, depth)
    }
}

/// The type that is written behind a function in parentheses.
pub open spec fn ascribed_ahead(syn: Syn) -> Option<TypeTerm> {
    if !is_punct(here(syn), '(') || !is_operator(tag_at(syn, syn.at + 1), "|"@) {
        None
    } else {
        match behind_parens(syn, syn.at, 0) {
            None => None,
            Some(i) => {
                let colon = past_newlines(syn, i);
                if is_punct(tag_at(syn, colon), ':') {
                    match type_taken(moved(syn, colon + 1), NESTING_LIMIT as nat).result {
                        Ok(ty) => Some(ty),
                        Err(_) => None,
                    }
                } else {
                    None
                }
            },
        }
    }
}

pub open spec fn postfix_taken(syn: Syn, want: Option<TypeTerm>, fuel: nat) -> Step<Term>
    decreases fuel, 7int, 0int,
{
    let expected = match want {
        Some(ty) => Some(ty),
        None => ascribed_ahead(syn),
    };
    let value = primary_taken(syn, expected, fuel);
    match value.result {
        Err(flaw) => value,
        Ok(term) => postfix_from(value.syn, term, want, fuel, NESTING_LIMIT as nat),
    }
}

/// Whether an expression goes on behind what has been read of it.
pub open spec fn goes_on(syn: Syn) -> bool {
    is_operator(here(syn), "<"@) || is_punct(here(syn), '(') || is_punct(here(syn), '.') || (
    syn.braces && is_punct(here(syn), '{'))
}

pub open spec fn postfix_from(
    syn: Syn,
    value: Term,
    want: Option<TypeTerm>,
    fuel: nat,
    left: nat,
) -> Step<Term>
    decreases fuel, 6int, left,
{
    if !goes_on(syn) {
        ok(syn, value)
    } else if left == 0 {
        flawed(syn, too_nested(syn))
    } else {
        let next = postfix_once(syn, value, want, fuel);
        match next.result {
            Err(flaw) => next,
            Ok(term) => postfix_from(next.syn, term, want, fuel, (left - 1) as nat),
        }
    }
}

/// Type arguments, arguments, a field, or fields in braces.
pub open spec fn postfix_once(syn: Syn, value: Term, want: Option<TypeTerm>, fuel: nat) -> Step<Term>
    decreases fuel, 5int, 0int,
{
    if is_operator(here(syn), "<"@) {
        generic_taken(bumped(syn), value, fuel)
    } else if is_punct(here(syn), '(') {
        let args = arguments_from(newlines_skipped(bumped(syn)), Seq::empty(), fuel, NESTING_LIMIT as nat);
        match args.result {
            Err(flaw) => flawed(args.syn, flaw),
            Ok(list) => Step { syn: args.syn, result: lowered(args.syn, value, list, want) },
        }
    } else if is_punct(here(syn), '.') {
        let field = name_taken(bumped(syn));
        match field.result {
            Err(flaw) => flawed(field.syn, flaw),
            Ok(name) => ok(field.syn, field_access(value, name)),
        }
    } else {
        match value {
            Term::Name(path) => {
                let fields = value_fields(bumped(syn), fuel);
                match fields.result {
                    Err(flaw) => flawed(fields.syn, flaw),
                    Ok(list) => Step {
                        syn: fields.syn,
                        result: braced(fields.syn, path, list, want),
                    },
                }
            },
            _ => flawed(
                syn,
                flaw_here(syn, "only a named type can construct braced fields"@),
            ),
        }
    }
}

pub open spec fn field_access(value: Term, name: Seq<char>) -> Term {
    Term::Call(Box::new(Term::Name(seq!["get"@])), None, seq![value, Term::Str(name)])
}

/// The types in type arguments without holes.
pub open spec fn explicit_types(arguments: Seq<Argument>, i: int) -> Option<Seq<TypeTerm>>
    decreases arguments.len() - i,
{
    if i < 0 || i >= arguments.len() {
        Some(Seq::empty())
    } else {
        match (arguments[i], explicit_types(arguments, i + 1)) {
            (Argument::Explicit(ty), Some(rest)) => Some(seq![ty] + rest),
            _ => None,
        }
    }
}

pub open spec fn special_marker(syn: Syn) -> Seq<char> {
    "#constructor"@ + decimal(syn.special.len())
}

/// What follows a name and an opening angle bracket.
pub open spec fn generic_taken(syn: Syn, value: Term, fuel: nat) -> Step<Term>
    decreases fuel, 4int, 0int,
{
    match value {
        Term::Name(owner) => {
            let arguments = call_type_arguments(syn);
            match arguments.result {
                Err(flaw) => flawed(arguments.syn, flaw),
                Ok(list) => {
                    let open = ate_punct(arguments.syn, '(');
                    if open.yes {
                        let args = arguments_from(
                            newlines_skipped(open.syn),
                            Seq::empty(),
                            fuel,
                            NESTING_LIMIT as nat,
                        );
                        match args.result {
                            Err(flaw) => flawed(args.syn, flaw),
                            Ok(given) => if all_positional(given) {
                                ok(
                                    args.syn,
                                    Term::Call(
                                        Box::new(value),
                                        Some(list),
                                        passed_values(given),
                                    ),
                                )
                            } else {
                                flawed(
                                    args.syn,
                                    flaw_here(
                                        args.syn,
                                        "named arguments are only valid for named constructor payloads"@,
                                    ),
                                )
                            },
                        }
                    } else {
                        match explicit_types(list, 0) {
                            None => flawed(
                                arguments.syn,
                                flaw_here(
                                    arguments.syn,
                                    "'_' inference holes are only valid in explicit function calls"@,
                                ),
                            ),
                            Some(types) => owner_taken(
                                arguments.syn,
                                TypeTerm::Apply(owner, types),
                                fuel,
                            ),
                        }
                    }
                },
            }
        },
        _ => flawed(syn, flaw_here(syn, "generic application requires a callable name"@)),
    }
}

/// What follows an owner with its type arguments: a constructor or fields.
pub open spec fn owner_taken(syn: Syn, owner: TypeTerm, fuel: nat) -> Step<Term>
    decreases fuel, 3int, 0int,
{
    let dot = ate_punct(syn, '.');
    if dot.yes {
        let name = name_taken(dot.syn);
        match name.result {
            Err(flaw) => flawed(name.syn, flaw),
            Ok(constructor) => {
                let marker = special_marker(name.syn);
                ok(
                    Syn {
                        special: name.syn.special.push(Specialized { marker, owner, constructor }),
                        ..name.syn
                    },
                    Term::Name(seq![marker]),
                )
            },
        }
    } else if syn.braces && is_punct(here(syn), '{') {
        let fields = value_fields(bumped(syn), fuel);
        match fields.result {
            Err(flaw) => flawed(fields.syn, flaw),
            Ok(list) => ok(fields.syn, Term::Ascribe(owner, Box::new(Term::Fields(list)))),
        }
    } else {
        flawed(
            syn,
            flaw_here(
                syn,
                "explicit type arguments must be followed by a call or constructor"@,
            ),
        )
    }
}

/// The type arguments of a call, up to a closing bracket.
pub open spec fn call_type_arguments(start: Syn) -> Step<Seq<Argument>> {
    let syn = newlines_skipped(start);
    let close = ate_close(syn);
    if close.yes {
        ok(close.syn, Seq::empty())
    } else {
        type_arguments_from(syn, Seq::empty(), NESTING_LIMIT as nat)
    }
}

pub open spec fn type_argument(syn: Syn) -> Step<Argument> {
    if is_word(here(syn), "_"@) {
        ok(bumped(syn), Argument::Infer)
    } else {
        let ty = type_taken(syn, NESTING_LIMIT as nat);
        match ty.result {
            Err(flaw) => flawed(ty.syn, flaw),
            Ok(term) => ok(ty.syn, Argument::Explicit(term)),
        }
    }
}

pub open spec fn type_arguments_from(syn: Syn, before: Seq<Argument>, left: nat) -> Step<
    Seq<Argument>,
>
    decreases left,
{
    let argument = type_argument(syn);
    match argument.result {
        Err(flaw) => flawed(argument.syn, flaw),
        Ok(item) => {
            let close = ate_close(argument.syn);
            if close.yes {
                ok(close.syn, before.push(item))
            } else {
                let comma = want_punct(close.syn, ',');
                match comma.result {
                    Err(flaw) => flawed(comma.syn, flaw),
                    Ok(_) => if left == 0 {
                        flawed(comma.syn, too_nested(comma.syn))
                    } else {
                        type_arguments_from(
                            newlines_skipped(comma.syn),
                            before.push(item),
                            (left - 1) as nat,
                        )
                    },
                }
            }
        },
    }
}

/// Arguments up to a closing parenthesis.
pub open spec fn arguments_from(syn: Syn, before: Seq<Passed>, fuel: nat, left: nat) -> Step<
    Seq<Passed>,
>
    decreases fuel, 2int, left,
{
    let close = ate_punct(syn, ')');
    if close.yes {
        ok(close.syn, before)
    } else {
        let labelled = here(syn) is Ident && is_punct(tag_at(syn, syn.at + 1), ':');
        let name = if labelled {
            match here(syn) {
                Tag::Ident(name) => Some(name),
                _ => None,
            }
        } else {
            None
        };
        let start = if labelled {
            bumped(bumped(syn))
        } else {
            syn
        };
        let value = expr_taken(start, None, fuel);
        match value.result {
            Err(flaw) => flawed(value.syn, flaw),
            Ok(term) => {
                let after = before.push(Passed { name, value: term });
                let close = ate_punct(value.syn, ')');
                if close.yes {
                    ok(close.syn, after)
                } else {
                    let comma = want_punct(value.syn, ',');
                    match comma.result {
                        Err(flaw) => flawed(comma.syn, flaw),
                        Ok(_) => if left == 0 {
                            flawed(comma.syn, too_nested(comma.syn))
                        } else {
                            arguments_from(
                                newlines_skipped(comma.syn),
                                after,
                                fuel,
                                (left - 1) as nat,
                            )
                        },
                    }
                }
            },
        }
    }
}

/// Fields with their values, up to a closing brace.
pub open spec fn value_fields(syn: Syn, fuel: nat) -> Step<Seq<(Seq<char>, Term)>>
    decreases fuel, 2int, 0int,
{
    value_fields_from(newlines_skipped(syn), Seq::empty(), fuel, NESTING_LIMIT as nat)
}

pub open spec fn value_fields_from(
    syn: Syn,
    before: Seq<(Seq<char>, Term)>,
    fuel: nat,
    left: nat,
) -> Step<Seq<(Seq<char>, Term)>>
    decreases fuel, 1int, left,
{
    let close = ate_punct(syn, '}');
    if close.yes {
        ok(close.syn, before)
    } else {
        let name = name_taken(syn);
        match name.result {
            Err(flaw) => flawed(name.syn, flaw),
            Ok(text) => {
                let colon = want_punct(name.syn, ':');
                match colon.result {
                    Err(flaw) => flawed(colon.syn, flaw),
                    Ok(_) => {
                        let value = expr_taken(colon.syn, None, fuel);
                        match value.result {
                            Err(flaw) => flawed(value.syn, flaw),
                            Ok(term) => {
                                let after = before.push((text, term));
                                let close = ate_punct(value.syn, '}');
                                let comma = ate_punct(value.syn, ',');
                                if close.yes {
                                    ok(close.syn, after)
                                } else if !comma.yes && !(here(value.syn) is Newline) {
                                    flawed(
                                        value.syn,
                                        flaw_here(
                                            value.syn,
                                            "expected ',' or newline between fields"@,
                                        ),
                                    )
                                } else if left == 0 {
                                    flawed(comma.syn, too_nested(comma.syn))
                                } else {
                                    value_fields_from(
                                        newlines_skipped(comma.syn),
                                        after,
                                        fuel,
                                        (left - 1) as nat,
                                    )
                                }
                            },
                        }
                    },
                }
            },
        }
    }
}

/// The smallest part of an expression.
pub open spec fn primary_taken(start: Syn, want: Option<TypeTerm>, fuel: nat) -> Step<Term>
    decreases fuel, 6int, 0int,
{
    let syn = newlines_skipped(start);
    let tok = tok_at(syn, syn.at);
    let after = bumped(syn);
    match tok.tag {
        Tag::Str(value) => ok(after, Term::Str(value)),
        Tag::Int(value) => ok(after, Term::Int(value)),
        Tag::Float(notation) => ok(after, Term::Float(notation)),
        Tag::Ident(word) => word_taken(after, word, want, fuel),
        Tag::Operator(name) => if name == "|"@ {
            lambda_taken(after, want, tok, fuel)
        } else {
            ok(after, Term::Name(seq![resolved_name(after, name)]))
        },
        Tag::Punct(mark) => if mark == '[' {
            list_from(newlines_skipped(after), Seq::empty(), fuel, NESTING_LIMIT as nat)
        } else if mark == '{' {
            block_taken(after, want, fuel)
        } else if mark == '(' {
            parens_taken(after, want, fuel)
        } else {
            flawed(after, parse_flaw("expected expression"@, tok))
        },
        _ => flawed(after, parse_flaw("expected expression"@, tok)),
    }
}

/// An expression that starts with a word.
pub open spec fn word_taken(syn: Syn, word: Seq<char>, want: Option<TypeTerm>, fuel: nat) -> Step<
    Term,
>
    decreases fuel, 4int, 0int,
{
    if word == "nil"@ {
        ok(syn, Term::Unit)
    } else if word == "true"@ {
        ok(syn, Term::Bool(true))
    } else if word == "false"@ {
        ok(syn, Term::Bool(false))
    } else if word == "if"@ {
        if_taken(syn, want, fuel)
    } else if word == "match"@ {
        match_taken(syn, want, fuel)
    } else if word == "type_tag"@ {
        type_tag_taken(syn)
    } else if word == "named"@ {
        named_taken(syn, fuel)
    } else {
        name_expression(syn, word)
    }
}

/// Whether a name that an import introduced goes on as a qualified name.
pub open spec fn alias_qualifies(syn: Syn, word: Seq<char>) -> bool {
    syn.namespaces.contains(word) || (aliased(syn, word) is Some && is_punct(here(syn), '.') && (
    tag_at(syn, syn.at + 1) is Ident || tag_at(syn, syn.at + 1) is Operator) && (is_punct(
        tag_at(syn, syn.at + 2),
        '(',
    ) || is_punct(tag_at(syn, syn.at + 2), '{') || is_operator(tag_at(syn, syn.at + 2), "<"@)))
}

/// A name; segments behind a dot belong to it unless the name is bound.
pub open spec fn name_expression(syn: Syn, word: Seq<char>) -> Step<Term> {
    let segments = if syn.bound.contains(word) {
        seq![word]
    } else {
        match aliased(syn, word) {
            Some(path) => path,
            None => seq![word],
        }
    };
    if !syn.bound.contains(word) && is_punct(here(syn), '.') && (aliased(syn, word) is None
        || alias_qualifies(syn, word)) {
        let path = segments_from(syn, segments, NESTING_LIMIT as nat);
        match path.result {
            Err(flaw) => flawed(path.syn, flaw),
            Ok(segments) => ok(path.syn, Term::Name(segments)),
        }
    } else {
        ok(syn, Term::Name(segments))
    }
}

/// The parameters of a function, up to a bar.
pub open spec fn params_from(syn: Syn, before: Seq<Seq<char>>, left: nat) -> Step<Seq<Seq<char>>>
    decreases left,
{
    let name = name_taken(syn);
    match name.result {
        Err(flaw) => flawed(name.syn, flaw),
        Ok(text) => {
            let bar = ate_operator(name.syn, "|"@);
            if bar.yes {
                ok(bar.syn, before.push(text))
            } else {
                let comma = want_punct(name.syn, ',');
                match comma.result {
                    Err(flaw) => flawed(comma.syn, flaw),
                    Ok(_) => if left == 0 {
                        flawed(comma.syn, too_nested(comma.syn))
                    } else {
                        params_from(comma.syn, before.push(text), (left - 1) as nat)
                    },
                }
            }
        },
    }
}

pub open spec fn lambda_params(syn: Syn) -> Step<Seq<Seq<char>>> {
    let bar = ate_operator(syn, "|"@);
    if bar.yes {
        ok(bar.syn, Seq::empty())
    } else {
        params_from(syn, Seq::empty(), NESTING_LIMIT as nat)
    }
}

pub open spec fn rebound(syn: Syn, bound: Set<Seq<char>>) -> Syn {
    Syn { bound, ..syn }
}

pub open spec fn zipped_params(names: Seq<Seq<char>>, types: Seq<TypeTerm>) -> Seq<
    (Seq<char>, TypeTerm),
> {
    Seq::new(names.len(), |i: int| (names[i], types[i]))
}

/// A function, whose types are those that are expected.
pub open spec fn lambda_taken(syn: Syn, want: Option<TypeTerm>, tok: Tok, fuel: nat) -> Step<Term>
    decreases fuel, 4int, 0int,
{
    match want {
        None => flawed(
            syn,
            parse_flaw(
                "lambda requires a complete expected function type from a let annotation or ascription"@,
                tok,
            ),
        ),
        Some(TypeTerm::Function(types, result)) => {
            let params = lambda_params(syn);
            match params.result {
                Err(flaw) => flawed(params.syn, flaw),
                Ok(names) => if names.len() != types.len() {
                    flawed(
                        params.syn,
                        parse_flaw(
                            "lambda has "@ + decimal(names.len())
                                + " parameters but its expected type has "@ + decimal(types.len()),
                            tok,
                        ),
                    )
                } else {
                    let arrow = want_fat_arrow(params.syn);
                    match arrow.result {
                        Err(flaw) => flawed(arrow.syn, flaw),
                        Ok(_) => {
                            let body = body_taken(
                                rebound(arrow.syn, arrow.syn.bound.union(names.to_set())),
                                *result,
                                fuel,
                            );
                            let outer = rebound(body.syn, arrow.syn.bound);
                            match body.result {
                                Err(flaw) => flawed(outer, flaw),
                                Ok(items) => ok(
                                    outer,
                                    Term::Function(
                                        Box::new(
                                            Lambda {
                                                type_params: Seq::empty(),
                                                params: zipped_params(names, types),
                                                result: *result,
                                                body: items,
                                            },
                                        ),
                                    ),
                                ),
                            }
                        },
                    }
                },
            }
        },
        Some(_) => flawed(syn, parse_flaw("lambda expected type must be a function type"@, tok)),
    }
}

/// The body of a function: a block or an expression.
pub open spec fn body_taken(syn: Syn, result: TypeTerm, fuel: nat) -> Step<Seq<Item>>
    decreases fuel, 3int, 0int,
{
    let brace = ate_punct(syn, '{');
    if brace.yes {
        let bound = brace.syn.bound.union(block_lets(brace.syn.toks, brace.syn.at, 0, Set::empty()));
        let list = items_from(
            newlines_skipped(rebound(brace.syn, bound)),
            Seq::empty(),
            fuel,
            NESTING_LIMIT as nat,
        );
        match list.result {
            Err(flaw) => list,
            Ok(items) => ok(
                rebound(list.syn, brace.syn.bound),
                if items.len() == 0 {
                    seq![Item::Expr(Term::Unit)]
                } else {
                    items
                },
            ),
        }
    } else {
        let value = expr_taken(syn, Some(result), fuel);
        match value.result {
            Err(flaw) => flawed(value.syn, flaw),
            Ok(term) => ok(value.syn, seq![Item::Expr(term)]),
        }
    }
}

/// The items of a block, up to a closing brace.
pub open spec fn items_from(syn: Syn, before: Seq<Item>, fuel: nat, left: nat) -> Step<Seq<Item>>
    decreases fuel, 2int, left,
{
    let close = ate_punct(syn, '}');
    if close.yes {
        ok(close.syn, before)
    } else {
        let item = item_taken(syn, fuel);
        match item.result {
            Err(flaw) => flawed(item.syn, flaw),
            Ok(value) => {
                let end = if is_punct(here(item.syn), '}') {
                    ok(item.syn, ())
                } else {
                    separated(item.syn)
                };
                match end.result {
                    Err(flaw) => flawed(end.syn, flaw),
                    Ok(_) => if left == 0 {
                        flawed(end.syn, too_nested(end.syn))
                    } else {
                        items_from(end.syn, before.push(value), fuel, (left - 1) as nat)
                    },
                }
            },
        }
    }
}

/// A binding or an expression.
pub open spec fn item_taken(syn: Syn, fuel: nat) -> Step<Item>
    decreases fuel, 1int, 1int,
{
    if is_word(here(syn), "let"@) {
        let_taken(syn, fuel)
    } else {
        let value = expr_taken(syn, None, fuel);
        match value.result {
            Err(flaw) => flawed(value.syn, flaw),
            Ok(term) => ok(value.syn, Item::Expr(term)),
        }
    }
}

/// The value of a binding with a type: a generic function keeps its own types.
pub open spec fn bound_value(value: Term, params: Seq<Seq<char>>, target: TypeTerm) -> Term {
    match value {
        Term::Function(function) => if params.len() == 0 {
            Term::Annotate(
                target,
                Box::new(
                    Term::Function(Box::new(Lambda { type_params: params, ..*function })),
                ),
            )
        } else {
            Term::Function(Box::new(Lambda { type_params: params, ..*function }))
        },
        _ => Term::Annotate(target, Box::new(value)),
    }
}

/// A binding.
pub open spec fn let_taken(syn: Syn, fuel: nat) -> Step<Item>
    decreases fuel, 1int, 0int,
{
    let word = want_word(syn, "let"@);
    match word.result {
        Err(flaw) => flawed(word.syn, flaw),
        Ok(_) => {
            let name = binding_taken(word.syn);
            match name.result {
                Err(flaw) => flawed(name.syn, flaw),
                Ok(text) => {
                    let params = generic_names(
                        rebound(name.syn, name.syn.bound.insert(text)),
                    );
                    match params.result {
                        Err(flaw) => flawed(params.syn, flaw),
                        Ok(names) => {
                            let colon = ate_punct(params.syn, ':');
                            let ty = if colon.yes {
                                let ty = type_taken(colon.syn, NESTING_LIMIT as nat);
                                match ty.result {
                                    Err(flaw) => flawed(ty.syn, flaw),
                                    Ok(term) => ok(ty.syn, Some(term)),
                                }
                            } else {
                                ok(params.syn, None)
                            };
                            match ty.result {
                                Err(flaw) => flawed(ty.syn, flaw),
                                Ok(target) => {
                                    let equals = want_operator(ty.syn, "="@);
                                    match equals.result {
                                        Err(flaw) => flawed(equals.syn, flaw),
                                        Ok(_) => {
                                            let value = expr_taken(equals.syn, target, fuel);
                                            match value.result {
                                                Err(flaw) => flawed(value.syn, flaw),
                                                Ok(term) => match target {
                                                    Some(ty) => ok(
                                                        value.syn,
                                                        Item::Let(
                                                            text,
                                                            bound_value(term, names, ty),
                                                        ),
                                                    ),
                                                    None => if names.len() > 0 {
                                                        flawed(
                                                            value.syn,
                                                            flaw_here(
                                                                value.syn,
                                                                "generic let parameters require a complete type annotation"@,
                                                            ),
                                                        )
                                                    } else {
                                                        ok(value.syn, Item::Let(text, term))
                                                    },
                                                },
                                            }
                                        },
                                    }
                                },
                            }
                        },
                    }
                },
            }
        },
    }
}

pub open spec fn if_taken(syn: Syn, want: Option<TypeTerm>, fuel: nat) -> Step<Term>
    decreases fuel, 1int, 0int,
{
    let condition = expr_taken(syn, None, fuel);
    match condition.result {
        Err(flaw) => condition,
        Ok(test) => {
            let word = want_word(condition.syn, "then"@);
            match word.result {
                Err(flaw) => flawed(word.syn, flaw),
                Ok(_) => {
                    let first = expr_taken(newlines_skipped(word.syn), want, fuel);
                    match first.result {
                        Err(flaw) => first,
                        Ok(then_term) => {
                            let word = want_word(first.syn, "else"@);
                            match word.result {
                                Err(flaw) => flawed(word.syn, flaw),
                                Ok(_) => {
                                    let second = expr_taken(
                                        newlines_skipped(word.syn),
                                        want,
                                        fuel,
                                    );
                                    match second.result {
                                        Err(flaw) => second,
                                        Ok(else_term) => ok(
                                            second.syn,
                                            Term::If(
                                                Box::new(test),
                                                Box::new(then_term),
                                                Box::new(else_term),
                                            ),
                                        ),
                                    }
                                },
                            }
                        },
                    }
                },
            }
        },
    }
}

/// The bindings at the start of a block.
pub open spec fn lets_from(syn: Syn, before: Seq<Item>, fuel: nat, left: nat) -> Step<Seq<Item>>
    decreases fuel, 2int, left,
{
    if !is_word(here(syn), "let"@) {
        ok(syn, before)
    } else {
        let item = let_taken(syn, fuel);
        match item.result {
            Err(flaw) => flawed(item.syn, flaw),
            Ok(value) => {
                let end = separated(item.syn);
                match end.result {
                    Err(flaw) => flawed(end.syn, flaw),
                    Ok(_) => if left == 0 {
                        flawed(end.syn, too_nested(end.syn))
                    } else {
                        lets_from(end.syn, before.push(value), fuel, (left - 1) as nat)
                    },
                }
            },
        }
    }
}

pub open spec fn block_call(result: TypeTerm, body: Seq<Item>) -> Term {
    Term::Call(
        Box::new(
            Term::Function(
                Box::new(
                    Lambda { type_params: Seq::empty(), params: Seq::empty(), result, body },
                ),
            ),
        ),
        None,
        Seq::empty(),
    )
}

/// A block: bindings and a value, as the call of a function without parameters.
pub open spec fn block_taken(syn: Syn, want: Option<TypeTerm>, fuel: nat) -> Step<Term>
    decreases fuel, 3int, 0int,
{
    let bound = syn.bound.union(block_lets(syn.toks, syn.at, 0, Set::empty()));
    let list = lets_from(
        newlines_skipped(rebound(syn, bound)),
        Seq::empty(),
        fuel,
        NESTING_LIMIT as nat,
    );
    match list.result {
        Err(flaw) => flawed(list.syn, flaw),
        Ok(lets) => if is_punct(here(list.syn), '}') {
            flawed(list.syn, flaw_here(list.syn, "empty block is invalid; write { () }"@))
        } else {
            let value = expr_taken(list.syn, want, fuel);
            match value.result {
                Err(flaw) => value,
                Ok(term) => {
                    let ty = match want {
                        Some(ty) => Some(ty),
                        None => obvious_type(term),
                    };
                    match ty {
                        None => flawed(
                            value.syn,
                            flaw_here(value.syn, "block result type requires an annotation"@),
                        ),
                        Some(result) => {
                            let close = want_punct(newlines_skipped(value.syn), '}');
                            match close.result {
                                Err(flaw) => flawed(close.syn, flaw),
                                Ok(_) => ok(
                                    rebound(close.syn, syn.bound),
                                    block_call(result, lets.push(Item::Expr(term))),
                                ),
                            }
                        },
                    }
                },
            }
        },
    }
}

/// One arm of a match.
pub open spec fn arm_taken(syn: Syn, want: Option<TypeTerm>, fuel: nat) -> Step<Arm>
    decreases fuel, 1int, 0int,
{
    let word = want_word(syn, "case"@);
    match word.result {
        Err(flaw) => flawed(word.syn, flaw),
        Ok(_) => {
            let pattern = path_taken(word.syn);
            match pattern.result {
                Err(flaw) => flawed(pattern.syn, flaw),
                Ok(path) => {
                    let open = want_punct(pattern.syn, '(');
                    match open.result {
                        Err(flaw) => flawed(open.syn, flaw),
                        Ok(_) => {
                            let name = name_taken(open.syn);
                            match name.result {
                                Err(flaw) => flawed(name.syn, flaw),
                                Ok(binding) => {
                                    let close = want_punct(name.syn, ')');
                                    match close.result {
                                        Err(flaw) => flawed(close.syn, flaw),
                                        Ok(_) => {
                                            let arrow = want_fat_arrow(close.syn);
                                            match arrow.result {
                                                Err(flaw) => flawed(arrow.syn, flaw),
                                                Ok(_) => {
                                                    let body = expr_taken(arrow.syn, want, fuel);
                                                    match body.result {
                                                        Err(flaw) => flawed(body.syn, flaw),
                                                        Ok(term) => ok(
                                                            body.syn,
                                                            Arm {
                                                                pattern: path,
                                                                binding,
                                                                body: term,
                                                            },
                                                        ),
                                                    }
                                                },
                                            }
                                        },
                                    }
                                },
                            }
                        },
                    }
                },
            }
        },
    }
}

/// The arms of a match, up to a closing brace.
pub open spec fn arms_from(
    syn: Syn,
    want: Option<TypeTerm>,
    before: Seq<Arm>,
    fuel: nat,
    left: nat,
) -> Step<Seq<Arm>>
    decreases fuel, 2int, left,
{
    let close = ate_punct(syn, '}');
    if close.yes {
        ok(close.syn, before)
    } else {
        let arm = arm_taken(syn, want, fuel);
        match arm.result {
            Err(flaw) => flawed(arm.syn, flaw),
            Ok(value) => {
                let comma = ate_punct(arm.syn, ',');
                let end = if comma.yes {
                    ok(newlines_skipped(comma.syn), ())
                } else if is_punct(here(arm.syn), '}') {
                    ok(arm.syn, ())
                } else {
                    separated(arm.syn)
                };
                match end.result {
                    Err(flaw) => flawed(end.syn, flaw),
                    Ok(_) => if left == 0 {
                        flawed(end.syn, too_nested(end.syn))
                    } else {
                        arms_from(end.syn, want, before.push(value), fuel, (left - 1) as nat)
                    },
                }
            },
        }
    }
}

/// A match. No braces construct fields in the value that it inspects.
pub open spec fn match_taken(syn: Syn, want: Option<TypeTerm>, fuel: nat) -> Step<Term>
    decreases fuel, 3int, 0int,
{
    let inner = expr_taken(Syn { braces: false, ..syn }, None, fuel);
    let value = Syn { braces: syn.braces, ..inner.syn };
    match inner.result {
        Err(flaw) => flawed(value, flaw),
        Ok(term) => {
            let open = want_punct(value, '{');
            match open.result {
                Err(flaw) => flawed(open.syn, flaw),
                Ok(_) => {
                    let arms = arms_from(
                        newlines_skipped(open.syn),
                        want,
                        Seq::empty(),
                        fuel,
                        NESTING_LIMIT as nat,
                    );
                    match arms.result {
                        Err(flaw) => flawed(arms.syn, flaw),
                        Ok(list) => if list.len() == 0 {
                            flawed(
                                arms.syn,
                                flaw_here(arms.syn, "match requires at least one arm"@),
                            )
                        } else {
                            ok(arms.syn, Term::Match(Box::new(term), list))
                        },
                    }
                },
            }
        },
    }
}

pub open spec fn type_tag_taken(syn: Syn) -> Step<Term> {
    let open = want_operator(syn, "<"@);
    match open.result {
        Err(flaw) => flawed(open.syn, flaw),
        Ok(_) => {
            let ty = type_taken(open.syn, NESTING_LIMIT as nat);
            match ty.result {
                Err(flaw) => flawed(ty.syn, flaw),
                Ok(term) => {
                    let close = want_close(ty.syn);
                    match close.result {
                        Err(flaw) => flawed(close.syn, flaw),
                        Ok(_) => {
                            let open = want_punct(close.syn, '(');
                            match open.result {
                                Err(flaw) => flawed(open.syn, flaw),
                                Ok(_) => {
                                    let close = want_punct(open.syn, ')');
                                    match close.result {
                                        Err(flaw) => flawed(close.syn, flaw),
                                        Ok(_) => ok(close.syn, Term::TypeTag(term)),
                                    }
                                },
                            }
                        },
                    }
                },
            }
        },
    }
}

/// A construction that names its owner, its constructor and its payload.
pub open spec fn named_taken(syn: Syn, fuel: nat) -> Step<Term>
    decreases fuel, 1int, 0int,
{
    let open = want_punct(syn, '(');
    match open.result {
        Err(flaw) => flawed(open.syn, flaw),
        Ok(_) => {
            let owner = type_taken(open.syn, NESTING_LIMIT as nat);
            match owner.result {
                Err(flaw) => flawed(owner.syn, flaw),
                Ok(ty) => {
                    let comma = want_punct(owner.syn, ',');
                    match comma.result {
                        Err(flaw) => flawed(comma.syn, flaw),
                        Ok(_) => {
                            let name = name_taken(comma.syn);
                            match name.result {
                                Err(flaw) => flawed(name.syn, flaw),
                                Ok(constructor) => {
                                    let comma = want_punct(name.syn, ',');
                                    match comma.result {
                                        Err(flaw) => flawed(comma.syn, flaw),
                                        Ok(_) => {
                                            let payload = expr_taken(comma.syn, None, fuel);
                                            match payload.result {
                                                Err(flaw) => payload,
                                                Ok(term) => {
                                                    let close = want_punct(payload.syn, ')');
                                                    match close.result {
                                                        Err(flaw) => flawed(close.syn, flaw),
                                                        Ok(_) => ok(
                                                            close.syn,
                                                            Term::Construct(
                                                                ty,
                                                                constructor,
                                                                Box::new(term),
                                                            ),
                                                        ),
                                                    }
                                                },
                                            }
                                        },
                                    }
                                },
                            }
                        },
                    }
                },
            }
        },
    }
}

/// The items of a list, up to a closing bracket.
pub open spec fn list_from(syn: Syn, before: Seq<Term>, fuel: nat, left: nat) -> Step<Term>
    decreases fuel, 1int, left,
{
    let close = ate_punct(syn, ']');
    if close.yes {
        ok(close.syn, Term::Vector(before))
    } else {
        let value = expr_taken(syn, None, fuel);
        match value.result {
            Err(flaw) => value,
            Ok(term) => {
                let close = ate_punct(value.syn, ']');
                if close.yes {
                    ok(close.syn, Term::Vector(before.push(term)))
                } else {
                    let comma = want_punct(value.syn, ',');
                    match comma.result {
                        Err(flaw) => flawed(comma.syn, flaw),
                        Ok(_) => if left == 0 {
                            flawed(comma.syn, too_nested(comma.syn))
                        } else {
                            list_from(
                                newlines_skipped(comma.syn),
                                before.push(term),
                                fuel,
                                (left - 1) as nat,
                            )
                        },
                    }
                }
            },
        }
    }
}

/// The operator that stands alone in parentheses.
pub open spec fn lone_operator(tag: Tag) -> Option<Seq<char>> {
    match tag {
        Tag::Operator(name) => Some(name),
        Tag::Arrow => Some("->"@),
        Tag::FatArrow => Some("=>"@),
        _ => None,
    }
}

/// The items of a tuple behind the first one.
pub open spec fn tuple_from(start: Syn, before: Seq<Term>, fuel: nat, left: nat) -> Step<Seq<Term>>
    decreases fuel, 1int, left,
{
    let syn = newlines_skipped(start);
    let close = ate_punct(syn, ')');
    if close.yes {
        ok(close.syn, before)
    } else {
        let value = expr_taken(syn, None, fuel);
        match value.result {
            Err(flaw) => flawed(value.syn, flaw),
            Ok(term) => {
                let close = ate_punct(value.syn, ')');
                if close.yes {
                    ok(close.syn, before.push(term))
                } else {
                    let comma = want_punct(value.syn, ',');
                    match comma.result {
                        Err(flaw) => flawed(comma.syn, flaw),
                        Ok(_) => if left == 0 {
                            flawed(comma.syn, too_nested(comma.syn))
                        } else {
                            tuple_from(comma.syn, before.push(term), fuel, (left - 1) as nat)
                        },
                    }
                }
            },
        }
    }
}

/// The type of a tuple: what is expected where that fits, else what the items
/// tell.
pub open spec fn tuple_type(items: Seq<Term>, want: Option<TypeTerm>) -> Option<TypeTerm> {
    let obvious = match obvious_types(items, 0) {
        Some(types) => Some(TypeTerm::Product(types)),
        None => None,
    };
    match want {
        Some(TypeTerm::Product(types)) => if types.len() == items.len() {
            Some(TypeTerm::Product(types))
        } else {
            obvious
        },
        _ => obvious,
    }
}

/// What stands in parentheses: nothing, an operator, a function, a value or a
/// tuple.
pub open spec fn parens_taken(start: Syn, want: Option<TypeTerm>, fuel: nat) -> Step<Term>
    decreases fuel, 5int, 0int,
{
    let syn = newlines_skipped(start);
    let close = ate_punct(syn, ')');
    if close.yes {
        ok(close.syn, Term::Unit)
    } else if is_punct(tag_at(syn, syn.at + 1), ')') && lone_operator(here(syn)) is Some {
        match lone_operator(here(syn)) {
            Some(name) => ok(bumped(bumped(syn)), Term::Name(seq![name])),
            None => ok(syn, Term::Unit),
        }
    } else if is_operator(here(syn), "|"@) {
        let value = lambda_taken(bumped(syn), want, tok_at(syn, syn.at), fuel);
        match value.result {
            Err(flaw) => value,
            Ok(term) => {
                let close = want_punct(newlines_skipped(value.syn), ')');
                match close.result {
                    Err(flaw) => flawed(close.syn, flaw),
                    Ok(_) => ok(close.syn, term),
                }
            },
        }
    } else {
        let first = expr_taken(syn, None, fuel);
        match first.result {
            Err(flaw) => first,
            Ok(term) => {
                let comma = ate_punct(first.syn, ',');
                if !comma.yes {
                    let close = want_punct(first.syn, ')');
                    match close.result {
                        Err(flaw) => flawed(close.syn, flaw),
                        Ok(_) => ok(close.syn, term),
                    }
                } else {
                    let items = tuple_from(comma.syn, seq![term], fuel, NESTING_LIMIT as nat);
                    match items.result {
                        Err(flaw) => flawed(items.syn, flaw),
                        Ok(list) => match tuple_type(list, want) {
                            Some(ty) => ok(
                                items.syn,
                                Term::Ascribe(ty, Box::new(Term::Vector(list))),
                            ),
                            None => flawed(
                                items.syn,
                                flaw_here(
                                    items.syn,
                                    "tuple element types require an annotation"@,
                                ),
                            ),
                        },
                    }
                }
            },
        }
    }
}

} // verus!
