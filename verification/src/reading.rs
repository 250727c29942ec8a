//! What expressions that are read consist of.

use crate::associativity::{Tree, lemma_reassociated, spells, tree_term};
use crate::authored::{Term, TypeTerm};
use crate::cursor::{
    NESTING_LIMIT, Syn, ate_punct, bumped, here, is_punct, newlines_skipped, tag_at, want_punct,
    want_word,
};
use crate::expr_syntax::{
    arguments_from, ascription_taken, expr_taken, if_taken, lambda_params, lambda_taken,
    list_from, operands_from,
};
use crate::fixity::{Infix, infix_taken};
use crate::lowering::{Passed, imported_built, plain_call};
use crate::tokens::{Tag, Tok};
use vstd::prelude::*;

verus! {

// ---------------------------------------------------------------------------
// Operators
// ---------------------------------------------------------------------------

/// An expression is put together of operands that begin with given ones, by the fixities of
/// the operators between them.
pub open spec fn put_together(
    syn: Syn,
    term: Term,
    operands: Seq<Term>,
    tree: Tree,
    all: Seq<Term>,
    operators: Seq<Infix>,
) -> bool {
    &&& all.len() == operators.len() + 1
    &&& all.len() >= operands.len()
    &&& all.take(operands.len() as int) == operands
    &&& tree_term(tree) == term
    &&& spells(syn, tree, all, operators)
}

proof fn lemma_operands_put_together(
    syn: Syn,
    operands: Seq<Term>,
    operators: Seq<Infix>,
    fuel: nat,
    left: nat,
)
    requires
        operands.len() == operators.len() + 1,
    ensures
        ({
            let step = operands_from(syn, operands, operators, fuel, left);
            step.result matches Ok(term) ==> exists|tree: Tree, all: Seq<Term>, more: Seq<Infix>|
                #[trigger] put_together(step.syn, term, operands, tree, all, more)
        }),
    decreases left,
{
    let infix = infix_taken(syn);
    let step = operands_from(syn, operands, operators, fuel, left);
    match infix.result {
        Ok(None) => {
            lemma_reassociated(infix.syn, operands, operators);
            if let Ok(term) = step.result {
                let tree = choose|tree: Tree|
                    tree_term(tree) == term && #[trigger] spells(
                        infix.syn,
                        tree,
                        operands,
                        operators,
                    );
                assert(operands.take(operands.len() as int) =~= operands);
                assert(put_together(step.syn, term, operands, tree, operands, operators));
            }
        },
        Ok(Some(operator)) => {
            if left > 0 {
                let operand = ascription_taken(newlines_skipped(infix.syn), None, fuel);
                if let Ok(value) = operand.result {
                    let next = operands.push(value);
                    lemma_operands_put_together(
                        operand.syn,
                        next,
                        operators.push(operator),
                        fuel,
                        (left - 1) as nat,
                    );
                    if let Ok(term) = step.result {
                        let (tree, all, more) = choose|
                            tree: Tree,
                            all: Seq<Term>,
                            more: Seq<Infix>,
                        | #[trigger]
                            put_together(step.syn, term, next, tree, all, more);
                        assert(all.take(operands.len() as int) =~= operands) by {
                            assert forall|i: int| 0 <= i < operands.len() implies all[i]
                                == operands[i] by {
                                assert(all.take(next.len() as int)[i] == next[i]);
                            }
                        }
                        assert(put_together(step.syn, term, operands, tree, all, more));
                    }
                }
            }
        },
        _ => {},
    }
}

/// An expression that is read begins with its first operand and is put together by the
/// fixities of its operators.
pub proof fn lemma_expression_put_together(syn: Syn, want: Option<TypeTerm>, fuel: nat)
    requires
        fuel > 0,
    ensures
        ({
            let first = ascription_taken(syn, want, (fuel - 1) as nat);
            let step = expr_taken(syn, want, fuel);
            step.result matches Ok(term) ==> first.result is Ok && exists|
                tree: Tree,
                all: Seq<Term>,
                operators: Seq<Infix>,
            | #[trigger]
                put_together(
                    step.syn,
                    term,
                    seq![first.result->Ok_0],
                    tree,
                    all,
                    operators,
                )
        }),
{
    let first = ascription_taken(syn, want, (fuel - 1) as nat);
    if let Ok(value) = first.result {
        lemma_operands_put_together(
            first.syn,
            seq![value],
            Seq::empty(),
            (fuel - 1) as nat,
            NESTING_LIMIT as nat,
        );
    }
}

// ---------------------------------------------------------------------------
// Parts in their places
// ---------------------------------------------------------------------------

/// What is read behind `if` has a condition, then behind `then` what holds where it is true,
/// and then behind `else` what holds where it is not.
pub proof fn lemma_conditional_read(syn: Syn, want: Option<TypeTerm>, fuel: nat)
    ensures
        if_taken(syn, want, fuel).result matches Ok(term) ==> {
            let condition = expr_taken(syn, None, fuel);
            let then_word = want_word(condition.syn, "then"@);
            let first = expr_taken(newlines_skipped(then_word.syn), want, fuel);
            let else_word = want_word(first.syn, "else"@);
            let second = expr_taken(newlines_skipped(else_word.syn), want, fuel);
            &&& condition.result is Ok && then_word.result is Ok && first.result is Ok
            &&& else_word.result is Ok && second.result is Ok
            &&& term == Term::If(
                Box::new(condition.result->Ok_0),
                Box::new(first.result->Ok_0),
                Box::new(second.result->Ok_0),
            )
        },
{
}

/// The items of a list follow those that were read before, in their order.
pub proof fn lemma_list_read(syn: Syn, before: Seq<Term>, fuel: nat, left: nat)
    ensures
        list_from(syn, before, fuel, left).result matches Ok(term) ==> (
        term matches Term::Vector(items) && items.len() >= before.len() && items.take(
            before.len() as int,
        ) == before),
    decreases left,
{
    assert(before.take(before.len() as int) =~= before);
    if !ate_punct(syn, ']').yes {
        let value = expr_taken(syn, None, fuel);
        if let Ok(term) = value.result {
            let more = before.push(term);
            assert(more.take(before.len() as int) =~= before);
            if !ate_punct(value.syn, ']').yes {
                let comma = want_punct(value.syn, ',');
                if comma.result is Ok && left > 0 {
                    let next = newlines_skipped(comma.syn);
                    lemma_list_read(next, more, fuel, (left - 1) as nat);
                    if let Ok(Term::Vector(items)) = list_from(
                        next,
                        more,
                        fuel,
                        (left - 1) as nat,
                    ).result {
                        assert(items.take(before.len() as int) =~= before) by {
                            assert forall|i: int| 0 <= i < before.len() implies items[i]
                                == before[i] by {
                                assert(items.take(more.len() as int)[i] == more[i]);
                            }
                        }
                    }
                }
            }
        }
    }
}

/// The arguments of a call follow those that were read before, in their order.
pub proof fn lemma_arguments_read(syn: Syn, before: Seq<Passed>, fuel: nat, left: nat)
    ensures
        arguments_from(syn, before, fuel, left).result matches Ok(all) ==> all.len() >= before.len()
            && all.take(before.len() as int) == before,
    decreases left,
{
    assert(before.take(before.len() as int) =~= before);
    if !ate_punct(syn, ')').yes {
        let labelled = here(syn) is Ident && is_punct(tag_at(syn, syn.at + 1), ':');
        let name = if labelled {
            match here(syn) {
                Tag::Ident(name) => Some(name),
                _ => None,
            }
        } else {
            None
        };
        let start = if labelled {
            bumped(bumped(syn))
        } else {
            syn
        };
        let value = expr_taken(start, None, fuel);
        if let Ok(term) = value.result {
            let more = before.push(Passed { name, value: term });
            assert(more.take(before.len() as int) =~= before);
            if !ate_punct(value.syn, ')').yes {
                let comma = want_punct(value.syn, ',');
                if comma.result is Ok && left > 0 {
                    let next = newlines_skipped(comma.syn);
                    lemma_arguments_read(next, more, fuel, (left - 1) as nat);
                    if let Ok(all) = arguments_from(next, more, fuel, (left - 1) as nat).result {
                        assert(all.take(before.len() as int) =~= before) by {
                            assert forall|i: int| 0 <= i < before.len() implies all[i]
                                == before[i] by {
                                assert(all.take(more.len() as int)[i] == more[i]);
                            }
                        }
                    }
                }
            }
        }
    }
}

/// A function that is read has the names that stand between its bars, in their order, each
/// with the type that is expected in its place.
pub proof fn lemma_function_read(syn: Syn, want: Option<TypeTerm>, tok: Tok, fuel: nat)
    ensures
        lambda_taken(syn, want, tok, fuel).result matches Ok(term) ==> (
        want matches Some(TypeTerm::Function(types, result)) && (
        term matches Term::Function(function) && {
            let names = lambda_params(syn).result;
            &&& names is Ok
            &&& names->Ok_0.len() == types.len()
            &&& function.params.len() == types.len()
            &&& function.result == *result
            &&& function.type_params.len() == 0
            &&& forall|i: int|
                0 <= i < types.len() ==> #[trigger] function.params[i] == (
                    names->Ok_0[i],
                    types[i],
                )
        })),
{
}

/// A call without labels passes its arguments in their order, and one with labels is refused.
pub proof fn lemma_plain_call(syn: Syn, callee: Term, args: Seq<Passed>)
    ensures
        (forall|i: int| 0 <= i < args.len() ==> (#[trigger] args[i]).name is None) ==> (plain_call(
            syn,
            callee,
            args,
        ) matches Ok(Term::Call(target, None, values)) && *target == callee && values.len()
            == args.len() && forall|i: int|
            0 <= i < args.len() ==> #[trigger] values[i] == args[i].value),
        (exists|i: int| 0 <= i < args.len() && (#[trigger] args[i]).name is Some) ==> plain_call(
            syn,
            callee,
            args,
        ) is Err,
{
}

/// A construction with labels fills the fields of these names with the values behind them, in
/// their order.
pub proof fn lemma_labelled_construction(
    syn: Syn,
    owner: TypeTerm,
    constructor: Seq<char>,
    args: Seq<Passed>,
)
    requires
        args.len() > 0,
        forall|i: int| 0 <= i < args.len() ==> (#[trigger] args[i]).name is Some,
    ensures
        imported_built(syn, owner, constructor, args) matches Ok(
            Term::Construct(made, name, payload),
        ) && made == owner && name == constructor && (*payload matches Term::Fields(fields)
            && fields.len() == args.len() && forall|i: int|
            0 <= i < args.len() ==> #[trigger] fields[i] == (
                args[i].name->Some_0,
                args[i].value,
            )),
{
    assert(args[0].name is Some);
}

} // verus!
