//! What operators between operands stand for: a tree that has the operands and operators
//! in the order in which they were written, put together by their fixities.

use crate::authored::Term;
use crate::cursor::{Associativity, Fixity, Syn, fixity_in, is_punct, is_word};
use crate::fixity::{
    Infix, Pending, associated_from, binds_first, conflict, declaration_from, declared_at,
    fixities_from, fixity_name, infix_call, is_gap, named_from, operator_fixity, reassociated,
    reduced, settled, stop_of_line, tag_in, unwound,
};
use crate::tokens::{Flaw, Tag, Tok};
use vstd::prelude::*;

verus! {

pub type Named = (Seq<char>, Fixity);

/// Operands with operators between them, put together.
pub ghost enum Tree {
    Leaf(Term),
    Branch(Named, Box<Tree>, Box<Tree>),
}

/// The expression of a tree: each operator is called on what stands on its two sides.
pub open spec fn tree_term(tree: Tree) -> Term
    decreases tree,
{
    match tree {
        Tree::Leaf(term) => term,
        Tree::Branch(operator, left, right) => Term::Call(
            Box::new(Term::Name(seq![operator.0])),
            None,
            seq![tree_term(*left), tree_term(*right)],
        ),
    }
}

/// The operands of a tree, from left to right.
pub open spec fn tree_operands(tree: Tree) -> Seq<Term>
    decreases tree,
{
    match tree {
        Tree::Leaf(term) => seq![term],
        Tree::Branch(_, left, right) => tree_operands(*left) + tree_operands(*right),
    }
}

/// The operators of a tree, from left to right.
pub open spec fn tree_operators(tree: Tree) -> Seq<Named>
    decreases tree,
{
    match tree {
        Tree::Leaf(_) => Seq::empty(),
        Tree::Branch(operator, left, right) => tree_operators(*left) + seq![operator]
            + tree_operators(*right),
    }
}

/// A tree can stand on the left of an operator: its own operator has a higher precedence, or
/// both have the same one and associate to the left.
pub open spec fn stands_left(tree: Tree, operator: Named) -> bool {
    tree matches Tree::Branch(own, _, _) ==> own.1.precedence > operator.1.precedence || (
    own.1.precedence == operator.1.precedence && own.1.associativity is Left
        && operator.1.associativity is Left)
}

/// A tree can stand on the right of an operator: its own operator has a higher precedence, or
/// both have the same one and associate to the right.
pub open spec fn stands_right(tree: Tree, operator: Named) -> bool {
    tree matches Tree::Branch(own, _, _) ==> climbs(operator.1, own.1)
}

/// An operator behind another one can belong to what stands on its right.
pub open spec fn climbs(first: Fixity, second: Fixity) -> bool {
    second.precedence > first.precedence || (second.precedence == first.precedence
        && second.associativity is Right && first.associativity is Right)
}

/// Two operators that cannot stand side by side: they have the same precedence, but do not
/// associate to one side.
pub open spec fn at_odds(first: Fixity, second: Fixity) -> bool {
    first.precedence == second.precedence && !(first.associativity is Left
        && second.associativity is Left) && !(first.associativity is Right
        && second.associativity is Right)
}

/// Two of some operators cannot stand side by side.
pub open spec fn some_at_odds(operators: Seq<Named>) -> bool {
    exists|i: int, j: int|
        0 <= i < j < operators.len() && at_odds(
            (#[trigger] operators[i]).1,
            (#[trigger] operators[j]).1,
        )
}

/// Every operator of a tree stands where the fixities put it.
pub open spec fn well_placed(tree: Tree) -> bool
    decreases tree,
{
    match tree {
        Tree::Leaf(_) => true,
        Tree::Branch(operator, left, right) => {
            &&& well_placed(*left)
            &&& well_placed(*right)
            &&& stands_left(*left, operator)
            &&& stands_right(*right, operator)
        },
    }
}

/// The operators that were written, with their fixities.
pub open spec fn with_fixities(syn: Syn, operators: Seq<Infix>, n: int) -> Seq<Named>
    decreases n,
{
    if n <= 0 {
        Seq::empty()
    } else {
        with_fixities(syn, operators, n - 1).push(
            (operators[n - 1].0, operator_fixity(syn, operators[n - 1])),
        )
    }
}

/// A tree is what operands and operators stand for.
pub open spec fn spells(syn: Syn, tree: Tree, operands: Seq<Term>, operators: Seq<Infix>) -> bool {
    &&& tree_operands(tree) == operands
    &&& tree_operators(tree) == with_fixities(syn, operators, operators.len() as int)
    &&& well_placed(tree)
}

// ---------------------------------------------------------------------------
// Trees that wait for the rest
// ---------------------------------------------------------------------------

spec fn all_terms(trees: Seq<Tree>) -> Seq<Term> {
    Seq::new(trees.len(), |i: int| tree_term(trees[i]))
}

spec fn all_operands(trees: Seq<Tree>) -> Seq<Term>
    decreases trees.len(),
{
    if trees.len() == 0 {
        Seq::empty()
    } else {
        all_operands(trees.drop_last()) + tree_operands(trees.last())
    }
}

spec fn all_operators(trees: Seq<Tree>, stack: Seq<Named>) -> Seq<Named>
    decreases stack.len(),
{
    if stack.len() == 0 {
        tree_operators(trees.last())
    } else {
        all_operators(trees.drop_last(), stack.drop_last()) + seq![stack.last()] + tree_operators(
            trees.last(),
        )
    }
}

/// Trees with waiting operators between them.
spec fn waiting(trees: Seq<Tree>, pending: Pending) -> bool {
    let stack = pending.stack;
    &&& trees.len() == stack.len() + 1
    &&& pending.values == all_terms(trees)
    &&& forall|i: int| 0 <= i < trees.len() ==> well_placed(#[trigger] trees[i])
    &&& forall|i: int| 0 <= i < stack.len() ==> stands_left(#[trigger] trees[i], stack[i])
    &&& forall|i: int|
        0 < i < trees.len() ==> stands_right(#[trigger] trees[i], stack[i - 1])
    &&& forall|i: int|
        0 < i < stack.len() ==> climbs(stack[i - 1].1, (#[trigger] stack[i]).1)
}

proof fn lemma_reduced(trees: Seq<Tree>, pending: Pending) -> (result: Seq<Tree>)
    requires
        waiting(trees, pending),
        pending.stack.len() > 0,
    ensures
        waiting(
            result,
            Pending {
                values: reduced(pending.values, pending.stack.last().0),
                stack: pending.stack.drop_last(),
            },
        ),
        all_operands(result) == all_operands(trees),
        all_operators(result, pending.stack.drop_last()) == all_operators(trees, pending.stack),
        result.last() matches Tree::Branch(own, _, _) && own == pending.stack.last(),
{
    let stack = pending.stack;
    let m = stack.len() as int;
    let top = stack.last();
    let left = trees[m - 1];
    let right = trees[m];
    let joined = Tree::Branch(top, Box::new(left), Box::new(right));
    let rest = trees.take(m - 1);
    let result = rest.push(joined);
    let less = stack.drop_last();
    assert(stands_left(trees[m - 1], stack[m - 1]));
    assert(stands_right(trees[m], stack[m - 1]));
    assert(well_placed(trees[m - 1]) && well_placed(trees[m]));
    assert(well_placed(joined));
    let values = reduced(pending.values, top.0);
    assert(all_terms(result) =~= values) by {
        assert(pending.values.len() == m + 1);
        assert(values.len() == m);
        assert(tree_term(joined) == infix_call(top.0, tree_term(left), tree_term(right)));
    }
    assert forall|i: int| 0 <= i < result.len() implies well_placed(#[trigger] result[i]) by {
        if i < m - 1 {
            assert(well_placed(trees[i]));
        }
    }
    assert forall|i: int| 0 <= i < less.len() implies stands_left(#[trigger] result[i], less[i]) by {
        assert(stands_left(trees[i], stack[i]));
    }
    assert forall|i: int| 0 < i < result.len() implies stands_right(
        #[trigger] result[i],
        less[i - 1],
    ) by {
        if i < m - 1 {
            assert(stands_right(trees[i], stack[i - 1]));
        } else {
            assert(climbs(stack[i - 1].1, stack[i].1));
        }
    }
    assert forall|i: int| 0 < i < less.len() implies climbs(
        less[i - 1].1,
        (#[trigger] less[i]).1,
    ) by {
        assert(climbs(stack[i - 1].1, stack[i].1));
    }
    assert(trees.drop_last().drop_last() =~= rest);
    assert(result.drop_last() =~= rest);
    assert(trees.drop_last().last() == left);
    assert(trees.last() == right);
    assert(all_operands(trees.drop_last()) == all_operands(rest) + tree_operands(left));
    assert(all_operands(result) == all_operands(rest) + tree_operands(joined));
    assert(tree_operands(joined) == tree_operands(left) + tree_operands(right));
    assert(all_operands(trees) =~= all_operands(result));
    if less.len() == 0 {
        assert(all_operators(trees.drop_last(), less) == tree_operators(left));
    } else {
        assert(all_operators(trees.drop_last(), less) == all_operators(rest, less.drop_last())
            + seq![less.last()] + tree_operators(left));
    }
    assert(all_operators(result, less) =~= all_operators(trees, stack));
    result
}

proof fn lemma_settled(
    syn: Syn,
    trees: Seq<Tree>,
    pending: Pending,
    operator: Infix,
    fixity: Fixity,
) -> (result: Seq<Tree>)
    requires
        waiting(trees, pending),
        stands_left(trees.last(), (operator.0, fixity)),
    ensures
        match settled(syn, pending, operator, fixity) {
            Ok(after) => {
                &&& waiting(result, after)
                &&& all_operands(result) == all_operands(trees)
                &&& all_operators(result, after.stack) == all_operators(trees, pending.stack)
                &&& stands_left(result.last(), (operator.0, fixity))
                &&& after.stack.len() > 0 ==> climbs(after.stack.last().1, fixity)
                &&& after.stack == pending.stack.take(after.stack.len() as int)
                &&& after.stack.len() <= pending.stack.len()
            },
            Err(flaw) => flaw.code == "MAG2010"@ && exists|k: int|
                0 <= k < pending.stack.len() && at_odds((#[trigger] pending.stack[k]).1, fixity),
        },
    decreases pending.stack.len(),
{
    let stack = pending.stack;
    assert(stack.take(stack.len() as int) =~= stack);
    if stack.len() == 0 {
        trees
    } else {
        let top = stack.last();
        if conflict(top.1, fixity) {
            assert(at_odds(stack[stack.len() - 1].1, fixity));
            trees
        } else if !binds_first(top.1, fixity) {
            trees
        } else {
            let joined = lemma_reduced(trees, pending);
            assert(pending.values.len() == trees.len());
            let less = Pending {
                values: reduced(pending.values, top.0),
                stack: stack.drop_last(),
            };
            let result = lemma_settled(syn, joined, less, operator, fixity);
            match settled(syn, less, operator, fixity) {
                Ok(after) => {
                    assert(less.stack.take(after.stack.len() as int) =~= stack.take(
                        after.stack.len() as int,
                    ));
                },
                Err(_) => {
                    let k = choose|k: int|
                        0 <= k < less.stack.len() && at_odds((#[trigger] less.stack[k]).1, fixity);
                    assert(at_odds(stack[k].1, fixity));
                },
            }
            result
        }
    }
}

proof fn lemma_unwound(syn: Syn, trees: Seq<Tree>, pending: Pending) -> (tree: Tree)
    requires
        waiting(trees, pending),
    ensures
        unwound(syn, pending) == Ok::<Term, Flaw>(tree_term(tree)),
        tree_operands(tree) == all_operands(trees),
        tree_operators(tree) == all_operators(trees, pending.stack),
        well_placed(tree),
    decreases pending.stack.len(),
{
    assert(pending.values.len() == trees.len());
    if pending.stack.len() == 0 {
        assert(trees.drop_last() =~= Seq::empty());
        assert(all_operands(trees.drop_last()) =~= Seq::empty());
        assert(all_operands(trees) =~= tree_operands(trees[0]));
        assert(well_placed(trees[0]));
        trees[0]
    } else {
        let joined = lemma_reduced(trees, pending);
        lemma_unwound(
            syn,
            joined,
            Pending {
                values: reduced(pending.values, pending.stack.last().0),
                stack: pending.stack.drop_last(),
            },
        )
    }
}

proof fn lemma_associated(
    syn: Syn,
    operands: Seq<Term>,
    operators: Seq<Infix>,
    i: int,
    trees: Seq<Tree>,
    pending: Pending,
) -> (tree: Tree)
    requires
        operands.len() == operators.len() + 1,
        0 <= i <= operators.len(),
        waiting(trees, pending),
        trees.last() is Leaf,
        all_operands(trees) == operands.take(i + 1),
        all_operators(trees, pending.stack) == with_fixities(syn, operators, i),
        forall|k: int|
            0 <= k < pending.stack.len() ==> with_fixities(syn, operators, i).contains(
                #[trigger] pending.stack[k],
            ),
    ensures
        match associated_from(syn, operands, operators, i, pending) {
            Ok(term) => term == tree_term(tree) && spells(syn, tree, operands, operators),
            Err(flaw) => flaw.code == "MAG2010"@ && some_at_odds(
                with_fixities(syn, operators, operators.len() as int),
            ),
        },
    decreases operators.len() - i,
{
    if i >= operators.len() {
        let tree = lemma_unwound(syn, trees, pending);
        assert(operands.take(i + 1) =~= operands);
        tree
    } else {
        let fixity = operator_fixity(syn, operators[i]);
        let named = (operators[i].0, fixity);
        let after_trees = lemma_settled(syn, trees, pending, operators[i], fixity);
        match settled(syn, pending, operators[i], fixity) {
            Err(_) => {
                let earlier = with_fixities(syn, operators, i);
                let all = with_fixities(syn, operators, operators.len() as int);
                lemma_fixities_listed(syn, operators, i);
                lemma_fixities_listed(syn, operators, operators.len() as int);
                let k = choose|k: int|
                    0 <= k < pending.stack.len() && at_odds((#[trigger] pending.stack[k]).1, fixity);
                assert(earlier.contains(pending.stack[k]));
                let j = choose|j: int| 0 <= j < earlier.len() && earlier[j] == pending.stack[k];
                assert(all[j] == earlier[j]);
                assert(at_odds(all[j].1, all[i].1));
                trees[0]
            },
            Ok(after) => {
                let leaf = Tree::Leaf(operands[i + 1]);
                let more = after_trees.push(leaf);
                let next = Pending {
                    values: after.values.push(operands[i + 1]),
                    stack: after.stack.push(named),
                };
                assert(next.values =~= all_terms(more));
                let stack = next.stack;
                assert forall|k: int| 0 <= k < more.len() implies well_placed(
                    #[trigger] more[k],
                ) by {
                    if k < after_trees.len() {
                        assert(well_placed(after_trees[k]));
                    }
                }
                assert forall|k: int| 0 <= k < stack.len() implies stands_left(
                    #[trigger] more[k],
                    stack[k],
                ) by {
                    if k < after.stack.len() {
                        assert(stands_left(after_trees[k], after.stack[k]));
                    }
                }
                assert forall|k: int| 0 < k < more.len() implies stands_right(
                    #[trigger] more[k],
                    stack[k - 1],
                ) by {
                    if k < after_trees.len() {
                        assert(stands_right(after_trees[k], after.stack[k - 1]));
                    }
                }
                assert forall|k: int| 0 < k < stack.len() implies climbs(
                    stack[k - 1].1,
                    (#[trigger] stack[k]).1,
                ) by {
                    if k < after.stack.len() {
                        assert(climbs(after.stack[k - 1].1, after.stack[k].1));
                    }
                }
                let earlier = with_fixities(syn, operators, i);
                assert(with_fixities(syn, operators, i + 1) == earlier.push(named));
                assert forall|k: int| 0 <= k < stack.len() implies with_fixities(
                    syn,
                    operators,
                    i + 1,
                ).contains(#[trigger] stack[k]) by {
                    if k < after.stack.len() {
                        assert(stack[k] == pending.stack[k]);
                        assert(earlier.contains(pending.stack[k]));
                        let j = choose|j: int|
                            0 <= j < earlier.len() && earlier[j] == pending.stack[k];
                        assert(earlier.push(named)[j] == pending.stack[k]);
                    } else {
                        assert(earlier.push(named)[earlier.len() as int] == named);
                    }
                }
                assert(more.drop_last() =~= after_trees);
                assert(stack.drop_last() =~= after.stack);
                assert(all_operands(more) =~= operands.take(i + 2)) by {
                    assert(operands.take(i + 2) =~= operands.take(i + 1).push(operands[i + 1]));
                }
                assert(all_operators(more, stack) =~= with_fixities(syn, operators, i + 1));
                lemma_associated(syn, operands, operators, i + 1, more, next)
            },
        }
    }
}

/// The operators keep their order, each with its fixity.
proof fn lemma_fixities_listed(syn: Syn, operators: Seq<Infix>, n: int)
    requires
        0 <= n <= operators.len(),
    ensures
        with_fixities(syn, operators, n).len() == n,
        forall|i: int|
            0 <= i < n ==> #[trigger] with_fixities(syn, operators, n)[i] == (
                operators[i].0,
                operator_fixity(syn, operators[i]),
            ),
    decreases n,
{
    if n > 0 {
        lemma_fixities_listed(syn, operators, n - 1);
    }
}

/// Operands with operators between them stand for a tree in which each of them keeps its
/// place. No operator has one of a lower precedence next below it, and one of the same
/// precedence only on the side to which both associate. There is no such tree only where two
/// operators of one precedence do not associate to one side.
pub proof fn lemma_reassociated(syn: Syn, operands: Seq<Term>, operators: Seq<Infix>)
    requires
        operands.len() == operators.len() + 1,
    ensures
        match reassociated(syn, operands, operators) {
            Ok(term) => exists|tree: Tree|
                tree_term(tree) == term && #[trigger] spells(syn, tree, operands, operators),
            Err(flaw) => flaw.code == "MAG2010"@ && some_at_odds(
                with_fixities(syn, operators, operators.len() as int),
            ),
        },
{
    let trees = seq![Tree::Leaf(operands[0])];
    let pending = Pending { values: seq![operands[0]], stack: Seq::empty() };
    assert(all_terms(trees) =~= pending.values);
    assert(trees.drop_last() =~= Seq::empty());
    assert(all_operands(trees.drop_last()) =~= Seq::empty());
    assert(tree_operands(trees.last()) == seq![operands[0]]);
    assert(all_operands(trees) =~= operands.take(1));
    assert(all_operators(trees, pending.stack) =~= with_fixities(syn, operators, 0));
    let tree = lemma_associated(syn, operands, operators, 0, trees, pending);
}

// ---------------------------------------------------------------------------
// Declared fixities
// ---------------------------------------------------------------------------

/// Some line of a text declares a precedence and an associativity.
pub open spec fn declares(list: Seq<Tok>, precedence: int, associativity: Associativity) -> bool {
    exists|i: int| #[trigger] declares_at(list, i, precedence, associativity)
}

/// The tokens from an index on are the beginning of a declaration: a word for the side to
/// which operators associate, and a precedence.
pub open spec fn declares_at(
    list: Seq<Tok>,
    i: int,
    precedence: int,
    associativity: Associativity,
) -> bool {
    let word = match associativity {
        Associativity::Left => "infixl"@,
        Associativity::Right => "infixr"@,
        Associativity::Neither => "infix"@,
    };
    let side = match associativity {
        Associativity::Left => "left"@,
        Associativity::Right => "right"@,
        Associativity::Neither => "none"@,
    };
    &&& 0 <= i < list.len()
    &&& {
        ||| i + 1 < list.len() && is_word(list[i].tag, word) && list[i + 1].tag == Tag::Int(
            precedence,
        )
        ||| i + 2 < list.len() && is_word(list[i].tag, "fixity"@) && is_word(
            list[i + 1].tag,
            side,
        ) && list[i + 2].tag == Tag::Int(precedence)
    }
}

/// Fixities that are declared: no name has two of them, and each has a precedence from 0 to 9
/// and an associativity that some line declares.
pub open spec fn well_declared(list: Seq<Tok>, fixities: Seq<Named>) -> bool {
    &&& forall|i: int, j: int|
        0 <= i < j < fixities.len() ==> (#[trigger] fixities[i]).0 != (#[trigger] fixities[j]).0
    &&& forall|i: int|
        0 <= i < fixities.len() ==> (#[trigger] fixities[i]).1.precedence <= 9 && declares(
            list,
            fixities[i].1.precedence as int,
            fixities[i].1.associativity,
        )
}

proof fn lemma_fixity_absent(fixities: Seq<Named>, name: Seq<char>, n: int)
    requires
        0 <= n <= fixities.len(),
    ensures
        fixity_in(fixities, name, n) is None <==> forall|i: int|
            0 <= i < n ==> (#[trigger] fixities[i]).0 != name,
    decreases n,
{
    if n > 0 {
        lemma_fixity_absent(fixities, name, n - 1);
    }
}

proof fn lemma_names_declared(
    list: Seq<Tok>,
    start: Tok,
    i: int,
    precedence: u8,
    associativity: Associativity,
    before: Seq<Named>,
)
    requires
        well_declared(list, before),
        precedence <= 9,
        declares(list, precedence as int, associativity),
    ensures
        named_from(list, start, i, precedence, associativity, before) matches Ok((after, _))
            ==> well_declared(list, after),
    decreases list.len() - i,
{
    if let Some((name, place, next)) = fixity_name(list, i) {
        let tok = list[place];
        let fixity = Fixity {
            precedence,
            associativity,
            from: tok.from as usize,
            to: tok.to as usize,
        };
        lemma_fixity_absent(before, name, before.len() as int);
        if fixity_in(before, name, before.len() as int) is None {
            let after = before.push((name, fixity));
            assert forall|j: int, k: int| 0 <= j < k < after.len() implies (
            #[trigger] after[j]).0 != (#[trigger] after[k]).0 by {
                assert(after[j] == before[j]);
            }
            assert forall|k: int| 0 <= k < after.len() implies (
            #[trigger] after[k]).1.precedence <= 9 && declares(
                list,
                after[k].1.precedence as int,
                after[k].1.associativity,
            ) by {
                if k < before.len() {
                    assert(after[k] == before[k]);
                }
            }
            if is_punct(tag_in(list, next), ',') {
                lemma_names_declared(list, start, next + 1, precedence, associativity, after);
            }
        }
    }
}

/// The fixities that a text declares are well declared.
pub proof fn lemma_fixities_declared(list: Seq<Tok>, i: int, before: Seq<Named>)
    requires
        well_declared(list, before),
        0 <= i,
    ensures
        fixities_from(list, i, before) matches Ok(after) ==> well_declared(list, after),
    decreases list.len() - i,
{
    if i < list.len() {
        if is_gap(tag_in(list, i)) {
            lemma_fixities_declared(list, i + 1, before);
        } else if let Some((associativity, place)) = declared_at(list, i) {
            if let Tag::Int(precedence) = tag_in(list, place) {
                if 0 <= precedence <= 9 {
                    assert(declares_at(list, i, precedence as u8 as int, associativity));
                    lemma_names_declared(
                        list,
                        list[i],
                        place + 1,
                        precedence as u8,
                        associativity,
                        before,
                    );
                }
            }
            if let Ok((after, next)) = declaration_from(
                list,
                list[i],
                place,
                associativity,
                before,
            ) {
                if i < next <= list.len() {
                    lemma_fixities_declared(list, next, after);
                }
            }
        } else if is_word(tag_in(list, i), "fixity"@) {
            lemma_fixities_declared(list, i + 1, before);
        } else {
            let stop = stop_of_line(list, i);
            if stop > i && tag_in(list, stop) is Newline {
                lemma_fixities_declared(list, stop, before);
            }
        }
    }
}

/// An operator has the fixity that is declared for its name. One for which none is declared
/// has the highest precedence and associates to the left.
pub proof fn lemma_operator_fixity(syn: Syn, operator: Infix, n: int)
    ensures
        0 <= n < syn.fixities.len() && syn.fixities[n].0 == operator.0 && (forall|i: int|
            0 <= i < syn.fixities.len() && i != n ==> (#[trigger] syn.fixities[i]).0 != operator.0)
            ==> operator_fixity(syn, operator) == syn.fixities[n].1,
        (forall|i: int|
            0 <= i < syn.fixities.len() ==> (#[trigger] syn.fixities[i]).0 != operator.0)
            ==> operator_fixity(syn, operator).precedence == 9 && operator_fixity(
            syn,
            operator,
        ).associativity is Left,
{
    lemma_fixity_absent(syn.fixities, operator.0, syn.fixities.len() as int);
    lemma_fixity_only(syn.fixities, operator.0, syn.fixities.len() as int, n);
}

proof fn lemma_fixity_only(fixities: Seq<Named>, name: Seq<char>, m: int, n: int)
    requires
        0 <= m <= fixities.len(),
    ensures
        0 <= n < m && fixities[n].0 == name && (forall|i: int|
            0 <= i < fixities.len() && i != n ==> (#[trigger] fixities[i]).0 != name)
            ==> fixity_in(fixities, name, m) == Some(fixities[n].1),
    decreases m,
{
    if m > 0 {
        lemma_fixity_only(fixities, name, m - 1, n);
    }
}

} // verus!
