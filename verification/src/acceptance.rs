//! Laws of the types by which actors are wired.

use crate::contract::{
    Shape, accepts, added, all_take, any_takes, pooled, takes_all, takes_any, united, variants,
};
use vstd::prelude::*;

verus! {

// ---------------------------------------------------------------------------
// One by one
// ---------------------------------------------------------------------------

proof fn lemma_takes_all(target: Shape, sources: Seq<Shape>, i: int)
    requires
        0 <= i,
    ensures
        takes_all(target, sources, i) <==> forall|k: int|
            i <= k < sources.len() ==> accepts(target, #[trigger] sources[k]),
    decreases sources.len() - i,
{
    if i < sources.len() {
        lemma_takes_all(target, sources, i + 1);
    }
}

proof fn lemma_takes_any(target: Shape, sources: Seq<Shape>, i: int)
    requires
        0 <= i,
    ensures
        takes_any(target, sources, i) <==> exists|k: int|
            i <= k < sources.len() && accepts(target, #[trigger] sources[k]),
    decreases sources.len() - i,
{
    if i < sources.len() {
        lemma_takes_any(target, sources, i + 1);
    }
}

proof fn lemma_all_take(targets: Seq<Shape>, source: Shape, i: int)
    requires
        0 <= i,
    ensures
        all_take(targets, source, i) <==> forall|k: int|
            i <= k < targets.len() ==> accepts(#[trigger] targets[k], source),
    decreases targets.len() - i,
{
    if i < targets.len() {
        lemma_all_take(targets, source, i + 1);
    }
}

proof fn lemma_any_takes(targets: Seq<Shape>, source: Shape, i: int)
    requires
        0 <= i,
    ensures
        any_takes(targets, source, i) <==> exists|k: int|
            i <= k < targets.len() && accepts(#[trigger] targets[k], source),
    decreases targets.len() - i,
{
    if i < targets.len() {
        lemma_any_takes(targets, source, i + 1);
    }
}

// ---------------------------------------------------------------------------
// What takes what
// ---------------------------------------------------------------------------

/// A name takes itself and no other name. A variable takes everything, and everything takes
/// a variable.
pub proof fn lemma_names_and_variables(wanted: Seq<char>, given: Seq<char>, other: Shape)
    ensures
        accepts(Shape::Named(wanted), Shape::Named(given)) <==> wanted == given,
        accepts(Shape::Var(wanted), other),
        accepts(other, Shape::Var(given)),
{
}

/// A union is taken exactly where each of its alternatives is.
pub proof fn lemma_union_is_taken(target: Shape, sources: Seq<Shape>)
    ensures
        accepts(target, Shape::Union(sources)) <==> forall|k: int|
            0 <= k < sources.len() ==> accepts(target, #[trigger] sources[k]),
{
    lemma_takes_all(target, sources, 0);
}

/// A union takes what one of its alternatives takes.
pub proof fn lemma_union_takes(targets: Seq<Shape>, source: Shape, i: int)
    requires
        0 <= i < targets.len(),
        accepts(targets[i], source),
    ensures
        accepts(Shape::Union(targets), source),
    decreases source,
{
    lemma_any_takes(targets, source, 0);
    if let Shape::Union(sources) = source {
        lemma_union_is_taken(targets[i], sources);
        lemma_union_is_taken(Shape::Union(targets), sources);
        assert forall|k: int| 0 <= k < sources.len() implies accepts(
            Shape::Union(targets),
            #[trigger] sources[k],
        ) by {
            lemma_union_takes(targets, sources[k], i);
        }
    }
}

/// A union takes a name, or an intersection, exactly where one of its alternatives does.
pub proof fn lemma_union_takes_only(targets: Seq<Shape>, source: Shape)
    requires
        source is Named || source is Intersection,
    ensures
        accepts(Shape::Union(targets), source) <==> exists|i: int|
            0 <= i < targets.len() && accepts(#[trigger] targets[i], source),
{
    lemma_any_takes(targets, source, 0);
}

/// An intersection takes what all of its parts take.
pub proof fn lemma_intersection_takes(targets: Seq<Shape>, source: Shape)
    ensures
        accepts(Shape::Intersection(targets), source) <==> forall|i: int|
            0 <= i < targets.len() ==> accepts(#[trigger] targets[i], source),
    decreases source,
{
    lemma_all_take(targets, source, 0);
    if let Shape::Union(sources) = source {
        let target = Shape::Intersection(targets);
        lemma_union_is_taken(target, sources);
        assert forall|k: int| 0 <= k < sources.len() implies (accepts(
            target,
            #[trigger] sources[k],
        ) <==> forall|i: int| 0 <= i < targets.len() ==> accepts(#[trigger] targets[i], sources[k])) by {
            lemma_intersection_takes(targets, sources[k]);
        }
        assert forall|i: int| 0 <= i < targets.len() implies (accepts(
            #[trigger] targets[i],
            source,
        ) <==> forall|k: int|
            0 <= k < sources.len() ==> accepts(targets[i], #[trigger] sources[k])) by {
            lemma_union_is_taken(targets[i], sources);
        }
        if accepts(target, source) {
            assert forall|i: int| 0 <= i < targets.len() implies accepts(
                #[trigger] targets[i],
                source,
            ) by {
                assert forall|k: int| 0 <= k < sources.len() implies accepts(
                    targets[i],
                    #[trigger] sources[k],
                ) by {
                    assert(accepts(target, sources[k]));
                }
            }
        }
        if forall|i: int| 0 <= i < targets.len() ==> accepts(#[trigger] targets[i], source) {
            assert forall|k: int| 0 <= k < sources.len() implies accepts(
                target,
                #[trigger] sources[k],
            ) by {
                assert forall|i: int| 0 <= i < targets.len() implies accepts(
                    #[trigger] targets[i],
                    sources[k],
                ) by {
                    assert(accepts(targets[i], source));
                }
            }
        }
    }
}

/// A name takes an intersection exactly where it takes one of its parts.
pub proof fn lemma_intersection_is_taken(wanted: Seq<char>, sources: Seq<Shape>)
    ensures
        accepts(Shape::Named(wanted), Shape::Intersection(sources)) <==> exists|k: int|
            0 <= k < sources.len() && accepts(Shape::Named(wanted), #[trigger] sources[k]),
{
    lemma_takes_any(Shape::Named(wanted), sources, 0);
}

/// Names and variables, and intersections that consist of such.
pub open spec fn narrow(shape: Shape) -> bool
    decreases shape,
{
    match shape {
        Shape::Named(_) | Shape::Var(_) => true,
        Shape::Intersection(parts) => forall|i: int|
            0 <= i < parts.len() ==> narrow(#[trigger] parts[i]),
        _ => false,
    }
}

/// A type in which no union stands inside an intersection.
pub open spec fn plain(shape: Shape) -> bool
    decreases shape,
{
    match shape {
        Shape::Union(types) => forall|i: int|
            0 <= i < types.len() ==> plain(#[trigger] types[i]),
        other => narrow(other),
    }
}

proof fn lemma_part_is_taken(target: Shape, parts: Seq<Shape>, k: int)
    requires
        narrow(target),
        0 <= k < parts.len(),
        narrow(parts[k]),
        accepts(target, parts[k]),
    ensures
        accepts(target, Shape::Intersection(parts)),
    decreases target,
{
    match target {
        Shape::Named(wanted) => {
            lemma_intersection_is_taken(wanted, parts);
        },
        Shape::Intersection(targets) => {
            lemma_intersection_takes(targets, parts[k]);
            lemma_intersection_takes(targets, Shape::Intersection(parts));
            assert forall|i: int| 0 <= i < targets.len() implies accepts(
                #[trigger] targets[i],
                Shape::Intersection(parts),
            ) by {
                lemma_part_is_taken(targets[i], parts, k);
            }
        },
        _ => {},
    }
}

/// A plain type takes itself.
pub proof fn lemma_accepts_itself(shape: Shape)
    requires
        plain(shape),
    ensures
        accepts(shape, shape),
    decreases shape,
{
    match shape {
        Shape::Union(types) => {
            lemma_union_is_taken(shape, types);
            assert forall|k: int| 0 <= k < types.len() implies accepts(
                shape,
                #[trigger] types[k],
            ) by {
                lemma_accepts_itself(types[k]);
                lemma_union_takes(types, types[k], k);
            }
        },
        Shape::Intersection(parts) => {
            lemma_intersection_takes(parts, shape);
            assert forall|i: int| 0 <= i < parts.len() implies accepts(
                #[trigger] parts[i],
                shape,
            ) by {
                assert(narrow(parts[i]));
                assert(plain(parts[i]));
                lemma_accepts_itself(parts[i]);
                lemma_part_is_taken(parts[i], parts, i);
            }
        },
        _ => {},
    }
}

/// A union takes each of its plain alternatives.
pub proof fn lemma_union_takes_its_alternatives(types: Seq<Shape>, i: int)
    requires
        0 <= i < types.len(),
        plain(types[i]),
    ensures
        accepts(Shape::Union(types), types[i]),
{
    lemma_accepts_itself(types[i]);
    lemma_union_takes(types, types[i], i);
}

// ---------------------------------------------------------------------------
// Unions of several types
// ---------------------------------------------------------------------------

proof fn lemma_added(known: Seq<Shape>, more: Seq<Shape>)
    requires
        known.no_duplicates(),
    ensures
        added(known, more).no_duplicates(),
        forall|shape: Shape|
            #[trigger] added(known, more).contains(shape) <==> known.contains(shape)
                || more.contains(shape),
    decreases more.len(),
{
    if more.len() > 0 {
        let rest = more.drop_last();
        lemma_added(known, rest);
        let earlier = added(known, rest);
        let result = added(known, more);
        assert forall|shape: Shape| #[trigger]
            result.contains(shape) <==> known.contains(shape) || more.contains(shape) by {
            assert(more.contains(shape) <==> rest.contains(shape) || shape == more.last()) by {
                if rest.contains(shape) {
                    let i = choose|i: int| 0 <= i < rest.len() && rest[i] == shape;
                    assert(more[i] == shape);
                }
                if more.contains(shape) && shape != more.last() {
                    let i = choose|i: int| 0 <= i < more.len() && more[i] == shape;
                    assert(rest[i] == shape);
                }
                if shape == more.last() {
                    assert(more[more.len() - 1] == shape);
                }
            }
            if !earlier.contains(more.last()) {
                assert(result == earlier.push(more.last()));
                if earlier.contains(shape) {
                    let i = choose|i: int| 0 <= i < earlier.len() && earlier[i] == shape;
                    assert(result[i] == shape);
                }
                assert(result[result.len() - 1] == more.last());
            }
        }
    }
}

/// The alternatives of a type: those of a union, and any other type itself.
pub open spec fn is_alternative(shape: Shape, of: Shape) -> bool {
    match of {
        Shape::Union(types) => types.contains(shape),
        _ => shape == of,
    }
}

/// The pooled alternatives of several types are the alternatives of these types, each once.
pub proof fn lemma_pooled(types: Seq<Shape>)
    ensures
        pooled(types).no_duplicates(),
        forall|shape: Shape|
            #[trigger] pooled(types).contains(shape) <==> exists|i: int|
                0 <= i < types.len() && is_alternative(shape, #[trigger] types[i]),
    decreases types.len(),
{
    if types.len() > 0 {
        let rest = types.drop_last();
        let last = types.last();
        lemma_pooled(rest);
        lemma_added(pooled(rest), variants(last));
        assert forall|shape: Shape| #[trigger]
            pooled(types).contains(shape) <==> exists|i: int|
                0 <= i < types.len() && is_alternative(shape, #[trigger] types[i]) by {
            assert(variants(last).contains(shape) <==> is_alternative(shape, last)) by {
                if !(last is Union) {
                    assert(variants(last)[0] == last);
                }
            }
            if pooled(rest).contains(shape) {
                let i = choose|i: int|
                    0 <= i < rest.len() && is_alternative(shape, #[trigger] rest[i]);
                assert(is_alternative(shape, types[i]));
            }
            if is_alternative(shape, last) {
                assert(is_alternative(shape, types[types.len() - 1]));
            }
            if exists|i: int| 0 <= i < types.len() && is_alternative(shape, #[trigger] types[i]) {
                let i = choose|i: int|
                    0 <= i < types.len() && is_alternative(shape, #[trigger] types[i]);
                if i < rest.len() {
                    assert(is_alternative(shape, rest[i]));
                }
            }
        }
    }
}

/// Types with one alternative in all have it as their union.
pub proof fn lemma_united_single(types: Seq<Shape>, only: Shape, at: int)
    requires
        0 <= at < types.len(),
        is_alternative(only, types[at]),
        forall|i: int, shape: Shape|
            0 <= i < types.len() && #[trigger] is_alternative(shape, types[i]) ==> shape == only,
    ensures
        united(types) == only,
{
    lemma_pooled(types);
    let all = pooled(types);
    assert(all.contains(only));
    assert(all.len() == 1) by {
        if all.len() > 1 {
            assert(all.contains(all[0]) && all.contains(all[1]));
        }
    }
    assert(all.contains(all[0]));
}

/// The union of types with several alternatives has just these, each once.
pub proof fn lemma_united_several(types: Seq<Shape>, one: Shape, i: int, other: Shape, j: int)
    requires
        0 <= i < types.len(),
        0 <= j < types.len(),
        is_alternative(one, types[i]),
        is_alternative(other, types[j]),
        one != other,
    ensures
        united(types) matches Shape::Union(all) && all.no_duplicates() && forall|shape: Shape|
            #[trigger] all.contains(shape) <==> exists|k: int|
                0 <= k < types.len() && is_alternative(shape, #[trigger] types[k]),
{
    lemma_pooled(types);
    let all = pooled(types);
    assert(all.contains(one) && all.contains(other));
    if all.len() == 1 {
        assert(one == all[0] && other == all[0]);
    }
}

} // verus!
