//! The types by which actors in a graph are wired.

use crate::text::same_text;
use vstd::prelude::*;

verus! {

/// A port type: a name, a variable that fits everything, or a combination.
#[derive(Debug)]
pub enum MagType {
    Named(String),
    Var(String),
    Union(Vec<MagType>),
    Intersection(Vec<MagType>),
}

pub ghost enum Shape {
    Named(Seq<char>),
    Var(Seq<char>),
    Union(Seq<Shape>),
    Intersection(Seq<Shape>),
}

impl MagType {
    pub open spec fn view(&self) -> Shape
        decreases self,
    {
        match self {
            MagType::Named(name) => Shape::Named(name@),
            MagType::Var(name) => Shape::Var(name@),
            MagType::Union(types) => Shape::Union(shapes(types@)),
            MagType::Intersection(types) => Shape::Intersection(shapes(types@)),
        }
    }
}

/// The views of a sequence of port types.
pub open spec fn shapes(types: Seq<MagType>) -> Seq<Shape>
    decreases types,
{
    Seq::new(
        types.len(),
        |i: int|
            if 0 <= i < types.len() {
                types[i].view()
            } else {
                arbitrary()
            },
    )
}

/// The alternatives that a value of a type may take.
pub open spec fn variants(shape: Shape) -> Seq<Shape> {
    match shape {
        Shape::Union(types) => types,
        other => seq![other],
    }
}

/// Whether an input of type `target` takes everything of type `source`: each
/// alternative of the source, as each part of an intersection, as one of the
/// alternatives of a union, and by one part of a source intersection.
pub open spec fn accepts(target: Shape, source: Shape) -> bool
    decreases target, source, 0nat,
{
    match (target, source) {
        (Shape::Var(_), _) | (_, Shape::Var(_)) => true,
        (_, Shape::Union(sources)) => takes_all(target, sources, 0),
        (Shape::Intersection(targets), _) => all_take(targets, source, 0),
        (Shape::Union(targets), _) => any_takes(targets, source, 0),
        (_, Shape::Intersection(sources)) => takes_any(target, sources, 0),
        (Shape::Named(wanted), Shape::Named(given)) => wanted == given,
    }
}

/// The target accepts each source from index `i` on.
pub open spec fn takes_all(target: Shape, sources: Seq<Shape>, i: int) -> bool
    decreases target, sources, sources.len() - i,
{
    i < 0 || i >= sources.len() || (accepts(target, sources[i]) && takes_all(
        target,
        sources,
        i + 1,
    ))
}

/// The target accepts some source from index `i` on.
pub open spec fn takes_any(target: Shape, sources: Seq<Shape>, i: int) -> bool
    decreases target, sources, sources.len() - i,
{
    0 <= i < sources.len() && (accepts(target, sources[i]) || takes_any(target, sources, i + 1))
}

/// Each target from index `i` on accepts the source.
pub open spec fn all_take(targets: Seq<Shape>, source: Shape, i: int) -> bool
    decreases targets, source, targets.len() - i,
{
    i < 0 || i >= targets.len() || (accepts(targets[i], source) && all_take(
        targets,
        source,
        i + 1,
    ))
}

/// Some target from index `i` on accepts the source.
pub open spec fn any_takes(targets: Seq<Shape>, source: Shape, i: int) -> bool
    decreases targets, source, targets.len() - i,
{
    0 <= i < targets.len() && (accepts(targets[i], source) || any_takes(targets, source, i + 1))
}

/// The alternatives of several types, each once, in order of first appearance.
pub open spec fn pooled(types: Seq<Shape>) -> Seq<Shape>
    decreases types.len(),
{
    if types.len() == 0 {
        Seq::empty()
    } else {
        added(pooled(types.drop_last()), variants(types.last()))
    }
}

/// A list with the new ones among some further members behind it.
pub open spec fn added(known: Seq<Shape>, more: Seq<Shape>) -> Seq<Shape>
    decreases more.len(),
{
    if more.len() == 0 {
        known
    } else {
        let earlier = added(known, more.drop_last());
        if earlier.contains(more.last()) {
            earlier
        } else {
            earlier.push(more.last())
        }
    }
}

/// The union of several types; a single alternative stands for itself.
pub open spec fn united(types: Seq<Shape>) -> Shape {
    if pooled(types).len() == 1 {
        pooled(types)[0]
    } else {
        Shape::Union(pooled(types))
    }
}

impl MagType {
    pub fn named(name: &str) -> (ty: Self)
        ensures
            ty@ == Shape::Named(name@),
    {
        MagType::Named(name.to_owned())
    }

    pub fn var(name: &str) -> (ty: Self)
        ensures
            ty@ == Shape::Var(name@),
    {
        MagType::Var(name.to_owned())
    }

    pub fn copy(&self) -> (copy: Self)
        ensures
            copy@ == self@,
        decreases self,
    {
        match self {
            MagType::Named(name) => MagType::Named(name.clone()),
            MagType::Var(name) => MagType::Var(name.clone()),
            MagType::Union(types) => MagType::Union(copy_shapes(types)),
            MagType::Intersection(types) => MagType::Intersection(copy_shapes(types)),
        }
    }

    /// Whether two types are written alike.
    pub fn same(&self, other: &Self) -> (same: bool)
        ensures
            same == (self@ == other@),
        decreases self,
    {
        match (self, other) {
            (MagType::Named(left), MagType::Named(right)) => same_text(left.as_str(), right.as_str()),
            (MagType::Var(left), MagType::Var(right)) => same_text(left.as_str(), right.as_str()),
            (MagType::Union(left), MagType::Union(right)) => same_shapes(left, right),
            (MagType::Intersection(left), MagType::Intersection(right)) => same_shapes(left, right),
            _ => false,
        }
    }

    /// The alternatives of this type.
    pub fn variants(&self) -> (found: Vec<&MagType>)
        ensures
            found@.len() == variants(self@).len(),
            forall|i: int| 0 <= i < found@.len() ==> (#[trigger] found@[i])@ == variants(self@)[i],
    {
        let mut found: Vec<&MagType> = Vec::new();
        match self {
            MagType::Union(types) => {
                let mut i: usize = 0;
                while i < types.len()
                    invariant
                        i <= types@.len(),
                        found@.len() == i,
                        forall|j: int| 0 <= j < i ==> *(#[trigger] found@[j]) == types@[j],
                    decreases types@.len() - i,
                {
                    found.push(&types[i]);
                    i = i + 1;
                }
            },
            _ => {
                found.push(self);
            },
        }
        found
    }

    /// Whether an input of this type takes everything of another type.
    #[verifier::loop_isolation(false)]
    pub fn accepts(&self, source: &MagType) -> (taken: bool)
        ensures
            taken == accepts(self@, source@),
        decreases self, source,
    {
        match (self, source) {
            (MagType::Var(_), _) | (_, MagType::Var(_)) => true,
            (_, MagType::Union(sources)) => {
                let mut i: usize = 0;
                while i < sources.len()
                    invariant
                        i <= sources@.len(),
                        takes_all(self@, shapes(sources@), 0) == takes_all(
                            self@,
                            shapes(sources@),
                            i as int,
                        ),
                    decreases sources@.len() - i,
                {
                    if !self.accepts(&sources[i]) {
                        return false;
                    }
                    i = i + 1;
                }
                true
            },
            (MagType::Intersection(targets), _) => {
                let mut i: usize = 0;
                while i < targets.len()
                    invariant
                        i <= targets@.len(),
                        all_take(shapes(targets@), source@, 0) == all_take(
                            shapes(targets@),
                            source@,
                            i as int,
                        ),
                    decreases targets@.len() - i,
                {
                    if !targets[i].accepts(source) {
                        return false;
                    }
                    i = i + 1;
                }
                true
            },
            (MagType::Union(targets), _) => {
                let mut i: usize = 0;
                while i < targets.len()
                    invariant
                        i <= targets@.len(),
                        any_takes(shapes(targets@), source@, 0) == any_takes(
                            shapes(targets@),
                            source@,
                            i as int,
                        ),
                    decreases targets@.len() - i,
                {
                    if targets[i].accepts(source) {
                        return true;
                    }
                    i = i + 1;
                }
                false
            },
            (_, MagType::Intersection(sources)) => {
                let mut i: usize = 0;
                while i < sources.len()
                    invariant
                        i <= sources@.len(),
                        takes_any(self@, shapes(sources@), 0) == takes_any(
                            self@,
                            shapes(sources@),
                            i as int,
                        ),
                    decreases sources@.len() - i,
                {
                    if self.accepts(&sources[i]) {
                        return true;
                    }
                    i = i + 1;
                }
                false
            },
            (MagType::Named(wanted), MagType::Named(given)) => same_text(
                wanted.as_str(),
                given.as_str(),
            ),
        }
    }

    /// The union of several types.
    pub fn union(types: Vec<MagType>) -> (ty: Self)
        ensures
            ty@ == united(shapes(types@)),
    {
        let mut pool: Vec<MagType> = Vec::new();
        let ghost all = shapes(types@);
        let mut i: usize = 0;
        while i < types.len()
            invariant
                i <= types@.len(),
                all == shapes(types@),
                shapes(pool@) == pooled(all.take(i as int)),
            decreases types@.len() - i,
        {
            let more = types[i].variants();
            let ghost known = shapes(pool@);
            let ghost wanted = variants(all[i as int]);
            let mut j: usize = 0;
            while j < more.len()
                invariant
                    j <= more@.len(),
                    more@.len() == wanted.len(),
                    forall|k: int| 0 <= k < more@.len() ==> (#[trigger] more@[k])@ == wanted[k],
                    shapes(pool@) == added(known, wanted.take(j as int)),
                decreases more@.len() - j,
            {
                assert(wanted.take(j + 1).drop_last() =~= wanted.take(j as int));
                if !contains_shape(&pool, more[j]) {
                    let ghost before = shapes(pool@);
                    pool.push(more[j].copy());
                    assert(shapes(pool@) =~= before.push(more@[j as int]@));
                }
                j = j + 1;
            }
            proof {
                assert(wanted.take(wanted.len() as int) =~= wanted);
                assert(all.take(i + 1).drop_last() =~= all.take(i as int));
            }
            i = i + 1;
        }
        assert(all.take(all.len() as int) =~= all);
        if pool.len() == 1 {
            assert(shapes(pool@)[0] == pool@[0]@);
            pool[0].copy()
        } else {
            MagType::Union(pool)
        }
    }
}

fn contains_shape(pool: &Vec<MagType>, ty: &MagType) -> (found: bool)
    ensures
        found == shapes(pool@).contains(ty@),
{
    let mut i: usize = 0;
    while i < pool.len()
        invariant
            i <= pool@.len(),
            forall|j: int| 0 <= j < i ==> #[trigger] shapes(pool@)[j] != ty@,
        decreases pool@.len() - i,
    {
        if pool[i].same(ty) {
            assert(shapes(pool@)[i as int] == ty@);
            return true;
        }
        i = i + 1;
    }
    false
}

pub fn copy_shapes(types: &Vec<MagType>) -> (copy: Vec<MagType>)
    ensures
        shapes(copy@) == shapes(types@),
    decreases types,
{
    let mut copy: Vec<MagType> = Vec::new();
    let mut i: usize = 0;
    while i < types.len()
        invariant
            i <= types@.len(),
            copy@.len() == i,
            forall|j: int| 0 <= j < i ==> (#[trigger] copy@[j])@ == types@[j]@,
        decreases types@.len() - i,
    {
        copy.push(types[i].copy());
        i = i + 1;
    }
    assert(shapes(copy@) =~= shapes(types@));
    copy
}

fn same_shapes(left: &Vec<MagType>, right: &Vec<MagType>) -> (same: bool)
    ensures
        same == (shapes(left@) == shapes(right@)),
    decreases left,
{
    if left.len() != right.len() {
        assert(shapes(left@).len() != shapes(right@).len());
        return false;
    }
    let mut i: usize = 0;
    while i < left.len()
        invariant
            i <= left@.len() == right@.len(),
            forall|j: int| 0 <= j < i ==> #[trigger] shapes(left@)[j] == shapes(right@)[j],
        decreases left@.len() - i,
    {
        if !left[i].same(&right[i]) {
            assert(shapes(left@)[i as int] != shapes(right@)[i as int]);
            return false;
        }
        i = i + 1;
    }
    assert(shapes(left@) =~= shapes(right@));
    true
}

} // verus!
