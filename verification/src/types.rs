//! The types of programs, and the declarations behind their names.

use crate::text::{
    cat3, cat4, cat5, contains_text, copy_texts, join_texts, joined, same_text, text_chars, texts,
};
use vstd::prelude::*;

verus! {

#[derive(Debug)]
pub enum MagType {
    Var(String),
    Named(String, Vec<MagType>),
    Unit,
    Bool,
    Int,
    Float,
    String,
    JsonValue,
    Never,
    EmptyList,
    List(Box<MagType>),
    SetOf(Box<MagType>),
    MapOf(Box<MagType>, Box<MagType>),
    Product(Vec<MagType>),
    Function(Vec<MagType>, Box<MagType>),
    Artifact,
    TypeDescriptor,
    TypeSchema,
    SemanticTypeId,
    PackedValue,
    HostInputs,
    TypeTag(Box<MagType>),
}

pub ghost enum Ty {
    Var(Seq<char>),
    Named(Seq<char>, Seq<Ty>),
    Unit,
    Bool,
    Int,
    Float,
    String,
    JsonValue,
    Never,
    EmptyList,
    List(Box<Ty>),
    SetOf(Box<Ty>),
    MapOf(Box<Ty>, Box<Ty>),
    Product(Seq<Ty>),
    Function(Seq<Ty>, Box<Ty>),
    Artifact,
    TypeDescriptor,
    TypeSchema,
    SemanticTypeId,
    PackedValue,
    HostInputs,
    TypeTag(Box<Ty>),
}

impl MagType {
    pub open spec fn view(&self) -> Ty
        decreases self,
    {
        match self {
            MagType::Var(name) => Ty::Var(name@),
            MagType::Named(name, arguments) => Ty::Named(name@, tys(arguments@)),
            MagType::Unit => Ty::Unit,
            MagType::Bool => Ty::Bool,
            MagType::Int => Ty::Int,
            MagType::Float => Ty::Float,
            MagType::String => Ty::String,
            MagType::JsonValue => Ty::JsonValue,
            MagType::Never => Ty::Never,
            MagType::EmptyList => Ty::EmptyList,
            MagType::List(item) => Ty::List(Box::new((*item).view())),
            MagType::SetOf(item) => Ty::SetOf(Box::new((*item).view())),
            MagType::MapOf(key, value) => Ty::MapOf(
                Box::new((*key).view()),
                Box::new((*value).view()),
            ),
            MagType::Product(items) => Ty::Product(tys(items@)),
            MagType::Function(params, result) => Ty::Function(
                tys(params@),
                Box::new((*result).view()),
            ),
            MagType::Artifact => Ty::Artifact,
            MagType::TypeDescriptor => Ty::TypeDescriptor,
            MagType::TypeSchema => Ty::TypeSchema,
            MagType::SemanticTypeId => Ty::SemanticTypeId,
            MagType::PackedValue => Ty::PackedValue,
            MagType::HostInputs => Ty::HostInputs,
            MagType::TypeTag(value) => Ty::TypeTag(Box::new((*value).view())),
        }
    }
}

/// The views of a sequence of types.
pub open spec fn tys(types: Seq<MagType>) -> Seq<Ty>
    decreases types,
{
    Seq::new(
        types.len(),
        |i: int|
            if 0 <= i < types.len() {
                types[i].view()
            } else {
                arbitrary()
            },
    )
}

impl MagType {
    pub fn copy(&self) -> (copy: Self)
        ensures
            copy@ == self@,
        decreases self,
    {
        match self {
            MagType::Var(name) => MagType::Var(name.clone()),
            MagType::Named(name, arguments) => MagType::Named(
                name.clone(),
                copy_types(arguments),
            ),
            MagType::Unit => MagType::Unit,
            MagType::Bool => MagType::Bool,
            MagType::Int => MagType::Int,
            MagType::Float => MagType::Float,
            MagType::String => MagType::String,
            MagType::JsonValue => MagType::JsonValue,
            MagType::Never => MagType::Never,
            MagType::EmptyList => MagType::EmptyList,
            MagType::List(item) => MagType::List(Box::new(item.copy())),
            MagType::SetOf(item) => MagType::SetOf(Box::new(item.copy())),
            MagType::MapOf(key, value) => MagType::MapOf(
                Box::new(key.copy()),
                Box::new(value.copy()),
            ),
            MagType::Product(items) => MagType::Product(copy_types(items)),
            MagType::Function(params, result) => MagType::Function(
                copy_types(params),
                Box::new(result.copy()),
            ),
            MagType::Artifact => MagType::Artifact,
            MagType::TypeDescriptor => MagType::TypeDescriptor,
            MagType::TypeSchema => MagType::TypeSchema,
            MagType::SemanticTypeId => MagType::SemanticTypeId,
            MagType::PackedValue => MagType::PackedValue,
            MagType::HostInputs => MagType::HostInputs,
            MagType::TypeTag(value) => MagType::TypeTag(Box::new(value.copy())),
        }
    }

    /// Whether two types are written alike.
    pub fn same(&self, other: &Self) -> (same: bool)
        ensures
            same == (self@ == other@),
        decreases self,
    {
        match (self, other) {
            (MagType::Var(left), MagType::Var(right)) => same_text(left.as_str(), right.as_str()),
            (MagType::Named(left, left_args), MagType::Named(right, right_args)) => same_text(
                left.as_str(),
                right.as_str(),
            ) && same_types(left_args, right_args),
            (MagType::Unit, MagType::Unit) => true,
            (MagType::Bool, MagType::Bool) => true,
            (MagType::Int, MagType::Int) => true,
            (MagType::Float, MagType::Float) => true,
            (MagType::String, MagType::String) => true,
            (MagType::JsonValue, MagType::JsonValue) => true,
            (MagType::Never, MagType::Never) => true,
            (MagType::EmptyList, MagType::EmptyList) => true,
            (MagType::List(left), MagType::List(right)) => left.same(right),
            (MagType::SetOf(left), MagType::SetOf(right)) => left.same(right),
            (MagType::MapOf(left_key, left), MagType::MapOf(right_key, right)) => left_key.same(
                right_key,
            ) && left.same(right),
            (MagType::Product(left), MagType::Product(right)) => same_types(left, right),
            (MagType::Function(left, left_result), MagType::Function(right, right_result)) => {
                same_types(left, right) && left_result.same(right_result)
            },
            (MagType::Artifact, MagType::Artifact) => true,
            (MagType::TypeDescriptor, MagType::TypeDescriptor) => true,
            (MagType::TypeSchema, MagType::TypeSchema) => true,
            (MagType::SemanticTypeId, MagType::SemanticTypeId) => true,
            (MagType::PackedValue, MagType::PackedValue) => true,
            (MagType::HostInputs, MagType::HostInputs) => true,
            (MagType::TypeTag(left), MagType::TypeTag(right)) => left.same(right),
            _ => false,
        }
    }
}

pub fn copy_types(types: &Vec<MagType>) -> (copy: Vec<MagType>)
    ensures
        tys(copy@) == tys(types@),
    decreases types,
{
    let mut copy: Vec<MagType> = Vec::new();
    let mut i: usize = 0;
    while i < types.len()
        invariant
            i <= types@.len(),
            copy@.len() == i,
            forall|j: int| 0 <= j < i ==> (#[trigger] copy@[j])@ == types@[j]@,
        decreases types@.len() - i,
    {
        copy.push(types[i].copy());
        i = i + 1;
    }
    assert(tys(copy@) =~= tys(types@));
    copy
}

pub fn same_types(left: &Vec<MagType>, right: &Vec<MagType>) -> (same: bool)
    ensures
        same == (tys(left@) == tys(right@)),
    decreases left,
{
    if left.len() != right.len() {
        assert(tys(left@).len() != tys(right@).len());
        return false;
    }
    let mut i: usize = 0;
    while i < left.len()
        invariant
            i <= left@.len() == right@.len(),
            forall|j: int| 0 <= j < i ==> #[trigger] tys(left@)[j] == tys(right@)[j],
        decreases left@.len() - i,
    {
        if !left[i].same(&right[i]) {
            assert(tys(left@)[i as int] != tys(right@)[i as int]);
            return false;
        }
        i = i + 1;
    }
    assert(tys(left@) =~= tys(right@));
    true
}

// ---------------------------------------------------------------------------
// Notation
// ---------------------------------------------------------------------------

/// A type as it is written.
pub open spec fn ty_text(ty: Ty) -> Seq<char>
    decreases ty,
{
    match ty {
        Ty::Var(name) => name,
        Ty::Named(name, arguments) => if arguments.len() == 0 {
            name
        } else {
            name + "<"@ + joined(ty_texts(arguments), ", "@) + ">"@
        },
        Ty::Unit => "Unit"@,
        Ty::Bool => "Bool"@,
        Ty::Int => "Int"@,
        Ty::Float => "Float"@,
        Ty::String => "String"@,
        Ty::JsonValue => "JsonValue"@,
        Ty::Never => "Never"@,
        Ty::EmptyList => "EmptyList"@,
        Ty::List(item) => "List<"@ + ty_text(*item) + ">"@,
        Ty::SetOf(item) => "Set<"@ + ty_text(*item) + ">"@,
        Ty::MapOf(key, value) => "Map<"@ + ty_text(*key) + ", "@ + ty_text(*value) + ">"@,
        Ty::Product(items) => "("@ + joined(ty_texts(items), ", "@) + ")"@,
        Ty::Function(params, result) => "fn("@ + joined(ty_texts(params), ", "@) + ") -> "@
            + ty_text(*result),
        Ty::Artifact => "Artifact"@,
        Ty::TypeDescriptor => "TypeDescriptor"@,
        Ty::TypeSchema => "TypeSchema"@,
        Ty::SemanticTypeId => "SemanticTypeId"@,
        Ty::PackedValue => "PackedValue"@,
        Ty::HostInputs => "HostInputs"@,
        Ty::TypeTag(value) => "TypeTag<"@ + ty_text(*value) + ">"@,
    }
}

pub open spec fn ty_texts(types: Seq<Ty>) -> Seq<Seq<char>>
    decreases types,
{
    Seq::new(
        types.len(),
        |i: int|
            if 0 <= i < types.len() {
                ty_text(types[i])
            } else {
                arbitrary()
            },
    )
}

impl MagType {
    /// This type as it is written.
    pub fn text(&self) -> (text: String)
        ensures
            text@ == ty_text(self@),
        decreases self,
    {
        match self {
            MagType::Var(name) => name.clone(),
            MagType::Named(name, arguments) => {
                assert(tys(arguments@).len() == arguments@.len());
                if arguments.len() == 0 {
                    name.clone()
                } else {
                    let parts = type_texts(arguments);
                    let body = join_texts(&parts, ", ");
                    cat4(name.as_str(), "<", body.as_str(), ">")
                }
            },
            MagType::Unit => "Unit".to_owned(),
            MagType::Bool => "Bool".to_owned(),
            MagType::Int => "Int".to_owned(),
            MagType::Float => "Float".to_owned(),
            MagType::String => "String".to_owned(),
            MagType::JsonValue => "JsonValue".to_owned(),
            MagType::Never => "Never".to_owned(),
            MagType::EmptyList => "EmptyList".to_owned(),
            MagType::List(item) => {
                let item = item.text();
                cat3("List<", item.as_str(), ">")
            },
            MagType::SetOf(item) => {
                let item = item.text();
                cat3("Set<", item.as_str(), ">")
            },
            MagType::MapOf(key, value) => {
                let key = key.text();
                let value = value.text();
                cat5("Map<", key.as_str(), ", ", value.as_str(), ">")
            },
            MagType::Product(items) => {
                let parts = type_texts(items);
                let body = join_texts(&parts, ", ");
                cat3("(", body.as_str(), ")")
            },
            MagType::Function(params, result) => {
                let parts = type_texts(params);
                let body = join_texts(&parts, ", ");
                let result = result.text();
                cat4("fn(", body.as_str(), ") -> ", result.as_str())
            },
            MagType::Artifact => "Artifact".to_owned(),
            MagType::TypeDescriptor => "TypeDescriptor".to_owned(),
            MagType::TypeSchema => "TypeSchema".to_owned(),
            MagType::SemanticTypeId => "SemanticTypeId".to_owned(),
            MagType::PackedValue => "PackedValue".to_owned(),
            MagType::HostInputs => "HostInputs".to_owned(),
            MagType::TypeTag(value) => {
                let value = value.text();
                cat3("TypeTag<", value.as_str(), ">")
            },
        }
    }
}

pub fn type_texts(types: &Vec<MagType>) -> (parts: Vec<String>)
    ensures
        texts(parts@) == ty_texts(tys(types@)),
    decreases types,
{
    let mut parts: Vec<String> = Vec::new();
    let mut i: usize = 0;
    while i < types.len()
        invariant
            i <= types@.len(),
            parts@.len() == i,
            forall|j: int| 0 <= j < i ==> (#[trigger] parts@[j])@ == ty_text(types@[j]@),
        decreases types@.len() - i,
    {
        parts.push(types[i].text());
        i = i + 1;
    }
    assert(texts(parts@) =~= ty_texts(tys(types@)));
    parts
}

// ---------------------------------------------------------------------------
// Sets of names and substitutions
// ---------------------------------------------------------------------------

/// A set of names.
#[derive(Debug)]
pub struct Names {
    pub items: Vec<String>,
}

impl Names {
    pub open spec fn view(&self) -> Set<Seq<char>> {
        texts(self.items@).to_set()
    }

    pub fn new() -> (names: Self)
        ensures
            names@ == Set::<Seq<char>>::empty(),
    {
        let names = Names { items: Vec::new() };
        assert(names@ =~= Set::<Seq<char>>::empty());
        names
    }

    pub fn contains(&self, name: &str) -> (found: bool)
        ensures
            found == self@.contains(name@),
    {
        contains_text(&self.items, name)
    }

    pub fn insert(&mut self, name: String)
        ensures
            final(self)@ == old(self)@.insert(name@),
    {
        let ghost before = texts(self.items@);
        let ghost added = name@;
        self.items.push(name);
        proof {
            assert(texts(self.items@) =~= before.push(added));
            assert forall|x: Seq<char>| #[trigger] self@.contains(x) <==> before.to_set().insert(
                added,
            ).contains(x) by {
                if before.contains(x) {
                    let j = before.index_of(x);
                    assert(before.push(added)[j] == x);
                }
                if x == added {
                    assert(before.push(added)[before.len() as int] == x);
                }
            }
            assert(self@ =~= before.to_set().insert(added));
        }
    }

    pub fn is_empty(&self) -> (empty: bool)
        ensures
            empty == (self@ == Set::<Seq<char>>::empty()),
    {
        proof {
            let all = texts(self.items@);
            if self.items@.len() > 0 {
                assert(all.contains(all[0]));
                assert(self@.contains(all[0]));
            } else {
                assert(self@ =~= Set::<Seq<char>>::empty());
            }
        }
        self.items.len() == 0
    }

    pub fn copy(&self) -> (copy: Self)
        ensures
            copy@ == self@,
    {
        Names { items: copy_texts(&self.items) }
    }

    /// Adds each of some names.
    pub fn extend(&mut self, more: &Names)
        ensures
            final(self)@ == old(self)@.union(more@),
    {
        let ghost before = self@;
        let ghost all = texts(more.items@);
        let mut i: usize = 0;
        while i < more.items.len()
            invariant
                i <= more.items@.len(),
                all == texts(more.items@),
                self@ =~= before.union(all.take(i as int).to_set()),
            decreases more.items@.len() - i,
        {
            let ghost earlier = self@;
            self.insert(more.items[i].clone());
            proof {
                lemma_take_set(all, i as int);
                assert(self@ =~= before.union(all.take(i + 1).to_set()));
            }
            i = i + 1;
        }
        assert(all.take(all.len() as int) =~= all);
    }

    pub fn extend_texts(&mut self, more: &Vec<String>)
        ensures
            final(self)@ == old(self)@.union(texts(more@).to_set()),
    {
        let other = Names { items: copy_texts(more) };
        self.extend(&other);
    }

    /// A set with the names in a list.
    pub fn of(items: &Vec<String>) -> (names: Self)
        ensures
            names@ == texts(items@).to_set(),
    {
        Names { items: copy_texts(items) }
    }
}

pub proof fn lemma_take_set(all: Seq<Seq<char>>, i: int)
    requires
        0 <= i < all.len(),
    ensures
        all.take(i + 1).to_set() == all.take(i).to_set().insert(all[i]),
{
    let longer = all.take(i + 1);
    assert(longer =~= all.take(i).push(all[i]));
    assert forall|x: Seq<char>| #[trigger] longer.to_set().contains(x) <==> all.take(
        i,
    ).to_set().insert(all[i]).contains(x) by {
        if all.take(i).contains(x) {
            let j = all.take(i).index_of(x);
            assert(longer[j] == x);
        }
        if x == all[i] {
            assert(longer[i] == x);
        }
    }
    assert(longer.to_set() =~= all.take(i).to_set().insert(all[i]));
}

/// An assignment of types to variables; the latest one for a name counts.
#[derive(Debug)]
pub struct Subst {
    pub entries: Vec<(String, MagType)>,
}

/// The map that entries stand for.
pub open spec fn assignment(entries: Seq<(String, MagType)>) -> Map<Seq<char>, Ty>
    decreases entries.len(),
{
    if entries.len() == 0 {
        Map::empty()
    } else {
        assignment(entries.drop_last()).insert(entries.last().0@, entries.last().1.view())
    }
}

impl Subst {
    pub open spec fn view(&self) -> Map<Seq<char>, Ty> {
        assignment(self.entries@)
    }

    pub fn new() -> (subst: Self)
        ensures
            subst@ == Map::<Seq<char>, Ty>::empty(),
    {
        Subst { entries: Vec::new() }
    }

    pub fn insert(&mut self, name: String, ty: MagType)
        ensures
            final(self)@ == old(self)@.insert(name@, ty@),
    {
        let ghost before = self.entries@;
        self.entries.push((name, ty));
        assert(self.entries@.drop_last() =~= before);
    }

    pub fn get(&self, name: &str) -> (found: Option<&MagType>)
        ensures
            match found {
                Some(ty) => self@.dom().contains(name@) && self@[name@] == ty@,
                None => !self@.dom().contains(name@),
            },
    {
        let ghost all = self.entries@;
        let mut i: usize = self.entries.len();
        assert(all.take(i as int) =~= all);
        while i > 0
            invariant
                i <= self.entries@.len(),
                all == self.entries@,
                self@.dom().contains(name@) <==> assignment(all.take(i as int)).dom().contains(
                    name@,
                ),
                self@.dom().contains(name@) ==> self@[name@] == assignment(
                    all.take(i as int),
                )[name@],
            decreases i,
        {
            proof {
                assert(all.take(i as int).drop_last() =~= all.take(i - 1));
                assert(all.take(i as int).last() == all[i - 1]);
            }
            i = i - 1;
            if same_text(self.entries[i].0.as_str(), name) {
                return Some(&self.entries[i].1);
            }
        }
        None
    }

    pub fn copy(&self) -> (copy: Self)
        ensures
            copy@ == self@,
    {
        let mut copy = Subst::new();
        let ghost all = self.entries@;
        let mut i: usize = 0;
        while i < self.entries.len()
            invariant
                i <= self.entries@.len(),
                all == self.entries@,
                copy@ == assignment(all.take(i as int)),
            decreases self.entries@.len() - i,
        {
            proof {
                assert(all.take(i + 1).drop_last() =~= all.take(i as int));
                assert(all.take(i + 1).last() == all[i as int]);
            }
            let entry = &self.entries[i];
            copy.insert(entry.0.clone(), entry.1.copy());
            i = i + 1;
        }
        assert(all.take(all.len() as int) =~= all);
        copy
    }

    /// The names that stand for something.
    pub fn names(&self) -> (names: Names)
        ensures
            names@ == self@.dom(),
    {
        let ghost all = self.entries@;
        let mut names = Names::new();
        assert(names@ =~= assignment(all.take(0)).dom());
        let mut i: usize = 0;
        while i < self.entries.len()
            invariant
                i <= self.entries@.len(),
                all == self.entries@,
                names@ =~= assignment(all.take(i as int)).dom(),
            decreases self.entries@.len() - i,
        {
            proof {
                assert(all.take(i + 1).drop_last() =~= all.take(i as int));
                assert(all.take(i + 1).last() == all[i as int]);
            }
            let entry = &self.entries[i];
            names.insert(entry.0.clone());
            i = i + 1;
        }
        assert(all.take(all.len() as int) =~= all);
        names
    }

    /// Forgets what a name stands for.
    pub fn remove(&mut self, name: &str)
        ensures
            final(self)@ == old(self)@.remove(name@),
    {
        let ghost all = self.entries@;
        let mut kept = Subst::new();
        let mut i: usize = 0;
        assert(kept@ =~= assignment(all.take(0)).remove(name@));
        while i < self.entries.len()
            invariant
                i <= self.entries@.len(),
                all == self.entries@,
                kept@ =~= assignment(all.take(i as int)).remove(name@),
            decreases self.entries@.len() - i,
        {
            proof {
                assert(all.take(i + 1).drop_last() =~= all.take(i as int));
                assert(all.take(i + 1).last() == all[i as int]);
            }
            let entry = &self.entries[i];
            if !same_text(entry.0.as_str(), name) {
                kept.insert(entry.0.clone(), entry.1.copy());
            }
            i = i + 1;
        }
        assert(all.take(all.len() as int) =~= all);
        self.entries = kept.entries;
    }
}

/// The assignment of arguments to the parameters that they stand for.
pub open spec fn paired(params: Seq<Seq<char>>, arguments: Seq<Ty>, n: int) -> Map<Seq<char>, Ty>
    decreases n,
{
    if n <= 0 || n > params.len() || n > arguments.len() {
        Map::empty()
    } else {
        paired(params, arguments, n - 1).insert(params[n - 1], arguments[n - 1])
    }
}

pub open spec fn shorter(left: nat, right: nat) -> int {
    if left < right {
        left as int
    } else {
        right as int
    }
}

/// Parameters with their arguments, as far as both go.
pub open spec fn zipped(params: Seq<Seq<char>>, arguments: Seq<Ty>) -> Map<Seq<char>, Ty> {
    paired(params, arguments, shorter(params.len(), arguments.len()))
}

pub fn zip_types(params: &Vec<String>, arguments: &Vec<MagType>) -> (subst: Subst)
    ensures
        subst@ == zipped(texts(params@), tys(arguments@)),
{
    let mut subst = Subst::new();
    let ghost names = texts(params@);
    let ghost views = tys(arguments@);
    let mut i: usize = 0;
    while i < params.len() && i < arguments.len()
        invariant
            i <= params@.len(),
            i <= arguments@.len(),
            names == texts(params@),
            views == tys(arguments@),
            subst@ == paired(names, views, i as int),
        decreases params@.len() - i,
    {
        assert(names[i as int] == params@[i as int]@);
        assert(views[i as int] == arguments@[i as int]@);
        subst.insert(params[i].clone(), arguments[i].copy());
        i = i + 1;
    }
    subst
}

// ---------------------------------------------------------------------------
// Variables in types
// ---------------------------------------------------------------------------

/// A type with its variables replaced.
pub open spec fn substituted(ty: Ty, subst: Map<Seq<char>, Ty>) -> Ty
    decreases ty,
{
    match ty {
        Ty::Var(name) => if subst.dom().contains(name) {
            subst[name]
        } else {
            ty
        },
        Ty::Named(name, arguments) => Ty::Named(name, substituted_all(arguments, subst)),
        Ty::TypeTag(value) => Ty::TypeTag(Box::new(substituted(*value, subst))),
        Ty::List(item) => Ty::List(Box::new(substituted(*item, subst))),
        Ty::SetOf(item) => Ty::SetOf(Box::new(substituted(*item, subst))),
        Ty::MapOf(key, value) => Ty::MapOf(
            Box::new(substituted(*key, subst)),
            Box::new(substituted(*value, subst)),
        ),
        Ty::Product(items) => Ty::Product(substituted_all(items, subst)),
        Ty::Function(params, result) => Ty::Function(
            substituted_all(params, subst),
            Box::new(substituted(*result, subst)),
        ),
        other => other,
    }
}

pub open spec fn substituted_all(types: Seq<Ty>, subst: Map<Seq<char>, Ty>) -> Seq<Ty>
    decreases types,
{
    Seq::new(
        types.len(),
        |i: int|
            if 0 <= i < types.len() {
                substituted(types[i], subst)
            } else {
                arbitrary()
            },
    )
}

pub fn substitute(ty: &MagType, subst: &Subst) -> (result: MagType)
    ensures
        result@ == substituted(ty@, subst@),
    decreases ty,
{
    match ty {
        MagType::Var(name) => match subst.get(name.as_str()) {
            Some(bound) => bound.copy(),
            None => ty.copy(),
        },
        MagType::Named(name, arguments) => MagType::Named(
            name.clone(),
            substitute_all(arguments, subst),
        ),
        MagType::TypeTag(value) => MagType::TypeTag(Box::new(substitute(value, subst))),
        MagType::List(item) => MagType::List(Box::new(substitute(item, subst))),
        MagType::SetOf(item) => MagType::SetOf(Box::new(substitute(item, subst))),
        MagType::MapOf(key, value) => MagType::MapOf(
            Box::new(substitute(key, subst)),
            Box::new(substitute(value, subst)),
        ),
        MagType::Product(items) => MagType::Product(substitute_all(items, subst)),
        MagType::Function(params, result) => MagType::Function(
            substitute_all(params, subst),
            Box::new(substitute(result, subst)),
        ),
        other => other.copy(),
    }
}

pub fn substitute_all(types: &Vec<MagType>, subst: &Subst) -> (results: Vec<MagType>)
    ensures
        tys(results@) == substituted_all(tys(types@), subst@),
    decreases types,
{
    let mut results: Vec<MagType> = Vec::new();
    let mut i: usize = 0;
    while i < types.len()
        invariant
            i <= types@.len(),
            results@.len() == i,
            forall|j: int|
                0 <= j < i ==> (#[trigger] results@[j])@ == substituted(types@[j]@, subst@),
        decreases types@.len() - i,
    {
        results.push(substitute(&types[i], subst));
        i = i + 1;
    }
    assert(tys(results@) =~= substituted_all(tys(types@), subst@));
    results
}

/// The variables that occur in a type.
pub open spec fn vars(ty: Ty) -> Set<Seq<char>>
    decreases ty, 0int,
{
    match ty {
        Ty::Var(name) => set![name],
        Ty::Named(_, arguments) => vars_from(arguments, 0),
        Ty::Product(items) => vars_from(items, 0),
        Ty::List(item) => vars(*item),
        Ty::SetOf(item) => vars(*item),
        Ty::TypeTag(value) => vars(*value),
        Ty::MapOf(key, value) => vars(*key).union(vars(*value)),
        Ty::Function(params, result) => vars_from(params, 0).union(vars(*result)),
        _ => Set::empty(),
    }
}

/// The variables in the types from index `i` on.
pub open spec fn vars_from(types: Seq<Ty>, i: int) -> Set<Seq<char>>
    decreases types, types.len() - i,
{
    if i < 0 || i >= types.len() {
        Set::empty()
    } else {
        vars(types[i]).union(vars_from(types, i + 1))
    }
}

pub fn collect_vars(ty: &MagType, out: &mut Names)
    ensures
        final(out)@ == old(out)@.union(vars(ty@)),
    decreases ty,
{
    match ty {
        MagType::Var(name) => {
            out.insert(name.clone());
            assert(out@ =~= old(out)@.union(vars(ty@)));
        },
        MagType::Named(_, arguments) => {
            collect_vars_all(arguments, out);
        },
        MagType::Product(items) => {
            collect_vars_all(items, out);
        },
        MagType::List(item) => {
            collect_vars(item, out);
        },
        MagType::SetOf(item) => {
            collect_vars(item, out);
        },
        MagType::TypeTag(value) => {
            collect_vars(value, out);
        },
        MagType::MapOf(key, value) => {
            collect_vars(key, out);
            collect_vars(value, out);
            assert(out@ =~= old(out)@.union(vars(ty@)));
        },
        MagType::Function(params, result) => {
            collect_vars_all(params, out);
            collect_vars(result, out);
            assert(out@ =~= old(out)@.union(vars(ty@)));
        },
        _ => {
            assert(out@ =~= old(out)@.union(vars(ty@)));
        },
    }
}

fn collect_vars_all(types: &Vec<MagType>, out: &mut Names)
    ensures
        final(out)@ == old(out)@.union(vars_from(tys(types@), 0)),
    decreases types,
{
    let ghost all = tys(types@);
    let mut i: usize = 0;
    while i < types.len()
        invariant
            i <= types@.len(),
            all == tys(types@),
            out@.union(vars_from(all, i as int)) =~= old(out)@.union(vars_from(all, 0)),
        decreases types@.len() - i,
    {
        assert(all[i as int] == types@[i as int]@);
        collect_vars(&types[i], out);
        i = i + 1;
    }
    assert(out@ =~= out@.union(vars_from(all, types@.len() as int)));
}

/// The variables in a type.
pub fn variables(ty: &MagType) -> (found: Names)
    ensures
        found@ == vars(ty@),
{
    let mut found = Names::new();
    collect_vars(ty, &mut found);
    assert(found@ =~= vars(ty@));
    found
}

pub fn has_type_variables(ty: &MagType) -> (yes: bool)
    ensures
        yes == (vars(ty@) != Set::<Seq<char>>::empty()),
{
    !variables(ty).is_empty()
}

/// Whether a type is open: a variable occurs in it.
pub open spec fn open_type(ty: Ty) -> bool
    decreases ty, 0int,
{
    match ty {
        Ty::Var(_) => true,
        Ty::Named(_, arguments) => open_from(arguments, 0),
        Ty::Product(items) => open_from(items, 0),
        Ty::TypeTag(value) => open_type(*value),
        Ty::List(item) => open_type(*item),
        Ty::SetOf(item) => open_type(*item),
        Ty::MapOf(key, value) => open_type(*key) || open_type(*value),
        Ty::Function(params, result) => open_from(params, 0) || open_type(*result),
        _ => false,
    }
}

pub open spec fn open_from(types: Seq<Ty>, i: int) -> bool
    decreases types, types.len() - i,
{
    0 <= i < types.len() && (open_type(types[i]) || open_from(types, i + 1))
}

/// Whether a type is to be matched after those without variables.
pub fn contains_union(ty: &MagType) -> (yes: bool)
    ensures
        yes == open_type(ty@),
    decreases ty,
{
    match ty {
        MagType::Var(_) => true,
        MagType::Named(_, arguments) => any_union(arguments),
        MagType::Product(items) => any_union(items),
        MagType::TypeTag(value) => contains_union(value),
        MagType::List(item) => contains_union(item),
        MagType::SetOf(item) => contains_union(item),
        MagType::MapOf(key, value) => contains_union(key) || contains_union(value),
        MagType::Function(params, result) => any_union(params) || contains_union(result),
        _ => false,
    }
}

fn any_union(types: &Vec<MagType>) -> (yes: bool)
    ensures
        yes == open_from(tys(types@), 0),
    decreases types,
{
    let ghost all = tys(types@);
    let mut i: usize = 0;
    while i < types.len()
        invariant
            i <= types@.len(),
            all == tys(types@),
            open_from(all, 0) == open_from(all, i as int),
        decreases types@.len() - i,
    {
        assert(all[i as int] == types@[i as int]@);
        if contains_union(&types[i]) {
            return true;
        }
        i = i + 1;
    }
    false
}

/// A name that only the checker makes.
pub open spec fn internal_name(name: Seq<char>) -> bool {
    name.len() > 0 && name[0] == '\0'
}

pub open spec fn internal_vars(ty: Ty) -> Set<Seq<char>> {
    vars(ty).filter(|name: Seq<char>| internal_name(name))
}

fn is_internal(name: &str) -> (yes: bool)
    ensures
        yes == internal_name(name@),
{
    let chars = text_chars(name);
    chars.len() > 0 && chars[0] == '\0'
}

pub fn internal_type_variables(ty: &MagType) -> (found: Names)
    ensures
        found@ == internal_vars(ty@),
{
    let all = variables(ty);
    let ghost names = texts(all.items@);
    let mut found = Names::new();
    let mut i: usize = 0;
    assert(found@ =~= names.take(0).to_set().filter(|name: Seq<char>| internal_name(name)));
    while i < all.items.len()
        invariant
            i <= all.items@.len(),
            names == texts(all.items@),
            found@ =~= names.take(i as int).to_set().filter(
                |name: Seq<char>| internal_name(name),
            ),
        decreases all.items@.len() - i,
    {
        proof {
            lemma_take_set(names, i as int);
        }
        assert(names[i as int] == all.items@[i as int]@);
        if is_internal(all.items[i].as_str()) {
            found.insert(all.items[i].clone());
        }
        i = i + 1;
    }
    assert(names.take(names.len() as int) =~= names);
    found
}

} // verus!
