//! Calls whose results are remembered.

use crate::checked::BindingId;
use crate::env::{Env, World};
use crate::text::same_text;
use crate::types::{MagType, Subst, Ty, assignment};
use crate::value::{Val, Value, copy_values, option_ty, val_entries, val_fields, vals};
use vstd::prelude::*;

verus! {

/// How many calls are remembered before all of them are forgotten.
pub const MEMOIZED_CALL_LIMIT: usize = 16_384;

/// A call and what it returned.
#[derive(Debug)]
pub struct MemoCall {
    pub function: BindingId,
    pub signature: Option<MagType>,
    pub types: Subst,
    pub args: Vec<Value>,
    pub result: Value,
}

pub ghost struct Memo {
    pub function: BindingId,
    pub signature: Option<Ty>,
    pub types: Map<Seq<char>, Ty>,
    pub args: Seq<Val>,
    pub result: Val,
}

impl MemoCall {
    pub open spec fn view(&self) -> Memo {
        Memo {
            function: self.function,
            signature: option_ty(self.signature),
            types: self.types@,
            args: vals(self.args@),
            result: self.result@,
        }
    }
}

pub open spec fn memos(list: Seq<MemoCall>) -> Seq<Memo> {
    Seq::new(list.len(), |i: int| list[i].view())
}

// ---------------------------------------------------------------------------
// Arguments
// ---------------------------------------------------------------------------

/// Whether two arguments are the same for a call. Functions are told apart by where they
/// were made, and documents are never taken for the same.
pub open spec fn alike(left: Val, right: Val) -> bool
    decreases left, 0int,
{
    match (left, right) {
        (Val::Unit, Val::Unit) => true,
        (Val::Str(a), Val::Str(b)) => a == b,
        (Val::Int(a), Val::Int(b)) => a == b,
        (Val::Float(a), Val::Float(b)) => a.bits == b.bits,
        (Val::Bool(a), Val::Bool(b)) => a == b,
        (Val::Keyword(a), Val::Keyword(b)) => a == b,
        (Val::Symbol(a), Val::Symbol(b)) => a == b,
        (Val::BuiltinFn(a), Val::BuiltinFn(b)) => a == b,
        (Val::List(a), Val::List(b)) => a.len() == b.len() && alike_from(a, b, 0),
        (Val::Product(a), Val::Product(b)) => a.len() == b.len() && alike_from(a, b, 0),
        (Val::SetOf(a), Val::SetOf(b)) => a.len() == b.len() && alike_from(a, b, 0),
        (Val::Fields(a), Val::Fields(b)) => a.len() == b.len() && alike_fields(a, b, 0),
        (Val::MapOf(a), Val::MapOf(b)) => a.len() == b.len() && alike_entries(a, b, 0),
        (Val::Fn(a), Val::Fn(b)) => a.id == b.id,
        (Val::Type(a), Val::Type(b)) => a == b,
        (Val::TypeDecl(a), Val::TypeDecl(b)) => a == b,
        (Val::TypeTag(a), Val::TypeTag(b)) => a == b,
        (Val::TypeDescriptor(a), Val::TypeDescriptor(b)) => a == b,
        (Val::SemanticTypeId(a), Val::SemanticTypeId(b)) => a == b,
        (Val::PackedValue(a), Val::PackedValue(b)) => alike(*a, *b),
        (Val::Adt(a_owner, a_id, a), Val::Adt(b_owner, b_id, b)) => a_owner == b_owner && a_id
            == b_id && alike(*a, *b),
        (Val::Typed(a, a_ty), Val::Typed(b, b_ty)) => a_ty == b_ty && alike(*a, *b),
        _ => false,
    }
}

pub open spec fn alike_from(left: Seq<Val>, right: Seq<Val>, i: int) -> bool
    decreases left, left.len() - i,
{
    0 <= i < left.len() ==> (alike(left[i], right[i]) && alike_from(left, right, i + 1))
}

pub open spec fn alike_fields(
    left: Seq<(Seq<char>, Val)>,
    right: Seq<(Seq<char>, Val)>,
    i: int,
) -> bool
    decreases left, left.len() - i,
{
    0 <= i < left.len() ==> (left[i].0 == right[i].0 && alike(left[i].1, right[i].1)
        && alike_fields(left, right, i + 1))
}

pub open spec fn alike_entries(left: Seq<(Val, Val)>, right: Seq<(Val, Val)>, i: int) -> bool
    decreases left, left.len() - i,
{
    0 <= i < left.len() ==> (alike(left[i].0, right[i].0) && alike(left[i].1, right[i].1)
        && alike_entries(left, right, i + 1))
}

fn same_argument(left: &Value, right: &Value) -> (same: bool)
    ensures
        same == alike(left@, right@),
    decreases left, 0int,
{
    match (left, right) {
        (Value::Unit, Value::Unit) => true,
        (Value::Str(a), Value::Str(b)) => same_text(a.as_str(), b.as_str()),
        (Value::Int(a), Value::Int(b)) => *a == *b,
        (Value::Float(a), Value::Float(b)) => a.bits == b.bits,
        (Value::Bool(a), Value::Bool(b)) => *a == *b,
        (Value::Keyword(a), Value::Keyword(b)) => same_text(a.as_str(), b.as_str()),
        (Value::Symbol(a), Value::Symbol(b)) => same_text(a.as_str(), b.as_str()),
        (Value::BuiltinFn(a), Value::BuiltinFn(b)) => same_text(a.as_str(), b.as_str()),
        (Value::List(a), Value::List(b)) => {
            assert(vals(a@).len() == a@.len() && vals(b@).len() == b@.len());
            a.len() == b.len() && same_arguments(a, b)
        },
        (Value::Product(a), Value::Product(b)) => {
            assert(vals(a@).len() == a@.len() && vals(b@).len() == b@.len());
            a.len() == b.len() && same_arguments(a, b)
        },
        (Value::SetOf(a), Value::SetOf(b)) => {
            assert(vals(a@).len() == a@.len() && vals(b@).len() == b@.len());
            a.len() == b.len() && same_arguments(a, b)
        },
        (Value::Fields(a), Value::Fields(b)) => {
            assert(val_fields(a@).len() == a@.len() && val_fields(b@).len() == b@.len());
            a.len() == b.len() && same_argument_fields(a, b)
        },
        (Value::MapOf(a), Value::MapOf(b)) => {
            assert(val_entries(a@).len() == a@.len() && val_entries(b@).len() == b@.len());
            a.len() == b.len() && same_argument_entries(a, b)
        },
        (Value::Fn(a), Value::Fn(b)) => a.id.0 == b.id.0,
        (Value::Type(a), Value::Type(b)) => a.same(b),
        (Value::TypeDecl(a), Value::TypeDecl(b)) => a.same(b),
        (Value::TypeTag(a), Value::TypeTag(b)) => a.same(b),
        (Value::TypeDescriptor(a), Value::TypeDescriptor(b)) => a.same(b),
        (Value::SemanticTypeId(a), Value::SemanticTypeId(b)) => same_text(a.as_str(), b.as_str()),
        (Value::PackedValue(a), Value::PackedValue(b)) => same_argument(a, b),
        (
            Value::Adt { owner: a_owner, constructor: a_id, payload: a },
            Value::Adt { owner: b_owner, constructor: b_id, payload: b },
        ) => a_owner.same(b_owner) && a_id.same(b_id) && same_argument(a, b),
        (Value::Typed(a, a_ty), Value::Typed(b, b_ty)) => a_ty.same(b_ty) && same_argument(a, b),
        _ => false,
    }
}

fn same_arguments(left: &Vec<Value>, right: &Vec<Value>) -> (same: bool)
    requires
        left@.len() == right@.len(),
    ensures
        same == alike_from(vals(left@), vals(right@), 0),
    decreases left, 1int,
{
    let ghost a = vals(left@);
    let ghost b = vals(right@);
    let mut i: usize = 0;
    while i < left.len()
        invariant
            i <= left@.len() == right@.len(),
            a == vals(left@),
            b == vals(right@),
            alike_from(a, b, 0) == alike_from(a, b, i as int),
        decreases left@.len() - i,
    {
        assert(a[i as int] == left@[i as int]@ && b[i as int] == right@[i as int]@);
        if !same_argument(&left[i], &right[i]) {
            return false;
        }
        i = i + 1;
    }
    true
}

fn same_argument_fields(left: &Vec<(String, Value)>, right: &Vec<(String, Value)>) -> (same: bool)
    requires
        left@.len() == right@.len(),
    ensures
        same == alike_fields(val_fields(left@), val_fields(right@), 0),
    decreases left, 1int,
{
    let ghost a = val_fields(left@);
    let ghost b = val_fields(right@);
    let mut i: usize = 0;
    while i < left.len()
        invariant
            i <= left@.len() == right@.len(),
            a == val_fields(left@),
            b == val_fields(right@),
            alike_fields(a, b, 0) == alike_fields(a, b, i as int),
        decreases left@.len() - i,
    {
        let one = &left[i];
        let other = &right[i];
        assert(a[i as int] == (one.0@, one.1@) && b[i as int] == (other.0@, other.1@));
        if !same_text(one.0.as_str(), other.0.as_str()) || !same_argument(&one.1, &other.1) {
            return false;
        }
        i = i + 1;
    }
    true
}

fn same_argument_entries(left: &Vec<(Value, Value)>, right: &Vec<(Value, Value)>) -> (same: bool)
    requires
        left@.len() == right@.len(),
    ensures
        same == alike_entries(val_entries(left@), val_entries(right@), 0),
    decreases left, 1int,
{
    let ghost a = val_entries(left@);
    let ghost b = val_entries(right@);
    let mut i: usize = 0;
    while i < left.len()
        invariant
            i <= left@.len() == right@.len(),
            a == val_entries(left@),
            b == val_entries(right@),
            alike_entries(a, b, 0) == alike_entries(a, b, i as int),
        decreases left@.len() - i,
    {
        let one = &left[i];
        let other = &right[i];
        assert(a[i as int] == (one.0@, one.1@) && b[i as int] == (other.0@, other.1@));
        if !same_argument(&one.0, &other.0) || !same_argument(&one.1, &other.1) {
            return false;
        }
        i = i + 1;
    }
    true
}

/// Whether calls with an argument are remembered.
pub open spec fn memorable(value: Val) -> bool {
    !(value is Artifact || value is TypeDescriptor || value is TypeSchema || value is SemanticTypeId
        || value is PackedValue || value is JsonValue || value is HostInputs)
}

/// Whether calls with all of some arguments are remembered.
pub open spec fn all_memorable(args: Seq<Val>) -> bool {
    forall|i: int| 0 <= i < args.len() ==> memorable(#[trigger] args[i])
}

pub(crate) fn are_memorable(args: &Vec<Value>) -> (yes: bool)
    ensures
        yes == all_memorable(vals(args@)),
{
    let ghost all = vals(args@);
    let mut i: usize = 0;
    while i < args.len()
        invariant
            i <= args@.len(),
            all == vals(args@),
            forall|k: int| 0 <= k < i ==> memorable(#[trigger] all[k]),
        decreases args@.len() - i,
    {
        assert(all[i as int] == args@[i as int]@);
        let opaque = match &args[i] {
            Value::Artifact(_) => true,
            Value::TypeDescriptor(_) => true,
            Value::TypeSchema(_) => true,
            Value::SemanticTypeId(_) => true,
            Value::PackedValue(_) => true,
            Value::JsonValue(_) => true,
            Value::HostInputs(_) => true,
            _ => false,
        };
        if opaque {
            assert(!memorable(all[i as int]));
            return false;
        }
        i = i + 1;
    }
    true
}

// ---------------------------------------------------------------------------
// Calls
// ---------------------------------------------------------------------------

/// Whether two calls are the same.
pub open spec fn same_memo(left: Memo, right: Memo) -> bool {
    left.function == right.function && left.signature == right.signature && left.types
        == right.types && left.args.len() == right.args.len() && alike_from(left.args, right.args, 0)
}

/// The place of a call among remembered ones, from index `i` on; or -1.
pub open spec fn memo_place(list: Seq<Memo>, call: Memo, i: int) -> int
    decreases list.len() - i,
{
    if i < 0 || i >= list.len() {
        -1
    } else if same_memo(call, list[i]) {
        i
    } else {
        memo_place(list, call, i + 1)
    }
}

/// What a call returned that is remembered.
pub open spec fn remembered(
    world: World,
    function: BindingId,
    signature: Option<Ty>,
    types: Map<Seq<char>, Ty>,
    args: Seq<Val>,
) -> Option<Val> {
    let call = Memo { function, signature, types, args, result: Val::Unit };
    let place = memo_place(world.memo, call, 0);
    if all_memorable(args) && 0 <= place < world.memo.len() {
        Some(world.memo[place].result)
    } else {
        None
    }
}

/// A world in which a call is remembered.
pub open spec fn remembering(
    world: World,
    function: BindingId,
    signature: Option<Ty>,
    types: Map<Seq<char>, Ty>,
    args: Seq<Val>,
    result: Val,
) -> World {
    let call = Memo { function, signature, types, args, result };
    let list = if world.memo.len() >= MEMOIZED_CALL_LIMIT {
        Seq::empty()
    } else {
        world.memo
    };
    let place = memo_place(list, call, 0);
    if !all_memorable(args) {
        world
    } else if 0 <= place < list.len() {
        World { memo: list.update(place, call), ..world }
    } else {
        World { memo: list.push(call), ..world }
    }
}

fn within(left: &Subst, right: &Subst) -> (yes: bool)
    ensures
        yes == (forall|name: Seq<char>| #[trigger]
            left@.dom().contains(name) ==> right@.dom().contains(name) && right@[name]
                == left@[name]),
{
    let ghost all = left.entries@;
    let mut i: usize = 0;
    while i < left.entries.len()
        invariant
            i <= left.entries@.len(),
            all == left.entries@,
            forall|k: int|
                0 <= k < i ==> right@.dom().contains((#[trigger] all[k]).0@)
                    && left@.dom().contains(all[k].0@) && right@[all[k].0@] == left@[all[k].0@],
        decreases left.entries@.len() - i,
    {
        let name = left.entries[i].0.as_str();
        proof {
            lemma_entry_assigned(all, i as int);
        }
        match (left.get(name), right.get(name)) {
            (Some(one), Some(other)) => {
                if !one.same(other) {
                    assert(left@.dom().contains(name@));
                    return false;
                }
            },
            _ => {
                assert(left@.dom().contains(name@));
                return false;
            },
        }
        i = i + 1;
    }
    proof {
        assert forall|name: Seq<char>| #[trigger] left@.dom().contains(name) implies right@.dom().contains(
            name,
        ) && right@[name] == left@[name] by {
            lemma_assigned_entry(all, name);
            let k = choose|k: int| 0 <= k < all.len() && (#[trigger] all[k]).0@ == name;
            assert(right@.dom().contains(all[k].0@));
        }
    }
    true
}

proof fn lemma_entry_assigned(entries: Seq<(String, MagType)>, i: int)
    requires
        0 <= i < entries.len(),
    ensures
        assignment(entries).dom().contains(entries[i].0@),
    decreases entries.len(),
{
    if i < entries.len() - 1 {
        lemma_entry_assigned(entries.drop_last(), i);
        assert(entries.drop_last()[i] == entries[i]);
    }
}

proof fn lemma_assigned_entry(entries: Seq<(String, MagType)>, name: Seq<char>)
    requires
        assignment(entries).dom().contains(name),
    ensures
        exists|k: int| 0 <= k < entries.len() && (#[trigger] entries[k]).0@ == name,
    decreases entries.len(),
{
    if entries.len() > 0 {
        if entries.last().0@ == name {
            assert(entries[entries.len() - 1].0@ == name);
        } else {
            lemma_assigned_entry(entries.drop_last(), name);
            let k = choose|k: int|
                0 <= k < entries.drop_last().len() && (#[trigger] entries.drop_last()[k]).0@ == name;
            assert(entries[k].0@ == name);
        }
    }
}

fn same_subst(left: &Subst, right: &Subst) -> (same: bool)
    ensures
        same == (left@ == right@),
{
    let same = within(left, right) && within(right, left);
    proof {
        if same {
            assert(left@ =~= right@);
        }
    }
    same
}

fn same_signature(left: Option<&MagType>, right: &Option<MagType>) -> (same: bool)
    ensures
        same == (match left {
            Some(ty) => Some(ty@),
            None => None::<Ty>,
        } == option_ty(*right)),
{
    match (left, right) {
        (Some(one), Some(other)) => one.same(other),
        (None, None) => true,
        _ => false,
    }
}

fn find_call(
    list: &Vec<MemoCall>,
    function: BindingId,
    signature: Option<&MagType>,
    types: &Subst,
    args: &Vec<Value>,
    Ghost(call): Ghost<Memo>,
) -> (place: Option<usize>)
    requires
        call.function == function,
        call.signature == (match signature {
            Some(ty) => Some(ty@),
            None => None::<Ty>,
        }),
        call.types == types@,
        call.args == vals(args@),
    ensures
        match place {
            Some(place) => place < list@.len() && memo_place(memos(list@), call, 0) == place,
            None => memo_place(memos(list@), call, 0) == -1,
        },
{
    let ghost all = memos(list@);
    let mut i: usize = 0;
    while i < list.len()
        invariant
            i <= list@.len(),
            all == memos(list@),
            all.len() == list@.len(),
            call.function == function,
            call.signature == (match signature {
                Some(ty) => Some(ty@),
                None => None::<Ty>,
            }),
            call.types == types@,
            call.args == vals(args@),
            memo_place(all, call, 0) == memo_place(all, call, i as int),
        decreases list@.len() - i,
    {
        let entry = &list[i];
        assert(all[i as int] == entry@);
        assert(vals(args@).len() == args@.len() && vals(entry.args@).len() == entry.args@.len());
        if function.0 == entry.function.0 && args.len() == entry.args.len() && same_signature(
            signature,
            &entry.signature,
        ) && same_subst(types, &entry.types) && same_arguments(args, &entry.args) {
            return Some(i);
        }
        i = i + 1;
    }
    None
}

impl Env {
    /// What a call returned that is remembered.
    pub fn memoized_call(
        &self,
        function: BindingId,
        signature: Option<&MagType>,
        types: &Subst,
        args: &Vec<Value>,
    ) -> (result: Option<Value>)
        ensures
            match (
                result,
                remembered(
                    self@,
                    function,
                    match signature {
                        Some(ty) => Some(ty@),
                        None => None,
                    },
                    types@,
                    vals(args@),
                ),
            ) {
                (Some(value), Some(view)) => value@ == view,
                (None, None) => true,
                _ => false,
            },
    {
        if !are_memorable(args) {
            return None;
        }
        let ghost call = Memo {
            function,
            signature: match signature {
                Some(ty) => Some(ty@),
                None => None,
            },
            types: types@,
            args: vals(args@),
            result: Val::Unit,
        };
        match find_call(&self.memo, function, signature, types, args, Ghost(call)) {
            Some(place) => {
                assert(self@.memo[place as int] == self.memo@[place as int]@);
                Some(self.memo[place].result.copy())
            },
            None => None,
        }
    }

    /// Remembers what a call returned.
    pub fn memoize_call(
        &mut self,
        function: BindingId,
        signature: Option<&MagType>,
        types: &Subst,
        args: &Vec<Value>,
        result: &Value,
    )
        ensures
            final(self)@ == remembering(
                old(self)@,
                function,
                match signature {
                    Some(ty) => Some(ty@),
                    None => None,
                },
                types@,
                vals(args@),
                result@,
            ),
    {
        if !are_memorable(args) {
            return;
        }
        let ghost call = Memo {
            function,
            signature: match signature {
                Some(ty) => Some(ty@),
                None => None,
            },
            types: types@,
            args: vals(args@),
            result: result@,
        };
        assert(self@.memo.len() == self.memo@.len());
        if self.memo.len() >= MEMOIZED_CALL_LIMIT {
            self.memo = Vec::new();
            assert(memos(self.memo@) =~= Seq::empty());
        }
        let ghost list = memos(self.memo@);
        let entry = MemoCall {
            function,
            signature: match signature {
                Some(ty) => Some(ty.copy()),
                None => None,
            },
            types: types.copy(),
            args: copy_values(args),
            result: result.copy(),
        };
        assert(entry@ == call);
        match find_call(&self.memo, function, signature, types, args, Ghost(call)) {
            Some(place) => {
                self.memo.set(place, entry);
                assert(memos(self.memo@) =~= list.update(place as int, call));
            },
            None => {
                self.memo.push(entry);
                assert(memos(self.memo@) =~= list.push(call));
            },
        }
    }
}

// ---------------------------------------------------------------------------
// Laws
// ---------------------------------------------------------------------------

proof fn lemma_place_shared(list: Seq<Memo>, left: Memo, right: Memo, i: int)
    requires
        left.function == right.function,
        left.signature == right.signature,
        left.types == right.types,
        left.args == right.args,
    ensures
        memo_place(list, left, i) == memo_place(list, right, i),
    decreases list.len() - i,
{
    if 0 <= i < list.len() {
        lemma_place_shared(list, left, right, i + 1);
    }
}

proof fn lemma_place_put(list: Seq<Memo>, call: Memo, i: int)
    requires
        same_memo(call, call),
        0 <= i <= list.len(),
    ensures
        ({
            let place = memo_place(list, call, i);
            if place == -1 {
                memo_place(list.push(call), call, i) == list.len()
            } else {
                &&& i <= place < list.len()
                &&& memo_place(list.update(place, call), call, i) == place
            }
        }),
    decreases list.len() - i,
{
    if i < list.len() && !same_memo(call, list[i]) {
        lemma_place_put(list, call, i + 1);
        let place = memo_place(list, call, i + 1);
        if place == -1 {
            assert(list.push(call)[i] == list[i]);
        } else {
            assert(list.update(place, call)[i] == list[i]);
        }
    }
}

/// What was remembered of a call is found again.
pub proof fn lemma_remembers(
    world: World,
    function: BindingId,
    signature: Option<Ty>,
    types: Map<Seq<char>, Ty>,
    args: Seq<Val>,
    result: Val,
)
    requires
        all_memorable(args),
        alike_from(args, args, 0),
    ensures
        remembered(
            remembering(world, function, signature, types, args, result),
            function,
            signature,
            types,
            args,
        ) == Some(result),
{
    let call = Memo { function, signature, types, args, result };
    let asked = Memo { function, signature, types, args, result: Val::Unit };
    let list = if world.memo.len() >= MEMOIZED_CALL_LIMIT {
        Seq::empty()
    } else {
        world.memo
    };
    let after = remembering(world, function, signature, types, args, result);
    lemma_place_put(list, call, 0);
    lemma_place_shared(after.memo, call, asked, 0);
}

} // verus!
