//! Programs after checking: typed expressions whose names are resolved.

use crate::declare::{ConstructorDeclarationId, ConstructorId, copy_fields, field_types};
use crate::text::{copy_texts, texts};
use crate::types::{MagType, Ty};
use vstd::prelude::*;

verus! {

/// The identity of a binding.
#[derive(Debug, Clone, Copy, PartialEq, Eq, Structural)]
pub struct BindingId(pub u64);

#[derive(Debug)]
pub struct CheckedExpr {
    pub ty: MagType,
    pub kind: CheckedExprKind,
}

#[derive(Debug)]
pub enum CheckedExprKind {
    Unit,
    Str(String),
    Int(i64),
    Float(String),
    Bool(bool),
    Keyword(String),
    BindingRef(BindingId),
    Vector(Vec<CheckedExpr>),
    Fields(Vec<(String, CheckedExpr)>),
    If { condition: Box<CheckedExpr>, then_branch: Box<CheckedExpr>, else_branch: Box<CheckedExpr> },
    Construct {
        owner: MagType,
        constructor: ConstructorDeclarationId,
        payload: Box<CheckedExpr>,
    },
    Match { value: Box<CheckedExpr>, arms: Vec<CheckedMatchArm> },
    Call {
        callee: Box<CheckedExpr>,
        args: Vec<CheckedExpr>,
        /// Types of the callee's own parameters, in ascending order of the names.
        type_bindings: Vec<(String, MagType)>,
    },
    Function(CheckedFn),
    Ascribe { target: MagType, value: Box<CheckedExpr> },
    TypeTag(MagType),
}

#[derive(Debug)]
pub struct CheckedParam {
    pub id: BindingId,
    pub name: String,
    pub ty: MagType,
}

#[derive(Debug)]
pub struct CheckedMatchArm {
    pub constructor: ConstructorDeclarationId,
    pub binding: CheckedParam,
    pub body: Box<CheckedExpr>,
}

#[derive(Debug)]
pub struct CheckedFn {
    pub name: Option<String>,
    pub type_params: Vec<String>,
    pub equality_params: Vec<String>,
    pub params: Vec<CheckedParam>,
    pub result: MagType,
    pub body: CheckedBlock,
}

#[derive(Debug)]
pub struct CheckedBinding {
    pub id: BindingId,
    pub name: String,
    pub ty: MagType,
    pub initializer: CheckedExpr,
}

#[derive(Debug)]
pub struct CheckedBlock {
    pub frame_layout: Vec<BindingId>,
    pub bindings: Vec<CheckedBinding>,
    pub expressions: Vec<CheckedExpr>,
}

pub ghost struct Typed {
    pub ty: Ty,
    pub kind: TypedKind,
}

pub ghost enum TypedKind {
    Unit,
    Str(Seq<char>),
    Int(int),
    Float(Seq<char>),
    Bool(bool),
    Keyword(Seq<char>),
    BindingRef(BindingId),
    Vector(Seq<Typed>),
    Fields(Seq<(Seq<char>, Typed)>),
    If(Box<Typed>, Box<Typed>, Box<Typed>),
    Construct(Ty, ConstructorId, Box<Typed>),
    Match(Box<Typed>, Seq<TypedArm>),
    Call(Box<Typed>, Seq<Typed>, Seq<(Seq<char>, Ty)>),
    Function(Box<TypedFn>),
    Ascribe(Ty, Box<Typed>),
    TypeTag(Ty),
}

pub ghost struct TypedParam {
    pub id: BindingId,
    pub name: Seq<char>,
    pub ty: Ty,
}

pub ghost struct TypedArm {
    pub constructor: ConstructorId,
    pub binding: TypedParam,
    pub body: Box<Typed>,
}

pub ghost struct TypedFn {
    pub name: Option<Seq<char>>,
    pub type_params: Seq<Seq<char>>,
    pub equality_params: Seq<Seq<char>>,
    pub params: Seq<TypedParam>,
    pub result: Ty,
    pub body: TypedBlock,
}

pub ghost struct TypedBinding {
    pub id: BindingId,
    pub name: Seq<char>,
    pub ty: Ty,
    pub initializer: Typed,
}

pub ghost struct TypedBlock {
    pub frame_layout: Seq<BindingId>,
    pub bindings: Seq<TypedBinding>,
    pub expressions: Seq<Typed>,
}

impl CheckedExpr {
    pub open spec fn view(&self) -> Typed
        decreases self,
    {
        Typed { ty: self.ty@, kind: self.kind.view() }
    }
}

impl CheckedExprKind {
    pub open spec fn view(&self) -> TypedKind
        decreases self,
    {
        match self {
            CheckedExprKind::Unit => TypedKind::Unit,
            CheckedExprKind::Str(value) => TypedKind::Str(value@),
            CheckedExprKind::Int(value) => TypedKind::Int(*value as int),
            CheckedExprKind::Float(notation) => TypedKind::Float(notation@),
            CheckedExprKind::Bool(value) => TypedKind::Bool(*value),
            CheckedExprKind::Keyword(name) => TypedKind::Keyword(name@),
            CheckedExprKind::BindingRef(id) => TypedKind::BindingRef(*id),
            CheckedExprKind::Vector(items) => TypedKind::Vector(typeds(items@)),
            CheckedExprKind::Fields(fields) => TypedKind::Fields(typed_members(fields@)),
            CheckedExprKind::If { condition, then_branch, else_branch } => TypedKind::If(
                Box::new((*condition).view()),
                Box::new((*then_branch).view()),
                Box::new((*else_branch).view()),
            ),
            CheckedExprKind::Construct { owner, constructor, payload } => TypedKind::Construct(
                owner@,
                constructor@,
                Box::new((*payload).view()),
            ),
            CheckedExprKind::Match { value, arms } => TypedKind::Match(
                Box::new((*value).view()),
                typed_arms(arms@),
            ),
            CheckedExprKind::Call { callee, args, type_bindings } => TypedKind::Call(
                Box::new((*callee).view()),
                typeds(args@),
                field_types(type_bindings@),
            ),
            CheckedExprKind::Function(function) => TypedKind::Function(Box::new(function.view())),
            CheckedExprKind::Ascribe { target, value } => TypedKind::Ascribe(
                target@,
                Box::new((*value).view()),
            ),
            CheckedExprKind::TypeTag(ty) => TypedKind::TypeTag(ty@),
        }
    }
}

impl CheckedParam {
    pub open spec fn view(&self) -> TypedParam {
        TypedParam { id: self.id, name: self.name@, ty: self.ty@ }
    }
}

pub open spec fn typed_params(params: Seq<CheckedParam>) -> Seq<TypedParam> {
    Seq::new(params.len(), |i: int| params[i].view())
}

impl CheckedMatchArm {
    pub open spec fn view(&self) -> TypedArm
        decreases self,
    {
        TypedArm {
            constructor: self.constructor@,
            binding: self.binding@,
            body: Box::new((*self.body).view()),
        }
    }
}

/// The view of an optional name.
pub open spec fn option_name(name: Option<String>) -> Option<Seq<char>> {
    match name {
        Some(name) => Some(name@),
        None => None,
    }
}

impl CheckedFn {
    pub open spec fn view(&self) -> TypedFn
        decreases self,
    {
        TypedFn {
            name: option_name(self.name),
            type_params: texts(self.type_params@),
            equality_params: texts(self.equality_params@),
            params: typed_params(self.params@),
            result: self.result@,
            body: self.body.view(),
        }
    }
}

impl CheckedBinding {
    pub open spec fn view(&self) -> TypedBinding
        decreases self,
    {
        TypedBinding {
            id: self.id,
            name: self.name@,
            ty: self.ty@,
            initializer: self.initializer.view(),
        }
    }
}

impl CheckedBlock {
    pub open spec fn view(&self) -> TypedBlock
        decreases self,
    {
        TypedBlock {
            frame_layout: self.frame_layout@,
            bindings: typed_bindings(self.bindings@),
            expressions: typeds(self.expressions@),
        }
    }
}

pub open spec fn typeds(list: Seq<CheckedExpr>) -> Seq<Typed>
    decreases list,
{
    Seq::new(
        list.len(),
        |i: int|
            if 0 <= i < list.len() {
                list[i].view()
            } else {
                arbitrary()
            },
    )
}

pub open spec fn typed_members(fields: Seq<(String, CheckedExpr)>) -> Seq<(Seq<char>, Typed)>
    decreases fields,
{
    Seq::new(
        fields.len(),
        |i: int|
            if 0 <= i < fields.len() {
                (fields[i].0@, fields[i].1.view())
            } else {
                arbitrary()
            },
    )
}

pub open spec fn typed_arms(arms: Seq<CheckedMatchArm>) -> Seq<TypedArm>
    decreases arms,
{
    Seq::new(
        arms.len(),
        |i: int|
            if 0 <= i < arms.len() {
                arms[i].view()
            } else {
                arbitrary()
            },
    )
}

pub open spec fn typed_bindings(list: Seq<CheckedBinding>) -> Seq<TypedBinding>
    decreases list,
{
    Seq::new(
        list.len(),
        |i: int|
            if 0 <= i < list.len() {
                list[i].view()
            } else {
                arbitrary()
            },
    )
}

pub fn checked(ty: MagType, kind: CheckedExprKind) -> (expr: CheckedExpr)
    ensures
        expr@ == (Typed { ty: ty@, kind: kind@ }),
{
    CheckedExpr { ty, kind }
}

// ---------------------------------------------------------------------------
// Copies
// ---------------------------------------------------------------------------

impl CheckedExpr {
    pub fn copy(&self) -> (copy: Self)
        ensures
            copy@ == self@,
        decreases self,
    {
        CheckedExpr { ty: self.ty.copy(), kind: self.kind.copy() }
    }
}

impl CheckedParam {
    pub fn copy(&self) -> (copy: Self)
        ensures
            copy@ == self@,
    {
        CheckedParam { id: self.id, name: self.name.clone(), ty: self.ty.copy() }
    }
}

impl CheckedExprKind {
    pub fn copy(&self) -> (copy: Self)
        ensures
            copy@ == self@,
        decreases self,
    {
        match self {
            CheckedExprKind::Unit => CheckedExprKind::Unit,
            CheckedExprKind::Str(value) => CheckedExprKind::Str(value.clone()),
            CheckedExprKind::Int(value) => CheckedExprKind::Int(*value),
            CheckedExprKind::Float(notation) => CheckedExprKind::Float(notation.clone()),
            CheckedExprKind::Bool(value) => CheckedExprKind::Bool(*value),
            CheckedExprKind::Keyword(name) => CheckedExprKind::Keyword(name.clone()),
            CheckedExprKind::BindingRef(id) => CheckedExprKind::BindingRef(*id),
            CheckedExprKind::Vector(items) => CheckedExprKind::Vector(copy_checked(items)),
            CheckedExprKind::Fields(fields) => CheckedExprKind::Fields(copy_checked_fields(fields)),
            CheckedExprKind::If { condition, then_branch, else_branch } => CheckedExprKind::If {
                condition: Box::new(condition.copy()),
                then_branch: Box::new(then_branch.copy()),
                else_branch: Box::new(else_branch.copy()),
            },
            CheckedExprKind::Construct { owner, constructor, payload } => {
                CheckedExprKind::Construct {
                    owner: owner.copy(),
                    constructor: constructor.copy(),
                    payload: Box::new(payload.copy()),
                }
            },
            CheckedExprKind::Match { value, arms } => CheckedExprKind::Match {
                value: Box::new(value.copy()),
                arms: copy_arms(arms),
            },
            CheckedExprKind::Call { callee, args, type_bindings } => CheckedExprKind::Call {
                callee: Box::new(callee.copy()),
                args: copy_checked(args),
                type_bindings: copy_fields(type_bindings),
            },
            CheckedExprKind::Function(function) => CheckedExprKind::Function(function.copy()),
            CheckedExprKind::Ascribe { target, value } => CheckedExprKind::Ascribe {
                target: target.copy(),
                value: Box::new(value.copy()),
            },
            CheckedExprKind::TypeTag(ty) => CheckedExprKind::TypeTag(ty.copy()),
        }
    }
}

pub fn copy_name(name: &Option<String>) -> (copy: Option<String>)
    ensures
        option_name(copy) == option_name(*name),
{
    match name {
        Some(name) => Some(name.clone()),
        None => None,
    }
}

impl CheckedFn {
    pub fn copy(&self) -> (copy: Self)
        ensures
            copy@ == self@,
        decreases self,
    {
        CheckedFn {
            name: copy_name(&self.name),
            type_params: copy_texts(&self.type_params),
            equality_params: copy_texts(&self.equality_params),
            params: copy_params(&self.params),
            result: self.result.copy(),
            body: self.body.copy(),
        }
    }
}

pub fn copy_ids(ids: &Vec<BindingId>) -> (copy: Vec<BindingId>)
    ensures
        copy@ == ids@,
{
    let mut copy: Vec<BindingId> = Vec::new();
    let mut i: usize = 0;
    while i < ids.len()
        invariant
            i <= ids@.len(),
            copy@ == ids@.take(i as int),
        decreases ids@.len() - i,
    {
        copy.push(ids[i]);
        i = i + 1;
    }
    assert(ids@.take(ids@.len() as int) =~= ids@);
    copy
}

impl CheckedBlock {
    pub fn copy(&self) -> (copy: Self)
        ensures
            copy@ == self@,
        decreases self,
    {
        CheckedBlock {
            frame_layout: copy_ids(&self.frame_layout),
            bindings: copy_bindings(&self.bindings),
            expressions: copy_checked(&self.expressions),
        }
    }
}

pub fn copy_params(params: &Vec<CheckedParam>) -> (copy: Vec<CheckedParam>)
    ensures
        typed_params(copy@) == typed_params(params@),
{
    let mut copy: Vec<CheckedParam> = Vec::new();
    let mut i: usize = 0;
    while i < params.len()
        invariant
            i <= params@.len(),
            copy@.len() == i,
            forall|j: int| 0 <= j < i ==> (#[trigger] copy@[j])@ == params@[j]@,
        decreases params@.len() - i,
    {
        copy.push(params[i].copy());
        i = i + 1;
    }
    assert(typed_params(copy@) =~= typed_params(params@));
    copy
}

pub fn copy_checked(list: &Vec<CheckedExpr>) -> (copy: Vec<CheckedExpr>)
    ensures
        typeds(copy@) == typeds(list@),
    decreases list,
{
    let mut copy: Vec<CheckedExpr> = Vec::new();
    let mut i: usize = 0;
    while i < list.len()
        invariant
            i <= list@.len(),
            copy@.len() == i,
            forall|j: int| 0 <= j < i ==> (#[trigger] copy@[j])@ == list@[j]@,
        decreases list@.len() - i,
    {
        copy.push(list[i].copy());
        i = i + 1;
    }
    assert(typeds(copy@) =~= typeds(list@));
    copy
}

fn copy_checked_fields(fields: &Vec<(String, CheckedExpr)>) -> (copy: Vec<(String, CheckedExpr)>)
    ensures
        typed_members(copy@) == typed_members(fields@),
    decreases fields,
{
    let mut copy: Vec<(String, CheckedExpr)> = Vec::new();
    let mut i: usize = 0;
    while i < fields.len()
        invariant
            i <= fields@.len(),
            copy@.len() == i,
            forall|j: int|
                0 <= j < i ==> (#[trigger] copy@[j]).0@ == fields@[j].0@ && copy@[j].1@
                    == fields@[j].1@,
        decreases fields@.len() - i,
    {
        let field = &fields[i];
        copy.push((field.0.clone(), field.1.copy()));
        i = i + 1;
    }
    assert(typed_members(copy@) =~= typed_members(fields@));
    copy
}

fn copy_arms(arms: &Vec<CheckedMatchArm>) -> (copy: Vec<CheckedMatchArm>)
    ensures
        typed_arms(copy@) == typed_arms(arms@),
    decreases arms,
{
    let mut copy: Vec<CheckedMatchArm> = Vec::new();
    let mut i: usize = 0;
    while i < arms.len()
        invariant
            i <= arms@.len(),
            copy@.len() == i,
            forall|j: int| 0 <= j < i ==> (#[trigger] copy@[j])@ == arms@[j]@,
        decreases arms@.len() - i,
    {
        let arm = &arms[i];
        copy.push(
            CheckedMatchArm {
                constructor: arm.constructor.copy(),
                binding: arm.binding.copy(),
                body: Box::new(arm.body.copy()),
            },
        );
        i = i + 1;
    }
    assert(typed_arms(copy@) =~= typed_arms(arms@));
    copy
}

fn copy_bindings(list: &Vec<CheckedBinding>) -> (copy: Vec<CheckedBinding>)
    ensures
        typed_bindings(copy@) == typed_bindings(list@),
    decreases list,
{
    let mut copy: Vec<CheckedBinding> = Vec::new();
    let mut i: usize = 0;
    while i < list.len()
        invariant
            i <= list@.len(),
            copy@.len() == i,
            forall|j: int| 0 <= j < i ==> (#[trigger] copy@[j])@ == list@[j]@,
        decreases list@.len() - i,
    {
        let binding = &list[i];
        copy.push(
            CheckedBinding {
                id: binding.id,
                name: binding.name.clone(),
                ty: binding.ty.copy(),
                initializer: binding.initializer.copy(),
            },
        );
        i = i + 1;
    }
    assert(typed_bindings(copy@) =~= typed_bindings(list@));
    copy
}

// ---------------------------------------------------------------------------
// Called bindings
// ---------------------------------------------------------------------------

pub type Called = (BindingId, Ty);

/// The bindings that an expression calls by name, with the types of the calls,
/// in the order in which they are met.
pub open spec fn calls(expr: Typed) -> Seq<Called>
    decreases expr, 0int,
{
    match expr.kind {
        TypedKind::Call(callee, args, _) => {
            let first = match callee.kind {
                TypedKind::BindingRef(id) => seq![(id, callee.ty)],
                _ => Seq::empty(),
            };
            first + calls(*callee) + calls_from(args, 0)
        },
        TypedKind::Vector(items) => calls_from(items, 0),
        TypedKind::Fields(fields) => member_calls(fields, 0),
        TypedKind::If(condition, then_branch, else_branch) => calls(*condition) + calls(
            *then_branch,
        ) + calls(*else_branch),
        TypedKind::Construct(_, _, payload) => calls(*payload),
        TypedKind::Ascribe(_, value) => calls(*value),
        TypedKind::Match(value, arms) => calls(*value) + arm_calls(arms, 0),
        TypedKind::Function(function) => block_calls(function.body),
        _ => Seq::empty(),
    }
}

pub open spec fn calls_from(list: Seq<Typed>, i: int) -> Seq<Called>
    decreases list, list.len() - i,
{
    if i < 0 || i >= list.len() {
        Seq::empty()
    } else {
        calls(list[i]) + calls_from(list, i + 1)
    }
}

pub open spec fn member_calls(fields: Seq<(Seq<char>, Typed)>, i: int) -> Seq<Called>
    decreases fields, fields.len() - i,
{
    if i < 0 || i >= fields.len() {
        Seq::empty()
    } else {
        calls(fields[i].1) + member_calls(fields, i + 1)
    }
}

pub open spec fn arm_calls(arms: Seq<TypedArm>, i: int) -> Seq<Called>
    decreases arms, arms.len() - i,
{
    if i < 0 || i >= arms.len() {
        Seq::empty()
    } else {
        calls(*arms[i].body) + arm_calls(arms, i + 1)
    }
}

pub open spec fn binding_calls(list: Seq<TypedBinding>, i: int) -> Seq<Called>
    decreases list, list.len() - i,
{
    if i < 0 || i >= list.len() {
        Seq::empty()
    } else {
        calls(list[i].initializer) + binding_calls(list, i + 1)
    }
}

pub open spec fn block_calls(block: TypedBlock) -> Seq<Called>
    decreases block, 0int,
{
    binding_calls(block.bindings, 0) + calls_from(block.expressions, 0)
}

/// The views of recorded calls.
pub open spec fn called(list: Seq<(BindingId, MagType)>) -> Seq<Called> {
    Seq::new(list.len(), |i: int| (list[i].0, list[i].1@))
}

pub fn collect_called_bindings(expression: &CheckedExpr, out: &mut Vec<(BindingId, MagType)>)
    ensures
        called(final(out)@) == called(old(out)@) + calls(expression@),
    decreases expression,
{
    assert(expression@.kind == expression.kind@);
    match &expression.kind {
        CheckedExprKind::Call { callee, args, .. } => {
            let ghost before = called(out@);
            match callee.kind {
                CheckedExprKind::BindingRef(id) => {
                    out.push((id, callee.ty.copy()));
                    assert(called(out@) =~= before + seq![(id, callee.ty@)]);
                },
                _ => {
                    assert(before =~= before + Seq::<Called>::empty());
                },
            }
            collect_called_bindings(callee, out);
            collect_from_list(args, out);
            assert(called(out@) =~= before + calls(expression@));
        },
        CheckedExprKind::Vector(items) => {
            collect_from_list(items, out);
        },
        CheckedExprKind::Fields(fields) => {
            collect_from_fields(fields, out);
        },
        CheckedExprKind::If { condition, then_branch, else_branch } => {
            collect_called_bindings(condition, out);
            collect_called_bindings(then_branch, out);
            collect_called_bindings(else_branch, out);
            assert(called(out@) =~= called(old(out)@) + calls(expression@));
        },
        CheckedExprKind::Construct { payload, .. } => {
            collect_called_bindings(payload, out);
        },
        CheckedExprKind::Ascribe { value, .. } => {
            collect_called_bindings(value, out);
        },
        CheckedExprKind::Match { value, arms } => {
            collect_called_bindings(value, out);
            collect_from_arms(arms, out);
            assert(called(out@) =~= called(old(out)@) + calls(expression@));
        },
        CheckedExprKind::Function(function) => {
            assert(function@.body == function.body@);
            collect_called_bindings_in_block(&function.body, out);
        },
        _ => {
            assert(called(out@) =~= called(old(out)@) + calls(expression@));
        },
    }
}

fn collect_from_list(list: &Vec<CheckedExpr>, out: &mut Vec<(BindingId, MagType)>)
    ensures
        called(final(out)@) == called(old(out)@) + calls_from(typeds(list@), 0),
    decreases list,
{
    let ghost all = typeds(list@);
    let mut i: usize = 0;
    while i < list.len()
        invariant
            i <= list@.len(),
            all == typeds(list@),
            called(out@) + calls_from(all, i as int) =~= called(old(out)@) + calls_from(all, 0),
        decreases list@.len() - i,
    {
        assert(all[i as int] == list@[i as int]@);
        let ghost before = called(out@);
        collect_called_bindings(&list[i], out);
        assert(before + (calls(all[i as int]) + calls_from(all, i + 1)) =~= called(out@)
            + calls_from(all, i + 1));
        i = i + 1;
    }
    assert(called(out@) =~= called(out@) + Seq::<Called>::empty());
}

fn collect_from_fields(fields: &Vec<(String, CheckedExpr)>, out: &mut Vec<(BindingId, MagType)>)
    ensures
        called(final(out)@) == called(old(out)@) + member_calls(typed_members(fields@), 0),
    decreases fields,
{
    let ghost all = typed_members(fields@);
    let mut i: usize = 0;
    while i < fields.len()
        invariant
            i <= fields@.len(),
            all == typed_members(fields@),
            called(out@) + member_calls(all, i as int) =~= called(old(out)@) + member_calls(
                all,
                0,
            ),
        decreases fields@.len() - i,
    {
        let field = &fields[i];
        assert(all[i as int].1 == field.1@);
        let ghost before = called(out@);
        collect_called_bindings(&field.1, out);
        assert(before + (calls(all[i as int].1) + member_calls(all, i + 1)) =~= called(out@)
            + member_calls(all, i + 1));
        i = i + 1;
    }
    assert(called(out@) =~= called(out@) + Seq::<Called>::empty());
}

fn collect_from_arms(arms: &Vec<CheckedMatchArm>, out: &mut Vec<(BindingId, MagType)>)
    ensures
        called(final(out)@) == called(old(out)@) + arm_calls(typed_arms(arms@), 0),
    decreases arms,
{
    let ghost all = typed_arms(arms@);
    let mut i: usize = 0;
    while i < arms.len()
        invariant
            i <= arms@.len(),
            all == typed_arms(arms@),
            called(out@) + arm_calls(all, i as int) =~= called(old(out)@) + arm_calls(all, 0),
        decreases arms@.len() - i,
    {
        let arm = &arms[i];
        assert(*all[i as int].body == arm.body@);
        let ghost before = called(out@);
        collect_called_bindings(&arm.body, out);
        assert(before + (calls(*all[i as int].body) + arm_calls(all, i + 1)) =~= called(out@)
            + arm_calls(all, i + 1));
        i = i + 1;
    }
    assert(called(out@) =~= called(out@) + Seq::<Called>::empty());
}

fn collect_from_bindings(list: &Vec<CheckedBinding>, out: &mut Vec<(BindingId, MagType)>)
    ensures
        called(final(out)@) == called(old(out)@) + binding_calls(typed_bindings(list@), 0),
    decreases list,
{
    let ghost all = typed_bindings(list@);
    let mut i: usize = 0;
    while i < list.len()
        invariant
            i <= list@.len(),
            all == typed_bindings(list@),
            called(out@) + binding_calls(all, i as int) =~= called(old(out)@) + binding_calls(
                all,
                0,
            ),
        decreases list@.len() - i,
    {
        let binding = &list[i];
        assert(all[i as int].initializer == binding.initializer@);
        let ghost before = called(out@);
        collect_called_bindings(&binding.initializer, out);
        assert(before + (calls(all[i as int].initializer) + binding_calls(all, i + 1)) =~= called(
            out@,
        ) + binding_calls(all, i + 1));
        i = i + 1;
    }
    assert(called(out@) =~= called(out@) + Seq::<Called>::empty());
}

pub fn collect_called_bindings_in_block(block: &CheckedBlock, out: &mut Vec<(BindingId, MagType)>)
    ensures
        called(final(out)@) == called(old(out)@) + block_calls(block@),
    decreases block,
{
    collect_from_bindings(&block.bindings, out);
    collect_from_list(&block.expressions, out);
    assert(called(out@) =~= called(old(out)@) + block_calls(block@));
}

} // verus!
