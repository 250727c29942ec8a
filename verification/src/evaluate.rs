//! The evaluator.

use crate::asking::{Question, Reply, Stop, answer, builtin, calls_back, came_to, stopping};
use crate::builtins::Builtin;
use crate::calls::{calling, check_call, check_resolved_call};
use crate::checked::{
    BindingId, CheckedBinding, CheckedBlock, CheckedExpr, CheckedExprKind, CheckedFn,
    CheckedMatchArm, TypedKind, copy_name, typed_arms, typed_bindings, typed_members,
    typed_params, typeds,
};
use crate::collections::{finish, keep, push_unkeyed};
use crate::content::insert_field;
use crate::declare::{ConcreteType, ConstructorDeclarationId, field_types};
use crate::env::{Binding, Env, Slot, allocated, copy_scopes, count_names, scope_views};
use crate::error::MagError;
use crate::files::file_views;
use crate::frames::{
    complete, copy_initializer, declare_slots, define_ready, enter_function, find_cell,
    name_of_binding, next_cell,
};
use crate::fuel::{Budget, call_room, enter_call, enter_expr, expr_room, step};
use crate::machine::{
    At, Done, DoneAll, DoneFields, Force, Machine, Run, about_function, applied_value, arm_for,
    bindings_at_run_time, block_evaluated, builtin_applied, call_of, collection_marked,
    cycle_failure, cycle_start, evaluated, evaluated_from, expression, fields_from, folded_from,
    forced_binding, forced_from, forced_names, forces, function_applied, indexed_from,
    initializing, kept_from, last_from, made_function, nameless_bound, noting_call,
    noting_snapshot, param_names, param_tys, weight, with_call,
};
use crate::memo::are_memorable;
use crate::primitives::arity;
use crate::profile::{CompileProfile, Counter, add_count, counted, no_counts};
use crate::rules::exact_count;
use crate::text::{cat2, cat4, copy_texts, join_texts, texts};
use crate::types::{MagType, Ty, tys};
use crate::validity::{at_run_time, checked_typed_value, runtime_type, truthy, validate_value};
use crate::value::{FnValue, Val, Value, raw, val_fields, vals};
use vstd::prelude::*;

verus! {

/// The view of what came of an evaluation.
pub open spec fn evaluation(run: Run, result: Result<Value, Stop>) -> Done {
    Done { run, result: came_to(result) }
}

pub open spec fn done_all(run: Run, result: Result<Vec<Value>, Stop>) -> DoneAll {
    DoneAll {
        run,
        result: match result {
            Ok(values) => Ok(vals(values@)),
            Err(stop) => Err(stop@),
        },
    }
}

pub open spec fn done_fields(run: Run, result: Result<Vec<(String, Value)>, Stop>) -> DoneFields {
    DoneFields {
        run,
        result: match result {
            Ok(values) => Ok(val_fields(values@)),
            Err(stop) => Err(stop@),
        },
    }
}

fn find_cycle(forced: &Vec<Force>, cell: BindingId) -> (start: Option<usize>)
    ensures
        match start {
            Some(start) => start < forced@.len() && cycle_start(forces(forced@), cell, 0) == start,
            None => cycle_start(forces(forced@), cell, 0) == -1,
        },
{
    let ghost all = forces(forced@);
    let mut i: usize = 0;
    while i < forced.len()
        invariant
            i <= forced@.len(),
            all == forces(forced@),
            cycle_start(all, cell, 0) == cycle_start(all, cell, i as int),
        decreases forced@.len() - i,
    {
        assert(all[i as int] == forced@[i as int]@);
        if forced[i].cell == cell && forced[i].initializing {
            return Some(i);
        }
        i = i + 1;
    }
    None
}

fn cycle_error(forced: &Vec<Force>, start: usize, name: String) -> (error: MagError)
    requires
        start < forced@.len(),
    ensures
        error@ == cycle_failure(forces(forced@), start as int, name@),
{
    let ghost all = forced_names(forces(forced@).skip(start as int));
    let ghost last = name@;
    let mut names: Vec<String> = Vec::new();
    assert(texts(names@) =~= all.take(0));
    let mut i: usize = start;
    while i < forced.len()
        invariant
            start <= i <= forced@.len(),
            all == forced_names(forces(forced@).skip(start as int)),
            all.len() == forced@.len() - start,
            texts(names@) == all.take(i - start),
        decreases forced@.len() - i,
    {
        let ghost before = texts(names@);
        assert(forces(forced@)[i as int] == forced@[i as int]@);
        names.push(forced[i].name.clone());
        assert(texts(names@) =~= before.push(all[i - start]));
        assert(before.push(all[i - start]) =~= all.take(i - start + 1));
        i = i + 1;
    }
    assert(all.take(all.len() as int) =~= all);
    names.push(name);
    assert(texts(names@) =~= all.push(last));
    let path = join_texts(&names, " -> ");
    MagError::Eval(cat2("binding initialization cycle: ", path.as_str()))
}

fn find_arm<'a>(arms: &'a Vec<CheckedMatchArm>, constructor: &ConstructorDeclarationId) -> (arm:
    Option<&'a CheckedMatchArm>)
    ensures
        match (arm, arm_for(typed_arms(arms@), constructor@, 0)) {
            (Some(arm), Some(view)) => arm@ == view,
            (None, None) => true,
            _ => false,
        },
{
    let ghost all = typed_arms(arms@);
    let mut i: usize = 0;
    while i < arms.len()
        invariant
            i <= arms@.len(),
            all == typed_arms(arms@),
            arm_for(all, constructor@, 0) == arm_for(all, constructor@, i as int),
        decreases arms@.len() - i,
    {
        assert(all[i as int] == arms@[i as int]@);
        let arm = &arms[i];
        if arm.constructor.same(constructor) {
            return Some(arm);
        }
        i = i + 1;
    }
    None
}

fn runtime_bindings(env: &Env, bindings: &Vec<(String, MagType)>) -> (results: Vec<
    (String, MagType),
>)
    ensures
        field_types(results@) == bindings_at_run_time(env@, field_types(bindings@)),
{
    let ghost all = field_types(bindings@);
    let mut results: Vec<(String, MagType)> = Vec::new();
    let mut i: usize = 0;
    while i < bindings.len()
        invariant
            i <= bindings@.len(),
            results@.len() == i,
            all == field_types(bindings@),
            forall|j: int|
                0 <= j < i ==> (#[trigger] results@[j]).0@ == all[j].0 && results@[j].1@
                    == at_run_time(env@, all[j].1),
        decreases bindings@.len() - i,
    {
        let binding = &bindings[i];
        assert(all[i as int] == (binding.0@, binding.1@));
        results.push((binding.0.clone(), runtime_type(env, &binding.1)));
        i = i + 1;
    }
    assert(field_types(results@) =~= bindings_at_run_time(env@, all));
    results
}

fn make_function(function: &CheckedFn, id: BindingId, scopes: &Vec<Vec<Slot>>) -> (value: FnValue)
    ensures
        value@ == made_function(function@, id, scope_views(scopes@)),
{
    let ghost all = typed_params(function.params@);
    let mut names: Vec<String> = Vec::new();
    let mut types: Vec<MagType> = Vec::new();
    let mut i: usize = 0;
    while i < function.params.len()
        invariant
            i <= function.params@.len(),
            names@.len() == i,
            types@.len() == i,
            all == typed_params(function.params@),
            forall|j: int| 0 <= j < i ==> (#[trigger] names@[j])@ == all[j].name,
            forall|j: int| 0 <= j < i ==> (#[trigger] types@[j])@ == all[j].ty,
        decreases function.params@.len() - i,
    {
        let param = &function.params[i];
        assert(all[i as int] == param@);
        names.push(param.name.clone());
        types.push(param.ty.copy());
        i = i + 1;
    }
    assert(texts(names@) =~= param_names(all));
    assert(tys(types@) =~= param_tys(all));
    FnValue {
        id,
        name: copy_name(&function.name),
        type_params: copy_texts(&function.type_params),
        equality_params: copy_texts(&function.equality_params),
        params: names,
        param_types: types,
        return_type: function.result.copy(),
        checked: function.copy(),
        closure: copy_scopes(scopes),
    }
}

/// Allocates a binding that only tells something apart from other things.
fn allocate_nameless(env: &mut Env) -> (id: BindingId)
    ensures
        id == next_cell(old(env)@),
        final(env)@ == allocated(old(env)@, nameless_bound()),
{
    let ghost before = env@;
    let id = BindingId(env.bindings.len() as u64);
    proof {
        reveal_strlit("");
        assert(""@ =~= Seq::<char>::empty());
    }
    let binding = Binding {
        name: "".to_owned(),
        ty: None,
        value: None,
        requirements: Vec::new(),
        initializer: None,
    };
    assert(binding@.requirements =~= Seq::empty());
    assert(binding@ == nameless_bound());
    env.bindings.push(binding);
    assert(env@.bindings =~= before.bindings.push(nameless_bound()));
    id
}

/// What is said of an error while a binding gets its value.
pub fn binding_initialization_error(name: &str, stop: Stop) -> (result: Stop)
    ensures
        result@ == initializing(name@, stop@),
{
    match stop {
        Stop::Failed(MagError::Type(message)) => Stop::Failed(
            MagError::Type(cat4("initializing ", name, ": ", message.as_str())),
        ),
        Stop::Failed(MagError::Eval(message)) => Stop::Failed(
            MagError::Eval(cat4("initializing ", name, ": ", message.as_str())),
        ),
        other => other,
    }
}

fn about(what: &str, function: &FnValue, error: MagError) -> (result: MagError)
    ensures
        result@ == about_function(what@, function@, error@),
{
    match &function.name {
        Some(name) => {
            let message = error.message();
            MagError::Type(cat4(what, name.as_str(), ": ", message.as_str()))
        },
        None => error,
    }
}

fn mark_collection(value: Value, ty: MagType) -> (result: Value)
    ensures
        result@ == collection_marked(value@, ty@),
{
    match ty {
        MagType::MapOf(_, _) | MagType::SetOf(_) => Value::Typed(Box::new(value), ty),
        _ => value,
    }
}

impl Machine {
    /// Counts something once.
    pub(crate) fn note(&mut self, counter: Counter)
        ensures
            final(self).counters == counted(old(self).counters, counter, 1),
            final(self).env == old(self).env,
            final(self).budget == old(self).budget,
            final(self).forced == old(self).forced,
            final(self).replies == old(self).replies,
            final(self).files == old(self).files,
    {
        self.counters = add_count(self.counters, counter, 1);
    }

    /// Counts a call of a value.
    fn note_applied(&mut self, function: &Value)
        ensures
            final(self).run() == noting_call(old(self).run(), function@),
            old(self).level(*final(self)),
    {
        self.note(Counter::FunctionCalls);
        if let Value::BuiltinFn(_) = function {
            self.note(Counter::BuiltinCalls);
        }
        assert(self.run() == noting_call(old(self).run(), function@));
    }

    /// Counts that the scopes were copied.
    fn note_snapshot(&mut self)
        ensures
            final(self).run() == noting_snapshot(old(self).run()),
            final(self).env == old(self).env,
            old(self).level(*final(self)),
    {
        let bindings = count_names(&self.env.scopes);
        self.note(Counter::EnvironmentSnapshots);
        self.counters = add_count(
            self.counters,
            Counter::EnvironmentSnapshotBindings,
            bindings,
        );
        assert(scope_views(self.env.scopes@).len() == self.env.scopes@.len());
    }

    pub fn new(env: Env, replies: Vec<(Question, Reply)>) -> (machine: Self)
        ensures
            machine.env == env,
            machine.replies == replies,
            machine.forced@ == Seq::<Force>::empty(),
            machine.budget == (Budget {
                remaining: None,
                call_depth: 0,
                expr_depth: 0,
                call_limit: 64,
                expr_limit: 128,
            }),
            machine.counters == no_counts(),
            file_views(machine.files@) == Seq::<(Seq<char>, Seq<char>)>::empty(),
    {
        let machine = Machine {
            env,
            budget: Budget::new(),
            forced: Vec::new(),
            replies,
            counters: CompileProfile::default().counters,
            files: Vec::new(),
        };
        assert(file_views(machine.files@) =~= Seq::<(Seq<char>, Seq<char>)>::empty());
        machine
    }

    /// Evaluates an expression.
    pub fn eval_checked_expr(&mut self, expr: &CheckedExpr) -> (result: Result<Value, Stop>)
        ensures
            evaluation(final(self).run(), result) == evaluated(old(self).run(), expr@, old(self).at()),
            old(self).level(*final(self)),
        decreases
                expr_room(old(self).budget),
                call_room(old(self).budget),
                0int,
                0int,
                0int,
    {
        let guard = match enter_expr(&mut self.budget) {
            Ok(guard) => guard,
            Err(error) => return Err(Stop::Failed(error)),
        };
        match step(&mut self.budget) {
            Err(error) => {
                guard.leave(&mut self.budget);
                return Err(Stop::Failed(error));
            },
            Ok(_) => {},
        }
        self.note(Counter::EvaluatorSteps);
        let result = self.eval_kind(expr);
        guard.leave(&mut self.budget);
        result
    }

    fn eval_kind(&mut self, expr: &CheckedExpr) -> (result: Result<Value, Stop>)
        ensures
            evaluation(final(self).run(), result) == expression(old(self).run(), expr@, old(self).at()),
            old(self).level(*final(self)),
        decreases
                expr_room(old(self).budget),
                call_room(old(self).budget),
                9int,
                0int,
                0int,
    {
        match &expr.kind {
            CheckedExprKind::Unit => Ok(Value::Unit),
            CheckedExprKind::Str(text) => Ok(Value::Str(text.clone())),
            CheckedExprKind::Int(value) => Ok(Value::Int(*value)),
            CheckedExprKind::Float(notation) => answer(
                &self.replies,
                Question::Number(notation.clone()),
            ),
            CheckedExprKind::Bool(value) => Ok(Value::Bool(*value)),
            CheckedExprKind::Keyword(name) => Ok(Value::Str(cat2(":", name.as_str()))),
            CheckedExprKind::BindingRef(key) => self.force_binding(*key),
            CheckedExprKind::Vector(items) => match self.eval_list(items) {
                Ok(values) => Ok(Value::List(values)),
                Err(stop) => Err(stop),
            },
            CheckedExprKind::Fields(fields) => match self.eval_fields(fields) {
                Ok(values) => Ok(Value::Fields(values)),
                Err(stop) => Err(stop),
            },
            CheckedExprKind::If { .. } => self.eval_if(expr),
            CheckedExprKind::Construct { .. } => self.eval_construct(expr),
            CheckedExprKind::Match { .. } => self.eval_match(expr),
            CheckedExprKind::Call { .. } => self.eval_call(expr),
            CheckedExprKind::Function(function) => {
                self.note_snapshot();
                let id = allocate_nameless(&mut self.env);
                let made = make_function(function, id, &self.env.scopes);
                Ok(Value::Fn(Box::new(made)))
            },
            CheckedExprKind::Ascribe { .. } => self.eval_ascribe(expr),
            CheckedExprKind::TypeTag(ty) => {
                let ty = runtime_type(&self.env, ty);
                match ConcreteType::resolve(&self.env, &ty) {
                    Ok(ty) => Ok(Value::TypeTag(ty)),
                    Err(error) => Err(Stop::Failed(error)),
                }
            },
        }
    }

    fn eval_if(&mut self, expr: &CheckedExpr) -> (result: Result<Value, Stop>)
        requires
            expr.kind is If,
        ensures
            evaluation(final(self).run(), result) == expression(old(self).run(), expr@, old(self).at()),
            old(self).level(*final(self)),
        decreases
                expr_room(old(self).budget),
                call_room(old(self).budget),
                8int,
                0int,
                0int,
    {
        match &expr.kind {
            CheckedExprKind::If { condition, then_branch, else_branch } => {
                let condition: &CheckedExpr = condition;
                let then_branch: &CheckedExpr = then_branch;
                let else_branch: &CheckedExpr = else_branch;
                assert(expr@.kind == TypedKind::If(
                    Box::new(condition@),
                    Box::new(then_branch@),
                    Box::new(else_branch@),
                ));
                match self.eval_checked_expr(condition) {
                    Err(stop) => Err(stop),
                    Ok(value) => {
                        assert(self.at() == old(self).at());
                        if truthy(&value) {
                            self.eval_checked_expr(then_branch)
                        } else {
                            self.eval_checked_expr(else_branch)
                        }
                    },
                }
            },
            _ => Ok(Value::Unit),
        }
    }

    fn eval_construct(&mut self, expr: &CheckedExpr) -> (result: Result<Value, Stop>)
        requires
            expr.kind is Construct,
        ensures
            evaluation(final(self).run(), result) == expression(old(self).run(), expr@, old(self).at()),
            old(self).level(*final(self)),
        decreases
                expr_room(old(self).budget),
                call_room(old(self).budget),
                8int,
                0int,
                0int,
    {
        match &expr.kind {
            CheckedExprKind::Construct { owner, constructor, payload } => {
                let payload: &CheckedExpr = payload;
                assert(expr@.kind == TypedKind::Construct(
                    owner@,
                    constructor@,
                    Box::new(payload@),
                ));
                let owner = runtime_type(&self.env, owner);
                match self.eval_checked_expr(payload) {
                    Err(stop) => Err(stop),
                    Ok(value) => Ok(
                        Value::Adt {
                            owner,
                            constructor: constructor.copy(),
                            payload: Box::new(value),
                        },
                    ),
                }
            },
            _ => Ok(Value::Unit),
        }
    }

    fn eval_ascribe(&mut self, expr: &CheckedExpr) -> (result: Result<Value, Stop>)
        requires
            expr.kind is Ascribe,
        ensures
            evaluation(final(self).run(), result) == expression(old(self).run(), expr@, old(self).at()),
            old(self).level(*final(self)),
        decreases
                expr_room(old(self).budget),
                call_room(old(self).budget),
                8int,
                0int,
                0int,
    {
        match &expr.kind {
            CheckedExprKind::Ascribe { target, value } => {
                let value: &CheckedExpr = value;
                assert(expr@.kind == TypedKind::Ascribe(target@, Box::new(value@)));
                match self.eval_checked_expr(value) {
                    Err(stop) => Err(stop),
                    Ok(value) => {
                        let ty = runtime_type(&self.env, target);
                        stopping(checked_typed_value(&self.env, value, &ty))
                    },
                }
            },
            _ => Ok(Value::Unit),
        }
    }

    fn eval_match(&mut self, expr: &CheckedExpr) -> (result: Result<Value, Stop>)
        requires
            expr.kind is Match,
        ensures
            evaluation(final(self).run(), result) == expression(old(self).run(), expr@, old(self).at()),
            old(self).level(*final(self)),
        decreases
                expr_room(old(self).budget),
                call_room(old(self).budget),
                8int,
                0int,
                0int,
    {
        match &expr.kind {
            CheckedExprKind::Match { value, arms } => {
                let value: &CheckedExpr = value;
                assert(expr@.kind == TypedKind::Match(Box::new(value@), typed_arms(arms@)));
                let value = match self.eval_checked_expr(value) {
                    Err(stop) => return Err(stop),
                    Ok(value) => value,
                };
                assert(self.at() == old(self).at());
                match raw(&value) {
                    Value::Adt { owner: _, constructor, payload } => {
                        let payload: &Value = payload;
                        match find_arm(arms, constructor) {
                            None => Err(
                                Stop::Failed(
                                    MagError::Type(
                                        cat2(
                                            "match has no arm for selected constructor ",
                                            constructor.name.as_str(),
                                        ),
                                    ),
                                ),
                            ),
                            Some(arm) => {
                                let body: &CheckedExpr = &arm.body;
                                assert(arm@.body == Box::new(body@));
                                self.env.push_scope();
                                define_ready(
                                    &mut self.env,
                                    arm.binding.id,
                                    arm.binding.name.as_str(),
                                    payload.copy(),
                                );
                                assert(self.at() == old(self).at());
                                let result = self.eval_checked_expr(body);
                                self.env.pop_scope();
                                result
                            },
                        }
                    },
                    _ => Err(Stop::Failed(MagError::Type("match value is not an ADT".to_owned()))),
                }
            },
            _ => Ok(Value::Unit),
        }
    }

    #[verifier::rlimit(40)]
    fn eval_call(&mut self, expr: &CheckedExpr) -> (result: Result<Value, Stop>)
        requires
            expr.kind is Call,
        ensures
            evaluation(final(self).run(), result) == expression(old(self).run(), expr@, old(self).at()),
            old(self).level(*final(self)),
        decreases
                expr_room(old(self).budget),
                call_room(old(self).budget),
                8int,
                0int,
                0int,
    {
        match &expr.kind {
            CheckedExprKind::Call { callee, args, type_bindings } => {
                let callee: &CheckedExpr = callee;
                assert(expr@.kind == TypedKind::Call(
                    Box::new(callee@),
                    typeds(args@),
                    field_types(type_bindings@),
                ));
                let function = match self.eval_checked_expr(callee) {
                    Err(stop) => return Err(stop),
                    Ok(function) => function,
                };
                assert(self.at() == old(self).at());
                let values = match self.eval_list(args) {
                    Err(stop) => return Err(stop),
                    Ok(values) => values,
                };
                assert(self.at() == old(self).at());
                let bindings = runtime_bindings(&self.env, type_bindings);
                let signature = runtime_type(&self.env, &callee.ty);
                let ghost world = self.env@;
                let noted = self.note_call(callee);
                assert(self.at() == (At {
                    forced: with_call(old(self).at().forced, world, callee@),
                    ..old(self).at()
                }));
                let result = self.apply_with_signature(
                    &function,
                    &values,
                    Some(&signature),
                    &bindings,
                );
                if noted {
                    let ghost before = forces(self.forced@);
                    self.forced.pop();
                    assert(forces(self.forced@) =~= before.drop_last());
                    assert(before.drop_last() =~= old(self).at().forced);
                }
                match result {
                    Err(stop) => Err(stop),
                    Ok(value) => {
                        let ty = runtime_type(&self.env, &expr.ty);
                        Ok(mark_collection(value, ty))
                    },
                }
            },
            _ => Ok(Value::Unit),
        }
    }

    /// Notes the target of a call while something is being forced.
    fn note_call(&mut self, callee: &CheckedExpr) -> (noted: bool)
        ensures
            final(self).run() == old(self).run(),
            final(self).budget == old(self).budget,
            final(self).replies == old(self).replies,
            forces(final(self).forced@) == with_call(
                forces(old(self).forced@),
                old(self).env@,
                callee@,
            ),
            noted ==> forces(final(self).forced@).len() > 0 && forces(
                final(self).forced@,
            ).drop_last() == forces(old(self).forced@),
            !noted ==> forces(final(self).forced@) == forces(old(self).forced@),
    {
        let ghost before = forces(self.forced@);
        match &callee.kind {
            CheckedExprKind::BindingRef(key) => {
                if self.forced.len() == 0 {
                    assert(before.len() == 0);
                    return false;
                }
                let cell = find_cell(&self.env, *key);
                let name = name_of_binding(&self.env, cell);
                let force = Force { cell, name, initializing: false };
                let ghost view = force@;
                self.forced.push(force);
                assert(forces(self.forced@) =~= before.push(view));
                assert(before.push(view).drop_last() =~= before);
                true
            },
            _ => false,
        }
    }

    fn eval_list(&mut self, list: &Vec<CheckedExpr>) -> (result: Result<Vec<Value>, Stop>)
        ensures
            done_all(final(self).run(), result) == evaluated_from(
                old(self).run(),
                typeds(list@),
                0,
                Seq::empty(),
                old(self).at(),
            ),
            old(self).level(*final(self)),
        decreases
                expr_room(old(self).budget),
                call_room(old(self).budget),
                2int,
                0int,
                0int,
    {
        let ghost all = typeds(list@);
        let ghost at = self.at();
        let ghost whole = evaluated_from(self.run(), all, 0, Seq::empty(), at);
        let mut values: Vec<Value> = Vec::new();
        assert(vals(values@) =~= Seq::<Val>::empty());
        let mut i: usize = 0;
        while i < list.len()
            invariant
                i <= list@.len(),
                all == typeds(list@),
                at == old(self).at(),
                whole == evaluated_from(old(self).run(), all, 0, Seq::empty(), at),
                old(self).level(*self),
                whole == evaluated_from(self.run(), all, i as int, vals(values@), at),
            decreases list@.len() - i,
        {
            assert(all[i as int] == list@[i as int]@);
            assert(self.at() == at);
            match self.eval_checked_expr(&list[i]) {
                Err(stop) => return Err(stop),
                Ok(value) => {
                    let ghost before = vals(values@);
                    let ghost view = value@;
                    values.push(value);
                    assert(vals(values@) =~= before.push(view));
                },
            }
            i = i + 1;
        }
        Ok(values)
    }

    fn eval_fields(&mut self, fields: &Vec<(String, CheckedExpr)>) -> (result: Result<
        Vec<(String, Value)>,
        Stop,
    >)
        ensures
            done_fields(final(self).run(), result) == fields_from(
                old(self).run(),
                typed_members(fields@),
                0,
                Seq::empty(),
                old(self).at(),
            ),
            old(self).level(*final(self)),
        decreases
                expr_room(old(self).budget),
                call_room(old(self).budget),
                2int,
                0int,
                0int,
    {
        let ghost all = typed_members(fields@);
        let ghost at = self.at();
        let ghost whole = fields_from(self.run(), all, 0, Seq::empty(), at);
        let mut values: Vec<(String, Value)> = Vec::new();
        assert(val_fields(values@) =~= Seq::<(Seq<char>, Val)>::empty());
        let mut i: usize = 0;
        while i < fields.len()
            invariant
                i <= fields@.len(),
                all == typed_members(fields@),
                at == old(self).at(),
                whole == fields_from(old(self).run(), all, 0, Seq::empty(), at),
                old(self).level(*self),
                whole == fields_from(self.run(), all, i as int, val_fields(values@), at),
            decreases fields@.len() - i,
        {
            let field = &fields[i];
            assert(all[i as int] == (field.0@, field.1@));
            assert(self.at() == at);
            match self.eval_checked_expr(&field.1) {
                Err(stop) => return Err(stop),
                Ok(value) => insert_field(&mut values, field.0.clone(), value),
            }
            i = i + 1;
        }
        Ok(values)
    }

    /// The value of a binding.
    pub fn force_binding(&mut self, key: BindingId) -> (result: Result<Value, Stop>)
        ensures
            evaluation(final(self).run(), result) == forced_binding(
                old(self).run(),
                key,
                old(self).at(),
            ),
            old(self).level(*final(self)),
        decreases
                expr_room(old(self).budget),
                call_room(old(self).budget),
                1int,
                0int,
                0int,
    {
        let cell = find_cell(&self.env, key);
        let name = name_of_binding(&self.env, cell);
        if let Some(start) = find_cycle(&self.forced, cell) {
            return Err(Stop::Failed(cycle_error(&self.forced, start, name)));
        }
        if let Some(value) = self.env.ready_binding(cell) {
            return Ok(value.copy());
        }
        let initializer = match copy_initializer(&self.env, cell) {
            None => return Err(Stop::Failed(MagError::Unresolved(name))),
            Some(initializer) => initializer,
        };
        let ghost before = forces(self.forced@);
        let force = Force { cell, name, initializing: true };
        let ghost view = force@;
        self.forced.push(force);
        assert(forces(self.forced@) =~= before.push(view));
        assert(self.at() == (At { forced: before.push(view), ..old(self).at() }));
        let result = self.eval_checked_expr(&initializer);
        let ghost inner = forces(self.forced@);
        self.forced.pop();
        assert(forces(self.forced@) =~= inner.drop_last());
        assert(before.push(view).drop_last() =~= before);
        match result {
            Err(stop) => Err(stop),
            Ok(value) => {
                complete(&mut self.env, cell, value.copy());
                Ok(value)
            },
        }
    }

    fn force_all(&mut self, list: &Vec<CheckedBinding>) -> (result: Result<Value, Stop>)
        ensures
            evaluation(final(self).run(), result) == forced_from(
                old(self).run(),
                typed_bindings(list@),
                0,
                old(self).at(),
            ),
            old(self).level(*final(self)),
        decreases
                expr_room(old(self).budget),
                call_room(old(self).budget),
                3int,
                0int,
                0int,
    {
        let ghost all = typed_bindings(list@);
        let ghost at = self.at();
        let ghost whole = forced_from(self.run(), all, 0, at);
        let mut i: usize = 0;
        while i < list.len()
            invariant
                i <= list@.len(),
                all == typed_bindings(list@),
                at == old(self).at(),
                whole == forced_from(old(self).run(), all, 0, at),
                old(self).level(*self),
                whole == forced_from(self.run(), all, i as int, at),
            decreases list@.len() - i,
        {
            assert(all[i as int] == list@[i as int]@);
            assert(self.at() == at);
            let binding = &list[i];
            match self.force_binding(binding.id) {
                Err(stop) => return Err(binding_initialization_error(binding.name.as_str(), stop)),
                Ok(_) => {},
            }
            i = i + 1;
        }
        Ok(Value::Unit)
    }

    fn eval_last(&mut self, list: &Vec<CheckedExpr>) -> (result: Result<Value, Stop>)
        ensures
            evaluation(final(self).run(), result) == last_from(
                old(self).run(),
                typeds(list@),
                0,
                Val::Unit,
                old(self).at(),
            ),
            old(self).level(*final(self)),
        decreases
                expr_room(old(self).budget),
                call_room(old(self).budget),
                2int,
                0int,
                0int,
    {
        let ghost all = typeds(list@);
        let ghost at = self.at();
        let ghost whole = last_from(self.run(), all, 0, Val::Unit, at);
        let mut last = Value::Unit;
        let mut i: usize = 0;
        while i < list.len()
            invariant
                i <= list@.len(),
                all == typeds(list@),
                at == old(self).at(),
                whole == last_from(old(self).run(), all, 0, Val::Unit, at),
                old(self).level(*self),
                whole == last_from(self.run(), all, i as int, last@, at),
            decreases list@.len() - i,
        {
            assert(all[i as int] == list@[i as int]@);
            assert(self.at() == at);
            match self.eval_checked_expr(&list[i]) {
                Err(stop) => return Err(stop),
                Ok(value) => {
                    last = value;
                },
            }
            i = i + 1;
        }
        Ok(last)
    }

    /// Evaluates a block.
    pub fn eval_checked_block(&mut self, block: &CheckedBlock) -> (result: Result<Value, Stop>)
        ensures
            evaluation(final(self).run(), result) == block_evaluated(
                old(self).run(),
                block@,
                old(self).at(),
            ),
            old(self).level(*final(self)),
        decreases
                expr_room(old(self).budget),
                call_room(old(self).budget),
                8int,
                0int,
                0int,
    {
        declare_slots(&mut self.env, &block.bindings);
        assert(self.at() == old(self).at());
        match self.force_all(&block.bindings) {
            Err(stop) => Err(stop),
            Ok(_) => {
                assert(self.at() == old(self).at());
                self.eval_last(&block.expressions)
            },
        }
    }

    /// Calls a value on arguments.
    pub fn apply(&mut self, function: &Value, args: &Vec<Value>) -> (result: Result<Value, Stop>)
        ensures
            evaluation(final(self).run(), result) == applied_value(
                old(self).run(),
                function@,
                vals(args@),
                None,
                Seq::empty(),
                old(self).at(),
            ),
            old(self).level(*final(self)),
        decreases
                expr_room(old(self).budget),
                call_room(old(self).budget),
                weight(vals(args@)),
                2int,
                1int,
    {
        let bindings: Vec<(String, MagType)> = Vec::new();
        assert(field_types(bindings@) =~= Seq::<(Seq<char>, Ty)>::empty());
        self.apply_with_signature(function, args, None, &bindings)
    }

    /// Calls a value on arguments, with the type and the type arguments that the
    /// call was checked with.
    pub fn apply_with_signature(
        &mut self,
        function: &Value,
        args: &Vec<Value>,
        resolved_signature: Option<&MagType>,
        type_bindings: &Vec<(String, MagType)>,
    ) -> (result: Result<Value, Stop>)
        ensures
            evaluation(final(self).run(), result) == applied_value(
                old(self).run(),
                function@,
                vals(args@),
                match resolved_signature {
                    Some(ty) => Some(ty@),
                    None => None,
                },
                field_types(type_bindings@),
                old(self).at(),
            ),
            old(self).level(*final(self)),
        decreases
                expr_room(old(self).budget),
                call_room(old(self).budget),
                weight(vals(args@)),
                2int,
                0int,
    {
        self.note_applied(function);
        assert(self.at() == old(self).at());
        match raw(function) {
            Value::Fn(inner) => {
                let inner: &FnValue = inner;
                self.apply_function(inner, args, resolved_signature, type_bindings)
            },
            Value::BuiltinFn(name) => match Builtin::named(name.as_str()) {
                None => Err(
                    Stop::Failed(MagError::Eval(cat2("unknown builtin ", name.as_str()))),
                ),
                Some(target) => self.apply_builtin(target, args),
            },
            _ => Err(
                Stop::Failed(MagError::Eval(cat2("cannot call ", function.kind_name()))),
            ),
        }
    }

    #[verifier::rlimit(40)]
    fn apply_function(
        &mut self,
        function: &FnValue,
        args: &Vec<Value>,
        resolved_signature: Option<&MagType>,
        type_bindings: &Vec<(String, MagType)>,
    ) -> (result: Result<Value, Stop>)
        ensures
            evaluation(final(self).run(), result) == function_applied(
                old(self).run(),
                function@,
                vals(args@),
                match resolved_signature {
                    Some(ty) => Some(ty@),
                    None => None,
                },
                field_types(type_bindings@),
                old(self).at(),
            ),
            old(self).level(*final(self)),
        decreases
                expr_room(old(self).budget),
                call_room(old(self).budget),
                0int,
                0int,
                0int,
    {
        assert(vals(args@).len() == args@.len());
        assert(texts(function.params@).len() == function.params@.len());
        let guard = match enter_call(&mut self.budget) {
            Ok(guard) => guard,
            Err(error) => return Err(Stop::Failed(error)),
        };
        if args.len() != function.params.len() {
            guard.leave(&mut self.budget);
            return Err(
                Stop::Failed(
                    MagError::Arity { expected: function.params.len(), got: args.len() },
                ),
            );
        }
        let checked = match resolved_signature {
            Some(signature) => check_resolved_call(
                &mut self.env,
                function,
                signature,
                type_bindings,
            ),
            None => check_call(&mut self.env, function, args),
        };
        let ghost call = call_of(
            old(self).run().world,
            function@,
            vals(args@),
            match resolved_signature {
                Some(ty) => Some(ty@),
                None => None,
            },
            field_types(type_bindings@),
        );
        assert(calling(self.env@, checked) == call);
        let (ty, types) = match checked {
            Err(error) => {
                guard.leave(&mut self.budget);
                return Err(Stop::Failed(about("calling ", function, error)));
            },
            Ok((ty, types)) => (ty, types),
        };
        let memorable = are_memorable(args);
        match self.env.memoized_call(function.id, resolved_signature, &types, args) {
            Some(value) => {
                self.note(Counter::MemoizedCallHits);
                guard.leave(&mut self.budget);
                return Ok(value);
            },
            None => {},
        }
        if memorable {
            self.note(Counter::MemoizedCallMisses);
        }
        let scopes = enter_function(&mut self.env, function, &types, args);
        assert(self.at() == (At { calls: (old(self).at().calls - 1) as nat, ..old(self).at() }));
        let result = self.eval_checked_block(&function.checked.body);
        self.env.scopes = scopes;
        guard.leave(&mut self.budget);
        assert(self.env@.scopes == call.world.scopes);
        match result {
            Err(stop) => Err(stop),
            Ok(value) => match validate_value(&self.env, &value, &ty) {
                Err(error) => Err(Stop::Failed(about("returning from ", function, error))),
                Ok(_) => match checked_typed_value(&self.env, value, &ty) {
                    Err(error) => Err(Stop::Failed(error)),
                    Ok(result) => {
                        self.env.memoize_call(
                            function.id,
                            resolved_signature,
                            &types,
                            args,
                            &result,
                        );
                        if memorable {
                            self.note(Counter::MemoizedCallStores);
                        }
                        Ok(result)
                    },
                },
            },
        }
    }

    fn apply_builtin(&mut self, target: Builtin, args: &Vec<Value>) -> (result: Result<
        Value,
        Stop,
    >)
        ensures
            evaluation(final(self).run(), result) == builtin_applied(
                old(self).run(),
                target,
                vals(args@),
                old(self).at(),
            ),
            old(self).level(*final(self)),
        decreases
                expr_room(old(self).budget),
                call_room(old(self).budget),
                weight(vals(args@)),
                1int,
                1int,
    {
        match target {
            Builtin::MapList
            | Builtin::GroupBy
            | Builtin::IndexedMap
            | Builtin::Filter
            | Builtin::FlatMap
            | Builtin::Fold
            | Builtin::SortBy => self.collection_builtin(target, args),
            Builtin::Read | Builtin::ReadJson => self.read_file(target, args),
            _ => builtin(&self.env, &self.replies, target, args),
        }
    }

    /// Evaluates a function that calls one of its arguments.
    pub fn collection_builtin(&mut self, target: Builtin, args: &Vec<Value>) -> (result: Result<
        Value,
        Stop,
    >)
        requires
            calls_back(target),
        ensures
            evaluation(final(self).run(), result) == builtin_applied(
                old(self).run(),
                target,
                vals(args@),
                old(self).at(),
            ),
            old(self).level(*final(self)),
        decreases
                expr_room(old(self).budget),
                call_room(old(self).budget),
                weight(vals(args@)),
                1int,
                0int,
    {
        let ghost all = vals(args@);
        assert(all.len() == args@.len());
        match arity(args, exact_count(target)) {
            Err(error) => return Err(Stop::Failed(error)),
            Ok(_) => {},
        }
        let count = args.len();
        assert(all[0] == args@[0]@);
        assert(all[1] == args@[1]@);
        assert(all[count - 1] == args@[count - 1]@);
        let items = match raw(&args[count - 1]) {
            Value::List(items) => items,
            _ => return Err(
                Stop::Failed(MagError::Eval(cat2(target.name(), " expects a collection"))),
            ),
        };
        assert(vals(items@).len() == items@.len());
        match target {
            Builtin::Fold => self.fold_items(&args[0], &args[1], items),
            Builtin::IndexedMap => {
                match raw(&args[0]) {
                    Value::Fn(_) | Value::BuiltinFn(_) => match self.index_items(&args[0], items) {
                        Ok(list) => Ok(finish(target, list)),
                        Err(stop) => Err(stop),
                    },
                    _ => {
                        if items.len() == 0 {
                            let none: Vec<Value> = Vec::new();
                            assert(vals(none@) =~= Seq::<Val>::empty());
                            Ok(Value::List(none))
                        } else {
                            self.note_applied(&args[0]);
                            Err(
                                Stop::Failed(
                                    MagError::Eval(cat2("cannot call ", args[0].kind_name())),
                                ),
                            )
                        }
                    },
                }
            },
            _ => match self.keep_items(target, &args[0], items) {
                Ok(list) => Ok(finish(target, list)),
                Err(stop) => Err(stop),
            },
        }
    }

    fn keep_items(&mut self, target: Builtin, function: &Value, items: &Vec<Value>) -> (result:
        Result<Vec<(String, Value)>, Stop>)
        ensures
            done_fields(final(self).run(), result) == kept_from(
                old(self).run(),
                target,
                function@,
                vals(items@),
                0,
                Seq::empty(),
                old(self).at(),
            ),
            old(self).level(*final(self)),
        decreases
                expr_room(old(self).budget),
                call_room(old(self).budget),
                4int,
                0int,
                0int,
    {
        let ghost all = vals(items@);
        let ghost at = self.at();
        let ghost whole = kept_from(self.run(), target, function@, all, 0, Seq::empty(), at);
        let mut list: Vec<(String, Value)> = Vec::new();
        assert(val_fields(list@) =~= Seq::<(Seq<char>, Val)>::empty());
        let mut i: usize = 0;
        while i < items.len()
            invariant
                i <= items@.len(),
                all == vals(items@),
                at == old(self).at(),
                whole == kept_from(old(self).run(), target, function@, all, 0, Seq::empty(), at),
                old(self).level(*self),
                whole == kept_from(
                    self.run(),
                    target,
                    function@,
                    all,
                    i as int,
                    val_fields(list@),
                    at,
                ),
            decreases items@.len() - i,
        {
            assert(all[i as int] == items@[i as int]@);
            assert(self.at() == at);
            let mut args: Vec<Value> = Vec::new();
            args.push(items[i].copy());
            assert(vals(args@) =~= seq![all[i as int]]);
            match self.apply(function, &args) {
                Err(stop) => return Err(stop),
                Ok(out) => match keep(target, &mut list, &items[i], out) {
                    Err(error) => return Err(Stop::Failed(error)),
                    Ok(_) => {},
                },
            }
            i = i + 1;
        }
        Ok(list)
    }

    fn index_items(&mut self, function: &Value, items: &Vec<Value>) -> (result: Result<
        Vec<(String, Value)>,
        Stop,
    >)
        ensures
            done_fields(final(self).run(), result) == indexed_from(
                old(self).run(),
                function@,
                vals(items@),
                0,
                Seq::empty(),
                old(self).at(),
            ),
            old(self).level(*final(self)),
        decreases
                expr_room(old(self).budget),
                call_room(old(self).budget),
                4int,
                3int,
                0int,
    {
        let ghost all = vals(items@);
        let ghost at = self.at();
        let ghost whole = indexed_from(self.run(), function@, all, 0, Seq::empty(), at);
        let mut list: Vec<(String, Value)> = Vec::new();
        assert(val_fields(list@) =~= Seq::<(Seq<char>, Val)>::empty());
        let mut i: usize = 0;
        while i < items.len()
            invariant
                i <= items@.len(),
                all == vals(items@),
                at == old(self).at(),
                whole == indexed_from(old(self).run(), function@, all, 0, Seq::empty(), at),
                old(self).level(*self),
                whole == indexed_from(
                    self.run(),
                    function@,
                    all,
                    i as int,
                    val_fields(list@),
                    at,
                ),
            decreases items@.len() - i,
        {
            assert(all[i as int] == items@[i as int]@);
            assert(self.at() == at);
            let mut args: Vec<Value> = Vec::new();
            let index = Value::Int(i as i64);
            let ghost index_view = index@;
            args.push(index);
            args.push(items[i].copy());
            assert(vals(args@) =~= seq![index_view, all[i as int]]);
            match self.apply(function, &args) {
                Err(stop) => return Err(stop),
                Ok(out) => push_unkeyed(&mut list, out),
            }
            i = i + 1;
        }
        Ok(list)
    }

    fn fold_items(&mut self, function: &Value, start: &Value, items: &Vec<Value>) -> (result: Result<
        Value,
        Stop,
    >)
        ensures
            evaluation(final(self).run(), result) == folded_from(
                old(self).run(),
                function@,
                start@,
                vals(items@),
                0,
                old(self).at(),
            ),
            old(self).level(*final(self)),
        decreases
                expr_room(old(self).budget),
                call_room(old(self).budget),
                6int,
                0int,
                0int,
    {
        let ghost all = vals(items@);
        let ghost at = self.at();
        let ghost whole = folded_from(self.run(), function@, start@, all, 0, at);
        let mut value = start.copy();
        let mut i: usize = 0;
        while i < items.len()
            invariant
                i <= items@.len(),
                all == vals(items@),
                at == old(self).at(),
                whole == folded_from(old(self).run(), function@, start@, all, 0, at),
                old(self).level(*self),
                whole == folded_from(self.run(), function@, value@, all, i as int, at),
            decreases items@.len() - i,
        {
            assert(all[i as int] == items@[i as int]@);
            assert(self.at() == at);
            let ghost before = value@;
            let mut args: Vec<Value> = Vec::new();
            args.push(value);
            args.push(items[i].copy());
            assert(vals(args@) =~= seq![before, all[i as int]]);
            match self.apply(function, &args) {
                Err(stop) => return Err(stop),
                Ok(out) => {
                    value = out;
                },
            }
            i = i + 1;
        }
        Ok(value)
    }
}

} // verus!
