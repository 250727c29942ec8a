//! More answers of the host never change what came of an evaluation that needed no more.

use crate::asking::{
    Halt, Query, answered, answered_from, asking_result, calls_back, computed, declared_into,
    list_question, single_question, table_from,
};
use crate::builtins::{Builtin, builtin_of};
use crate::checked::{BindingId, Typed, TypedArm, TypedBinding, TypedBlock, TypedKind};
use crate::collections::{Kept, kept};
use crate::content::{put_field, val_json};
use crate::declare::Concrete;
use crate::descriptors::descriptors_in;
use crate::env::{World, ready_value};
use crate::error::Failure;
use crate::files::{file_read, path_argument, place_query};
use crate::frames::{
    binding_name, cell_of, declared, initializer_of, inside_call, keyed, ready_bound,
};
use crate::fuel::stepped_once;
use crate::json::json_text;
use crate::machine::{
    At, Forced, Run, applied_value, arm_for, bindings_at_run_time, block_evaluated,
    builtin_applied, call_of, callable, cycle_start, evaluated, evaluated_from, expression,
    fields_from, folded_from, forced_binding, forced_from, function_applied, indexed_from,
    inner_scope, kept_from, last_from, noting, noting_call, noting_recall, weight, with_call,
};
use crate::memo::remembered;
use crate::profile::Counter;
use crate::rules::takes_exactly;
use crate::types::Ty;
use crate::validity::{at_run_time, is_true};
use crate::value::{FnVal, Val, bare};
use vstd::prelude::*;

verus! {

pub type Answers = Seq<(Query, Result<Val, Failure>)>;

/// Whatever is answered by some answers is answered in the same way by others.
pub open spec fn answers_more(fewer: Answers, more: Answers) -> bool {
    forall|query: Query|
        !(answered(fewer, query) matches Err(Halt::Asked(_))) ==> #[trigger] answered(more, query)
            == answered(fewer, query)
}

/// An outcome that did not end in a question.
pub open spec fn needs_nothing<T>(result: Result<T, Halt>) -> bool {
    !(result matches Err(Halt::Asked(_)))
}

/// Where an evaluation stands, with other answers.
pub open spec fn with_answers(at: At, more: Answers) -> At {
    At { replies: more, ..at }
}

proof fn lemma_answer_kept(earlier: Answers, later: Answers, query: Query, i: int)
    requires
        0 <= i <= earlier.len(),
    ensures
        needs_nothing(answered_from(earlier, query, i)) ==> answered_from(
            earlier + later,
            query,
            i,
        ) == answered_from(earlier, query, i),
    decreases earlier.len() - i,
{
    if i < earlier.len() {
        assert((earlier + later)[i] == earlier[i]);
        lemma_answer_kept(earlier, later, query, i + 1);
    }
}

/// Answers that are added behind others leave those as they are.
pub proof fn lemma_added_answers(earlier: Answers, later: Answers)
    ensures
        answers_more(earlier, earlier + later),
{
    assert forall|query: Query|
        !(answered(earlier, query) matches Err(Halt::Asked(_))) implies #[trigger] answered(
        earlier + later,
        query,
    ) == answered(earlier, query) by {
        lemma_answer_kept(earlier, later, query, 0);
    }
}

// ---------------------------------------------------------------------------
// Functions of the language
// ---------------------------------------------------------------------------

proof fn lemma_table_kept(fewer: Answers, more: Answers, list: Seq<Concrete>, i: int, table: Kept)
    requires
        answers_more(fewer, more),
    ensures
        needs_nothing(table_from(fewer, list, i, table)) ==> table_from(more, list, i, table)
            == table_from(fewer, list, i, table),
    decreases list.len() - i,
{
    if 0 <= i < list.len() {
        assert(needs_nothing(answered(fewer, Query::Declarations(list[i]))) ==> answered(
            more,
            Query::Declarations(list[i]),
        ) == answered(fewer, Query::Declarations(list[i])));
        if let Ok(Val::MapOf(entries)) = answered(fewer, Query::Declarations(list[i])) {
            if let Ok(next) = declared_into(table, entries, 0) {
                lemma_table_kept(fewer, more, list, i + 1, next);
            }
        }
    }
}

proof fn lemma_asking_kept(fewer: Answers, more: Answers, builtin: Builtin, args: Seq<Val>)
    requires
        answers_more(fewer, more),
    ensures
        needs_nothing(asking_result(fewer, builtin, args)) ==> asking_result(more, builtin, args)
            == asking_result(fewer, builtin, args),
{
    match builtin {
        Builtin::Conforms => {
            if let Val::TypeDescriptor(ty) = bare(args[1]) {
                let schema = Query::Schema(ty);
                assert(needs_nothing(answered(fewer, schema)) ==> answered(more, schema)
                    == answered(fewer, schema));
                if let Ok(data) = val_json(args[0]) {
                    let valid = Query::Valid(ty, json_text(data));
                    assert(needs_nothing(answered(fewer, valid)) ==> answered(more, valid)
                        == answered(fewer, valid));
                }
            }
        },
        Builtin::DescriptorTable => {
            if let Ok(list) = descriptors_in(
                args[0],
                "descriptor_table expects a descriptor list"@,
            ) {
                lemma_table_kept(fewer, more, list, 0, Seq::empty());
            }
        },
        Builtin::DescriptorInputCoveredBy
        | Builtin::DescriptorInputAssignments
        | Builtin::DescriptorOutputCoveredBy => {
            if let Ok(query) = list_question(builtin, args) {
                assert(needs_nothing(answered(fewer, query)) ==> answered(more, query)
                    == answered(fewer, query));
            }
        },
        _ => {
            if let Ok(query) = single_question(builtin, args) {
                assert(needs_nothing(answered(fewer, query)) ==> answered(more, query)
                    == answered(fewer, query));
            }
        },
    }
}

proof fn lemma_computed_kept(
    world: World,
    fewer: Answers,
    more: Answers,
    builtin: Builtin,
    args: Seq<Val>,
)
    requires
        answers_more(fewer, more),
    ensures
        needs_nothing(computed(world, fewer, builtin, args)) ==> computed(
            world,
            more,
            builtin,
            args,
        ) == computed(world, fewer, builtin, args),
{
    lemma_asking_kept(fewer, more, builtin, args);
}

proof fn lemma_read_kept(run: Run, fewer: Answers, more: Answers, builtin: Builtin, args: Seq<Val>)
    requires
        answers_more(fewer, more),
    ensures
        needs_nothing(file_read(run, builtin, args, fewer).result) ==> file_read(
            run,
            builtin,
            args,
            more,
        ) == file_read(run, builtin, args, fewer),
{
    if let Ok(path) = path_argument(builtin, args) {
        let place = place_query(builtin, path);
        assert(needs_nothing(answered(fewer, place)) ==> answered(more, place) == answered(
            fewer,
            place,
        ));
        if let Ok(Val::Str(full)) = answered(fewer, place) {
            let content = Query::File(full);
            assert(needs_nothing(answered(fewer, content)) ==> answered(more, content)
                == answered(fewer, content));
            if let Ok(Val::Str(text)) = answered(fewer, content) {
                let document = Query::Document(text);
                assert(needs_nothing(answered(fewer, document)) ==> answered(more, document)
                    == answered(fewer, document));
            }
        }
    }
}

// ---------------------------------------------------------------------------
// Evaluation
// ---------------------------------------------------------------------------

/// An expression that was evaluated without a question comes to the same with more
/// answers.
pub proof fn lemma_evaluated_same(run: Run, expr: Typed, at: At, more: Answers)
    requires
        answers_more(at.replies, more),
    ensures
        needs_nothing(evaluated(run, expr, at).result) ==> evaluated(
            run,
            expr,
            with_answers(at, more),
        ) == evaluated(run, expr, at),
    decreases at.exprs, at.calls, 0int, 0int, 0int,
{
    if at.exprs > 0 {
        if let Ok(steps) = stepped_once(run.steps) {
            let inner = At { exprs: (at.exprs - 1) as nat, ..at };
            lemma_expression_same(
                Run { steps, ..noting(run, Counter::EvaluatorSteps) },
                expr,
                inner,
                more,
            );
            assert(with_answers(inner, more) == (At {
                exprs: (at.exprs - 1) as nat,
                ..with_answers(at, more)
            }));
        }
    }
}

proof fn lemma_expression_same(run: Run, expr: Typed, at: At, more: Answers)
    requires
        answers_more(at.replies, more),
    ensures
        needs_nothing(expression(run, expr, at).result) ==> expression(
            run,
            expr,
            with_answers(at, more),
        ) == expression(run, expr, at),
    decreases at.exprs, at.calls, 9int, 0int, 0int,
{
    match expr.kind {
        TypedKind::Float(notation) => {
            let query = Query::Number(notation);
            assert(needs_nothing(answered(at.replies, query)) ==> answered(more, query)
                == answered(at.replies, query));
        },
        TypedKind::BindingRef(key) => {
            lemma_forced_same(run, key, at, more);
        },
        TypedKind::Vector(items) => {
            lemma_evaluated_from_same(run, items, 0, Seq::empty(), at, more);
        },
        TypedKind::Fields(fields) => {
            lemma_fields_same(run, fields, 0, Seq::empty(), at, more);
        },
        TypedKind::If(condition, then_branch, else_branch) => {
            let done = evaluated(run, *condition, at);
            lemma_evaluated_same(run, *condition, at, more);
            if let Ok(value) = done.result {
                if is_true(value) {
                    lemma_evaluated_same(done.run, *then_branch, at, more);
                } else {
                    lemma_evaluated_same(done.run, *else_branch, at, more);
                }
            }
        },
        TypedKind::Construct(_, _, payload) => {
            lemma_evaluated_same(run, *payload, at, more);
        },
        TypedKind::Match(value, arms) => {
            lemma_match_same(run, expr, *value, arms, at, more);
        },
        TypedKind::Call(callee, args, type_bindings) => {
            lemma_call_same(run, expr, *callee, args, type_bindings, at, more);
        },
        TypedKind::Ascribe(_, value) => {
            lemma_evaluated_same(run, *value, at, more);
        },
        _ => {},
    }
}

proof fn lemma_match_same(
    run: Run,
    expr: Typed,
    value: Typed,
    arms: Seq<TypedArm>,
    at: At,
    more: Answers,
)
    requires
        answers_more(at.replies, more),
        expr.kind == TypedKind::Match(Box::new(value), arms),
    ensures
        needs_nothing(expression(run, expr, at).result) ==> expression(
            run,
            expr,
            with_answers(at, more),
        ) == expression(run, expr, at),
    decreases at.exprs, at.calls, 8int, 1int, 0int,
{
    let done = evaluated(run, value, at);
    lemma_evaluated_same(run, value, at, more);
    if let Ok(value) = done.result {
        if let Val::Adt(_, constructor, payload) = bare(value) {
            if let Some(arm) = arm_for(arms, constructor, 0) {
                let bound = ready_bound(arm.binding.name, *payload);
                let world = keyed(inner_scope(done.run.world), arm.binding.id, bound);
                lemma_evaluated_same(Run { world, ..done.run }, *arm.body, at, more);
            }
        }
    }
}

proof fn lemma_call_same(
    run: Run,
    expr: Typed,
    callee: Typed,
    args: Seq<Typed>,
    type_bindings: Seq<(Seq<char>, Ty)>,
    at: At,
    more: Answers,
)
    requires
        answers_more(at.replies, more),
        expr.kind == TypedKind::Call(Box::new(callee), args, type_bindings),
    ensures
        needs_nothing(expression(run, expr, at).result) ==> expression(
            run,
            expr,
            with_answers(at, more),
        ) == expression(run, expr, at),
    decreases at.exprs, at.calls, 8int, 1int, 0int,
{
    let target = evaluated(run, callee, at);
    lemma_evaluated_same(run, callee, at, more);
    if let Ok(function) = target.result {
        let values = evaluated_from(target.run, args, 0, Seq::empty(), at);
        lemma_evaluated_from_same(target.run, args, 0, Seq::empty(), at, more);
        if let Ok(list) = values.result {
            let world = values.run.world;
            let inner = At { forced: with_call(at.forced, world, callee), ..at };
            let signature = Some(at_run_time(world, callee.ty));
            let bindings = bindings_at_run_time(world, type_bindings);
            lemma_applied_same(values.run, function, list, signature, bindings, inner, more);
            assert(with_answers(inner, more) == (At {
                forced: with_call(at.forced, world, callee),
                ..with_answers(at, more)
            }));
        }
    }
}

proof fn lemma_forced_same(run: Run, key: BindingId, at: At, more: Answers)
    requires
        answers_more(at.replies, more),
    ensures
        needs_nothing(forced_binding(run, key, at).result) ==> forced_binding(
            run,
            key,
            with_answers(at, more),
        ) == forced_binding(run, key, at),
    decreases at.exprs, at.calls, 1int, 0int, 0int,
{
    let cell = cell_of(run.world, key);
    let name = binding_name(run.world, cell);
    if cycle_start(at.forced, cell, 0) == -1 && ready_value(run.world, cell) is None {
        if let Some(initializer) = initializer_of(run.world, cell) {
            let forced = at.forced.push(Forced { cell, name, initializing: true });
            let inner = At { forced, ..at };
            lemma_evaluated_same(run, initializer, inner, more);
            assert(with_answers(inner, more) == (At { forced, ..with_answers(at, more) }));
        }
    }
}

proof fn lemma_evaluated_from_same(
    run: Run,
    list: Seq<Typed>,
    i: int,
    before: Seq<Val>,
    at: At,
    more: Answers,
)
    requires
        answers_more(at.replies, more),
    ensures
        needs_nothing(evaluated_from(run, list, i, before, at).result) ==> evaluated_from(
            run,
            list,
            i,
            before,
            with_answers(at, more),
        ) == evaluated_from(run, list, i, before, at),
    decreases at.exprs, at.calls, 2int, 0int, list.len() - i,
{
    if 0 <= i < list.len() {
        let done = evaluated(run, list[i], at);
        lemma_evaluated_same(run, list[i], at, more);
        if let Ok(value) = done.result {
            lemma_evaluated_from_same(done.run, list, i + 1, before.push(value), at, more);
        }
    }
}

proof fn lemma_fields_same(
    run: Run,
    fields: Seq<(Seq<char>, Typed)>,
    i: int,
    before: Kept,
    at: At,
    more: Answers,
)
    requires
        answers_more(at.replies, more),
    ensures
        needs_nothing(fields_from(run, fields, i, before, at).result) ==> fields_from(
            run,
            fields,
            i,
            before,
            with_answers(at, more),
        ) == fields_from(run, fields, i, before, at),
    decreases at.exprs, at.calls, 2int, 0int, fields.len() - i,
{
    if 0 <= i < fields.len() {
        let done = evaluated(run, fields[i].1, at);
        lemma_evaluated_same(run, fields[i].1, at, more);
        if let Ok(value) = done.result {
            let next = put_field(before, fields[i].0, value);
            lemma_fields_same(done.run, fields, i + 1, next, at, more);
        }
    }
}

proof fn lemma_forced_from_same(
    run: Run,
    list: Seq<TypedBinding>,
    i: int,
    at: At,
    more: Answers,
)
    requires
        answers_more(at.replies, more),
    ensures
        needs_nothing(forced_from(run, list, i, at).result) ==> forced_from(
            run,
            list,
            i,
            with_answers(at, more),
        ) == forced_from(run, list, i, at),
    decreases at.exprs, at.calls, 3int, 0int, list.len() - i,
{
    if 0 <= i < list.len() {
        let done = forced_binding(run, list[i].id, at);
        lemma_forced_same(run, list[i].id, at, more);
        if done.result is Ok {
            lemma_forced_from_same(done.run, list, i + 1, at, more);
        }
    }
}

proof fn lemma_last_same(
    run: Run,
    list: Seq<Typed>,
    i: int,
    value: Val,
    at: At,
    more: Answers,
)
    requires
        answers_more(at.replies, more),
    ensures
        needs_nothing(last_from(run, list, i, value, at).result) ==> last_from(
            run,
            list,
            i,
            value,
            with_answers(at, more),
        ) == last_from(run, list, i, value, at),
    decreases at.exprs, at.calls, 2int, 0int, list.len() - i,
{
    if 0 <= i < list.len() {
        let done = evaluated(run, list[i], at);
        lemma_evaluated_same(run, list[i], at, more);
        if let Ok(value) = done.result {
            lemma_last_same(done.run, list, i + 1, value, at, more);
        }
    }
}

/// A block that was evaluated without a question comes to the same with more answers.
pub proof fn lemma_block_same(run: Run, block: TypedBlock, at: At, more: Answers)
    requires
        answers_more(at.replies, more),
    ensures
        needs_nothing(block_evaluated(run, block, at).result) ==> block_evaluated(
            run,
            block,
            with_answers(at, more),
        ) == block_evaluated(run, block, at),
    decreases at.exprs, at.calls, 8int, 0int, 0int,
{
    let start = Run { world: declared(run.world, block.bindings, 0), ..run };
    let forced = forced_from(start, block.bindings, 0, at);
    lemma_forced_from_same(start, block.bindings, 0, at, more);
    if forced.result is Ok {
        lemma_last_same(forced.run, block.expressions, 0, Val::Unit, at, more);
    }
}

/// A call that was made without a question comes to the same with more answers.
pub proof fn lemma_applied_same(
    run: Run,
    function: Val,
    args: Seq<Val>,
    signature: Option<Ty>,
    bindings: Seq<(Seq<char>, Ty)>,
    at: At,
    more: Answers,
)
    requires
        answers_more(at.replies, more),
    ensures
        needs_nothing(applied_value(run, function, args, signature, bindings, at).result)
            ==> applied_value(
            run,
            function,
            args,
            signature,
            bindings,
            with_answers(at, more),
        ) == applied_value(run, function, args, signature, bindings, at),
    decreases at.exprs, at.calls, weight(args), 2int, 0int,
{
    let noted = noting_call(run, function);
    match bare(function) {
        Val::Fn(function) => {
            lemma_function_same(noted, *function, args, signature, bindings, at, more);
        },
        Val::BuiltinFn(name) => {
            if let Some(builtin) = builtin_of(name) {
                lemma_builtin_same(noted, builtin, args, at, more);
            }
        },
        _ => {},
    }
}

proof fn lemma_function_same(
    run: Run,
    function: FnVal,
    args: Seq<Val>,
    signature: Option<Ty>,
    bindings: Seq<(Seq<char>, Ty)>,
    at: At,
    more: Answers,
)
    requires
        answers_more(at.replies, more),
    ensures
        needs_nothing(function_applied(run, function, args, signature, bindings, at).result)
            ==> function_applied(
            run,
            function,
            args,
            signature,
            bindings,
            with_answers(at, more),
        ) == function_applied(run, function, args, signature, bindings, at),
    decreases at.exprs, at.calls, 0int, 0int, 0int,
{
    if at.calls > 0 && args.len() == function.params.len() {
        let call = call_of(run.world, function, args, signature, bindings);
        if let Ok((_, types)) = call.result {
            let found = remembered(call.world, function.id, signature, types, args);
            let noted = noting_recall(run, args, found is Some);
            let inside = Run { world: inside_call(call.world, function, types, args), ..noted };
            let inner = At { calls: (at.calls - 1) as nat, ..at };
            lemma_block_same(inside, function.checked.body, inner, more);
            assert(with_answers(inner, more) == (At {
                calls: (at.calls - 1) as nat,
                ..with_answers(at, more)
            }));
        }
    }
}

proof fn lemma_builtin_same(run: Run, builtin: Builtin, args: Seq<Val>, at: At, more: Answers)
    requires
        answers_more(at.replies, more),
    ensures
        needs_nothing(builtin_applied(run, builtin, args, at).result) ==> builtin_applied(
            run,
            builtin,
            args,
            with_answers(at, more),
        ) == builtin_applied(run, builtin, args, at),
    decreases at.exprs, at.calls, weight(args), 1int, 0int,
{
    if !calls_back(builtin) {
        lemma_read_kept(run, at.replies, more, builtin, args);
        lemma_computed_kept(run.world, at.replies, more, builtin, args);
    } else if args.len() == takes_exactly(builtin) {
        if let Val::List(items) = bare(args[args.len() - 1]) {
            if builtin is Fold {
                lemma_folded_same(run, args[0], args[1], items, 0, at, more);
            } else if builtin is IndexedMap {
                if callable(args[0]) {
                    lemma_indexed_same(run, args[0], items, 0, Seq::empty(), at, more);
                }
            } else {
                lemma_kept_same(run, builtin, args[0], items, 0, Seq::empty(), at, more);
            }
        }
    }
}

proof fn lemma_kept_same(
    run: Run,
    builtin: Builtin,
    function: Val,
    items: Seq<Val>,
    i: int,
    before: Kept,
    at: At,
    more: Answers,
)
    requires
        answers_more(at.replies, more),
    ensures
        needs_nothing(kept_from(run, builtin, function, items, i, before, at).result)
            ==> kept_from(run, builtin, function, items, i, before, with_answers(at, more))
            == kept_from(run, builtin, function, items, i, before, at),
    decreases at.exprs, at.calls, 4int, 0int, items.len() - i,
{
    if 0 <= i < items.len() {
        let done = applied_value(run, function, seq![items[i]], None, Seq::empty(), at);
        lemma_applied_same(run, function, seq![items[i]], None, Seq::empty(), at, more);
        if let Ok(out) = done.result {
            if let Ok(after) = kept(builtin, before, items[i], out) {
                lemma_kept_same(done.run, builtin, function, items, i + 1, after, at, more);
            }
        }
    }
}

proof fn lemma_indexed_same(
    run: Run,
    function: Val,
    items: Seq<Val>,
    i: int,
    before: Kept,
    at: At,
    more: Answers,
)
    requires
        answers_more(at.replies, more),
        callable(function),
    ensures
        needs_nothing(indexed_from(run, function, items, i, before, at).result) ==> indexed_from(
            run,
            function,
            items,
            i,
            before,
            with_answers(at, more),
        ) == indexed_from(run, function, items, i, before, at),
    decreases at.exprs, at.calls, 4int, 3int, items.len() - i,
{
    if 0 <= i < items.len() {
        let args = seq![Val::Int((i as i64) as int), items[i]];
        let done = applied_value(run, function, args, None, Seq::empty(), at);
        lemma_applied_same(run, function, args, None, Seq::empty(), at, more);
        if let Ok(out) = done.result {
            let next = before.push((Seq::empty(), out));
            lemma_indexed_same(done.run, function, items, i + 1, next, at, more);
        }
    }
}

proof fn lemma_folded_same(
    run: Run,
    function: Val,
    before: Val,
    items: Seq<Val>,
    i: int,
    at: At,
    more: Answers,
)
    requires
        answers_more(at.replies, more),
    ensures
        needs_nothing(folded_from(run, function, before, items, i, at).result) ==> folded_from(
            run,
            function,
            before,
            items,
            i,
            with_answers(at, more),
        ) == folded_from(run, function, before, items, i, at),
    decreases at.exprs, at.calls, 6int, 0int, items.len() - i,
{
    if 0 <= i < items.len() {
        let done = applied_value(run, function, seq![before, items[i]], None, Seq::empty(), at);
        lemma_applied_same(run, function, seq![before, items[i]], None, Seq::empty(), at, more);
        if let Ok(value) = done.result {
            lemma_folded_same(done.run, function, value, items, i + 1, at, more);
        }
    }
}

} // verus!
