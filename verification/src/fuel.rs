//! How much work an evaluation may do: steps, nested calls and nested expressions.

use crate::error::{Failure, MagError, verdict};
use vstd::prelude::*;

verus! {

#[derive(Debug, Clone, Copy, PartialEq, Eq, Structural)]
pub struct CompilerLimits {
    pub evaluation_steps: u64,
    pub call_depth: u16,
    pub expression_depth: u16,
}

impl Default for CompilerLimits {
    fn default() -> (limits: Self)
        ensures
            limits == limits_for(1_000_000),
    {
        CompilerLimits { evaluation_steps: 1_000_000, call_depth: 64, expression_depth: 128 }
    }
}

/// The usual limits with another number of steps.
pub open spec fn limits_for(evaluation_steps: u64) -> CompilerLimits {
    CompilerLimits { evaluation_steps, call_depth: 64, expression_depth: 128 }
}

impl CompilerLimits {
    pub fn with_steps(evaluation_steps: u64) -> (limits: Self)
        ensures
            limits == limits_for(evaluation_steps),
    {
        CompilerLimits { evaluation_steps, call_depth: 64, expression_depth: 128 }
    }
}

/// The budget of an evaluation. Steps can be spent once a number of them has
/// been installed; depths count the calls and expressions that are open.
#[derive(Debug, Clone, Copy, PartialEq, Eq, Structural)]
pub struct Budget {
    pub remaining: Option<u64>,
    pub call_depth: u16,
    pub expr_depth: u16,
    pub call_limit: u16,
    pub expr_limit: u16,
}

/// What was in force before a budget was installed.
#[derive(Debug, Clone, Copy, PartialEq, Eq, Structural)]
pub struct Guard {
    pub previous: Option<u64>,
    pub previous_call_limit: u16,
    pub previous_expr_limit: u16,
    pub active: bool,
}

/// A call that is open.
#[derive(Debug, Clone, Copy, PartialEq, Eq, Structural)]
pub struct CallGuard;

/// An expression that is open.
#[derive(Debug, Clone, Copy, PartialEq, Eq, Structural)]
pub struct ExprGuard;

pub open spec fn installed(budget: Budget, limits: CompilerLimits) -> Budget {
    Budget {
        remaining: Some(limits.evaluation_steps),
        call_limit: limits.call_depth,
        expr_limit: limits.expression_depth,
        ..budget
    }
}

pub open spec fn restored(budget: Budget, guard: Guard) -> Budget {
    if guard.active {
        Budget {
            remaining: guard.previous,
            call_limit: guard.previous_call_limit,
            expr_limit: guard.previous_expr_limit,
            ..budget
        }
    } else {
        budget
    }
}

/// How many more calls can be opened.
pub open spec fn call_room(budget: Budget) -> nat {
    if budget.call_depth < budget.call_limit {
        (budget.call_limit - budget.call_depth) as nat
    } else {
        0
    }
}

/// How many more expressions can be opened.
pub open spec fn expr_room(budget: Budget) -> nat {
    if budget.expr_depth < budget.expr_limit {
        (budget.expr_limit - budget.expr_depth) as nat
    } else {
        0
    }
}

pub open spec fn no_steps() -> Failure {
    Failure::Budget("expression step limit reached"@)
}

pub open spec fn no_budget() -> Failure {
    Failure::Budget("evaluation started without an installed budget"@)
}

pub open spec fn too_many_calls() -> Failure {
    Failure::Budget("function call depth limit reached"@)
}

pub open spec fn too_deep() -> Failure {
    Failure::Budget("expression nesting limit reached"@)
}

/// What a step leaves of the steps that remain.
pub open spec fn stepped_once(remaining: Option<u64>) -> Result<Option<u64>, Failure> {
    match remaining {
        Some(left) => if left == 0 {
            Err(no_steps())
        } else {
            Ok(Some((left - 1) as u64))
        },
        None => Err(no_budget()),
    }
}

impl Budget {
    /// No steps are installed, and the usual depths are allowed.
    pub fn new() -> (budget: Self)
        ensures
            budget == (Budget {
                remaining: None,
                call_depth: 0,
                expr_depth: 0,
                call_limit: 64,
                expr_limit: 128,
            }),
    {
        Budget { remaining: None, call_depth: 0, expr_depth: 0, call_limit: 64, expr_limit: 128 }
    }
}

/// Puts limits in force, whatever was in force before.
pub fn install(budget: &mut Budget, limits: CompilerLimits) -> (guard: Guard)
    ensures
        *final(budget) == installed(*old(budget), limits),
        guard == (Guard {
            previous: old(budget).remaining,
            previous_call_limit: old(budget).call_limit,
            previous_expr_limit: old(budget).expr_limit,
            active: true,
        }),
{
    let guard = Guard {
        previous: budget.remaining,
        previous_call_limit: budget.call_limit,
        previous_expr_limit: budget.expr_limit,
        active: true,
    };
    budget.remaining = Some(limits.evaluation_steps);
    budget.call_limit = limits.call_depth;
    budget.expr_limit = limits.expression_depth;
    guard
}

/// Puts limits in force unless some are.
pub fn ensure(budget: &mut Budget, limits: CompilerLimits) -> (guard: Guard)
    ensures
        *final(budget) == (if old(budget).remaining is Some {
            *old(budget)
        } else {
            installed(*old(budget), limits)
        }),
        guard == (Guard {
            previous: None,
            previous_call_limit: old(budget).call_limit,
            previous_expr_limit: old(budget).expr_limit,
            active: old(budget).remaining is None,
        }),
{
    if budget.remaining.is_some() {
        Guard {
            previous: None,
            previous_call_limit: budget.call_limit,
            previous_expr_limit: budget.expr_limit,
            active: false,
        }
    } else {
        install(budget, limits)
    }
}

/// Spends a step.
pub fn step(budget: &mut Budget) -> (result: Result<(), MagError>)
    ensures
        match stepped_once(old(budget).remaining) {
            Ok(remaining) => result is Ok && *final(budget) == (Budget {
                remaining,
                ..*old(budget)
            }),
            Err(failure) => verdict(result) == Err::<(), Failure>(failure) && *final(budget)
                == *old(budget),
        },
{
    match budget.remaining {
        Some(left) => {
            if left == 0 {
                Err(MagError::Budget("expression step limit reached".to_owned()))
            } else {
                budget.remaining = Some(left - 1);
                Ok(())
            }
        },
        None => Err(MagError::Budget("evaluation started without an installed budget".to_owned())),
    }
}

pub fn remaining(budget: &Budget) -> (steps: Option<u64>)
    ensures
        steps == budget.remaining,
{
    budget.remaining
}

/// Opens a call.
pub fn enter_call(budget: &mut Budget) -> (result: Result<CallGuard, MagError>)
    ensures
        match result {
            Ok(_) => call_room(*old(budget)) > 0 && *final(budget) == (Budget {
                call_depth: (old(budget).call_depth + 1) as u16,
                ..*old(budget)
            }),
            Err(error) => call_room(*old(budget)) == 0 && error@ == too_many_calls()
                && *final(budget) == *old(budget),
        },
{
    if budget.call_depth >= budget.call_limit {
        Err(MagError::Budget("function call depth limit reached".to_owned()))
    } else {
        budget.call_depth = budget.call_depth + 1;
        Ok(CallGuard)
    }
}

/// Opens an expression.
pub fn enter_expr(budget: &mut Budget) -> (result: Result<ExprGuard, MagError>)
    ensures
        match result {
            Ok(_) => expr_room(*old(budget)) > 0 && *final(budget) == (Budget {
                expr_depth: (old(budget).expr_depth + 1) as u16,
                ..*old(budget)
            }),
            Err(error) => expr_room(*old(budget)) == 0 && error@ == too_deep() && *final(budget)
                == *old(budget),
        },
{
    if budget.expr_depth >= budget.expr_limit {
        Err(MagError::Budget("expression nesting limit reached".to_owned()))
    } else {
        budget.expr_depth = budget.expr_depth + 1;
        Ok(ExprGuard)
    }
}

impl Guard {
    /// Puts back in force what was in force before.
    pub fn restore(self, budget: &mut Budget)
        ensures
            *final(budget) == restored(*old(budget), self),
    {
        if self.active {
            budget.remaining = self.previous;
            budget.call_limit = self.previous_call_limit;
            budget.expr_limit = self.previous_expr_limit;
        }
    }
}

impl CallGuard {
    /// Closes the call.
    pub fn leave(self, budget: &mut Budget)
        ensures
            *final(budget) == (Budget {
                call_depth: if old(budget).call_depth > 0 {
                    (old(budget).call_depth - 1) as u16
                } else {
                    0
                },
                ..*old(budget)
            }),
    {
        if budget.call_depth > 0 {
            budget.call_depth = budget.call_depth - 1;
        }
    }
}

impl ExprGuard {
    /// Closes the expression.
    pub fn leave(self, budget: &mut Budget)
        ensures
            *final(budget) == (Budget {
                expr_depth: if old(budget).expr_depth > 0 {
                    (old(budget).expr_depth - 1) as u16
                } else {
                    0
                },
                ..*old(budget)
            }),
    {
        if budget.expr_depth > 0 {
            budget.expr_depth = budget.expr_depth - 1;
        }
    }
}

// ---------------------------------------------------------------------------
// Laws
// ---------------------------------------------------------------------------

/// What `count` steps leave of the steps that remain, or the first failure.
pub open spec fn stepped_times(remaining: Option<u64>, count: nat) -> Result<Option<u64>, Failure>
    decreases count,
{
    if count == 0 {
        Ok(remaining)
    } else {
        match stepped_once(remaining) {
            Ok(left) => stepped_times(left, (count - 1) as nat),
            Err(failure) => Err(failure),
        }
    }
}

/// Installed steps allow exactly as many steps: that many succeed and leave
/// none, and every longer run of steps fails.
pub proof fn lemma_exact_steps(budget: Budget, limits: CompilerLimits, count: nat)
    ensures
        count <= limits.evaluation_steps ==> stepped_times(
            installed(budget, limits).remaining,
            count,
        ) == Ok::<Option<u64>, Failure>(Some((limits.evaluation_steps - count) as u64)),
        count > limits.evaluation_steps ==> stepped_times(
            installed(budget, limits).remaining,
            count,
        ) == Err::<Option<u64>, Failure>(no_steps()),
{
    lemma_steps_from(limits.evaluation_steps, count);
}

proof fn lemma_steps_from(left: u64, count: nat)
    ensures
        count <= left ==> stepped_times(Some(left), count) == Ok::<Option<u64>, Failure>(
            Some((left - count) as u64),
        ),
        count > left ==> stepped_times(Some(left), count) == Err::<Option<u64>, Failure>(no_steps()),
    decreases count,
{
    if count > 0 && left > 0 {
        lemma_steps_from((left - 1) as u64, (count - 1) as nat);
    }
}

/// A budget that was installed over another one and then given up leaves the
/// other one as it was.
pub proof fn lemma_install_restores(budget: Budget, limits: CompilerLimits, spent: Option<u64>)
    ensures
        restored(
            Budget { remaining: spent, ..installed(budget, limits) },
            Guard {
                previous: budget.remaining,
                previous_call_limit: budget.call_limit,
                previous_expr_limit: budget.expr_limit,
                active: true,
            },
        ) == budget,
{
}

} // verus!
