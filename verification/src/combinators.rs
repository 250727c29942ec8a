//! Composition of fallible steps over a context.

use vstd::prelude::*;

verus! {

/// A type that steps can be composed over.
pub trait Context: Clone + Send + Sync + 'static {

}

/// A fallible step from a context to a context.
pub trait Reasoner<C: Context>: Sized {
    /// The error that this step can produce.
    type Err;

    /// Whether an outcome is one that this step can have on a context.
    spec fn yields(&self, ctx: C, outcome: Result<C, Self::Err>) -> bool;

    /// Takes the step.
    fn apply(&self, ctx: C) -> (outcome: Result<C, Self::Err>)
        ensures
            self.yields(ctx, outcome),
    ;
}

/// A fallible transformation of a context.
pub trait Transform<C: Context>: Sized {
    /// The error that this transformation can produce.
    type Err;

    /// Whether an outcome is one that this transformation can have on a context.
    spec fn yields(&self, ctx: C, outcome: Result<C, Self::Err>) -> bool;

    /// Applies the transformation.
    fn apply(&self, ctx: C) -> (outcome: Result<C, Self::Err>)
        ensures
            self.yields(ctx, outcome),
    ;
}

/// The error of a chain, which tells which of its steps failed.
#[derive(Debug)]
pub enum ChainError<E1, E2> {
    /// The first step failed.
    First(E1),
    /// The second step failed.
    Second(E2),
}

/// Two steps, one after the other.
pub struct Chain<F, G> {
    pub f: F,
    pub g: G,
}

/// Composes two steps: first `f`, then `g`.
pub fn chain<C, F, G>(f: F, g: G) -> (composed: Chain<F, G>) where
    C: Context,
    F: Reasoner<C>,
    G: Reasoner<C>,

    ensures
        composed == (Chain { f, g }),
{
    Chain { f, g }
}

/// What a chain goes on with after its first step: the context for the second one,
/// or the error of the whole.
pub fn first_done<C, E1, E2>(outcome: Result<C, E1>) -> (next: Result<C, ChainError<E1, E2>>)
    ensures
        next == (match outcome {
            Ok(ctx) => Ok::<C, ChainError<E1, E2>>(ctx),
            Err(error) => Err(ChainError::First(error)),
        }),
{
    match outcome {
        Ok(ctx) => Ok(ctx),
        Err(error) => Err(ChainError::First(error)),
    }
}

/// What a chain comes to after its second step.
pub fn second_done<C, E1, E2>(outcome: Result<C, E2>) -> (end: Result<C, ChainError<E1, E2>>)
    ensures
        end == (match outcome {
            Ok(ctx) => Ok::<C, ChainError<E1, E2>>(ctx),
            Err(error) => Err(ChainError::Second(error)),
        }),
{
    match outcome {
        Ok(ctx) => Ok(ctx),
        Err(error) => Err(ChainError::Second(error)),
    }
}

impl<C: Context, F: Reasoner<C>, G: Reasoner<C>> Reasoner<C> for Chain<F, G> {
    type Err = ChainError<F::Err, G::Err>;

    open spec fn yields(&self, ctx: C, outcome: Result<C, ChainError<F::Err, G::Err>>) -> bool {
        match outcome {
            Ok(end) => exists|mid: C| #[trigger]
                self.f.yields(ctx, Ok(mid)) && self.g.yields(mid, Ok(end)),
            Err(ChainError::First(error)) => self.f.yields(ctx, Err(error)),
            Err(ChainError::Second(error)) => exists|mid: C| #[trigger]
                self.f.yields(ctx, Ok(mid)) && self.g.yields(mid, Err(error)),
        }
    }

    fn apply(&self, ctx: C) -> (outcome: Result<C, ChainError<F::Err, G::Err>>) {
        match first_done(self.f.apply(ctx)) {
            Err(error) => Err(error),
            Ok(mid) => second_done(self.g.apply(mid)),
        }
    }
}

// ---------------------------------------------------------------------------
// Laws
// ---------------------------------------------------------------------------

/// How the error of a chain to the left reads in the same chain to the right.
pub open spec fn regrouped<C, E1, E2, E3>(
    outcome: Result<C, ChainError<ChainError<E1, E2>, E3>>,
) -> Result<C, ChainError<E1, ChainError<E2, E3>>> {
    match outcome {
        Ok(ctx) => Ok(ctx),
        Err(ChainError::First(ChainError::First(error))) => Err(ChainError::First(error)),
        Err(ChainError::First(ChainError::Second(error))) => Err(
            ChainError::Second(ChainError::First(error)),
        ),
        Err(ChainError::Second(error)) => Err(ChainError::Second(ChainError::Second(error))),
    }
}

/// A chain takes its first step and then, on what that one made, the second. It fails where one
/// of them does, and its error tells which.
pub proof fn lemma_chain_steps<C: Context, F: Reasoner<C>, G: Reasoner<C>>(
    f: F,
    g: G,
    ctx: C,
    end: C,
    early: F::Err,
    late: G::Err,
)
    ensures
        (Chain { f, g }).yields(ctx, Ok(end)) <==> exists|mid: C| #[trigger]
            f.yields(ctx, Ok(mid)) && g.yields(mid, Ok(end)),
        (Chain { f, g }).yields(ctx, Err(ChainError::First(early))) <==> f.yields(ctx, Err(early)),
        (Chain { f, g }).yields(ctx, Err(ChainError::Second(late))) <==> exists|mid: C| #[trigger]
            f.yields(ctx, Ok(mid)) && g.yields(mid, Err(late)),
{
    let both = Chain { f, g };
    if exists|mid: C| #[trigger] f.yields(ctx, Ok(mid)) && g.yields(mid, Ok(end)) {
        let mid = choose|mid: C| #[trigger] f.yields(ctx, Ok(mid)) && g.yields(mid, Ok(end));
        assert(both.f.yields(ctx, Ok(mid)) && both.g.yields(mid, Ok(end)));
    }
    if both.yields(ctx, Ok(end)) {
        let mid = choose|mid: C| #[trigger]
            both.f.yields(ctx, Ok(mid)) && both.g.yields(mid, Ok(end));
        assert(f.yields(ctx, Ok(mid)) && g.yields(mid, Ok(end)));
    }
    if exists|mid: C| #[trigger] f.yields(ctx, Ok(mid)) && g.yields(mid, Err(late)) {
        let mid = choose|mid: C| #[trigger] f.yields(ctx, Ok(mid)) && g.yields(mid, Err(late));
        assert(both.f.yields(ctx, Ok(mid)) && both.g.yields(mid, Err(late)));
    }
    if both.yields(ctx, Err(ChainError::Second(late))) {
        let mid = choose|mid: C| #[trigger]
            both.f.yields(ctx, Ok(mid)) && both.g.yields(mid, Err(late));
        assert(f.yields(ctx, Ok(mid)) && g.yields(mid, Err(late)));
    }
}

/// Chains are associative: grouped to the left or to the right, they have the same
/// outcomes, up to the way in which their errors are nested.
pub proof fn lemma_chain_associative<C: Context, F: Reasoner<C>, G: Reasoner<C>, H: Reasoner<C>>(
    f: F,
    g: G,
    h: H,
    ctx: C,
    outcome: Result<C, ChainError<ChainError<F::Err, G::Err>, H::Err>>,
)
    ensures
        (Chain { f: Chain { f, g }, g: h }).yields(ctx, outcome) == (Chain {
            f,
            g: Chain { f: g, g: h },
        }).yields(ctx, regrouped(outcome)),
{
    let left = Chain { f: Chain { f, g }, g: h };
    let right = Chain { f, g: Chain { f: g, g: h } };
    match outcome {
        Ok(end) => {
            if left.yields(ctx, outcome) {
                let late = choose|mid: C| #[trigger]
                    left.f.yields(ctx, Ok(mid)) && left.g.yields(mid, Ok(end));
                assert(left.f.yields(ctx, Ok(late)) && h.yields(late, Ok(end)));
                let early = choose|mid: C| #[trigger]
                    left.f.f.yields(ctx, Ok(mid)) && left.f.g.yields(mid, Ok(late));
                assert(f.yields(ctx, Ok(early)) && g.yields(early, Ok(late)));
                assert(right.g.f.yields(early, Ok(late)) && right.g.g.yields(late, Ok(end)));
                assert(right.g.yields(early, Ok(end)));
                assert(right.f.yields(ctx, Ok(early)));
            }
            if right.yields(ctx, regrouped(outcome)) {
                let early = choose|mid: C| #[trigger]
                    right.f.yields(ctx, Ok(mid)) && right.g.yields(mid, Ok(end));
                assert(f.yields(ctx, Ok(early)) && right.g.yields(early, Ok(end)));
                let late = choose|mid: C| #[trigger]
                    right.g.f.yields(early, Ok(mid)) && right.g.g.yields(mid, Ok(end));
                assert(g.yields(early, Ok(late)) && h.yields(late, Ok(end)));
                assert(left.f.f.yields(ctx, Ok(early)) && left.f.g.yields(early, Ok(late)));
                assert(left.f.yields(ctx, Ok(late)));
                assert(left.g.yields(late, Ok(end)));
            }
        },
        Err(ChainError::First(ChainError::First(error))) => {},
        Err(ChainError::First(ChainError::Second(error))) => {
            if left.yields(ctx, outcome) {
                let early = choose|mid: C| #[trigger]
                    left.f.f.yields(ctx, Ok(mid)) && left.f.g.yields(mid, Err(error));
                assert(right.f.yields(ctx, Ok(early)));
                assert(right.g.yields(early, Err(ChainError::First(error))));
            }
            if right.yields(ctx, regrouped(outcome)) {
                let early = choose|mid: C| #[trigger]
                    right.f.yields(ctx, Ok(mid)) && right.g.yields(
                        mid,
                        Err(ChainError::First(error)),
                    );
                assert(left.f.f.yields(ctx, Ok(early)));
                assert(left.f.g.yields(early, Err(error)));
            }
        },
        Err(ChainError::Second(error)) => {
            if left.yields(ctx, outcome) {
                let late = choose|mid: C| #[trigger]
                    left.f.yields(ctx, Ok(mid)) && left.g.yields(mid, Err(error));
                assert(left.f.yields(ctx, Ok(late)) && h.yields(late, Err(error)));
                let early = choose|mid: C| #[trigger]
                    left.f.f.yields(ctx, Ok(mid)) && left.f.g.yields(mid, Ok(late));
                assert(right.g.f.yields(early, Ok(late)) && right.g.g.yields(late, Err(error)));
                assert(right.g.yields(early, Err(ChainError::Second(error))));
                assert(right.f.yields(ctx, Ok(early)));
            }
            if right.yields(ctx, regrouped(outcome)) {
                let early = choose|mid: C| #[trigger]
                    right.f.yields(ctx, Ok(mid)) && right.g.yields(
                        mid,
                        Err(ChainError::Second(error)),
                    );
                assert(f.yields(ctx, Ok(early)));
                assert(right.g.yields(early, Err(ChainError::Second(error))));
                let late = choose|mid: C| #[trigger]
                    right.g.f.yields(early, Ok(mid)) && right.g.g.yields(mid, Err(error));
                assert(left.f.f.yields(ctx, Ok(early)) && left.f.g.yields(early, Ok(late)));
                assert(left.f.yields(ctx, Ok(late)));
                assert(left.g.yields(late, Err(error)));
            }
        },
    }
}

} // verus!
