use nefor_mag::combinators::{chain, Chain, ChainError, Context, Reasoner, Transform};
use std::convert::Infallible;

#[derive(Clone, Debug, PartialEq)]
struct Ctx(String);

impl Context for Ctx {}

fn ctx(s: &str) -> Ctx {
    Ctx(s.to_owned())
}

struct Append(&'static str);

impl Reasoner<Ctx> for Append {
    type Err = Infallible;

    fn yields(&self, _: Ctx, _: Result<Ctx, Self::Err>) -> bool {
        true
    }

    fn apply(&self, c: Ctx) -> Result<Ctx, Self::Err> {
        Ok(Ctx(c.0 + self.0))
    }
}

struct AppendTransform(&'static str);

impl Transform<Ctx> for AppendTransform {
    type Err = Infallible;

    fn yields(&self, _: Ctx, _: Result<Ctx, Self::Err>) -> bool {
        true
    }

    fn apply(&self, c: Ctx) -> Result<Ctx, Self::Err> {
        Ok(Ctx(c.0 + self.0))
    }
}

#[derive(Debug)]
struct Boom(&'static str);

struct FailFirst;

impl Reasoner<Ctx> for FailFirst {
    type Err = Boom;

    fn yields(&self, _: Ctx, _: Result<Ctx, Self::Err>) -> bool {
        true
    }

    fn apply(&self, _c: Ctx) -> Result<Ctx, Self::Err> {
        Err(Boom("first"))
    }
}

struct FailSecond;

impl Reasoner<Ctx> for FailSecond {
    type Err = Boom;

    fn yields(&self, _: Ctx, _: Result<Ctx, Self::Err>) -> bool {
        true
    }

    fn apply(&self, _c: Ctx) -> Result<Ctx, Self::Err> {
        Err(Boom("second"))
    }
}

fn assert_context<C: Context>(_: &C) {}

#[test]
fn newtype_is_context() {
    let s = ctx("");
    assert_context(&s);
}

#[test]
fn chain_composes_two_reasoners() {
    let pipeline: Chain<Append, Append> = chain(Append("a"), Append("b"));
    let out = pipeline.apply(ctx("hello")).expect("both infallible");
    assert_eq!(out, ctx("helloab"));
}

#[test]
fn chain_propagates_first_error() {
    let pipeline = chain(FailFirst, Append("x"));
    let err = pipeline.apply(ctx("hello")).expect_err("first fails");
    match err {
        ChainError::First(Boom("first")) => {}
        other => panic!("expected ChainError::First, got {other:?}"),
    }
}

#[test]
fn chain_propagates_second_error() {
    let pipeline = chain(Append("x"), FailSecond);
    let err = pipeline.apply(ctx("hello")).expect_err("second fails");
    match err {
        ChainError::Second(Boom("second")) => {}
        other => panic!("expected ChainError::Second, got {other:?}"),
    }
}

#[test]
fn chain_is_associative_at_value_level() {
    let left = chain(chain(Append("a"), Append("b")), Append("c"));
    let right = chain(Append("a"), chain(Append("b"), Append("c")));

    let lout = left.apply(ctx("x")).expect("infallible");
    let rout = right.apply(ctx("x")).expect("infallible");

    assert_eq!(lout, ctx("xabc"));
    assert_eq!(rout, ctx("xabc"));
    assert_eq!(lout, rout);
}

#[test]
fn append_reasoner_appends() {
    let t = Append("!");
    let out = t.apply(Ctx(String::from("hi"))).expect("infallible");
    assert_eq!(out, Ctx(String::from("hi!")));
}

#[test]
fn append_transform_appends() {
    let t = AppendTransform("!");
    let out = t.apply(Ctx(String::from("hi"))).expect("infallible");
    assert_eq!(out, Ctx(String::from("hi!")));
}
