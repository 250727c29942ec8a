//! Parenthesised expressions.

use vstd::prelude::*;

verus! {

/// An expression as it is read from parenthesised source text. A float keeps
/// the notation of its literal.
#[derive(Debug)]
pub enum Expr {
    Symbol(String),
    Keyword(String),
    Str(String),
    Int(i64),
    Float(String),
    Bool(bool),
    Nil,
    List(Vec<Expr>),
    Vector(Vec<Expr>),
    MapOf(Vec<(Expr, Expr)>),
}

pub ghost enum Form {
    Symbol(Seq<char>),
    Keyword(Seq<char>),
    Str(Seq<char>),
    Int(int),
    Float(Seq<char>),
    Bool(bool),
    Nil,
    List(Seq<Form>),
    Vector(Seq<Form>),
    MapOf(Seq<(Form, Form)>),
}

impl Expr {
    pub open spec fn view(&self) -> Form
        decreases self,
    {
        match self {
            Expr::Symbol(name) => Form::Symbol(name@),
            Expr::Keyword(name) => Form::Keyword(name@),
            Expr::Str(value) => Form::Str(value@),
            Expr::Int(value) => Form::Int(*value as int),
            Expr::Float(notation) => Form::Float(notation@),
            Expr::Bool(value) => Form::Bool(*value),
            Expr::Nil => Form::Nil,
            Expr::List(items) => Form::List(forms(items@)),
            Expr::Vector(items) => Form::Vector(forms(items@)),
            Expr::MapOf(pairs) => Form::MapOf(form_pairs(pairs@)),
        }
    }

    pub fn as_symbol(&self) -> (name: Option<&str>)
        ensures
            match name {
                Some(name) => self@ == Form::Symbol(name@),
                None => !(self@ is Symbol),
            },
    {
        if let Expr::Symbol(name) = self {
            Some(name.as_str())
        } else {
            None
        }
    }

    pub fn as_keyword(&self) -> (name: Option<&str>)
        ensures
            match name {
                Some(name) => self@ == Form::Keyword(name@),
                None => !(self@ is Keyword),
            },
    {
        if let Expr::Keyword(name) = self {
            Some(name.as_str())
        } else {
            None
        }
    }

    pub fn as_str(&self) -> (value: Option<&str>)
        ensures
            match value {
                Some(value) => self@ == Form::Str(value@),
                None => !(self@ is Str),
            },
    {
        if let Expr::Str(value) = self {
            Some(value.as_str())
        } else {
            None
        }
    }

    pub fn as_list(&self) -> (items: Option<&[Expr]>)
        ensures
            match items {
                Some(items) => self@ == Form::List(forms(items@)),
                None => !(self@ is List),
            },
    {
        if let Expr::List(items) = self {
            Some(items.as_slice())
        } else {
            None
        }
    }

    pub fn copy(&self) -> (copy: Self)
        ensures
            copy@ == self@,
        decreases self,
    {
        match self {
            Expr::Symbol(name) => Expr::Symbol(name.clone()),
            Expr::Keyword(name) => Expr::Keyword(name.clone()),
            Expr::Str(value) => Expr::Str(value.clone()),
            Expr::Int(value) => Expr::Int(*value),
            Expr::Float(notation) => Expr::Float(notation.clone()),
            Expr::Bool(value) => Expr::Bool(*value),
            Expr::Nil => Expr::Nil,
            Expr::List(items) => Expr::List(copy_exprs(items)),
            Expr::Vector(items) => Expr::Vector(copy_exprs(items)),
            Expr::MapOf(pairs) => Expr::MapOf(copy_pairs(pairs)),
        }
    }
}

pub open spec fn forms(items: Seq<Expr>) -> Seq<Form>
    decreases items,
{
    Seq::new(
        items.len(),
        |i: int|
            if 0 <= i < items.len() {
                items[i].view()
            } else {
                arbitrary()
            },
    )
}

pub open spec fn form_pairs(pairs: Seq<(Expr, Expr)>) -> Seq<(Form, Form)>
    decreases pairs,
{
    Seq::new(
        pairs.len(),
        |i: int|
            if 0 <= i < pairs.len() {
                (pairs[i].0.view(), pairs[i].1.view())
            } else {
                arbitrary()
            },
    )
}

pub fn copy_exprs(items: &Vec<Expr>) -> (copy: Vec<Expr>)
    ensures
        forms(copy@) == forms(items@),
    decreases items,
{
    let mut copy: Vec<Expr> = Vec::new();
    let mut i: usize = 0;
    while i < items.len()
        invariant
            i <= items@.len(),
            copy@.len() == i,
            forall|j: int| 0 <= j < i ==> (#[trigger] copy@[j])@ == items@[j]@,
        decreases items@.len() - i,
    {
        copy.push(items[i].copy());
        i = i + 1;
    }
    assert(forms(copy@) =~= forms(items@));
    copy
}

fn copy_pairs(pairs: &Vec<(Expr, Expr)>) -> (copy: Vec<(Expr, Expr)>)
    ensures
        form_pairs(copy@) == form_pairs(pairs@),
    decreases pairs,
{
    let mut copy: Vec<(Expr, Expr)> = Vec::new();
    let mut i: usize = 0;
    while i < pairs.len()
        invariant
            i <= pairs@.len(),
            copy@.len() == i,
            forall|j: int|
                0 <= j < i ==> (#[trigger] copy@[j]).0@ == pairs@[j].0@ && copy@[j].1@
                    == pairs@[j].1@,
        decreases pairs@.len() - i,
    {
        let pair = &pairs[i];
        copy.push((pair.0.copy(), pair.1.copy()));
        i = i + 1;
    }
    assert(form_pairs(copy@) =~= form_pairs(pairs@));
    copy
}

} // verus!
