//! Calls and constructors: what their written forms stand for.

use crate::authored::{
    Expr, NamePath, Term, Type, TypeTerm, copy_authored_types, field_terms, path_last, path_owner,
    path_text, terms, type_terms,
};
use crate::cursor::{
    Special, Specialized, Syn, Syntax, Variant, VariantMetadata, flaw_here, special_views,
    variant_views,
};
use crate::fixity::term_read;
use crate::text::{cat2, cat3, chars_text, count_text, decimal, same_text, text_chars, texts};
use crate::tokens::{Fault, Flaw};
use vstd::prelude::*;
use vstd::string::*;

verus! {

/// An argument as it is written, with its label where it has one.
#[derive(Debug)]
pub struct CallArgument {
    pub name: Option<String>,
    pub value: Expr,
}

pub ghost struct Passed {
    pub name: Option<Seq<char>>,
    pub value: Term,
}

pub open spec fn label(name: Option<String>) -> Option<Seq<char>> {
    match name {
        Some(name) => Some(name@),
        None => None,
    }
}

impl CallArgument {
    pub open spec fn view(&self) -> Passed {
        Passed { name: label(self.name), value: self.value@ }
    }
}

pub open spec fn passed(args: Seq<CallArgument>) -> Seq<Passed> {
    Seq::new(args.len(), |i: int| args[i].view())
}

pub open spec fn passed_values(args: Seq<Passed>) -> Seq<Term> {
    Seq::new(args.len(), |i: int| args[i].value)
}

pub open spec fn all_positional(args: Seq<Passed>) -> bool {
    forall|i: int| 0 <= i < args.len() ==> (#[trigger] args[i]).name is None
}

pub open spec fn all_named(args: Seq<Passed>) -> bool {
    forall|i: int| 0 <= i < args.len() ==> (#[trigger] args[i]).name is Some
}

/// The field that an argument fills: its label, or the field at its position.
pub open spec fn field_of(arg: Passed, order: Seq<Seq<char>>, i: int) -> Seq<char> {
    match arg.name {
        Some(name) => name,
        None => if i < order.len() {
            order[i]
        } else {
            decimal(i as nat)
        },
    }
}

pub open spec fn passed_fields(args: Seq<Passed>, order: Seq<Seq<char>>) -> Seq<(Seq<char>, Term)> {
    Seq::new(args.len(), |i: int| (field_of(args[i], order, i), args[i].value))
}

pub(crate) fn is_all_positional(args: &Vec<CallArgument>) -> (yes: bool)
    ensures
        yes == all_positional(passed(args@)),
{
    let ghost all = passed(args@);
    let mut i: usize = 0;
    while i < args.len()
        invariant
            i <= args@.len(),
            all == passed(args@),
            forall|k: int| 0 <= k < i ==> (#[trigger] all[k]).name is None,
        decreases args@.len() - i,
    {
        assert(all[i as int] == args@[i as int]@);
        if args[i].name.is_some() {
            assert(all[i as int].name is Some);
            return false;
        }
        i = i + 1;
    }
    true
}

fn is_all_named(args: &Vec<CallArgument>) -> (yes: bool)
    ensures
        yes == all_named(passed(args@)),
{
    let ghost all = passed(args@);
    let mut i: usize = 0;
    while i < args.len()
        invariant
            i <= args@.len(),
            all == passed(args@),
            forall|k: int| 0 <= k < i ==> (#[trigger] all[k]).name is Some,
        decreases args@.len() - i,
    {
        assert(all[i as int] == args@[i as int]@);
        if args[i].name.is_none() {
            assert(all[i as int].name is None);
            return false;
        }
        i = i + 1;
    }
    true
}

pub(crate) fn take_values(args: Vec<CallArgument>) -> (values: Vec<Expr>)
    ensures
        terms(values@) == passed_values(passed(args@)),
{
    let ghost all = passed_values(passed(args@));
    let ghost given = args@;
    let mut rest = args;
    let mut values: Vec<Expr> = Vec::new();
    assert(terms(values@) =~= all.take(0));
    assert(rest@ =~= given.skip(0));
    while rest.len() > 0
        invariant
            all == passed_values(passed(given)),
            values@.len() + rest@.len() == given.len(),
            rest@ == given.skip(values@.len() as int),
            terms(values@) == all.take(values@.len() as int),
        decreases rest@.len(),
    {
        let ghost n = values@.len() as int;
        let ghost before = terms(values@);
        let arg = rest.remove(0);
        assert(arg == given[n]);
        values.push(arg.value);
        assert(rest@ =~= given.skip(n + 1));
        assert(terms(values@) =~= before.push(all[n]));
        assert(before.push(all[n]) =~= all.take(n + 1));
    }
    assert(all.take(all.len() as int) =~= all);
    values
}

fn take_fields(args: Vec<CallArgument>, order: &Vec<String>) -> (fields: Vec<(String, Expr)>)
    ensures
        field_terms(fields@) == passed_fields(passed(args@), texts(order@)),
{
    let ghost names = texts(order@);
    let ghost all = passed_fields(passed(args@), names);
    let ghost given = args@;
    let count = args.len();
    let mut rest = args;
    let mut fields: Vec<(String, Expr)> = Vec::new();
    assert(field_terms(fields@) =~= all.take(0));
    assert(rest@ =~= given.skip(0));
    let mut i: usize = 0;
    while i < count
        invariant
            i <= count,
            count == given.len(),
            names == texts(order@),
            names.len() == order@.len(),
            all == passed_fields(passed(given), names),
            fields@.len() == i,
            rest@ == given.skip(i as int),
            field_terms(fields@) == all.take(i as int),
        decreases count - i,
    {
        let ghost before = field_terms(fields@);
        let arg = rest.remove(0);
        assert(arg == given[i as int]);
        assert(passed(given)[i as int] == arg@);
        let name = match arg.name {
            Some(name) => name,
            None => if i < order.len() {
                assert(names[i as int] == order@[i as int]@);
                order[i].clone()
            } else {
                count_text(i)
            },
        };
        let ghost entry = (name@, arg.value@);
        assert(entry == all[i as int]);
        fields.push((name, arg.value));
        assert(rest@ =~= given.skip(i + 1));
        assert(field_terms(fields@) =~= before.push(entry));
        assert(before.push(entry) =~= all.take(i + 1));
        i = i + 1;
    }
    assert(all.take(all.len() as int) =~= all);
    fields
}

// ---------------------------------------------------------------------------
// Types that are expected
// ---------------------------------------------------------------------------

pub open spec fn want(expected: Option<&Type>) -> Option<TypeTerm> {
    match expected {
        Some(ty) => Some(ty@),
        None => None,
    }
}

/// The name of the type that is expected.
pub open spec fn expected_owner(want: Option<TypeTerm>) -> Option<Seq<char>> {
    match want {
        Some(TypeTerm::Name(path)) => Some(path_text(path)),
        Some(TypeTerm::Apply(path, _)) => Some(path_text(path)),
        _ => None,
    }
}

pub(crate) fn expected_owner_name(expected: Option<&Type>) -> (name: Option<String>)
    ensures
        label(name) == expected_owner(want(expected)),
{
    match expected {
        Some(Type::Name(path)) => Some(path.text()),
        Some(Type::Apply { constructor, arguments: _ }) => Some(constructor.text()),
        _ => None,
    }
}

/// The type that a constructor of an owner makes, given what is expected.
pub open spec fn constructed_type(owner: Seq<char>, want: Option<TypeTerm>) -> TypeTerm {
    match want {
        Some(TypeTerm::Apply(path, arguments)) => if path_text(path) == owner {
            TypeTerm::Apply(path, arguments)
        } else {
            TypeTerm::Name(seq![owner])
        },
        _ => TypeTerm::Name(seq![owner]),
    }
}

pub(crate) fn constructor_type(owner: &str, expected: Option<&Type>) -> (ty: Type)
    ensures
        ty@ == constructed_type(owner@, want(expected)),
{
    match expected {
        Some(Type::Apply { constructor, arguments }) => {
            let text = constructor.text();
            if same_text(text.as_str(), owner) {
                Type::Apply {
                    constructor: constructor.copy(),
                    arguments: copy_authored_types(arguments),
                }
            } else {
                Type::Name(NamePath::single(owner))
            }
        },
        _ => Type::Name(NamePath::single(owner)),
    }
}

/// The type for the latest of the first `n` parameters with a name.
pub open spec fn argument_for(
    params: Seq<Seq<char>>,
    arguments: Seq<TypeTerm>,
    name: Seq<char>,
    n: int,
) -> Option<TypeTerm>
    decreases n,
{
    if n <= 0 {
        None
    } else if params[n - 1] == name {
        Some(arguments[n - 1])
    } else {
        argument_for(params, arguments, name, n - 1)
    }
}

pub open spec fn shorter(left: nat, right: nat) -> int {
    if left < right {
        left as int
    } else {
        right as int
    }
}

/// A written type with type arguments in place of parameters.
pub open spec fn filled(ty: TypeTerm, params: Seq<Seq<char>>, arguments: Seq<TypeTerm>) -> TypeTerm
    decreases ty,
{
    match ty {
        TypeTerm::Name(path) => match argument_for(
            params,
            arguments,
            path_text(path),
            shorter(params.len(), arguments.len()),
        ) {
            Some(argument) => argument,
            None => ty,
        },
        TypeTerm::Product(items) => TypeTerm::Product(filled_all(items, params, arguments)),
        TypeTerm::Tag(item) => TypeTerm::Tag(Box::new(filled(*item, params, arguments))),
        TypeTerm::Function(list, result) => TypeTerm::Function(
            filled_all(list, params, arguments),
            Box::new(filled(*result, params, arguments)),
        ),
        TypeTerm::Apply(path, list) => TypeTerm::Apply(path, filled_all(list, params, arguments)),
        TypeTerm::Invalid(_) => ty,
    }
}

pub open spec fn filled_all(
    list: Seq<TypeTerm>,
    params: Seq<Seq<char>>,
    arguments: Seq<TypeTerm>,
) -> Seq<TypeTerm>
    decreases list,
{
    Seq::new(
        list.len(),
        |i: int|
            if 0 <= i < list.len() {
                filled(list[i], params, arguments)
            } else {
                arbitrary()
            },
    )
}

fn find_argument<'a>(params: &Vec<String>, arguments: &'a Vec<Type>, name: &str) -> (ty: Option<
    &'a Type,
>)
    ensures
        match (ty, argument_for(
            texts(params@),
            type_terms(arguments@),
            name@,
            shorter(params@.len(), arguments@.len()),
        )) {
            (Some(ty), Some(view)) => ty@ == view,
            (None, None) => true,
            _ => false,
        },
{
    let ghost names = texts(params@);
    let ghost types = type_terms(arguments@);
    let count = if params.len() < arguments.len() {
        params.len()
    } else {
        arguments.len()
    };
    let mut n: usize = count;
    while n > 0
        invariant
            n <= count <= params@.len(),
            count <= arguments@.len(),
            names == texts(params@),
            types == type_terms(arguments@),
            count == shorter(params@.len(), arguments@.len()),
            argument_for(names, types, name@, count as int) == argument_for(
                names,
                types,
                name@,
                n as int,
            ),
        decreases n,
    {
        assert(names[n - 1] == params@[n - 1]@);
        assert(types[n - 1] == arguments@[n - 1]@);
        if same_text(params[n - 1].as_str(), name) {
            return Some(&arguments[n - 1]);
        }
        n = n - 1;
    }
    None
}

/// Puts type arguments in place of parameters.
pub fn substitute_authored_type(ty: &Type, params: &Vec<String>, arguments: &Vec<Type>) -> (result:
    Type)
    ensures
        result@ == filled(ty@, texts(params@), type_terms(arguments@)),
    decreases ty,
{
    assert(texts(params@).len() == params@.len());
    assert(type_terms(arguments@).len() == arguments@.len());
    match ty {
        Type::Name(path) => {
            let text = path.text();
            match find_argument(params, arguments, text.as_str()) {
                Some(argument) => argument.copy(),
                None => ty.copy(),
            }
        },
        Type::Product(items) => Type::Product(substitute_authored_types(items, params, arguments)),
        Type::Tag(item) => {
            let inner: &Type = item;
            let made = substitute_authored_type(inner, params, arguments);
            let result = Type::Tag(Box::new(made));
            assert(result@ == TypeTerm::Tag(Box::new(made@)));
            result
        },
        Type::Function { params: list, result } => {
            let inner: &Type = result;
            let list = substitute_authored_types(list, params, arguments);
            let made = substitute_authored_type(inner, params, arguments);
            let function = Type::Function { params: list, result: Box::new(made) };
            assert(function@ == TypeTerm::Function(type_terms(list@), Box::new(made@)));
            function
        },
        Type::Apply { constructor, arguments: list } => Type::Apply {
            constructor: constructor.copy(),
            arguments: substitute_authored_types(list, params, arguments),
        },
        Type::Invalid(_) => ty.copy(),
    }
}

fn substitute_authored_types(list: &Vec<Type>, params: &Vec<String>, arguments: &Vec<Type>) -> (results:
    Vec<Type>)
    ensures
        type_terms(results@) == filled_all(
            type_terms(list@),
            texts(params@),
            type_terms(arguments@),
        ),
    decreases list,
{
    let ghost all = type_terms(list@);
    let mut results: Vec<Type> = Vec::new();
    let mut i: usize = 0;
    while i < list.len()
        invariant
            i <= list@.len(),
            results@.len() == i,
            all == type_terms(list@),
            forall|j: int|
                0 <= j < i ==> (#[trigger] results@[j])@ == filled(
                    all[j],
                    texts(params@),
                    type_terms(arguments@),
                ),
        decreases list@.len() - i,
    {
        assert(all[i as int] == list@[i as int]@);
        results.push(substitute_authored_type(&list[i], params, arguments));
        i = i + 1;
    }
    assert(type_terms(results@) =~= filled_all(all, texts(params@), type_terms(arguments@)));
    results
}

/// The payload type of a constructor, given the type that it makes.
pub open spec fn payload_for(variant: Variant, owner: TypeTerm) -> TypeTerm {
    match owner {
        TypeTerm::Apply(_, arguments) => filled(variant.payload, variant.owner_params, arguments),
        _ => variant.payload,
    }
}

pub(crate) fn specialize_variant_payload(metadata: &VariantMetadata, owner: &Type) -> (ty: Type)
    ensures
        ty@ == payload_for(metadata@, owner@),
{
    match owner {
        Type::Apply { constructor: _, arguments } => substitute_authored_type(
            &metadata.payload,
            &metadata.owner_params,
            arguments,
        ),
        _ => metadata.payload.copy(),
    }
}

/// The type of an expression whose form tells it.
pub open spec fn obvious_type(value: Term) -> Option<TypeTerm> {
    match value {
        Term::Unit => Some(TypeTerm::Name(seq!["Unit"@])),
        Term::Str(_) => Some(TypeTerm::Name(seq!["String"@])),
        Term::Int(_) => Some(TypeTerm::Name(seq!["Int"@])),
        Term::Float(_) => Some(TypeTerm::Name(seq!["Float"@])),
        Term::Bool(_) => Some(TypeTerm::Name(seq!["Bool"@])),
        Term::Ascribe(target, _) => Some(target),
        _ => None,
    }
}

pub open spec fn option_term(ty: Option<Type>) -> Option<TypeTerm> {
    match ty {
        Some(ty) => Some(ty@),
        None => None,
    }
}

pub fn obvious_expr_type(value: &Expr) -> (ty: Option<Type>)
    ensures
        option_term(ty) == obvious_type(value@),
{
    match value {
        Expr::Unit => Some(Type::Name(NamePath::single("Unit"))),
        Expr::Str(_) => Some(Type::Name(NamePath::single("String"))),
        Expr::Int(_) => Some(Type::Name(NamePath::single("Int"))),
        Expr::Float(_) => Some(Type::Name(NamePath::single("Float"))),
        Expr::Bool(_) => Some(Type::Name(NamePath::single("Bool"))),
        Expr::Ascribe { target, value: _ } => Some(target.copy()),
        _ => None,
    }
}

/// The types of expressions whose forms tell them, from index `i` on.
pub open spec fn obvious_types(values: Seq<Term>, i: int) -> Option<Seq<TypeTerm>>
    decreases values.len() - i,
{
    if i < 0 || i >= values.len() {
        Some(Seq::empty())
    } else {
        match (obvious_type(values[i]), obvious_types(values, i + 1)) {
            (Some(ty), Some(rest)) => Some(seq![ty] + rest),
            _ => None,
        }
    }
}

pub(crate) fn find_obvious_types(values: &Vec<Expr>) -> (types: Option<Vec<Type>>)
    ensures
        match (types, obvious_types(terms(values@), 0)) {
            (Some(types), Some(view)) => type_terms(types@) == view,
            (None, None) => true,
            _ => false,
        },
{
    let ghost all = terms(values@);
    let mut types: Vec<Type> = Vec::new();
    proof {
        assert(type_terms(types@) =~= Seq::<TypeTerm>::empty());
        if let Some(rest) = obvious_types(all, 0) {
            assert(type_terms(types@) + rest =~= rest);
        }
    }
    let mut i: usize = 0;
    while i < values.len()
        invariant
            i <= values@.len(),
            all == terms(values@),
            match obvious_types(all, 0) {
                Some(view) => match obvious_types(all, i as int) {
                    Some(rest) => view == type_terms(types@) + rest,
                    None => false,
                },
                None => obvious_types(all, i as int) is None,
            },
        decreases values@.len() - i,
    {
        assert(all[i as int] == values@[i as int]@);
        match obvious_expr_type(&values[i]) {
            None => return None,
            Some(ty) => {
                let ghost before = type_terms(types@);
                let ghost view = ty@;
                types.push(ty);
                proof {
                    assert(type_terms(types@) =~= before.push(view));
                    if let Some(rest) = obvious_types(all, i + 1) {
                        assert(before + (seq![view] + rest) =~= before.push(view) + rest);
                    }
                }
            },
        }
        i = i + 1;
    }
    assert(type_terms(types@) + Seq::<TypeTerm>::empty() =~= type_terms(types@));
    Some(types)
}

// ---------------------------------------------------------------------------
// Constructors
// ---------------------------------------------------------------------------

/// The variant under a key, from index `i` on.
pub open spec fn variant_named(list: Seq<(Seq<char>, Variant)>, key: Seq<char>, i: int) -> Option<
    Variant,
>
    decreases list.len() - i,
{
    if i < 0 || i >= list.len() {
        None
    } else if list[i].0 == key {
        Some(list[i].1)
    } else {
        variant_named(list, key, i + 1)
    }
}

pub open spec fn ends_with(text: Seq<char>, suffix: Seq<char>) -> bool {
    text.len() >= suffix.len() && text.skip(text.len() - suffix.len()) == suffix
}

/// The variants from index `i` on whose keys end with a suffix.
pub open spec fn variants_ending(list: Seq<(Seq<char>, Variant)>, suffix: Seq<char>, i: int) -> Seq<
    Variant,
>
    decreases list.len() - i,
{
    if i < 0 || i >= list.len() {
        Seq::empty()
    } else if ends_with(list[i].0, suffix) {
        seq![list[i].1] + variants_ending(list, suffix, i + 1)
    } else {
        variants_ending(list, suffix, i + 1)
    }
}

/// The variant that a constructor stands for: that of its owner where one is
/// known, else the only one of that name.
pub open spec fn variant_for(syn: Syn, hint: Option<Seq<char>>, constructor: Seq<char>) -> Option<
    Variant,
> {
    let owned = match hint {
        Some(owner) => variant_named(syn.variants, owner + "."@ + constructor, 0),
        None => None,
    };
    match owned {
        Some(variant) => Some(variant),
        None => {
            let ending = variants_ending(syn.variants, "."@ + constructor, 0);
            if ending.len() == 1 {
                Some(ending[0])
            } else {
                None
            }
        },
    }
}

/// The latest of the first `n` specialized constructors with a marker.
pub open spec fn special_in(list: Seq<Specialized>, marker: Seq<char>, n: int) -> Option<Specialized>
    decreases n,
{
    if n <= 0 {
        None
    } else if list[n - 1].marker == marker {
        Some(list[n - 1])
    } else {
        special_in(list, marker, n - 1)
    }
}

/// The owner that a constructor was written with.
pub open spec fn owner_hint(special: Option<Specialized>, path: Seq<Seq<char>>) -> Option<Seq<char>> {
    let written = match special {
        Some(special) => expected_owner(Some(special.owner)),
        None => None,
    };
    match written {
        Some(owner) => Some(owner),
        None => match path_owner(path) {
            Some(owner) => Some(path_text(owner)),
            None => None,
        },
    }
}

fn text_ends_with(text: &str, suffix: &str) -> (yes: bool)
    ensures
        yes == ends_with(text@, suffix@),
{
    let chars = text_chars(text);
    let tail = text_chars(suffix);
    if chars.len() < tail.len() {
        return false;
    }
    let start = chars.len() - tail.len();
    let end = chars_text(&chars, start, chars.len());
    assert(end@ =~= text@.skip(start as int));
    same_text(end.as_str(), suffix)
}

impl<'a> Syntax<'a> {
    pub(crate) fn find_variant(&self, key: &str) -> (variant: Option<&VariantMetadata>)
        ensures
            match (variant, variant_named(self@.variants, key@, 0)) {
                (Some(variant), Some(view)) => variant@ == view,
                (None, None) => true,
                _ => false,
            },
    {
        let ghost all = self@.variants;
        let mut i: usize = 0;
        while i < self.variants.len()
            invariant
                i <= self.variants@.len(),
                all == variant_views(self.variants@),
                variant_named(all, key@, 0) == variant_named(all, key@, i as int),
            decreases self.variants@.len() - i,
        {
            let entry = &self.variants[i];
            assert(all[i as int] == (entry.0@, entry.1@));
            if same_text(entry.0.as_str(), key) {
                return Some(&entry.1);
            }
            i = i + 1;
        }
        None
    }

    fn find_ending(&self, suffix: &str) -> (variant: Option<&VariantMetadata>)
        ensures
            match variant {
                Some(variant) => variants_ending(self@.variants, suffix@, 0) == seq![variant@],
                None => variants_ending(self@.variants, suffix@, 0).len() != 1,
            },
    {
        let ghost all = self@.variants;
        let mut found: Option<&VariantMetadata> = None;
        let mut i: usize = 0;
        while i < self.variants.len()
            invariant
                i <= self.variants@.len(),
                all == variant_views(self.variants@),
                match found {
                    None => variants_ending(all, suffix@, 0) == variants_ending(
                        all,
                        suffix@,
                        i as int,
                    ),
                    Some(variant) => variants_ending(all, suffix@, 0) == seq![variant@]
                        + variants_ending(all, suffix@, i as int),
                },
            decreases self.variants@.len() - i,
        {
            let entry = &self.variants[i];
            assert(all[i as int] == (entry.0@, entry.1@));
            if text_ends_with(entry.0.as_str(), suffix) {
                if found.is_some() {
                    return None;
                }
                found = Some(&entry.1);
            }
            i = i + 1;
        }
        proof {
            if let Some(variant) = found {
                assert(seq![variant@] + Seq::<Variant>::empty() =~= seq![variant@]);
            }
        }
        found
    }

    fn find_variant_for(&self, hint: &Option<String>, constructor: &str) -> (variant: Option<
        VariantMetadata,
    >)
        ensures
            match (variant, variant_for(self@, label(*hint), constructor@)) {
                (Some(variant), Some(view)) => variant@ == view,
                (None, None) => true,
                _ => false,
            },
    {
        if let Some(owner) = hint {
            let key = cat3(owner.as_str(), ".", constructor);
            if let Some(variant) = self.find_variant(key.as_str()) {
                return Some(variant.copy());
            }
        }
        let suffix = cat2(".", constructor);
        match self.find_ending(suffix.as_str()) {
            Some(variant) => Some(variant.copy()),
            None => None,
        }
    }

    fn find_special(&self, marker: &str) -> (special: Option<&Special>)
        ensures
            match (special, special_in(self@.special, marker@, self@.special.len() as int)) {
                (Some(special), Some(view)) => special@ == view,
                (None, None) => true,
                _ => false,
            },
    {
        let ghost all = self@.special;
        let mut n: usize = self.special.len();
        while n > 0
            invariant
                n <= self.special@.len(),
                all == special_views(self.special@),
                special_in(all, marker@, all.len() as int) == special_in(all, marker@, n as int),
            decreases n,
        {
            assert(all[n - 1] == self.special@[n - 1]@);
            if same_text(self.special[n - 1].marker.as_str(), marker) {
                return Some(&self.special[n - 1]);
            }
            n = n - 1;
        }
        None
    }
}

/// The payload of a constructor without named fields.
pub open spec fn positional_value(values: Seq<Term>, ty: Option<TypeTerm>) -> Term {
    if values.len() == 0 {
        Term::Unit
    } else if values.len() == 1 {
        values[0]
    } else {
        match ty {
            Some(ty) => Term::Ascribe(ty, Box::new(Term::Vector(values))),
            None => Term::Vector(values),
        }
    }
}

/// The construction of a known variant.
pub open spec fn variant_built(
    variant: Variant,
    owner: TypeTerm,
    constructor: Seq<char>,
    args: Seq<Passed>,
) -> Term {
    let ty = payload_for(variant, owner);
    let payload = if variant.field_order.len() == 0 && all_positional(args) {
        positional_value(passed_values(args), Some(ty))
    } else {
        Term::Ascribe(ty, Box::new(Term::Fields(passed_fields(args, variant.field_order))))
    };
    Term::Construct(owner, constructor, Box::new(payload))
}

/// The construction of a variant that another module declares.
pub open spec fn imported_built(
    syn: Syn,
    owner: TypeTerm,
    constructor: Seq<char>,
    args: Seq<Passed>,
) -> Result<Term, Flaw> {
    if all_positional(args) {
        Ok(
            Term::Construct(
                owner,
                constructor,
                Box::new(positional_value(passed_values(args), None)),
            ),
        )
    } else if all_named(args) {
        Ok(
            Term::Construct(
                owner,
                constructor,
                Box::new(Term::Fields(passed_fields(args, Seq::empty()))),
            ),
        )
    } else {
        Err(
            flaw_here(syn, "constructor arguments must be either all positional or all named"@),
        )
    }
}

/// A call of anything but a constructor.
pub open spec fn plain_call(syn: Syn, callee: Term, args: Seq<Passed>) -> Result<Term, Flaw> {
    if all_positional(args) {
        Ok(Term::Call(Box::new(callee), None, passed_values(args)))
    } else {
        Err(
            flaw_here(
                syn,
                "named arguments are only valid for named constructor payloads"@,
            ),
        )
    }
}

/// The owner of a constructor that another module declares.
pub open spec fn imported_owner(
    special: Option<Specialized>,
    hint: Option<Seq<char>>,
    want: Option<TypeTerm>,
) -> Option<TypeTerm> {
    match special {
        Some(special) => Some(special.owner),
        None => match hint {
            Some(owner) => if expected_owner(want) == Some(owner) {
                want
            } else {
                None
            },
            None => None,
        },
    }
}

/// What a call stands for: a construction, or a call.
pub open spec fn lowered(syn: Syn, callee: Term, args: Seq<Passed>, want: Option<TypeTerm>) -> Result<
    Term,
    Flaw,
> {
    match callee {
        Term::Name(path) => {
            let special = special_in(syn.special, path_text(path), syn.special.len() as int);
            let constructor = match special {
                Some(special) => special.constructor,
                None => path_last(path),
            };
            let hint = owner_hint(special, path);
            match variant_for(syn, hint, constructor) {
                Some(variant) => {
                    let owner = match special {
                        Some(special) => special.owner,
                        None => constructed_type(variant.owner, want),
                    };
                    Ok(variant_built(variant, owner, constructor, args))
                },
                None => match imported_owner(special, hint, want) {
                    Some(owner) => imported_built(syn, owner, constructor, args),
                    None => plain_call(syn, callee, args),
                },
            }
        },
        _ => plain_call(syn, callee, args),
    }
}

fn build_positional(values: Vec<Expr>, ty: Option<Type>) -> (value: Expr)
    ensures
        value@ == positional_value(terms(values@), option_term(ty)),
{
    let ghost all = terms(values@);
    assert(all.len() == values@.len());
    let mut rest = values;
    if rest.len() == 0 {
        return Expr::Unit;
    }
    if rest.len() == 1 {
        assert(all[0] == rest@[0]@);
        return rest.remove(0);
    }
    let vector = Expr::Vector(rest);
    assert(vector@ == Term::Vector(all));
    match ty {
        Some(ty) => {
            let value = Expr::Ascribe { target: ty, value: Box::new(vector) };
            assert(value@ == Term::Ascribe(ty@, Box::new(vector@)));
            value
        },
        None => vector,
    }
}

fn build_variant(
    metadata: &VariantMetadata,
    owner: Type,
    constructor: String,
    args: Vec<CallArgument>,
) -> (value: Expr)
    ensures
        value@ == variant_built(metadata@, owner@, constructor@, passed(args@)),
{
    let ty = specialize_variant_payload(metadata, &owner);
    assert(texts(metadata.field_order@).len() == metadata.field_order@.len());
    let payload = if metadata.field_order.len() == 0 && is_all_positional(&args) {
        let values = take_values(args);
        build_positional(values, Some(ty))
    } else {
        let fields = Expr::Fields(take_fields(args, &metadata.field_order));
        let value = Expr::Ascribe { target: ty, value: Box::new(fields) };
        assert(value@ == Term::Ascribe(ty@, Box::new(fields@)));
        value
    };
    let made = Expr::Construct { owner, constructor, payload: Box::new(payload) };
    assert(made@ == Term::Construct(owner@, constructor@, Box::new(payload@)));
    made
}

impl<'a> Syntax<'a> {
    fn build_imported(&self, owner: Type, constructor: String, args: Vec<CallArgument>) -> (result:
        Result<Expr, Fault>)
        ensures
            term_read(result) == imported_built(self@, owner@, constructor@, passed(args@)),
    {
        let payload = if is_all_positional(&args) {
            let values = take_values(args);
            build_positional(values, None)
        } else if is_all_named(&args) {
            let none: Vec<String> = Vec::new();
            assert(texts(none@) =~= Seq::<Seq<char>>::empty());
            Expr::Fields(take_fields(args, &none))
        } else {
            return Err(
                self.fault("constructor arguments must be either all positional or all named"),
            );
        };
        let made = Expr::Construct { owner, constructor, payload: Box::new(payload) };
        assert(made@ == Term::Construct(owner@, constructor@, Box::new(payload@)));
        Ok(made)
    }

    fn build_call(&self, callee: Expr, args: Vec<CallArgument>) -> (result: Result<Expr, Fault>)
        ensures
            term_read(result) == plain_call(self@, callee@, passed(args@)),
    {
        if !is_all_positional(&args) {
            return Err(
                self.fault("named arguments are only valid for named constructor payloads"),
            );
        }
        let values = take_values(args);
        let call = Expr::Call { callee: Box::new(callee), type_args: None, args: values };
        assert(call@ == Term::Call(Box::new(callee@), None, terms(values@)));
        Ok(call)
    }

    /// Turns a call into a construction where its target is a constructor.
    #[verifier::rlimit(40)]
    pub fn lower_call(&self, callee: Expr, args: Vec<CallArgument>, expected: Option<&Type>) -> (result:
        Result<Expr, Fault>)
        ensures
            term_read(result) == lowered(self@, callee@, passed(args@), want(expected)),
    {
        let path = match &callee {
            Expr::Name(path) => path.copy(),
            _ => return self.build_call(callee, args),
        };
        let text = path.text();
        let special = self.find_special(text.as_str());
        let constructor = match special {
            Some(special) => special.constructor.clone(),
            None => path.last(),
        };
        let written = match special {
            Some(special) => expected_owner_name(Some(&special.owner)),
            None => None,
        };
        let hint = match written {
            Some(owner) => Some(owner),
            None => match path.owner() {
                Some(owner) => Some(owner.text()),
                None => None,
            },
        };
        if let Some(variant) = self.find_variant_for(&hint, constructor.as_str()) {
            let owner = match special {
                Some(special) => special.owner.copy(),
                None => constructor_type(variant.owner.as_str(), expected),
            };
            return Ok(build_variant(&variant, owner, constructor, args));
        }
        let imported = match special {
            Some(special) => Some(special.owner.copy()),
            None => match (&hint, expected_owner_name(expected), expected) {
                (Some(owner), Some(name), Some(ty)) => if same_text(
                    owner.as_str(),
                    name.as_str(),
                ) {
                    Some(ty.copy())
                } else {
                    None
                },
                _ => None,
            },
        };
        match imported {
            Some(owner) => self.build_imported(owner, constructor, args),
            None => self.build_call(callee, args),
        }
    }
}

/// What a name with fields in braces stands for.
pub open spec fn braced(
    syn: Syn,
    path: Seq<Seq<char>>,
    fields: Seq<(Seq<char>, Term)>,
    want: Option<TypeTerm>,
) -> Result<Term, Flaw> {
    let record = Term::Fields(fields);
    let plain = Term::Ascribe(TypeTerm::Name(path), Box::new(record));
    if path_text(path) == "artifact"@ {
        Ok(Term::Call(Box::new(Term::Name(path)), None, seq![record]))
    } else {
        match path_owner(path) {
            None => Ok(plain),
            Some(owner) => match variant_named(syn.variants, path_text(path), 0) {
                Some(variant) => if variant.owner != path_text(owner) || variant.field_order.len()
                    == 0 {
                    Err(flaw_here(syn, "named constructor owner or payload does not match"@))
                } else {
                    let ty = constructed_type(variant.owner, want);
                    Ok(
                        Term::Construct(
                            ty,
                            path_last(path),
                            Box::new(
                                Term::Ascribe(payload_for(variant, ty), Box::new(record)),
                            ),
                        ),
                    )
                },
                None => match want {
                    Some(ty) => if expected_owner(want) == Some(path_text(owner)) {
                        Ok(Term::Construct(ty, path_last(path), Box::new(record)))
                    } else {
                        Ok(plain)
                    },
                    None => Ok(plain),
                },
            },
        }
    }
}

impl<'a> Syntax<'a> {
    #[verifier::rlimit(40)]
    pub(crate) fn build_braced(
        &self,
        path: NamePath,
        fields: Vec<(String, Expr)>,
        expected: Option<&Type>,
    ) -> (result: Result<Expr, Fault>)
        ensures
            term_read(result) == braced(self@, path@, field_terms(fields@), want(expected)),
    {
        let text = path.text();
        let record = Expr::Fields(fields);
        assert(record@ == Term::Fields(field_terms(fields@)));
        if same_text(text.as_str(), "artifact") {
            let ghost view = record@;
            let mut args: Vec<Expr> = Vec::new();
            args.push(record);
            assert(terms(args@) =~= seq![view]);
            let callee = Expr::Name(path);
            let call = Expr::Call { callee: Box::new(callee), type_args: None, args };
            assert(call@ == Term::Call(Box::new(callee@), None, terms(args@)));
            return Ok(call);
        }
        if let Some(owner) = path.owner() {
            let owner = owner.text();
            match self.find_variant(text.as_str()) {
                Some(variant) => {
                    assert(texts(variant.field_order@).len() == variant.field_order@.len());
                    if !same_text(variant.owner.as_str(), owner.as_str())
                        || variant.field_order.len() == 0 {
                        return Err(
                            self.fault("named constructor owner or payload does not match"),
                        );
                    }
                    let ty = constructor_type(variant.owner.as_str(), expected);
                    let target = specialize_variant_payload(variant, &ty);
                    let payload = Expr::Ascribe { target, value: Box::new(record) };
                    assert(payload@ == Term::Ascribe(target@, Box::new(record@)));
                    let made = Expr::Construct {
                        owner: ty,
                        constructor: path.last(),
                        payload: Box::new(payload),
                    };
                    assert(made@ == Term::Construct(
                        ty@,
                        path_last(path@),
                        Box::new(payload@),
                    ));
                    return Ok(made);
                },
                None => {
                    if let (Some(name), Some(ty)) = (expected_owner_name(expected), expected) {
                        if same_text(name.as_str(), owner.as_str()) {
                            let made = Expr::Construct {
                                owner: ty.copy(),
                                constructor: path.last(),
                                payload: Box::new(record),
                            };
                            assert(made@ == Term::Construct(
                                ty@,
                                path_last(path@),
                                Box::new(record@),
                            ));
                            return Ok(made);
                        }
                    }
                },
            }
        }
        let made = Expr::Ascribe { target: Type::Name(path), value: Box::new(record) };
        assert(made@ == Term::Ascribe(TypeTerm::Name(path@), Box::new(record@)));
        Ok(made)
    }
}

} // verus!
