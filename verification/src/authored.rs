//! Programs as they are written: declarations, blocks and expressions.

use crate::text::{copy_texts, join_texts, joined, texts};
use vstd::prelude::*;

verus! {

/// A dotted name. A quoted segment may hold dots of its own.
#[derive(Debug)]
pub struct NamePath {
    pub segments: Vec<String>,
}

impl NamePath {
    pub open spec fn view(&self) -> Seq<Seq<char>> {
        texts(self.segments@)
    }
}

/// A path as it is written.
pub open spec fn path_text(path: Seq<Seq<char>>) -> Seq<char> {
    joined(path, "."@)
}

/// The last segment of a path.
pub open spec fn path_last(path: Seq<Seq<char>>) -> Seq<char> {
    if path.len() == 0 {
        Seq::empty()
    } else {
        path.last()
    }
}

/// What stands before the last segment of a path.
pub open spec fn path_owner(path: Seq<Seq<char>>) -> Option<Seq<Seq<char>>> {
    if path.len() <= 1 {
        None
    } else {
        Some(path.drop_last())
    }
}

impl NamePath {
    pub fn single(name: &str) -> (path: Self)
        ensures
            path@ == seq![name@],
    {
        let mut segments: Vec<String> = Vec::new();
        segments.push(name.to_owned());
        assert(texts(segments@) =~= seq![name@]);
        NamePath { segments }
    }

    pub fn text(&self) -> (text: String)
        ensures
            text@ == path_text(self@),
    {
        join_texts(&self.segments, ".")
    }

    pub fn last(&self) -> (name: String)
        ensures
            name@ == path_last(self@),
    {
        if self.segments.len() == 0 {
            String::new()
        } else {
            self.segments[self.segments.len() - 1].clone()
        }
    }

    pub fn owner(&self) -> (owner: Option<NamePath>)
        ensures
            match (owner, path_owner(self@)) {
                (Some(owner), Some(view)) => owner@ == view,
                (None, None) => true,
                _ => false,
            },
    {
        if self.segments.len() <= 1 {
            None
        } else {
            let mut segments = copy_texts(&self.segments);
            segments.pop();
            proof {
                assert(texts(segments@) =~= self@.drop_last());
            }
            Some(NamePath { segments })
        }
    }

    pub fn copy(&self) -> (copy: Self)
        ensures
            copy@ == self@,
    {
        NamePath { segments: copy_texts(&self.segments) }
    }
}

/// A type as it is written.
#[derive(Debug)]
pub enum Type {
    Name(NamePath),
    Product(Vec<Type>),
    Tag(Box<Type>),
    Function { params: Vec<Type>, result: Box<Type> },
    Apply { constructor: NamePath, arguments: Vec<Type> },
    Invalid(String),
}

pub ghost enum TypeTerm {
    Name(Seq<Seq<char>>),
    Product(Seq<TypeTerm>),
    Tag(Box<TypeTerm>),
    Function(Seq<TypeTerm>, Box<TypeTerm>),
    Apply(Seq<Seq<char>>, Seq<TypeTerm>),
    Invalid(Seq<char>),
}

impl Type {
    pub open spec fn view(&self) -> TypeTerm
        decreases self,
    {
        match self {
            Type::Name(name) => TypeTerm::Name(name@),
            Type::Product(items) => TypeTerm::Product(type_terms(items@)),
            Type::Tag(value) => TypeTerm::Tag(Box::new((*value).view())),
            Type::Function { params, result } => TypeTerm::Function(
                type_terms(params@),
                Box::new((*result).view()),
            ),
            Type::Apply { constructor, arguments } => TypeTerm::Apply(
                constructor@,
                type_terms(arguments@),
            ),
            Type::Invalid(message) => TypeTerm::Invalid(message@),
        }
    }

    pub fn copy(&self) -> (copy: Self)
        ensures
            copy@ == self@,
        decreases self,
    {
        match self {
            Type::Name(name) => Type::Name(name.copy()),
            Type::Product(items) => Type::Product(copy_authored_types(items)),
            Type::Tag(value) => Type::Tag(Box::new(value.copy())),
            Type::Function { params, result } => Type::Function {
                params: copy_authored_types(params),
                result: Box::new(result.copy()),
            },
            Type::Apply { constructor, arguments } => Type::Apply {
                constructor: constructor.copy(),
                arguments: copy_authored_types(arguments),
            },
            Type::Invalid(message) => Type::Invalid(message.clone()),
        }
    }
}

pub open spec fn type_terms(types: Seq<Type>) -> Seq<TypeTerm>
    decreases types,
{
    Seq::new(
        types.len(),
        |i: int|
            if 0 <= i < types.len() {
                types[i].view()
            } else {
                arbitrary()
            },
    )
}

pub fn copy_authored_types(types: &Vec<Type>) -> (copy: Vec<Type>)
    ensures
        type_terms(copy@) == type_terms(types@),
    decreases types,
{
    let mut copy: Vec<Type> = Vec::new();
    let mut i: usize = 0;
    while i < types.len()
        invariant
            i <= types@.len(),
            copy@.len() == i,
            forall|j: int| 0 <= j < i ==> (#[trigger] copy@[j])@ == types@[j]@,
        decreases types@.len() - i,
    {
        copy.push(types[i].copy());
        i = i + 1;
    }
    assert(type_terms(copy@) =~= type_terms(types@));
    copy
}

/// A type argument of a call, or a hole that is to be inferred.
#[derive(Debug)]
pub enum TypeArgument {
    Explicit(Type),
    Infer,
}

pub ghost enum Argument {
    Explicit(TypeTerm),
    Infer,
}

impl TypeArgument {
    pub open spec fn view(&self) -> Argument {
        match self {
            TypeArgument::Explicit(ty) => Argument::Explicit(ty@),
            TypeArgument::Infer => Argument::Infer,
        }
    }
}

pub open spec fn argument_terms(arguments: Seq<TypeArgument>) -> Seq<Argument> {
    Seq::new(arguments.len(), |i: int| arguments[i].view())
}

pub open spec fn option_arguments(arguments: Option<Vec<TypeArgument>>) -> Option<Seq<Argument>> {
    match arguments {
        Some(arguments) => Some(argument_terms(arguments@)),
        None => None,
    }
}

/// An expression as it is written. A float keeps the notation of its literal.
#[derive(Debug)]
pub enum Expr {
    Unit,
    Bool(bool),
    Int(i64),
    Float(String),
    Str(String),
    Keyword(String),
    Name(NamePath),
    Vector(Vec<Expr>),
    Fields(Vec<(String, Expr)>),
    If { condition: Box<Expr>, then_branch: Box<Expr>, else_branch: Box<Expr> },
    Construct { owner: Type, constructor: String, payload: Box<Expr> },
    Match { value: Box<Expr>, arms: Vec<MatchArm> },
    Ascribe { target: Type, value: Box<Expr> },
    Annotate { target: Type, value: Box<Expr> },
    TypeTag(Type),
    Function(Function),
    Call { callee: Box<Expr>, type_args: Option<Vec<TypeArgument>>, args: Vec<Expr> },
    Invalid(String),
}

#[derive(Debug)]
pub struct MatchArm {
    pub pattern: NamePath,
    pub binding: String,
    pub body: Expr,
}

#[derive(Debug)]
pub struct Parameter {
    pub name: String,
    pub ty: Type,
}

#[derive(Debug)]
pub struct Function {
    pub type_params: Vec<String>,
    pub params: Vec<Parameter>,
    pub result: Type,
    pub body: Vec<BlockItem>,
}

#[derive(Debug)]
pub enum BlockItem {
    Let { name: String, value: Expr },
    Expr(Expr),
    Invalid(String),
}

pub ghost enum Term {
    Unit,
    Bool(bool),
    Int(int),
    Float(Seq<char>),
    Str(Seq<char>),
    Keyword(Seq<char>),
    Name(Seq<Seq<char>>),
    Vector(Seq<Term>),
    Fields(Seq<(Seq<char>, Term)>),
    If(Box<Term>, Box<Term>, Box<Term>),
    Construct(TypeTerm, Seq<char>, Box<Term>),
    Match(Box<Term>, Seq<Arm>),
    Ascribe(TypeTerm, Box<Term>),
    Annotate(TypeTerm, Box<Term>),
    TypeTag(TypeTerm),
    Function(Box<Lambda>),
    Call(Box<Term>, Option<Seq<Argument>>, Seq<Term>),
    Invalid(Seq<char>),
}

pub ghost struct Arm {
    pub pattern: Seq<Seq<char>>,
    pub binding: Seq<char>,
    pub body: Term,
}

pub ghost struct Lambda {
    pub type_params: Seq<Seq<char>>,
    pub params: Seq<(Seq<char>, TypeTerm)>,
    pub result: TypeTerm,
    pub body: Seq<Item>,
}

pub ghost enum Item {
    Let(Seq<char>, Term),
    Expr(Term),
    Invalid(Seq<char>),
}

impl Expr {
    pub open spec fn view(&self) -> Term
        decreases self,
    {
        match self {
            Expr::Unit => Term::Unit,
            Expr::Bool(value) => Term::Bool(*value),
            Expr::Int(value) => Term::Int(*value as int),
            Expr::Float(notation) => Term::Float(notation@),
            Expr::Str(value) => Term::Str(value@),
            Expr::Keyword(name) => Term::Keyword(name@),
            Expr::Name(name) => Term::Name(name@),
            Expr::Vector(items) => Term::Vector(terms(items@)),
            Expr::Fields(fields) => Term::Fields(field_terms(fields@)),
            Expr::If { condition, then_branch, else_branch } => Term::If(
                Box::new((*condition).view()),
                Box::new((*then_branch).view()),
                Box::new((*else_branch).view()),
            ),
            Expr::Construct { owner, constructor, payload } => Term::Construct(
                owner@,
                constructor@,
                Box::new((*payload).view()),
            ),
            Expr::Match { value, arms } => Term::Match(Box::new((*value).view()), arm_terms(arms@)),
            Expr::Ascribe { target, value } => Term::Ascribe(target@, Box::new((*value).view())),
            Expr::Annotate { target, value } => Term::Annotate(target@, Box::new((*value).view())),
            Expr::TypeTag(ty) => Term::TypeTag(ty@),
            Expr::Function(function) => Term::Function(Box::new(function.view())),
            Expr::Call { callee, type_args, args } => Term::Call(
                Box::new((*callee).view()),
                option_arguments(*type_args),
                terms(args@),
            ),
            Expr::Invalid(message) => Term::Invalid(message@),
        }
    }
}

impl MatchArm {
    pub open spec fn view(&self) -> Arm
        decreases self,
    {
        Arm { pattern: self.pattern@, binding: self.binding@, body: self.body.view() }
    }
}

impl Function {
    pub open spec fn view(&self) -> Lambda
        decreases self,
    {
        Lambda {
            type_params: texts(self.type_params@),
            params: parameter_terms(self.params@),
            result: self.result@,
            body: items(self.body@),
        }
    }
}

impl BlockItem {
    pub open spec fn view(&self) -> Item
        decreases self,
    {
        match self {
            BlockItem::Let { name, value } => Item::Let(name@, value.view()),
            BlockItem::Expr(value) => Item::Expr(value.view()),
            BlockItem::Invalid(message) => Item::Invalid(message@),
        }
    }
}

pub open spec fn parameter_terms(params: Seq<Parameter>) -> Seq<(Seq<char>, TypeTerm)> {
    Seq::new(params.len(), |i: int| (params[i].name@, params[i].ty@))
}

pub open spec fn terms(list: Seq<Expr>) -> Seq<Term>
    decreases list,
{
    Seq::new(
        list.len(),
        |i: int|
            if 0 <= i < list.len() {
                list[i].view()
            } else {
                arbitrary()
            },
    )
}

pub open spec fn field_terms(fields: Seq<(String, Expr)>) -> Seq<(Seq<char>, Term)>
    decreases fields,
{
    Seq::new(
        fields.len(),
        |i: int|
            if 0 <= i < fields.len() {
                (fields[i].0@, fields[i].1.view())
            } else {
                arbitrary()
            },
    )
}

pub open spec fn arm_terms(arms: Seq<MatchArm>) -> Seq<Arm>
    decreases arms,
{
    Seq::new(
        arms.len(),
        |i: int|
            if 0 <= i < arms.len() {
                arms[i].view()
            } else {
                arbitrary()
            },
    )
}

pub open spec fn items(list: Seq<BlockItem>) -> Seq<Item>
    decreases list,
{
    Seq::new(
        list.len(),
        |i: int|
            if 0 <= i < list.len() {
                list[i].view()
            } else {
                arbitrary()
            },
    )
}

// ---------------------------------------------------------------------------
// Modules
// ---------------------------------------------------------------------------

/// An export taken from a module, under a local name or suppressed.
#[derive(Debug)]
pub struct ImportSelector {
    pub export: String,
    pub local: Option<String>,
}

#[derive(Debug)]
pub enum ImportExposure {
    Open,
    Qualified,
    NamespaceAlias(String),
    Selective(Vec<ImportSelector>),
}

#[derive(Debug)]
pub struct Require {
    pub module: String,
    pub exposure: ImportExposure,
}

#[derive(Debug)]
pub struct AuthoredConstructor {
    pub name: String,
    pub payload: Type,
}

#[derive(Debug)]
pub enum TypeDeclarationBody {
    Fields(Vec<(String, Type)>),
    TransparentAlias(Type),
    Newtype(Type),
    Adt(Vec<AuthoredConstructor>),
}

#[derive(Debug)]
pub struct TypeDeclaration {
    pub name: String,
    pub params: Vec<String>,
    pub body: TypeDeclarationBody,
}

#[derive(Debug)]
pub enum ModuleForm {
    Require(Require),
    Type(TypeDeclaration),
    Block(BlockItem),
    Invalid(String),
}

#[derive(Debug)]
pub struct Module {
    pub forms: Vec<ModuleForm>,
}

pub ghost struct Selector {
    pub export: Seq<char>,
    pub local: Option<Seq<char>>,
}

pub ghost enum Exposure {
    Open,
    Qualified,
    NamespaceAlias(Seq<char>),
    Selective(Seq<Selector>),
}

pub ghost struct Import {
    pub module: Seq<char>,
    pub exposure: Exposure,
}

pub ghost enum DeclarationBody {
    Fields(Seq<(Seq<char>, TypeTerm)>),
    TransparentAlias(TypeTerm),
    Newtype(TypeTerm),
    Adt(Seq<(Seq<char>, TypeTerm)>),
}

pub ghost struct Declaration {
    pub name: Seq<char>,
    pub params: Seq<Seq<char>>,
    pub body: DeclarationBody,
}

pub ghost enum TopForm {
    Require(Import),
    Type(Declaration),
    Block(Item),
    Invalid(Seq<char>),
}

impl ImportSelector {
    pub open spec fn view(&self) -> Selector {
        Selector {
            export: self.export@,
            local: match self.local {
                Some(local) => Some(local@),
                None => None,
            },
        }
    }
}

pub open spec fn selectors(list: Seq<ImportSelector>) -> Seq<Selector> {
    Seq::new(list.len(), |i: int| list[i].view())
}

impl ImportExposure {
    pub open spec fn view(&self) -> Exposure {
        match self {
            ImportExposure::Open => Exposure::Open,
            ImportExposure::Qualified => Exposure::Qualified,
            ImportExposure::NamespaceAlias(alias) => Exposure::NamespaceAlias(alias@),
            ImportExposure::Selective(list) => Exposure::Selective(selectors(list@)),
        }
    }
}

impl Require {
    pub open spec fn view(&self) -> Import {
        Import { module: self.module@, exposure: self.exposure@ }
    }
}

fn copy_selectors(list: &Vec<ImportSelector>) -> (copy: Vec<ImportSelector>)
    ensures
        selectors(copy@) == selectors(list@),
{
    let mut copy: Vec<ImportSelector> = Vec::new();
    let mut i: usize = 0;
    while i < list.len()
        invariant
            i <= list@.len(),
            copy@.len() == i,
            forall|j: int| 0 <= j < i ==> (#[trigger] copy@[j])@ == list@[j]@,
        decreases list@.len() - i,
    {
        let item = &list[i];
        let local = match &item.local {
            Some(local) => Some(local.clone()),
            None => None,
        };
        copy.push(ImportSelector { export: item.export.clone(), local });
        i = i + 1;
    }
    assert(selectors(copy@) =~= selectors(list@));
    copy
}

impl Require {
    pub fn copy(&self) -> (copy: Self)
        ensures
            copy@ == self@,
    {
        let exposure = match &self.exposure {
            ImportExposure::Open => ImportExposure::Open,
            ImportExposure::Qualified => ImportExposure::Qualified,
            ImportExposure::NamespaceAlias(alias) => ImportExposure::NamespaceAlias(alias.clone()),
            ImportExposure::Selective(list) => ImportExposure::Selective(copy_selectors(list)),
        };
        Require { module: self.module.clone(), exposure }
    }
}

pub open spec fn imports(list: Seq<Require>) -> Seq<Import> {
    Seq::new(list.len(), |i: int| list[i].view())
}

pub open spec fn typed_fields(fields: Seq<(String, Type)>) -> Seq<(Seq<char>, TypeTerm)> {
    Seq::new(fields.len(), |i: int| (fields[i].0@, fields[i].1@))
}

pub open spec fn authored_constructors(list: Seq<AuthoredConstructor>) -> Seq<
    (Seq<char>, TypeTerm),
> {
    Seq::new(list.len(), |i: int| (list[i].name@, list[i].payload@))
}

impl TypeDeclarationBody {
    pub open spec fn view(&self) -> DeclarationBody {
        match self {
            TypeDeclarationBody::Fields(fields) => DeclarationBody::Fields(typed_fields(fields@)),
            TypeDeclarationBody::TransparentAlias(ty) => DeclarationBody::TransparentAlias(ty@),
            TypeDeclarationBody::Newtype(ty) => DeclarationBody::Newtype(ty@),
            TypeDeclarationBody::Adt(list) => DeclarationBody::Adt(authored_constructors(list@)),
        }
    }
}

impl TypeDeclaration {
    pub open spec fn view(&self) -> Declaration {
        Declaration { name: self.name@, params: texts(self.params@), body: self.body@ }
    }
}

impl ModuleForm {
    pub open spec fn view(&self) -> TopForm {
        match self {
            ModuleForm::Require(require) => TopForm::Require(require@),
            ModuleForm::Type(declaration) => TopForm::Type(declaration@),
            ModuleForm::Block(item) => TopForm::Block(item@),
            ModuleForm::Invalid(message) => TopForm::Invalid(message@),
        }
    }
}

pub open spec fn top_forms(list: Seq<ModuleForm>) -> Seq<TopForm> {
    Seq::new(list.len(), |i: int| list[i].view())
}

} // verus!
