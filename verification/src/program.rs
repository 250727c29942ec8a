//! Evaluation of modules: type declarations first, then the block of all bindings
//! and expressions.

use crate::asking::{Halt, Query, Question, Reply, Stop, answer, answered, came_to, reply_views};
use crate::authored::{
    AuthoredConstructor, BlockItem, Declaration, DeclarationBody, Item, Module, ModuleForm,
    TopForm, Type, TypeDeclaration, TypeDeclarationBody, TypeTerm, authored_constructors, items,
    top_forms, typed_fields,
};
use crate::calls::{call_checked, check_call};
use crate::check::{compile_block, compiled_block};
use crate::checked::{BindingId, CheckedBlock, TypedBlock};
use crate::declare::{
    Body, Constructor, ConstructorDecl, ConstructorDeclarationId, ConstructorId, Decl, TypeDecl,
    TypeDeclBody, constructors, field_types,
};
use crate::env::{Env, World, candidates, decl_of, defined, ready_value};
use crate::error::{Failure, MagError, verdict};
use crate::evaluate::evaluation;
use crate::files::file_views;
use crate::fuel::{
    Budget, CompilerLimits, ExprGuard, call_room, ensure, enter_expr, expr_room, installed, step,
    stepped_once, too_deep,
};
use crate::loader::{enrich_unresolved_import, with_suggestions};
use crate::machine::{At, Done, Machine, Run, applied_value, block_evaluated, fails, noting};
use crate::overload::{insert_type, put_type};
use crate::profile::Counter;
use crate::resolve::{resolve_type, resolved};
use crate::text::{cat2, cat3, cat4, copy_texts, same_text, texts};
use crate::types::{MagType, Names, Ty};
use crate::value::{FnValue, Val, Value, bare, raw, val_text, vals};
use vstd::prelude::*;

verus! {

// ---------------------------------------------------------------------------
// Type declarations
// ---------------------------------------------------------------------------

/// Whether a name stands among the fields.
pub open spec fn has_type(fields: Seq<(Seq<char>, Ty)>, name: Seq<char>) -> bool {
    exists|i: int| 0 <= i < fields.len() && (#[trigger] fields[i]).0 == name
}

/// The fields of a record from index `i` on, added to others.
pub open spec fn record_types(
    world: World,
    fields: Seq<(Seq<char>, TypeTerm)>,
    vars: Set<Seq<char>>,
    i: int,
    before: Seq<(Seq<char>, Ty)>,
) -> Result<Seq<(Seq<char>, Ty)>, Failure>
    decreases fields.len() - i,
{
    if i < 0 || i >= fields.len() {
        Ok(before)
    } else {
        match resolved(world, fields[i].1, vars) {
            Err(failure) => Err(failure),
            Ok(ty) => if has_type(before, fields[i].0) {
                Err(Failure::Type("duplicate named field "@ + fields[i].0))
            } else {
                record_types(world, fields, vars, i + 1, put_type(before, fields[i].0, ty))
            },
        }
    }
}

/// The constructors of a sum from index `i` on, added to others.
pub open spec fn sum_constructors(
    world: World,
    owner: Seq<char>,
    shown: Seq<char>,
    list: Seq<(Seq<char>, TypeTerm)>,
    vars: Set<Seq<char>>,
    i: int,
    before: Seq<Constructor>,
) -> Result<Seq<Constructor>, Failure>
    decreases list.len() - i,
{
    if i < 0 || i >= list.len() {
        Ok(before)
    } else if exists|k: int| 0 <= k < i && (#[trigger] list[k]).0 == list[i].0 {
        Err(Failure::Type("duplicate constructor "@ + list[i].0 + " in "@ + shown))
    } else {
        match resolved(world, list[i].1, vars) {
            Err(failure) => Err(failure),
            Ok(payload) => sum_constructors(
                world,
                owner,
                shown,
                list,
                vars,
                i + 1,
                before.push(
                    Constructor { id: ConstructorId { owner, name: list[i].0 }, payload },
                ),
            ),
        }
    }
}

/// What a declaration says of its type.
pub open spec fn declared_body(world: World, declaration: Declaration) -> Result<Body, Failure> {
    let vars = declaration.params.to_set();
    match declaration.body {
        DeclarationBody::Fields(fields) => match record_types(
            world,
            fields,
            vars,
            0,
            Seq::empty(),
        ) {
            Ok(types) => Ok(Body::Fields(types)),
            Err(failure) => Err(failure),
        },
        DeclarationBody::TransparentAlias(term) => match resolved(world, term, vars) {
            Ok(ty) => Ok(Body::TransparentAlias(ty)),
            Err(failure) => Err(failure),
        },
        DeclarationBody::Newtype(term) => match resolved(world, term, vars) {
            Ok(ty) => Ok(Body::Alias(ty)),
            Err(failure) => Err(failure),
        },
        DeclarationBody::Adt(list) => if list.len() == 0 {
            Err(
                Failure::Type(
                    "ADT "@ + declaration.name + " must declare at least one constructor"@,
                ),
            )
        } else {
            match sum_constructors(
                world,
                world.module + "."@ + declaration.name,
                declaration.name,
                list,
                vars,
                0,
                Seq::empty(),
            ) {
                Ok(constructors) => Ok(Body::Adt(constructors)),
                Err(failure) => Err(failure),
            }
        },
    }
}

/// A declaration: a type may be declared again if nothing about it changes.
pub open spec fn type_declared(world: World, declaration: Declaration) -> Result<Decl, Failure> {
    let name = world.module + "."@ + declaration.name;
    match declared_body(world, declaration) {
        Err(failure) => Err(failure),
        Ok(body) => {
            let made = Decl { name, params: declaration.params, body };
            match decl_of(world, name) {
                Some(existing) => if existing != made {
                    Err(Failure::Type("conflicting semantic type declaration "@ + name))
                } else {
                    Ok(made)
                },
                None => Ok(made),
            }
        },
    }
}

fn has_field(fields: &Vec<(String, MagType)>, name: &str) -> (found: bool)
    ensures
        found == has_type(field_types(fields@), name@),
{
    let ghost all = field_types(fields@);
    let mut i: usize = 0;
    while i < fields.len()
        invariant
            i <= fields@.len(),
            all == field_types(fields@),
            forall|k: int| 0 <= k < i ==> (#[trigger] all[k]).0 != name@,
        decreases fields@.len() - i,
    {
        let field = &fields[i];
        assert(all[i as int] == (field.0@, field.1@));
        if same_text(field.0.as_str(), name) {
            assert(all[i as int].0 == name@);
            return true;
        }
        i = i + 1;
    }
    false
}

pub open spec fn fields_result(result: Result<Vec<(String, MagType)>, MagError>) -> Result<
    Seq<(Seq<char>, Ty)>,
    Failure,
> {
    match result {
        Ok(fields) => Ok(field_types(fields@)),
        Err(error) => Err(error@),
    }
}

/// Resolves the types of fields.
pub fn resolve_field_types(env: &Env, authored: &Vec<(String, Type)>, vars: &Names) -> (result:
    Result<Vec<(String, MagType)>, MagError>)
    ensures
        fields_result(result) == record_types(
            env@,
            typed_fields(authored@),
            vars@,
            0,
            Seq::empty(),
        ),
{
    let ghost all = typed_fields(authored@);
    let ghost whole = record_types(env@, all, vars@, 0, Seq::empty());
    let mut fields: Vec<(String, MagType)> = Vec::new();
    assert(field_types(fields@) =~= Seq::<(Seq<char>, Ty)>::empty());
    let mut i: usize = 0;
    while i < authored.len()
        invariant
            i <= authored@.len(),
            all == typed_fields(authored@),
            whole == record_types(env@, all, vars@, 0, Seq::empty()),
            whole == record_types(env@, all, vars@, i as int, field_types(fields@)),
        decreases authored@.len() - i,
    {
        let field = &authored[i];
        assert(all[i as int] == (field.0@, field.1@));
        match resolve_type(env, &field.1, vars) {
            Err(error) => return Err(error),
            Ok(ty) => {
                if has_field(&fields, field.0.as_str()) {
                    return Err(
                        MagError::Type(cat2("duplicate named field ", field.0.as_str())),
                    );
                }
                insert_type(&mut fields, field.0.clone(), ty);
            },
        }
        i = i + 1;
    }
    Ok(fields)
}

fn repeats(list: &Vec<AuthoredConstructor>, i: usize) -> (yes: bool)
    requires
        i < list@.len(),
    ensures
        yes == exists|k: int|
            0 <= k < i && (#[trigger] authored_constructors(list@)[k]).0 == authored_constructors(
                list@,
            )[i as int].0,
{
    let ghost all = authored_constructors(list@);
    assert(all[i as int].0 == list@[i as int].name@);
    let mut k: usize = 0;
    while k < i
        invariant
            k <= i < list@.len(),
            all == authored_constructors(list@),
            all[i as int].0 == list@[i as int].name@,
            forall|j: int| 0 <= j < k ==> (#[trigger] all[j]).0 != all[i as int].0,
        decreases i - k,
    {
        assert(all[k as int].0 == list@[k as int].name@);
        if same_text(list[k].name.as_str(), list[i].name.as_str()) {
            assert(all[k as int].0 == all[i as int].0);
            return true;
        }
        k = k + 1;
    }
    false
}

fn resolve_constructors(
    env: &Env,
    owner: &str,
    shown: &str,
    list: &Vec<AuthoredConstructor>,
    vars: &Names,
) -> (result: Result<Vec<ConstructorDecl>, MagError>)
    ensures
        match (result, sum_constructors(
            env@,
            owner@,
            shown@,
            authored_constructors(list@),
            vars@,
            0,
            Seq::empty(),
        )) {
            (Ok(made), Ok(view)) => constructors(made@) == view,
            (Err(error), Err(failure)) => error@ == failure,
            _ => false,
        },
{
    let ghost all = authored_constructors(list@);
    let ghost whole = sum_constructors(env@, owner@, shown@, all, vars@, 0, Seq::empty());
    let mut made: Vec<ConstructorDecl> = Vec::new();
    assert(constructors(made@) =~= Seq::<Constructor>::empty());
    let mut i: usize = 0;
    while i < list.len()
        invariant
            i <= list@.len(),
            all == authored_constructors(list@),
            whole == sum_constructors(env@, owner@, shown@, all, vars@, 0, Seq::empty()),
            whole == sum_constructors(
                env@,
                owner@,
                shown@,
                all,
                vars@,
                i as int,
                constructors(made@),
            ),
        decreases list@.len() - i,
    {
        let item = &list[i];
        assert(all[i as int] == (item.name@, item.payload@));
        if repeats(list, i) {
            return Err(
                MagError::Type(
                    cat4("duplicate constructor ", item.name.as_str(), " in ", shown),
                ),
            );
        }
        match resolve_type(env, &item.payload, vars) {
            Err(error) => return Err(error),
            Ok(payload) => {
                let ghost before = constructors(made@);
                let constructor = ConstructorDecl {
                    id: ConstructorDeclarationId { owner: owner.to_owned(), name: item.name.clone() },
                    payload,
                };
                let ghost view = constructor@;
                made.push(constructor);
                assert(constructors(made@) =~= before.push(view));
            },
        }
        i = i + 1;
    }
    Ok(made)
}

fn resolve_body(env: &Env, authored: &TypeDeclaration) -> (result: Result<TypeDeclBody, MagError>)
    ensures
        match (result, declared_body(env@, authored@)) {
            (Ok(body), Ok(view)) => body@ == view,
            (Err(error), Err(failure)) => error@ == failure,
            _ => false,
        },
{
    let vars = Names::of(&authored.params);
    match &authored.body {
        TypeDeclarationBody::Fields(fields) => match resolve_field_types(env, fields, &vars) {
            Ok(types) => Ok(TypeDeclBody::Fields(types)),
            Err(error) => Err(error),
        },
        TypeDeclarationBody::TransparentAlias(ty) => match resolve_type(env, ty, &vars) {
            Ok(ty) => Ok(TypeDeclBody::TransparentAlias(ty)),
            Err(error) => Err(error),
        },
        TypeDeclarationBody::Newtype(ty) => match resolve_type(env, ty, &vars) {
            Ok(ty) => Ok(TypeDeclBody::Alias(ty)),
            Err(error) => Err(error),
        },
        TypeDeclarationBody::Adt(list) => {
            assert(authored_constructors(list@).len() == list@.len());
            if list.len() == 0 {
                return Err(
                    MagError::Type(
                        cat3(
                            "ADT ",
                            authored.name.as_str(),
                            " must declare at least one constructor",
                        ),
                    ),
                );
            }
            let owner = env.qualify(authored.name.as_str());
            match resolve_constructors(
                env,
                owner.as_str(),
                authored.name.as_str(),
                list,
                &vars,
            ) {
                Ok(made) => Ok(TypeDeclBody::Adt(made)),
                Err(error) => Err(error),
            }
        },
    }
}

/// Declares a type in the innermost scope.
pub fn eval_type_declaration(env: &mut Env, authored: &TypeDeclaration) -> (result: Result<
    (),
    MagError,
>)
    ensures
        match type_declared(old(env)@, authored@) {
            Ok(declaration) => result is Ok && final(env)@ == defined(
                old(env)@,
                authored@.name,
                Val::TypeDecl(declaration),
            ),
            Err(failure) => verdict(result) == Err::<(), Failure>(failure) && final(env)@ == old(
                env,
            )@,
        },
{
    let name = env.qualify(authored.name.as_str());
    let body = match resolve_body(env, authored) {
        Err(error) => return Err(error),
        Ok(body) => body,
    };
    let declaration = TypeDecl { name, params: copy_texts(&authored.params), body };
    if let Some(existing) = env.type_decl(declaration.name.as_str()) {
        if !existing.same(&declaration) {
            return Err(
                MagError::Type(
                    cat2("conflicting semantic type declaration ", declaration.name.as_str()),
                ),
            );
        }
    }
    env.define(authored.name.as_str(), Value::TypeDecl(declaration));
    Ok(())
}

// ---------------------------------------------------------------------------
// Modules
// ---------------------------------------------------------------------------

/// What came of the forms of a module: the items of its block.
pub ghost struct Formed {
    pub run: Run,
    pub result: Result<Seq<Item>, Failure>,
}

/// A form other than an item: it is opened like an expression and spends a step.
pub open spec fn form_opened(run: Run, at: At) -> Result<Run, Failure> {
    if at.exprs == 0 {
        Err(too_deep())
    } else {
        match stepped_once(run.steps) {
            Err(failure) => Err(failure),
            Ok(steps) => Ok(Run { steps, ..noting(run, Counter::EvaluatorSteps) }),
        }
    }
}

/// Evaluates forms from index `i` on: declares types, and gathers the items.
pub open spec fn forms_evaluated(
    run: Run,
    forms: Seq<TopForm>,
    i: int,
    before: Seq<Item>,
    at: At,
) -> Formed
    decreases forms.len() - i,
{
    if i < 0 || i >= forms.len() {
        Formed { run, result: Ok(before) }
    } else {
        match forms[i] {
            TopForm::Block(item) => forms_evaluated(run, forms, i + 1, before.push(item), at),
            other => match form_opened(run, at) {
                Err(failure) => Formed { run, result: Err(failure) },
                Ok(after) => match other {
                    TopForm::Type(declaration) => match type_declared(after.world, declaration) {
                        Err(failure) => Formed { run: after, result: Err(failure) },
                        Ok(made) => forms_evaluated(
                            Run {
                                world: defined(
                                    after.world,
                                    declaration.name,
                                    Val::TypeDecl(made),
                                ),
                                ..after
                            },
                            forms,
                            i + 1,
                            before,
                            at,
                        ),
                    },
                    TopForm::Invalid(message) => Formed {
                        run: after,
                        result: Err(Failure::Type(message)),
                    },
                    _ => forms_evaluated(after, forms, i + 1, before, at),
                },
            },
        }
    }
}

/// The texts among the first `n` values.
pub open spec fn texts_among(list: Seq<Val>, n: int) -> Seq<Seq<char>>
    decreases n,
{
    if n <= 0 || n > list.len() {
        Seq::empty()
    } else {
        match val_text(list[n - 1]) {
            Some(text) => texts_among(list, n - 1).push(text),
            None => texts_among(list, n - 1),
        }
    }
}

/// How a declaration or a block that cannot be resolved fails: a name that nothing defines
/// is told together with the imports that would define it.
pub open spec fn unresolved(
    failure: Failure,
    replies: Seq<(Query, Result<Val, Failure>)>,
) -> Halt {
    match failure {
        Failure::Unresolved(name) => match answered(replies, Query::Imports(name)) {
            Err(halt) => halt,
            Ok(Val::List(list)) => Halt::Failed(
                with_suggestions(failure, texts_among(list, list.len() as int)),
            ),
            Ok(_) => Halt::Failed(failure),
        },
        _ => Halt::Failed(failure),
    }
}

fn gather_texts(list: &Vec<Value>) -> (found: Vec<String>)
    ensures
        texts(found@) == texts_among(vals(list@), list@.len() as int),
{
    let ghost all = vals(list@);
    let mut found: Vec<String> = Vec::new();
    assert(texts(found@) =~= Seq::<Seq<char>>::empty());
    let mut n: usize = 0;
    while n < list.len()
        invariant
            n <= list@.len(),
            all == vals(list@),
            texts(found@) == texts_among(all, n as int),
        decreases list@.len() - n,
    {
        assert(all[n as int] == list@[n as int]@);
        if let Some(text) = list[n].as_str() {
            let ghost before = texts(found@);
            found.push(text.to_owned());
            assert(texts(found@) =~= before.push(text@));
        }
        n = n + 1;
    }
    found
}

fn explain_unresolved(error: MagError, replies: &Vec<(Question, Reply)>) -> (stop: Stop)
    ensures
        stop@ == unresolved(error@, reply_views(replies@)),
{
    let name = match &error {
        MagError::Unresolved(name) => name.clone(),
        _ => return Stop::Failed(error),
    };
    match answer(replies, Question::Imports(name)) {
        Err(stop) => stop,
        Ok(Value::List(list)) => {
            assert(vals(list@).len() == list@.len());
            Stop::Failed(enrich_unresolved_import(error, &gather_texts(&list)))
        },
        Ok(_) => Stop::Failed(error),
    }
}

/// What came of checking a module: its block.
pub ghost struct CheckedRun {
    pub run: Run,
    pub result: Result<TypedBlock, Halt>,
}

/// Declares the types of a module whose imports are in place, and checks its items.
pub open spec fn program_checked(run: Run, forms: Seq<TopForm>, at: At) -> CheckedRun {
    let formed = forms_evaluated(run, forms, 0, Seq::empty(), at);
    match formed.result {
        Err(failure) => CheckedRun {
            run: formed.run,
            result: Err(unresolved(failure, at.replies)),
        },
        Ok(list) => {
            let compiled = compiled_block(formed.run.world, Seq::empty(), list, None);
            CheckedRun {
                run: Run { world: compiled.world, ..formed.run },
                result: match compiled.result {
                    Err(failure) => Err(unresolved(failure, at.replies)),
                    Ok(block) => Ok(block),
                },
            }
        },
    }
}

/// Evaluates the forms of a module whose imports are in place.
#[verifier::opaque]
pub open spec fn program_run(run: Run, forms: Seq<TopForm>, at: At) -> Done {
    let checked = program_checked(run, forms, at);
    match checked.result {
        Err(halt) => Done { run: checked.run, result: Err(halt) },
        Ok(block) => block_evaluated(checked.run, block, at),
    }
}

/// The budget under which a module is evaluated: what is in force, or limits.
pub open spec fn ensured(budget: Budget, limits: CompilerLimits) -> Budget {
    if budget.remaining is Some {
        budget
    } else {
        installed(budget, limits)
    }
}

pub open spec fn at_budget(at: At, budget: Budget) -> At {
    At { exprs: expr_room(budget), calls: call_room(budget), ..at }
}

impl Machine {
    fn open_form(&mut self) -> (result: Result<ExprGuard, MagError>)
        ensures
            match form_opened(old(self).run(), old(self).at()) {
                Ok(run) => result is Ok && final(self).run() == run && final(self).budget == (
                Budget {
                    expr_depth: (old(self).budget.expr_depth + 1) as u16,
                    ..final(self).budget
                }) && old(self).budget.expr_depth < u16::MAX && final(self).budget.call_depth
                    == old(self).budget.call_depth && final(self).budget.expr_limit == old(
                    self,
                ).budget.expr_limit && final(self).budget.call_limit == old(
                    self,
                ).budget.call_limit,
                Err(failure) => result is Err && result->Err_0@ == failure && final(self).run()
                    == old(self).run() && old(self).level(*final(self)),
            },
            final(self).forced == old(self).forced,
            final(self).replies == old(self).replies,
    {
        let guard = match enter_expr(&mut self.budget) {
            Ok(guard) => guard,
            Err(error) => return Err(error),
        };
        match step(&mut self.budget) {
            Ok(_) => {
                self.note(Counter::EvaluatorSteps);
                Ok(guard)
            },
            Err(error) => {
                guard.leave(&mut self.budget);
                Err(error)
            },
        }
    }

    #[verifier::rlimit(40)]
    fn eval_forms(&mut self, forms: Vec<ModuleForm>) -> (result: Result<Vec<BlockItem>, MagError>)
        ensures
            (Formed {
                run: final(self).run(),
                result: match result {
                    Ok(list) => Ok(items(list@)),
                    Err(error) => Err(error@),
                },
            }) == forms_evaluated(
                old(self).run(),
                top_forms(forms@),
                0,
                Seq::empty(),
                old(self).at(),
            ),
            old(self).level(*final(self)),
    {
        let ghost given = forms@;
        let ghost all = top_forms(given);
        let ghost at = self.at();
        let ghost whole = forms_evaluated(self.run(), all, 0, Seq::empty(), at);
        let count = forms.len();
        let mut rest = forms;
        let mut list: Vec<BlockItem> = Vec::new();
        assert(items(list@) =~= Seq::<Item>::empty());
        assert(rest@ =~= given.skip(0));
        let mut i: usize = 0;
        while i < count
            invariant
                i <= count,
                given == forms@,
                count == given.len(),
                all == top_forms(given),
                rest@ == given.skip(i as int),
                at == old(self).at(),
                whole == forms_evaluated(old(self).run(), all, 0, Seq::empty(), at),
                old(self).level(*self),
                whole == forms_evaluated(self.run(), all, i as int, items(list@), at),
            decreases count - i,
        {
            let form = rest.remove(0);
            assert(form == given[i as int]);
            assert(all[i as int] == form@);
            assert(rest@ =~= given.skip(i + 1));
            assert(self.at() == at);
            match form {
                ModuleForm::Block(item) => {
                    let ghost before = items(list@);
                    let ghost view = item@;
                    list.push(item);
                    assert(items(list@) =~= before.push(view));
                },
                other => {
                    let guard = match self.open_form() {
                        Ok(guard) => guard,
                        Err(error) => return Err(error),
                    };
                    let result = match &other {
                        ModuleForm::Type(declaration) => eval_type_declaration(
                            &mut self.env,
                            declaration,
                        ),
                        ModuleForm::Invalid(message) => Err(MagError::Type(message.clone())),
                        _ => Ok(()),
                    };
                    guard.leave(&mut self.budget);
                    match result {
                        Err(error) => return Err(error),
                        Ok(_) => {},
                    }
                },
            }
            i = i + 1;
        }
        Ok(list)
    }

    /// Declares the types of a module whose imports are in place, and checks its items.
    pub fn check_forms(&mut self, forms: Vec<ModuleForm>) -> (result: Result<CheckedBlock, Stop>)
        ensures
            (CheckedRun {
                run: final(self).run(),
                result: match result {
                    Ok(block) => Ok(block@),
                    Err(stop) => Err(stop@),
                },
            }) == program_checked(old(self).run(), top_forms(forms@), old(self).at()),
            old(self).level(*final(self)),
    {
        let list = match self.eval_forms(forms) {
            Err(error) => return Err(explain_unresolved(error, &self.replies)),
            Ok(list) => list,
        };
        match compile_block(&mut self.env, &list) {
            Err(error) => Err(explain_unresolved(error, &self.replies)),
            Ok(block) => Ok(block),
        }
    }

    pub(crate) fn run_forms(&mut self, forms: Vec<ModuleForm>) -> (result: Result<Value, Stop>)
        ensures
            evaluation(final(self).run(), result) == program_run(
                old(self).run(),
                top_forms(forms@),
                old(self).at(),
            ),
            old(self).level(*final(self)),
    {
        reveal(program_run);
        match self.check_forms(forms) {
            Err(stop) => Err(stop),
            Ok(block) => {
                assert(self.at() == old(self).at());
                self.eval_checked_block(&block)
            },
        }
    }

    /// Evaluates a module whose imports are in place, under the budget in force or
    /// under new limits.
    pub fn eval_program(&mut self, module: Module, limits: CompilerLimits) -> (result: Result<
        Value,
        Stop,
    >)
        ensures
            ({
                let budget = ensured(old(self).budget, limits);
                let outcome = program_run(
                    Run { steps: budget.remaining, ..old(self).run() },
                    top_forms(module.forms@),
                    at_budget(old(self).at(), budget),
                );
                &&& came_to(result) == outcome.result
                &&& final(self).env@ == outcome.run.world
                &&& final(self).counters == outcome.run.counts
                &&& file_views(final(self).files@) == outcome.run.files
                &&& final(self).budget.remaining == (if old(self).budget.remaining is Some {
                    outcome.run.steps
                } else {
                    None
                })
                &&& old(self).level(*final(self))
            }),
    {
        let guard = ensure(&mut self.budget, limits);
        assert(self.at() == at_budget(old(self).at(), ensured(old(self).budget, limits)));
        let result = self.run_forms(module.forms);
        guard.restore(&mut self.budget);
        result
    }
}

// ---------------------------------------------------------------------------
// Calls by name
// ---------------------------------------------------------------------------

/// What came of looking for functions that take an argument.
pub ghost struct Matching {
    pub world: World,
    pub functions: Seq<Val>,
}

/// The functions behind bindings, from index `i` on, that take an argument.
pub open spec fn matching_from(
    world: World,
    ids: Seq<BindingId>,
    arg: Val,
    i: int,
    before: Seq<Val>,
) -> Matching
    decreases ids.len() - i,
{
    if i < 0 || i >= ids.len() {
        Matching { world, functions: before }
    } else {
        match ready_value(world, ids[i]) {
            None => matching_from(world, ids, arg, i + 1, before),
            Some(value) => match bare(value) {
                Val::Fn(function) => {
                    let call = call_checked(world, *function, seq![arg]);
                    matching_from(
                        call.world,
                        ids,
                        arg,
                        i + 1,
                        if call.result is Ok {
                            before.push(Val::Fn(function))
                        } else {
                            before
                        },
                    )
                },
                Val::BuiltinFn(name) => matching_from(
                    world,
                    ids,
                    arg,
                    i + 1,
                    before.push(Val::BuiltinFn(name)),
                ),
                _ => matching_from(world, ids, arg, i + 1, before),
            },
        }
    }
}

/// Calls the one function of a name that takes an argument.
pub open spec fn named_applied(run: Run, name: Seq<char>, arg: Val, at: At) -> Done {
    let matching = matching_from(run.world, candidates(run.world, name), arg, 0, Seq::empty());
    let after = Run { world: matching.world, ..run };
    if matching.functions.len() == 1 {
        applied_value(
            after,
            matching.functions[0],
            seq![arg],
            None,
            Seq::empty(),
            at,
        )
    } else if matching.functions.len() == 0 {
        fails(after, Failure::Type("no overload "@ + name + " matches call"@))
    } else {
        fails(after, Failure::Type("ambiguous overload "@ + name + " for call"@))
    }
}

fn find_matching(env: &mut Env, name: &str, args: &Vec<Value>) -> (functions: Vec<Value>)
    requires
        args@.len() == 1,
    ensures
        (Matching { world: final(env)@, functions: vals(functions@) }) == matching_from(
            old(env)@,
            candidates(old(env)@, name@),
            args@[0]@,
            0,
            Seq::empty(),
        ),
{
    let ghost arg = args@[0]@;
    assert(vals(args@) =~= seq![arg]);
    let ids = env.lookup_candidates(name);
    let ghost whole = matching_from(env@, ids@, arg, 0, Seq::empty());
    let mut functions: Vec<Value> = Vec::new();
    assert(vals(functions@) =~= Seq::<Val>::empty());
    let mut i: usize = 0;
    while i < ids.len()
        invariant
            i <= ids@.len(),
            vals(args@) == seq![arg],
            whole == matching_from(env@, ids@, arg, i as int, vals(functions@)),
        decreases ids@.len() - i,
    {
        let value = match env.ready_binding(ids[i]) {
            Some(value) => Some(raw(value).copy()),
            None => None,
        };
        let taken = match &value {
            Some(Value::Fn(function)) => {
                let function: &FnValue = function;
                check_call(env, function, args).is_ok()
            },
            Some(Value::BuiltinFn(_)) => true,
            _ => false,
        };
        if taken {
            if let Some(function) = value {
                let ghost before = vals(functions@);
                let ghost view = function@;
                functions.push(function);
                assert(vals(functions@) =~= before.push(view));
            }
        }
        i = i + 1;
    }
    functions
}

impl Machine {
    /// Calls the one function of a name that takes an argument.
    pub fn apply_named(&mut self, name: &str, arg: Value) -> (result: Result<Value, Stop>)
        ensures
            evaluation(final(self).run(), result) == named_applied(
                old(self).run(),
                name@,
                arg@,
                old(self).at(),
            ),
            old(self).level(*final(self)),
    {
        let ghost view = arg@;
        let mut args: Vec<Value> = Vec::new();
        args.push(arg);
        assert(vals(args@) =~= seq![view]);
        let functions = find_matching(&mut self.env, name, &args);
        assert(vals(functions@).len() == functions@.len());
        assert(self.at() == old(self).at());
        if functions.len() == 1 {
            assert(vals(functions@)[0] == functions@[0]@);
            return self.apply(&functions[0], &args);
        }
        if functions.len() == 0 {
            return Err(
                Stop::Failed(MagError::Type(cat3("no overload ", name, " matches call"))),
            );
        }
        Err(Stop::Failed(MagError::Type(cat3("ambiguous overload ", name, " for call"))))
    }
}

} // verus!
