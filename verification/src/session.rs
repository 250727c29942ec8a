//! Compilations: a program, the modules that it imports, and their evaluation.

use crate::asking::{Halt, Query, Question, Stop, came_to};
use crate::authored::{Import, Module, ModuleForm, Require, TopForm, imports, top_forms};
use crate::builtins::{all_builtins, builtin_name, builtin_names};
use crate::collisions::{plan_imports, planned};
use crate::declare::{Body, Decl, TypeDecl, TypeDeclBody};
use crate::diagnostic::{Source, SourceSnapshot, measurable};
use crate::env::{Env, Named, Slot, World, defined, looked_up, named_slots, scope_views};
use crate::error::{Failure, MagError};
use crate::imports::{
    Exports, direct_exports, direct_module_exports, export_views, exports_of, find_exports,
};
use crate::loader::{
    Defs, Loader, Loads, def_views, defs_of, first_values, lemma_noted_module, module_value_map,
    name_place, plan_installed, user_defs, user_defs_of, with_module,
};
use crate::machine::{At, Machine, Run, noting};
use crate::profile::Counter;
use crate::program::program_run;
use crate::scope::sorted_names;
use crate::surface::{compile_source, surface_module};
use crate::text::{byte_at, char_bytes, joined, lemma_byte_at_bounds, same_text, text_chars, texts};
use crate::types::{MagType, Ty};
use crate::value::{Val, Value};
use vstd::prelude::*;
use vstd::string::*;

verus! {

// ---------------------------------------------------------------------------
// What every module knows
// ---------------------------------------------------------------------------

/// A world in which the functions of the language, from index `i` on, are defined.
pub open spec fn with_builtins(world: World, i: int) -> World
    decreases all_builtins().len() - i,
{
    if i < 0 || i >= all_builtins().len() {
        world
    } else {
        let name = builtin_name(all_builtins()[i]);
        with_builtins(defined(world, name, Val::BuiltinFn(name)), i + 1)
    }
}

/// The types that have names everywhere.
pub open spec fn plain_types() -> Seq<(Seq<char>, Ty)> {
    seq![
        ("Artifact"@, Ty::Artifact),
        ("JsonValue"@, Ty::JsonValue),
        ("TypeDescriptor"@, Ty::TypeDescriptor),
        ("TypeSchema"@, Ty::TypeSchema),
        ("SemanticTypeId"@, Ty::SemanticTypeId),
        ("PackedValue"@, Ty::PackedValue),
        ("Unit"@, Ty::Unit),
        ("Bool"@, Ty::Bool),
        ("Int"@, Ty::Int),
        ("Float"@, Ty::Float),
        ("String"@, Ty::String),
    ]
}

pub open spec fn with_plain_types(world: World, i: int) -> World
    decreases plain_types().len() - i,
{
    if i < 0 || i >= plain_types().len() {
        world
    } else {
        with_plain_types(
            defined(world, plain_types()[i].0, Val::Type(plain_types()[i].1)),
            i + 1,
        )
    }
}

/// The collection types, with the canonical names of their declarations and their parameters.
pub open spec fn native_decl(name: Seq<char>, params: Seq<Seq<char>>) -> Decl {
    Decl { name, params, body: Body::Native }
}

pub open spec fn with_native_types(world: World) -> World {
    let lists = defined(
        world,
        "List"@,
        Val::TypeDecl(native_decl("core.List"@, seq!["T"@])),
    );
    let maps = defined(
        lists,
        "Map"@,
        Val::TypeDecl(native_decl("core.Map"@, seq!["K"@, "V"@])),
    );
    defined(maps, "Set"@, Val::TypeDecl(native_decl("core.Set"@, seq!["T"@])))
}

/// A world with everything that every module knows.
pub open spec fn standard(world: World) -> World {
    with_native_types(with_plain_types(with_builtins(world, 0), 0))
}

fn define_builtins(env: &mut Env)
    ensures
        final(env)@ == with_builtins(old(env)@, 0),
{
    let names = builtin_names();
    let ghost whole = with_builtins(env@, 0);
    let mut i: usize = 0;
    while i < names.len()
        invariant
            i <= names@.len(),
            names@.len() == all_builtins().len(),
            forall|k: int| 0 <= k < names@.len() ==> (#[trigger] names@[k])@ == builtin_name(
                all_builtins()[k],
            ),
            whole == with_builtins(env@, i as int),
        decreases names@.len() - i,
    {
        env.define(names[i], Value::BuiltinFn(names[i].to_owned()));
        i = i + 1;
    }
}

fn plain_type_list() -> (list: Vec<(&'static str, MagType)>)
    ensures
        list@.len() == plain_types().len(),
        forall|i: int|
            0 <= i < list@.len() ==> (#[trigger] list@[i]).0@ == plain_types()[i].0 && list@[i].1@
                == plain_types()[i].1,
{
    let list = vec![
        ("Artifact", MagType::Artifact),
        ("JsonValue", MagType::JsonValue),
        ("TypeDescriptor", MagType::TypeDescriptor),
        ("TypeSchema", MagType::TypeSchema),
        ("SemanticTypeId", MagType::SemanticTypeId),
        ("PackedValue", MagType::PackedValue),
        ("Unit", MagType::Unit),
        ("Bool", MagType::Bool),
        ("Int", MagType::Int),
        ("Float", MagType::Float),
        ("String", MagType::String),
    ];
    list
}

fn define_plain_types(env: &mut Env)
    ensures
        final(env)@ == with_plain_types(old(env)@, 0),
{
    let list = plain_type_list();
    let ghost whole = with_plain_types(env@, 0);
    let mut i: usize = 0;
    while i < list.len()
        invariant
            i <= list@.len(),
            list@.len() == plain_types().len(),
            forall|k: int|
                0 <= k < list@.len() ==> (#[trigger] list@[k]).0@ == plain_types()[k].0
                    && list@[k].1@ == plain_types()[k].1,
            whole == with_plain_types(env@, i as int),
        decreases list@.len() - i,
    {
        let entry = &list[i];
        env.define(entry.0, Value::Type(entry.1.copy()));
        i = i + 1;
    }
}

fn define_native(env: &mut Env, name: &str, canonical: &str, params: Vec<String>)
    ensures
        final(env)@ == defined(
            old(env)@,
            name@,
            Val::TypeDecl(native_decl(canonical@, texts(params@))),
        ),
{
    let declaration = TypeDecl { name: canonical.to_owned(), params, body: TypeDeclBody::Native };
    assert(declaration@ == native_decl(canonical@, texts(params@)));
    env.define(name, Value::TypeDecl(declaration));
}

fn define_native_types(env: &mut Env)
    ensures
        final(env)@ == with_native_types(old(env)@),
{
    let item = vec!["T".to_owned()];
    assert(texts(item@) =~= seq!["T"@]);
    define_native(env, "List", "core.List", item);
    let entry = vec!["K".to_owned(), "V".to_owned()];
    assert(texts(entry@) =~= seq!["K"@, "V"@]);
    define_native(env, "Map", "core.Map", entry);
    let item = vec!["T".to_owned()];
    assert(texts(item@) =~= seq!["T"@]);
    define_native(env, "Set", "core.Set", item);
}

/// Defines everything that every module knows.
pub fn define_standard(env: &mut Env)
    ensures
        final(env)@ == standard(old(env)@),
{
    define_builtins(env);
    define_plain_types(env);
    define_native_types(env);
}

// ---------------------------------------------------------------------------
// Sources
// ---------------------------------------------------------------------------

/// The source texts of modules.
pub type Sources = Seq<(Seq<char>, Source)>;

pub open spec fn source_views(list: Seq<(String, SourceSnapshot)>) -> Sources {
    Seq::new(list.len(), |i: int| (list[i].0@, list[i].1@))
}

pub open spec fn source_of(sources: Sources, name: Seq<char>, i: int) -> Option<Source>
    decreases sources.len() - i,
{
    if i < 0 || i >= sources.len() {
        None
    } else if sources[i].0 == name {
        Some(sources[i].1)
    } else {
        source_of(sources, name, i + 1)
    }
}

/// The forms of a source text; one that is too long to be measured has none.
pub open spec fn source_forms(source: Source) -> Result<Seq<TopForm>, Failure> {
    if measurable(source.text) {
        surface_module(source)
    } else {
        Err(Failure::Eval("source is too long"@))
    }
}

/// The forms of a module whose source is known.
pub open spec fn known_forms(sources: Sources, name: Seq<char>) -> Result<Seq<TopForm>, Halt> {
    match source_of(sources, name, 0) {
        None => Err(Halt::Asked(Query::Module(name))),
        Some(source) => match source_forms(source) {
            Err(failure) => Err(Halt::Failed(failure)),
            Ok(forms) => Ok(forms),
        },
    }
}

pub open spec fn forms_result(result: Result<Module, Stop>) -> Result<Seq<TopForm>, Halt> {
    match result {
        Ok(module) => Ok(top_forms(module.forms@)),
        Err(stop) => Err(stop@),
    }
}

fn is_measurable(text: &str) -> (yes: bool)
    ensures
        yes == measurable(text@),
{
    let chars = text_chars(text);
    let limit = (usize::MAX - 4) / 4;
    let mut total: usize = 0;
    let mut i: usize = 0;
    assert(byte_at(chars@, 0) == 0);
    while i < chars.len()
        invariant
            i <= chars@.len(),
            chars@ == text@,
            total == byte_at(chars@, i as int),
            total <= limit,
            limit == (usize::MAX - 4) / 4,
        decreases chars@.len() - i,
    {
        proof {
            lemma_byte_at_bounds(chars@, i + 1);
        }
        let width = char_bytes(chars[i]);
        if width > limit - total {
            return false;
        }
        total = total + width;
        i = i + 1;
    }
    proof {
        lemma_byte_at_bounds(chars@, chars@.len() as int);
    }
    true
}

/// Compiles a source text of any length.
pub fn compile_text(source: &SourceSnapshot) -> (result: Result<Module, MagError>)
    ensures
        match result {
            Ok(module) => source_forms(source@) == Ok::<Seq<TopForm>, Failure>(
                top_forms(module.forms@),
            ),
            Err(error) => source_forms(source@) == Err::<Seq<TopForm>, Failure>(error@),
        },
{
    if !is_measurable(source.text.as_str()) {
        return Err(MagError::Eval("source is too long".to_owned()));
    }
    compile_source(source)
}

fn find_source<'a>(sources: &'a Vec<(String, SourceSnapshot)>, name: &str) -> (source: Option<
    &'a SourceSnapshot,
>)
    ensures
        match (source, source_of(source_views(sources@), name@, 0)) {
            (Some(source), Some(view)) => source@ == view,
            (None, None) => true,
            _ => false,
        },
{
    let ghost all = source_views(sources@);
    let mut i: usize = 0;
    while i < sources.len()
        invariant
            i <= sources@.len(),
            all == source_views(sources@),
            source_of(all, name@, 0) == source_of(all, name@, i as int),
        decreases sources@.len() - i,
    {
        let entry = &sources[i];
        assert(all[i as int] == (entry.0@, entry.1@));
        if same_text(entry.0.as_str(), name) {
            return Some(&entry.1);
        }
        i = i + 1;
    }
    None
}

fn find_forms(sources: &Vec<(String, SourceSnapshot)>, name: &str) -> (result: Result<Module, Stop>)
    ensures
        forms_result(result) == known_forms(source_views(sources@), name@),
{
    match find_source(sources, name) {
        None => Err(Stop::Ask(Question::Module(name.to_owned()))),
        Some(source) => match compile_text(source) {
            Ok(module) => Ok(module),
            Err(error) => Err(Stop::Failed(error)),
        },
    }
}

// ---------------------------------------------------------------------------
// Loading
// ---------------------------------------------------------------------------

/// The imports among the first `n` forms.
pub open spec fn imports_in(forms: Seq<TopForm>, n: int) -> Seq<Import>
    decreases n,
{
    if n <= 0 {
        Seq::empty()
    } else {
        match forms[n - 1] {
            TopForm::Require(import) => imports_in(forms, n - 1).push(import),
            _ => imports_in(forms, n - 1),
        }
    }
}

/// What imported modules export, from index `i` on, after others.
pub open spec fn exports_from(sources: Sources, list: Seq<Import>, i: int, before: Exports) -> Result<
    Exports,
    Halt,
>
    decreases list.len() - i,
{
    if i < 0 || i >= list.len() {
        Ok(before)
    } else if exports_of(before, list[i].module, 0) is Some {
        exports_from(sources, list, i + 1, before)
    } else {
        match known_forms(sources, list[i].module) {
            Err(halt) => Err(halt),
            Ok(forms) => exports_from(
                sources,
                list,
                i + 1,
                before.push(
                    (
                        list[i].module,
                        sorted_names(direct_exports(forms, forms.len() as int)),
                    ),
                ),
            ),
        }
    }
}

/// What came of a load.
pub ghost struct Loaded {
    pub run: Run,
    pub loads: Loads,
    pub result: Result<Val, Halt>,
}

pub open spec fn halts(run: Run, loads: Loads, halt: Halt) -> Loaded {
    Loaded { run, loads, result: Err(halt) }
}

/// The world in which a module is evaluated: what every module knows, and the
/// inputs of the host.
pub open spec fn module_world(world: World, name: Seq<char>) -> World {
    let fresh = standard(World { scopes: seq![Seq::empty()], module: name, ..world });
    match looked_up(world, "inputs"@) {
        Some(value) => defined(fresh, "inputs"@, value),
        None => fresh,
    }
}

/// A module as a value.
pub open spec fn namespace_of(defs: Defs) -> Val {
    Val::ModuleNamespace(first_values(defs, defs.len() as int))
}

/// Loads a module unless it is loaded: evaluates it in a world of its own and
/// notes what it defines.
pub open spec fn module_loaded(
    before: Run,
    loads: Loads,
    sources: Sources,
    name: Seq<char>,
    at: At,
    fuel: nat,
) -> Loaded
    decreases fuel, 0int, 0int,
{
    let run = noting(before, Counter::ModuleRequests);
    if let Some(defs) = defs_of(loads.loaded, name, 0) {
        Loaded {
            run: noting(run, Counter::ModuleCacheHits),
            loads,
            result: Ok(namespace_of(defs)),
        }
    } else {
        let place = name_place(loads.loading, name, 0);
        if place != -1 {
            halts(
                run,
                loads,
                Halt::Failed(
                    Failure::Eval(
                        "circular require: "@ + joined(
                            loads.loading.skip(place).push(name),
                            " -> "@,
                        ),
                    ),
                ),
            )
        } else {
            let begun = Loads { loading: loads.loading.push(name), ..loads };
            match known_forms(sources, name) {
                Err(halt) => halts(run, begun, halt),
                Ok(forms) => if fuel == 0 {
                    halts(
                        run,
                        begun,
                        Halt::Failed(Failure::Eval("module nesting limit reached"@)),
                    )
                } else {
                    module_evaluated(run, begun, sources, name, forms, at, (fuel - 1) as nat)
                },
            }
        }
    }
}

/// Evaluates a module in scopes of its own, and notes what it defines.
pub open spec fn module_evaluated(
    run: Run,
    loads: Loads,
    sources: Sources,
    name: Seq<char>,
    forms: Seq<TopForm>,
    at: At,
    fuel: nat,
) -> Loaded
    decreases fuel, 4int, 0int,
{
    let inner = program_loaded(
        Run { world: module_world(run.world, name), ..run },
        loads,
        sources,
        forms,
        at,
        fuel,
    );
    let back = Run {
        world: World {
            scopes: run.world.scopes,
            module: run.world.module,
            ..inner.run.world
        },
        ..inner.run
    };
    match inner.result {
        Err(halt) => halts(back, inner.loads, halt),
        Ok(_) => {
            let defs = user_defs_of(
                inner.run.world,
                sorted_names(direct_exports(forms, forms.len() as int)),
            );
            Loaded {
                run: noting(back, Counter::ModulesLoaded),
                loads: finished_loads(inner.loads, name, defs),
                result: Ok(namespace_of(defs)),
            }
        },
    }
}

/// Modules after one has been loaded.
pub open spec fn finished_loads(loads: Loads, name: Seq<char>, defs: Defs) -> Loads {
    Loads {
        loaded: with_module(loads.loaded, name, defs, 0),
        loading: if loads.loading.len() > 0 {
            loads.loading.drop_last()
        } else {
            loads.loading
        },
        ..loads
    }
}

/// Whether an import before index `i` names the same module as the one at `i`.
pub open spec fn imported_before(list: Seq<Import>, i: int) -> bool {
    exists|k: int| 0 <= k < i && (#[trigger] list[k]).module == list[i].module
}

/// Loads the modules of imports from index `i` on, each module once.
pub open spec fn modules_loaded(
    run: Run,
    loads: Loads,
    sources: Sources,
    list: Seq<Import>,
    i: int,
    at: At,
    fuel: nat,
) -> Loaded
    decreases fuel, 1int, list.len() - i,
{
    if i < 0 || i >= list.len() {
        Loaded { run, loads, result: Ok(Val::Unit) }
    } else if imported_before(list, i) {
        modules_loaded(run, loads, sources, list, i + 1, at, fuel)
    } else {
        let one = module_loaded(run, loads, sources, list[i].module, at, fuel);
        match one.result {
            Err(halt) => one,
            Ok(_) => modules_loaded(one.run, one.loads, sources, list, i + 1, at, fuel),
        }
    }
}

/// Loads what a program imports and installs it.
pub open spec fn imports_loaded(
    run: Run,
    loads: Loads,
    sources: Sources,
    forms: Seq<TopForm>,
    at: At,
    fuel: nat,
) -> Loaded
    decreases fuel, 2int, 0int,
{
    let list = imports_in(forms, forms.len() as int);
    match exports_from(sources, list, 0, Seq::empty()) {
        Err(halt) => halts(run, loads, halt),
        Ok(exports) => match planned(list, exports, forms) {
            Err(failure) => halts(run, loads, Halt::Failed(failure)),
            Ok(plan) => {
                let modules = modules_loaded(run, loads, sources, list, 0, at, fuel);
                match modules.result {
                    Err(halt) => modules,
                    Ok(_) => Loaded {
                        run: Run {
                            world: plan_installed(modules.run.world, modules.loads, plan),
                            ..modules.run
                        },
                        loads: modules.loads,
                        result: Ok(Val::Unit),
                    },
                }
            },
        },
    }
}

/// Evaluates a program after its imports.
pub open spec fn program_loaded(
    run: Run,
    loads: Loads,
    sources: Sources,
    forms: Seq<TopForm>,
    at: At,
    fuel: nat,
) -> Loaded
    decreases fuel, 3int, 0int,
{
    let imported = imports_loaded(run, loads, sources, forms, at, fuel);
    match imported.result {
        Err(_) => imported,
        Ok(_) => {
            let outcome = program_run(imported.run, forms, at);
            Loaded { run: outcome.run, loads: imported.loads, result: outcome.result }
        },
    }
}

/// A compilation.
pub struct Session {
    pub machine: Machine,
    pub loader: Loader,
    pub sources: Vec<(String, SourceSnapshot)>,
}

pub open spec fn loading_result(session: Session, result: Result<Value, Stop>) -> Loaded {
    Loaded {
        run: session.machine.run(),
        loads: session.loader@,
        result: came_to(result),
    }
}

impl Session {
    /// Whether another session stands where this one does.
    pub open spec fn level(&self, other: Session) -> bool {
        self.machine.level(other.machine) && self.sources == other.sources
    }

    fn find_imports(module: &Module) -> (list: Vec<Require>)
        ensures
            imports(list@) == imports_in(top_forms(module.forms@), module.forms@.len() as int),
    {
        let ghost all = top_forms(module.forms@);
        let mut list: Vec<Require> = Vec::new();
        assert(imports(list@) =~= Seq::<Import>::empty());
        let mut n: usize = 0;
        while n < module.forms.len()
            invariant
                n <= module.forms@.len(),
                all == top_forms(module.forms@),
                imports(list@) == imports_in(all, n as int),
            decreases module.forms@.len() - n,
        {
            assert(all[n as int] == module.forms@[n as int]@);
            if let ModuleForm::Require(require) = &module.forms[n] {
                let ghost before = imports(list@);
                list.push(require.copy());
                assert(imports(list@) =~= before.push(require@));
            }
            n = n + 1;
        }
        list
    }

    fn gather_exports(&self, list: &Vec<Require>) -> (result: Result<Vec<(String, Vec<String>)>, Stop>)
        ensures
            match (result, exports_from(
                source_views(self.sources@),
                imports(list@),
                0,
                Seq::empty(),
            )) {
                (Ok(exports), Ok(view)) => export_views(exports@) == view,
                (Err(stop), Err(halt)) => stop@ == halt,
                _ => false,
            },
    {
        let ghost all = imports(list@);
        let ghost sources = source_views(self.sources@);
        let ghost whole = exports_from(sources, all, 0, Seq::empty());
        let mut exports: Vec<(String, Vec<String>)> = Vec::new();
        assert(export_views(exports@) =~= Seq::<(Seq<char>, Seq<Seq<char>>)>::empty());
        let mut i: usize = 0;
        while i < list.len()
            invariant
                i <= list@.len(),
                all == imports(list@),
                sources == source_views(self.sources@),
                whole == exports_from(sources, all, 0, Seq::empty()),
                whole == exports_from(sources, all, i as int, export_views(exports@)),
            decreases list@.len() - i,
        {
            let require = &list[i];
            assert(all[i as int] == require@);
            if find_exports(&exports, require.module.as_str()).is_none() {
                match find_forms(&self.sources, require.module.as_str()) {
                    Err(stop) => return Err(stop),
                    Ok(module) => {
                        let names = direct_module_exports(&module);
                        let ghost before = export_views(exports@);
                        let ghost entry = (require.module@, texts(names@));
                        assert(top_forms(module.forms@).len() == module.forms@.len());
                        exports.push((require.module.clone(), names));
                        assert(export_views(exports@) =~= before.push(entry));
                    },
                }
            }
            i = i + 1;
        }
        Ok(exports)
    }

    fn enter_module(&mut self, name: &str) -> (outer: (Vec<Vec<Slot>>, String))
        ensures
            scope_views(outer.0@) == old(self).machine.env@.scopes,
            outer.1@ == old(self).machine.env@.module,
            final(self).machine.env@ == module_world(old(self).machine.env@, name@),
            final(self).machine.budget == old(self).machine.budget,
            final(self).machine.forced == old(self).machine.forced,
            final(self).machine.replies == old(self).machine.replies,
            final(self).machine.counters == old(self).machine.counters,
            final(self).machine.files == old(self).machine.files,
            final(self).loader == old(self).loader,
            final(self).sources == old(self).sources,
    {
        let ghost world = self.machine.env@;
        let inputs = match self.machine.env.find("inputs") {
            Some(value) => Some(value.copy()),
            None => None,
        };
        let mut scopes: Vec<Vec<Slot>> = Vec::new();
        scopes.push(Vec::new());
        assert(named_slots(scopes@[0]@) =~= Seq::<Named>::empty());
        assert(scope_views(scopes@) =~= seq![Seq::<Named>::empty()]);
        core::mem::swap(&mut self.machine.env.scopes, &mut scopes);
        let mut module = name.to_owned();
        core::mem::swap(&mut self.machine.env.module, &mut module);
        assert(self.machine.env@ == (World {
            scopes: seq![Seq::empty()],
            module: name@,
            ..world
        }));
        define_standard(&mut self.machine.env);
        if let Some(value) = inputs {
            self.machine.env.define("inputs", value);
        }
        (scopes, module)
    }

    /// Loads a module.
    #[verifier::rlimit(20)]
    pub fn eval_require(&mut self, name: &str, fuel: u64) -> (result: Result<Value, Stop>)
        ensures
            loading_result(*final(self), result) == module_loaded(
                old(self).machine.run(),
                old(self).loader@,
                source_views(old(self).sources@),
                name@,
                old(self).machine.at(),
                fuel as nat,
            ),
            old(self).level(*final(self)),
        decreases fuel, 0int,
    {
        self.machine.note(Counter::ModuleRequests);
        assert(self.machine.at() == old(self).machine.at());
        let known = match self.loader.module_cached(name) {
            Some(definitions) => {
                assert(def_views(definitions@).len() == definitions@.len());
                Some(module_value_map(definitions))
            },
            None => None,
        };
        if let Some(members) = known {
            self.machine.note(Counter::ModuleCacheHits);
            return Ok(Value::ModuleNamespace(members));
        }
        match self.loader.begin_module(name) {
            Err(error) => return Err(Stop::Failed(error)),
            Ok(_) => {},
        }
        let module = match find_forms(&self.sources, name) {
            Err(stop) => return Err(stop),
            Ok(module) => module,
        };
        if fuel == 0 {
            return Err(
                Stop::Failed(MagError::Eval("module nesting limit reached".to_owned())),
            );
        }
        self.eval_fresh(name, module, fuel - 1)
    }

    /// Evaluates a module in scopes of its own, and notes what it defines.
    #[verifier::rlimit(40)]
    fn eval_fresh(&mut self, name: &str, module: Module, fuel: u64) -> (result: Result<Value, Stop>)
        ensures
            loading_result(*final(self), result) == module_evaluated(
                old(self).machine.run(),
                old(self).loader@,
                source_views(old(self).sources@),
                name@,
                top_forms(module.forms@),
                old(self).machine.at(),
                fuel as nat,
            ),
            old(self).level(*final(self)),
        decreases fuel, 4int,
    {
        let names = direct_module_exports(&module);
        assert(top_forms(module.forms@).len() == module.forms@.len());
        let (scopes, outer) = self.enter_module(name);
        assert(self.machine.at() == old(self).machine.at());
        let result = self.eval_module(module, fuel);
        let definitions = user_defs(&self.machine.env, &names);
        self.machine.env.scopes = scopes;
        self.machine.env.module = outer;
        match result {
            Err(stop) => Err(stop),
            Ok(_) => {
                assert(def_views(definitions@).len() == definitions@.len());
                let members = module_value_map(&definitions);
                self.loader.finish_module(name, definitions);
                self.machine.note(Counter::ModulesLoaded);
                Ok(Value::ModuleNamespace(members))
            },
        }
    }

    /// Whether an earlier import names the same module.
    fn repeats(list: &Vec<Require>, place: usize) -> (found: bool)
        requires
            place < list@.len(),
        ensures
            found == imported_before(imports(list@), place as int),
    {
        let ghost all = imports(list@);
        assert(all[place as int] == list@[place as int]@);
        let mut k: usize = 0;
        while k < place
            invariant
                k <= place < list@.len(),
                all == imports(list@),
                all[place as int] == list@[place as int]@,
                forall|j: int|
                    0 <= j < k ==> (#[trigger] all[j]).module != all[place as int].module,
            decreases place - k,
        {
            assert(all[k as int] == list@[k as int]@);
            if same_text(list[k].module.as_str(), list[place].module.as_str()) {
                return true;
            }
            k = k + 1;
        }
        false
    }

    fn load_all(&mut self, list: &Vec<Require>, fuel: u64) -> (result: Result<Value, Stop>)
        ensures
            loading_result(*final(self), result) == modules_loaded(
                old(self).machine.run(),
                old(self).loader@,
                source_views(old(self).sources@),
                imports(list@),
                0,
                old(self).machine.at(),
                fuel as nat,
            ),
            old(self).level(*final(self)),
        decreases fuel, 1int,
    {
        let ghost all = imports(list@);
        let ghost at = self.machine.at();
        let ghost sources = source_views(self.sources@);
        let ghost whole = modules_loaded(
            self.machine.run(),
            self.loader@,
            sources,
            all,
            0,
            at,
            fuel as nat,
        );
        let mut i: usize = 0;
        while i < list.len()
            invariant
                i <= list@.len(),
                all == imports(list@),
                at == old(self).machine.at(),
                sources == source_views(old(self).sources@),
                whole == modules_loaded(
                    old(self).machine.run(),
                    old(self).loader@,
                    sources,
                    all,
                    0,
                    at,
                    fuel as nat,
                ),
                old(self).level(*self),
                whole == modules_loaded(
                    self.machine.run(),
                    self.loader@,
                    sources,
                    all,
                    i as int,
                    at,
                    fuel as nat,
                ),
            decreases list@.len() - i,
        {
            assert(all[i as int] == list@[i as int]@);
            assert(self.machine.at() == at);
            if !Self::repeats(list, i) {
                match self.eval_require(list[i].module.as_str(), fuel) {
                    Err(stop) => return Err(stop),
                    Ok(_) => {},
                }
            }
            i = i + 1;
        }
        Ok(Value::Unit)
    }

    /// Loads what a program imports and installs it.
    #[verifier::rlimit(40)]
    pub fn eval_imports(&mut self, module: &Module, fuel: u64) -> (result: Result<Value, Stop>)
        ensures
            loading_result(*final(self), result) == imports_loaded(
                old(self).machine.run(),
                old(self).loader@,
                source_views(old(self).sources@),
                top_forms(module.forms@),
                old(self).machine.at(),
                fuel as nat,
            ),
            old(self).level(*final(self)),
        decreases fuel, 2int,
    {
        let list = Self::find_imports(module);
        assert(top_forms(module.forms@).len() == module.forms@.len());
        let exports = match self.gather_exports(&list) {
            Err(stop) => return Err(stop),
            Ok(exports) => exports,
        };
        let plan = match plan_imports(&list, &exports, module) {
            Err(error) => return Err(Stop::Failed(error)),
            Ok(plan) => plan,
        };
        match self.load_all(&list, fuel) {
            Err(stop) => return Err(stop),
            Ok(_) => {},
        }
        self.loader.install(&mut self.machine.env, &plan);
        Ok(Value::Unit)
    }

    /// Loads what a program imports, and evaluates it.
    pub fn eval_module(&mut self, module: Module, fuel: u64) -> (result: Result<Value, Stop>)
        ensures
            loading_result(*final(self), result) == program_loaded(
                old(self).machine.run(),
                old(self).loader@,
                source_views(old(self).sources@),
                top_forms(module.forms@),
                old(self).machine.at(),
                fuel as nat,
            ),
            old(self).level(*final(self)),
        decreases fuel, 3int,
    {
        match self.eval_imports(&module, fuel) {
            Err(stop) => return Err(stop),
            Ok(_) => {},
        }
        assert(self.machine.at() == old(self).machine.at());
        self.machine.run_forms(module.forms)
    }
}

// ---------------------------------------------------------------------------
// Laws
// ---------------------------------------------------------------------------

/// A module that was loaded is known, and loading it again only counts that.
pub proof fn lemma_loaded_once(
    run: Run,
    loads: Loads,
    sources: Sources,
    name: Seq<char>,
    at: At,
    fuel: nat,
    again: nat,
)
    ensures
        ({
            let first = module_loaded(run, loads, sources, name, at, fuel);
            first.result is Ok ==> {
                &&& defs_of(first.loads.loaded, name, 0) is Some
                &&& module_loaded(first.run, first.loads, sources, name, at, again) == (Loaded {
                    run: noting(
                        noting(first.run, Counter::ModuleRequests),
                        Counter::ModuleCacheHits,
                    ),
                    ..first
                })
            }
        }),
{
    let first = module_loaded(run, loads, sources, name, at, fuel);
    if first.result is Ok && defs_of(loads.loaded, name, 0) is None {
        let forms = known_forms(sources, name)->Ok_0;
        let begun = Loads { loading: loads.loading.push(name), ..loads };
        let requested = noting(run, Counter::ModuleRequests);
        let inner = program_loaded(
            Run { world: module_world(run.world, name), ..requested },
            begun,
            sources,
            forms,
            at,
            (fuel - 1) as nat,
        );
        assert(first == module_evaluated(
            requested,
            begun,
            sources,
            name,
            forms,
            at,
            (fuel - 1) as nat,
        ));
        let defs = user_defs_of(
            inner.run.world,
            sorted_names(direct_exports(forms, forms.len() as int)),
        );
        assert(first.loads == finished_loads(inner.loads, name, defs));
        lemma_noted_module(inner.loads.loaded, name, defs, 0);
    }
}

/// Loading a module leaves the scopes and the module of the one that asked for it.
pub proof fn lemma_load_keeps_scopes(
    run: Run,
    loads: Loads,
    sources: Sources,
    name: Seq<char>,
    at: At,
    fuel: nat,
)
    ensures
        module_loaded(run, loads, sources, name, at, fuel).run.world.scopes == run.world.scopes,
        module_loaded(run, loads, sources, name, at, fuel).run.world.module == run.world.module,
{
}

} // verus!
