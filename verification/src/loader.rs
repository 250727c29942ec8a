//! Modules that are being loaded or have been, and what importing them defines.

use crate::collisions::{Plan, Planned};
use crate::env::{Env, Named, World, defined, named_slots, ready_value};
use crate::error::{Failure, MagError, verdict};
use crate::imports::{Opened, dotted, is_dotted, opened_views, pair_views};
use crate::text::{cat2, cat3, join_texts, joined, same_text, texts};
use crate::types::Names;
use crate::value::{Val, Value, copy_values, val_fields, vals};
use vstd::prelude::*;

verus! {

/// What a module defines: names in ascending order, each with its values.
pub type Definitions = Vec<(String, Vec<Value>)>;

pub type Defs = Seq<(Seq<char>, Seq<Val>)>;

pub open spec fn def_views(list: Seq<(String, Vec<Value>)>) -> Defs {
    Seq::new(list.len(), |i: int| (list[i].0@, vals(list[i].1@)))
}

/// The modules of a compilation, and the identities of foreign declarations.
#[derive(Debug)]
pub struct Loader {
    pub loaded: Vec<(String, Definitions)>,
    pub loading: Vec<String>,
    pub foreign: Names,
}

pub ghost struct Loads {
    pub loaded: Seq<(Seq<char>, Defs)>,
    pub loading: Seq<Seq<char>>,
    pub foreign: Set<Seq<char>>,
}

pub open spec fn loaded_views(list: Seq<(String, Definitions)>) -> Seq<(Seq<char>, Defs)> {
    Seq::new(list.len(), |i: int| (list[i].0@, def_views(list[i].1@)))
}

impl Loader {
    pub open spec fn view(&self) -> Loads {
        Loads {
            loaded: loaded_views(self.loaded@),
            loading: texts(self.loading@),
            foreign: self.foreign@,
        }
    }
}

/// What a loaded module defines, from index `i` on.
pub open spec fn defs_of(list: Seq<(Seq<char>, Defs)>, name: Seq<char>, i: int) -> Option<Defs>
    decreases list.len() - i,
{
    if i < 0 || i >= list.len() {
        None
    } else if list[i].0 == name {
        Some(list[i].1)
    } else {
        defs_of(list, name, i + 1)
    }
}

/// The first place of a name in a list, from index `i` on; or -1.
pub open spec fn name_place(list: Seq<Seq<char>>, name: Seq<char>, i: int) -> int
    decreases list.len() - i,
{
    if i < 0 || i >= list.len() {
        -1
    } else if list[i] == name {
        i
    } else {
        name_place(list, name, i + 1)
    }
}

/// Modules with the definitions of one, which replace earlier ones.
pub open spec fn with_module(
    list: Seq<(Seq<char>, Defs)>,
    name: Seq<char>,
    defs: Defs,
    i: int,
) -> Seq<(Seq<char>, Defs)>
    decreases list.len() - i,
{
    if i < 0 || i >= list.len() {
        list.push((name, defs))
    } else if list[i].0 == name {
        list.update(i, (name, defs))
    } else {
        with_module(list, name, defs, i + 1)
    }
}

impl Loader {
    pub fn new() -> (loader: Self)
        ensures
            loader@ == (Loads {
                loaded: Seq::empty(),
                loading: Seq::empty(),
                foreign: Set::empty(),
            }),
    {
        let loader = Loader { loaded: Vec::new(), loading: Vec::new(), foreign: Names::new() };
        assert(loader@.loaded =~= Seq::empty());
        assert(loader@.loading =~= Seq::empty());
        loader
    }

    /// What a module defines, once it is loaded.
    pub fn module_cached(&self, name: &str) -> (definitions: Option<&Definitions>)
        ensures
            match (definitions, defs_of(self@.loaded, name@, 0)) {
                (Some(definitions), Some(view)) => def_views(definitions@) == view,
                (None, None) => true,
                _ => false,
            },
    {
        let ghost all = self@.loaded;
        let mut i: usize = 0;
        while i < self.loaded.len()
            invariant
                i <= self.loaded@.len(),
                all == loaded_views(self.loaded@),
                defs_of(all, name@, 0) == defs_of(all, name@, i as int),
            decreases self.loaded@.len() - i,
        {
            let entry = &self.loaded[i];
            assert(all[i as int] == (entry.0@, def_views(entry.1@)));
            if same_text(entry.0.as_str(), name) {
                return Some(&entry.1);
            }
            i = i + 1;
        }
        None
    }

    /// Notes that a module is being loaded; a module that is being loaded already
    /// requires itself.
    pub fn begin_module(&mut self, name: &str) -> (result: Result<(), MagError>)
        ensures
            ({
                let at = name_place(old(self)@.loading, name@, 0);
                if at == -1 {
                    result is Ok && final(self)@ == (Loads {
                        loading: old(self)@.loading.push(name@),
                        ..old(self)@
                    })
                } else {
                    final(self)@ == old(self)@ && verdict(result) == Err::<(), Failure>(
                        Failure::Eval(
                            "circular require: "@ + joined(
                                old(self)@.loading.skip(at).push(name@),
                                " -> "@,
                            ),
                        ),
                    )
                }
            }),
    {
        let ghost all = self@.loading;
        let mut i: usize = 0;
        while i < self.loading.len()
            invariant
                i <= self.loading@.len(),
                all == texts(self.loading@),
                all == old(self)@.loading,
                self@ == old(self)@,
                name_place(all, name@, 0) == name_place(all, name@, i as int),
            decreases self.loading@.len() - i,
        {
            assert(all[i as int] == self.loading@[i as int]@);
            if same_text(self.loading[i].as_str(), name) {
                let mut cycle: Vec<String> = Vec::new();
                let ghost tail = all.skip(i as int);
                assert(texts(cycle@) =~= tail.take(0));
                let mut k: usize = i;
                while k < self.loading.len()
                    invariant
                        i <= k <= self.loading@.len(),
                        all == texts(self.loading@),
                        all.len() == self.loading@.len(),
                        self@ == old(self)@,
                        tail == all.skip(i as int),
                        texts(cycle@) == tail.take(k - i),
                    decreases self.loading@.len() - k,
                {
                    let ghost before = texts(cycle@);
                    cycle.push(self.loading[k].clone());
                    assert(texts(cycle@) =~= before.push(tail[k - i]));
                    assert(before.push(tail[k - i]) =~= tail.take(k - i + 1));
                    k = k + 1;
                }
                assert(tail.take(tail.len() as int) =~= tail);
                cycle.push(name.to_owned());
                assert(texts(cycle@) =~= tail.push(name@));
                let path = join_texts(&cycle, " -> ");
                return Err(MagError::Eval(cat2("circular require: ", path.as_str())));
            }
            i = i + 1;
        }
        self.loading.push(name.to_owned());
        assert(self@.loading =~= all.push(name@));
        Ok(())
    }

    /// Notes a foreign declaration; each identity may be declared once.
    pub fn register_foreign(&mut self, identity: &str) -> (result: Result<(), MagError>)
        ensures
            if old(self)@.foreign.contains(identity@) {
                final(self)@ == old(self)@ && verdict(result) == Err::<(), Failure>(
                    Failure::Type("duplicate foreign declaration for "@ + identity@),
                )
            } else {
                result is Ok && final(self)@ == (Loads {
                    foreign: old(self)@.foreign.insert(identity@),
                    ..old(self)@
                })
            },
    {
        if self.foreign.contains(identity) {
            return Err(MagError::Type(cat2("duplicate foreign declaration for ", identity)));
        }
        self.foreign.insert(identity.to_owned());
        Ok(())
    }

    /// Notes what a module defines, which ends its loading.
    pub fn finish_module(&mut self, name: &str, definitions: Definitions)
        ensures
            final(self)@ == (Loads {
                loaded: with_module(old(self)@.loaded, name@, def_views(definitions@), 0),
                loading: if old(self)@.loading.len() > 0 {
                    old(self)@.loading.drop_last()
                } else {
                    old(self)@.loading
                },
                ..old(self)@
            }),
    {
        let ghost before = self@;
        let ghost entry = (name@, def_views(definitions@));
        if self.loading.len() > 0 {
            let _ = self.loading.pop();
            assert(self@.loading =~= before.loading.drop_last());
        }
        let ghost all = self@.loaded;
        let ghost popped = self@;
        let mut i: usize = 0;
        while i < self.loaded.len()
            invariant
                i <= self.loaded@.len(),
                self@ == popped,
                before == old(self)@,
                popped == (Loads {
                    loading: if before.loading.len() > 0 {
                        before.loading.drop_last()
                    } else {
                        before.loading
                    },
                    ..before
                }),
                all == loaded_views(self.loaded@),
                all == before.loaded,
                entry == (name@, def_views(definitions@)),
                with_module(all, name@, entry.1, 0) == with_module(
                    all,
                    name@,
                    entry.1,
                    i as int,
                ),
            decreases self.loaded@.len() - i,
        {
            let found = &self.loaded[i];
            assert(all[i as int] == (found.0@, def_views(found.1@)));
            if same_text(found.0.as_str(), name) {
                self.loaded.set(i, (name.to_owned(), definitions));
                assert(self@.loaded =~= all.update(i as int, entry));
                return;
            }
            i = i + 1;
        }
        self.loaded.push((name.to_owned(), definitions));
        assert(self@.loaded =~= all.push(entry));
    }
}

// ---------------------------------------------------------------------------
// Definitions
// ---------------------------------------------------------------------------

/// The ready values of a name among the first `n` names of a scope.
pub open spec fn values_named(world: World, scope: Seq<Named>, name: Seq<char>, n: int) -> Seq<Val>
    decreases n,
{
    if n <= 0 {
        Seq::empty()
    } else {
        match ready_value(world, scope[n - 1].1) {
            Some(value) => if scope[n - 1].0 == name {
                values_named(world, scope, name, n - 1).push(value)
            } else {
                values_named(world, scope, name, n - 1)
            },
            None => values_named(world, scope, name, n - 1),
        }
    }
}

/// What a module defines under given names, in its outermost scope.
pub open spec fn user_defs_of(world: World, names: Seq<Seq<char>>) -> Defs {
    Seq::new(
        names.len(),
        |i: int|
            (
                names[i],
                if world.scopes.len() == 0 {
                    Seq::empty()
                } else {
                    values_named(world, world.scopes[0], names[i], world.scopes[0].len() as int)
                },
            ),
    )
}

fn find_values(env: &Env, name: &str) -> (values: Vec<Value>)
    ensures
        vals(values@) == (if env@.scopes.len() == 0 {
            Seq::empty()
        } else {
            values_named(env@, env@.scopes[0], name@, env@.scopes[0].len() as int)
        }),
{
    let mut values: Vec<Value> = Vec::new();
    assert(vals(values@) =~= Seq::<Val>::empty());
    if env.scopes.len() == 0 {
        return values;
    }
    let scope = &env.scopes[0];
    let ghost view = named_slots(scope@);
    assert(env@.scopes[0] == view);
    let mut n: usize = 0;
    while n < scope.len()
        invariant
            n <= scope@.len(),
            view == named_slots(scope@),
            vals(values@) == values_named(env@, view, name@, n as int),
        decreases scope@.len() - n,
    {
        let slot = &scope[n];
        assert(view[n as int] == (slot.name@, slot.id, slot.key));
        if let Some(value) = env.ready_binding(slot.id) {
            if same_text(slot.name.as_str(), name) {
                let ghost before = vals(values@);
                values.push(value.copy());
                assert(vals(values@) =~= before.push(value@));
            }
        }
        n = n + 1;
    }
    values
}

/// What a module defines under given names.
pub fn user_defs(env: &Env, names: &Vec<String>) -> (definitions: Definitions)
    ensures
        def_views(definitions@) == user_defs_of(env@, texts(names@)),
{
    let ghost all = user_defs_of(env@, texts(names@));
    let mut definitions: Definitions = Vec::new();
    let mut i: usize = 0;
    while i < names.len()
        invariant
            i <= names@.len(),
            definitions@.len() == i,
            all == user_defs_of(env@, texts(names@)),
            forall|j: int|
                0 <= j < i ==> (#[trigger] definitions@[j]).0@ == all[j].0 && vals(
                    definitions@[j].1@,
                ) == all[j].1,
        decreases names@.len() - i,
    {
        assert(texts(names@)[i as int] == names@[i as int]@);
        let values = find_values(env, names[i].as_str());
        definitions.push((names[i].clone(), values));
        i = i + 1;
    }
    assert(def_views(definitions@) =~= all);
    definitions
}

/// A world in which a name stands for values, from index `i` on.
pub open spec fn all_defined(world: World, name: Seq<char>, values: Seq<Val>, i: int) -> World
    decreases values.len() - i,
{
    if i < 0 || i >= values.len() {
        world
    } else {
        all_defined(defined(world, name, values[i]), name, values, i + 1)
    }
}

/// The name of a definition of a module; a dotted name stays as it is.
pub open spec fn qualified(module: Seq<char>, name: Seq<char>) -> Seq<char> {
    if dotted(name) {
        name
    } else {
        module + "."@ + name
    }
}

/// A world with the definitions of a module, from index `i` on, under a name.
pub open spec fn module_installed(world: World, module: Seq<char>, defs: Defs, i: int) -> World
    decreases defs.len() - i,
{
    if i < 0 || i >= defs.len() {
        world
    } else {
        module_installed(
            all_defined(world, qualified(module, defs[i].0), defs[i].1, 0),
            module,
            defs,
            i + 1,
        )
    }
}

fn define_all(env: &mut Env, name: &str, values: &Vec<Value>)
    ensures
        final(env)@ == all_defined(old(env)@, name@, vals(values@), 0),
{
    let ghost all = vals(values@);
    let ghost whole = all_defined(env@, name@, all, 0);
    let mut i: usize = 0;
    while i < values.len()
        invariant
            i <= values@.len(),
            all == vals(values@),
            whole == all_defined(env@, name@, all, i as int),
        decreases values@.len() - i,
    {
        assert(all[i as int] == values@[i as int]@);
        env.define(name, values[i].copy());
        i = i + 1;
    }
}

/// Defines what a module defines under a name for it.
pub fn install_module(env: &mut Env, module: &str, definitions: &Definitions)
    ensures
        final(env)@ == module_installed(old(env)@, module@, def_views(definitions@), 0),
{
    let ghost all = def_views(definitions@);
    let ghost whole = module_installed(env@, module@, all, 0);
    let mut i: usize = 0;
    while i < definitions.len()
        invariant
            i <= definitions@.len(),
            all == def_views(definitions@),
            whole == module_installed(env@, module@, all, i as int),
        decreases definitions@.len() - i,
    {
        let entry = &definitions[i];
        assert(all[i as int] == (entry.0@, vals(entry.1@)));
        let name = if is_dotted(entry.0.as_str()) {
            entry.0.clone()
        } else {
            cat3(module, ".", entry.0.as_str())
        };
        define_all(env, name.as_str(), &entry.1);
        i = i + 1;
    }
}

/// The values of an export of a module, from index `i` on.
pub open spec fn exported_values(defs: Defs, name: Seq<char>, i: int) -> Seq<Val>
    decreases defs.len() - i,
{
    if i < 0 || i >= defs.len() {
        Seq::empty()
    } else if defs[i].0 == name {
        defs[i].1
    } else {
        exported_values(defs, name, i + 1)
    }
}

pub open spec fn loaded_defs(loads: Loads, module: Seq<char>) -> Defs {
    match defs_of(loads.loaded, module, 0) {
        Some(defs) => defs,
        None => Seq::empty(),
    }
}

pub open spec fn modules_installed(world: World, loads: Loads, names: Seq<Seq<char>>, i: int) -> World
    decreases names.len() - i,
{
    if i < 0 || i >= names.len() {
        world
    } else {
        modules_installed(
            module_installed(world, names[i], loaded_defs(loads, names[i]), 0),
            loads,
            names,
            i + 1,
        )
    }
}

pub open spec fn aliases_installed(
    world: World,
    loads: Loads,
    pairs: Seq<(Seq<char>, Seq<char>)>,
    i: int,
) -> World
    decreases pairs.len() - i,
{
    if i < 0 || i >= pairs.len() {
        world
    } else {
        aliases_installed(
            module_installed(world, pairs[i].0, loaded_defs(loads, pairs[i].1), 0),
            loads,
            pairs,
            i + 1,
        )
    }
}

pub open spec fn opened_installed(world: World, loads: Loads, list: Seq<Opened>, i: int) -> World
    decreases list.len() - i,
{
    if i < 0 || i >= list.len() {
        world
    } else {
        opened_installed(
            all_defined(
                world,
                list[i].0,
                exported_values(loaded_defs(loads, list[i].1), list[i].2, 0),
                0,
            ),
            loads,
            list,
            i + 1,
        )
    }
}

/// A world with everything that a plan installs.
pub open spec fn plan_installed(world: World, loads: Loads, plan: Planned) -> World {
    opened_installed(
        aliases_installed(
            modules_installed(world, loads, plan.modules, 0),
            loads,
            plan.aliases,
            0,
        ),
        loads,
        plan.opened,
        0,
    )
}

impl Loader {
    fn find_exported(&self, module: &str, name: &str) -> (values: Vec<Value>)
        ensures
            vals(values@) == exported_values(loaded_defs(self@, module@), name@, 0),
    {
        let none: Vec<Value> = Vec::new();
        assert(vals(none@) =~= Seq::<Val>::empty());
        match self.module_cached(module) {
            None => none,
            Some(definitions) => {
                let ghost all = def_views(definitions@);
                let mut i: usize = 0;
                while i < definitions.len()
                    invariant
                        i <= definitions@.len(),
                        all == def_views(definitions@),
                        all == loaded_defs(self@, module@),
                        exported_values(all, name@, 0) == exported_values(all, name@, i as int),
                    decreases definitions@.len() - i,
                {
                    let entry = &definitions[i];
                    assert(all[i as int] == (entry.0@, vals(entry.1@)));
                    if same_text(entry.0.as_str(), name) {
                        return copy_values(&entry.1);
                    }
                    i = i + 1;
                }
                none
            },
        }
    }

    fn install_one(&self, env: &mut Env, name: &str, module: &str)
        ensures
            final(env)@ == module_installed(
                old(env)@,
                name@,
                loaded_defs(self@, module@),
                0,
            ),
    {
        match self.module_cached(module) {
            Some(definitions) => install_module(env, name, definitions),
            None => {},
        }
    }

    fn install_modules(&self, env: &mut Env, names: &Vec<String>)
        ensures
            final(env)@ == modules_installed(old(env)@, self@, texts(names@), 0),
    {
        let ghost all = texts(names@);
        let ghost whole = modules_installed(env@, self@, all, 0);
        let mut i: usize = 0;
        while i < names.len()
            invariant
                i <= names@.len(),
                all == texts(names@),
                whole == modules_installed(env@, self@, all, i as int),
            decreases names@.len() - i,
        {
            assert(all[i as int] == names@[i as int]@);
            self.install_one(env, names[i].as_str(), names[i].as_str());
            i = i + 1;
        }
    }

    fn install_aliases(&self, env: &mut Env, pairs: &Vec<(String, String)>)
        ensures
            final(env)@ == aliases_installed(old(env)@, self@, pair_views(pairs@), 0),
    {
        let ghost all = pair_views(pairs@);
        let ghost whole = aliases_installed(env@, self@, all, 0);
        let mut i: usize = 0;
        while i < pairs.len()
            invariant
                i <= pairs@.len(),
                all == pair_views(pairs@),
                whole == aliases_installed(env@, self@, all, i as int),
            decreases pairs@.len() - i,
        {
            let pair = &pairs[i];
            assert(all[i as int] == (pair.0@, pair.1@));
            self.install_one(env, pair.0.as_str(), pair.1.as_str());
            i = i + 1;
        }
    }

    /// Defines everything that a plan installs.
    pub fn install(&self, env: &mut Env, plan: &Plan)
        ensures
            final(env)@ == plan_installed(old(env)@, self@, plan@),
    {
        self.install_modules(env, &plan.modules);
        self.install_aliases(env, &plan.aliases);
        let ghost all = opened_views(plan.opened@);
        let ghost whole = opened_installed(env@, self@, all, 0);
        let mut i: usize = 0;
        while i < plan.opened.len()
            invariant
                i <= plan.opened@.len(),
                all == opened_views(plan.opened@),
                whole == opened_installed(env@, self@, all, i as int),
            decreases plan.opened@.len() - i,
        {
            let item = &plan.opened[i];
            assert(all[i as int] == (item.0@, item.1@, item.2@));
            let values = self.find_exported(item.1.as_str(), item.2.as_str());
            define_all(env, item.0.as_str(), &values);
            i = i + 1;
        }
    }
}

// ---------------------------------------------------------------------------
// Suggestions
// ---------------------------------------------------------------------------

/// What is said of a name that nothing defines, given imports that would.
pub open spec fn with_suggestions(failure: Failure, suggestions: Seq<Seq<char>>) -> Failure {
    match failure {
        Failure::Unresolved(name) => if suggestions.len() == 0 {
            failure
        } else {
            Failure::Unresolved(name + "; possible imports: "@ + joined(suggestions, ", "@))
        },
        _ => failure,
    }
}

/// Adds the imports that would define a name to the error that it is undefined.
pub fn enrich_unresolved_import(error: MagError, suggestions: &Vec<String>) -> (result: MagError)
    ensures
        result@ == with_suggestions(error@, texts(suggestions@)),
{
    assert(texts(suggestions@).len() == suggestions@.len());
    match error {
        MagError::Unresolved(name) => {
            if suggestions.len() == 0 {
                return MagError::Unresolved(name);
            }
            let listed = join_texts(suggestions, ", ");
            MagError::Unresolved(cat3(name.as_str(), "; possible imports: ", listed.as_str()))
        },
        other => other,
    }
}

/// The first value of each definition.
pub open spec fn first_values(defs: Defs, n: int) -> Seq<(Seq<char>, Val)>
    decreases n,
{
    if n <= 0 {
        Seq::empty()
    } else if defs[n - 1].1.len() > 0 {
        first_values(defs, n - 1).push((defs[n - 1].0, defs[n - 1].1[0]))
    } else {
        first_values(defs, n - 1)
    }
}

/// A module as a value: the first value of each of its names.
pub fn module_value_map(definitions: &Definitions) -> (members: Vec<(String, Value)>)
    ensures
        val_fields(members@) == first_values(
            def_views(definitions@),
            definitions@.len() as int,
        ),
{
    let ghost all = def_views(definitions@);
    let mut members: Vec<(String, Value)> = Vec::new();
    assert(val_fields(members@) =~= Seq::<(Seq<char>, Val)>::empty());
    let mut n: usize = 0;
    while n < definitions.len()
        invariant
            n <= definitions@.len(),
            all == def_views(definitions@),
            val_fields(members@) == first_values(all, n as int),
        decreases definitions@.len() - n,
    {
        let entry = &definitions[n];
        assert(all[n as int] == (entry.0@, vals(entry.1@)));
        assert(vals(entry.1@).len() == entry.1@.len());
        if entry.1.len() > 0 {
            let ghost before = val_fields(members@);
            assert(vals(entry.1@)[0] == entry.1@[0]@);
            members.push((entry.0.clone(), entry.1[0].copy()));
            assert(val_fields(members@) =~= before.push((entry.0@, entry.1@[0]@)));
        }
        n = n + 1;
    }
    members
}

// ---------------------------------------------------------------------------
// Laws
// ---------------------------------------------------------------------------

/// What was noted of a module is found again.
pub proof fn lemma_noted_module(
    list: Seq<(Seq<char>, Defs)>,
    name: Seq<char>,
    defs: Defs,
    i: int,
)
    requires
        0 <= i <= list.len(),
    ensures
        defs_of(with_module(list, name, defs, i), name, i) == Some(defs),
    decreases list.len() - i,
{
    if i < list.len() && list[i].0 != name {
        lemma_noted_module(list, name, defs, i + 1);
        lemma_module_frame(list, name, defs, i + 1, i);
    }
}

proof fn lemma_module_frame(
    list: Seq<(Seq<char>, Defs)>,
    name: Seq<char>,
    defs: Defs,
    i: int,
    k: int,
)
    requires
        0 <= k < i <= list.len(),
    ensures
        with_module(list, name, defs, i).len() >= list.len(),
        with_module(list, name, defs, i)[k] == list[k],
    decreases list.len() - i,
{
    if i < list.len() && list[i].0 != name {
        lemma_module_frame(list, name, defs, i + 1, k);
    }
}

} // verus!
