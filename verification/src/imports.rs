//! Imports: which names a module takes from others, and whether they collide.

use crate::authored::{
    BlockItem, Exposure, Import, ImportExposure, ImportSelector, Item, Module, ModuleForm,
    Require, Selector, TopForm, imports, selectors, top_forms,
};
use crate::error::{Failure, MagError, verdict};
use crate::scope::{sort_names, sorted_names};
use crate::text::{cat3, cat4, contains_text, same_text, text_chars, texts};
use crate::types::Names;
use vstd::prelude::*;

verus! {

/// The names that modules export, each module once.
pub type Exports = Seq<(Seq<char>, Seq<Seq<char>>)>;

pub open spec fn export_views(exports: Seq<(String, Vec<String>)>) -> Exports {
    Seq::new(exports.len(), |i: int| (exports[i].0@, texts(exports[i].1@)))
}

/// What a module exports, from index `i` on.
pub open spec fn exports_of(exports: Exports, module: Seq<char>, i: int) -> Option<Seq<Seq<char>>>
    decreases exports.len() - i,
{
    if i < 0 || i >= exports.len() {
        None
    } else if exports[i].0 == module {
        Some(exports[i].1)
    } else {
        exports_of(exports, module, i + 1)
    }
}

pub open spec fn exported(exports: Exports, module: Seq<char>, name: Seq<char>) -> bool {
    match exports_of(exports, module, 0) {
        Some(names) => names.contains(name),
        None => false,
    }
}

pub(crate) fn find_exports<'a>(exports: &'a Vec<(String, Vec<String>)>, module: &str) -> (names: Option<
    &'a Vec<String>,
>)
    ensures
        match (names, exports_of(export_views(exports@), module@, 0)) {
            (Some(names), Some(view)) => texts(names@) == view,
            (None, None) => true,
            _ => false,
        },
{
    let ghost all = export_views(exports@);
    let mut i: usize = 0;
    while i < exports.len()
        invariant
            i <= exports@.len(),
            all == export_views(exports@),
            exports_of(all, module@, 0) == exports_of(all, module@, i as int),
        decreases exports@.len() - i,
    {
        let entry = &exports[i];
        assert(all[i as int] == (entry.0@, texts(entry.1@)));
        if same_text(entry.0.as_str(), module) {
            return Some(&entry.1);
        }
        i = i + 1;
    }
    None
}

pub(crate) fn is_exported(exports: &Vec<(String, Vec<String>)>, module: &str, name: &str) -> (yes: bool)
    ensures
        yes == exported(export_views(exports@), module@, name@),
{
    match find_exports(exports, module) {
        Some(names) => contains_text(names, name),
        None => false,
    }
}

// ---------------------------------------------------------------------------
// Names of forms
// ---------------------------------------------------------------------------

pub open spec fn dotted(name: Seq<char>) -> bool {
    name.contains('.')
}

pub fn is_dotted(name: &str) -> (yes: bool)
    ensures
        yes == dotted(name@),
{
    let chars = text_chars(name);
    let mut i: usize = 0;
    while i < chars.len()
        invariant
            i <= chars@.len(),
            chars@ == name@,
            forall|k: int| 0 <= k < i ==> name@[k] != '.',
        decreases chars@.len() - i,
    {
        if chars[i] == '.' {
            assert(name@[i as int] == '.');
            return true;
        }
        i = i + 1;
    }
    false
}

/// The name that a form gives to a declaration of its module.
pub open spec fn form_name(form: TopForm) -> Option<Seq<char>> {
    match form {
        TopForm::Type(declaration) => if dotted(declaration.name) {
            None
        } else {
            Some(declaration.name)
        },
        TopForm::Block(Item::Let(name, _)) => Some(name),
        _ => None,
    }
}

/// The names that a module declares itself.
pub open spec fn direct_exports(forms: Seq<TopForm>, n: int) -> Set<Seq<char>>
    decreases n,
{
    if n <= 0 {
        Set::empty()
    } else {
        match form_name(forms[n - 1]) {
            Some(name) => direct_exports(forms, n - 1).insert(name),
            None => direct_exports(forms, n - 1),
        }
    }
}

pub(crate) fn find_form_name(form: &ModuleForm) -> (name: Option<String>)
    ensures
        match (name, form_name(form@)) {
            (Some(name), Some(view)) => name@ == view,
            (None, None) => true,
            _ => false,
        },
{
    match form {
        ModuleForm::Type(declaration) => if is_dotted(declaration.name.as_str()) {
            None
        } else {
            Some(declaration.name.clone())
        },
        ModuleForm::Block(item) => match item {
            BlockItem::Let { name, value: _ } => Some(name.clone()),
            _ => None,
        },
        _ => None,
    }
}

/// The names that a module declares itself, in ascending order.
pub fn direct_module_exports(module: &Module) -> (names: Vec<String>)
    ensures
        texts(names@) == sorted_names(
            direct_exports(top_forms(module.forms@), module.forms@.len() as int),
        ),
{
    let ghost all = top_forms(module.forms@);
    let mut names = Names::new();
    let mut n: usize = 0;
    while n < module.forms.len()
        invariant
            n <= module.forms@.len(),
            all == top_forms(module.forms@),
            names@ == direct_exports(all, n as int),
        decreases module.forms@.len() - n,
    {
        assert(all[n as int] == module.forms@[n as int]@);
        if let Some(name) = find_form_name(&module.forms[n]) {
            names.insert(name);
        }
        n = n + 1;
    }
    sort_names(&names)
}

// ---------------------------------------------------------------------------
// Selectors
// ---------------------------------------------------------------------------

pub open spec fn selectors_known(
    module: Seq<char>,
    names: Seq<Seq<char>>,
    list: Seq<Selector>,
    i: int,
) -> Result<(), Failure>
    decreases list.len() - i,
{
    if i < 0 || i >= list.len() {
        Ok(())
    } else if !names.contains(list[i].export) {
        Err(Failure::Unresolved(module + "."@ + list[i].export + " (import selector)"@))
    } else {
        selectors_known(module, names, list, i + 1)
    }
}

/// Whether everything that imports select is exported.
pub open spec fn imports_known(list: Seq<Import>, exports: Exports, i: int) -> Result<(), Failure>
    decreases list.len() - i,
{
    if i < 0 || i >= list.len() {
        Ok(())
    } else {
        match exports_of(exports, list[i].module, 0) {
            None => Err(
                Failure::Eval("resolved import "@ + list[i].module + " is unavailable"@),
            ),
            Some(names) => match list[i].exposure {
                Exposure::Selective(selected) => match selectors_known(
                    list[i].module,
                    names,
                    selected,
                    0,
                ) {
                    Err(failure) => Err(failure),
                    Ok(_) => imports_known(list, exports, i + 1),
                },
                _ => imports_known(list, exports, i + 1),
            },
        }
    }
}

fn check_selectors(module: &str, names: &Vec<String>, list: &Vec<ImportSelector>) -> (result: Result<
    (),
    MagError,
>)
    ensures
        verdict(result) == selectors_known(module@, texts(names@), selectors(list@), 0),
{
    let ghost all = selectors(list@);
    let mut i: usize = 0;
    while i < list.len()
        invariant
            i <= list@.len(),
            all == selectors(list@),
            selectors_known(module@, texts(names@), all, 0) == selectors_known(
                module@,
                texts(names@),
                all,
                i as int,
            ),
        decreases list@.len() - i,
    {
        assert(all[i as int] == list@[i as int]@);
        if !contains_text(names, list[i].export.as_str()) {
            return Err(
                MagError::Unresolved(
                    cat4(module, ".", list[i].export.as_str(), " (import selector)"),
                ),
            );
        }
        i = i + 1;
    }
    Ok(())
}

pub(crate) fn check_imports(list: &Vec<Require>, exports: &Vec<(String, Vec<String>)>) -> (result: Result<
    (),
    MagError,
>)
    ensures
        verdict(result) == imports_known(imports(list@), export_views(exports@), 0),
{
    let ghost all = imports(list@);
    let ghost known = export_views(exports@);
    let mut i: usize = 0;
    while i < list.len()
        invariant
            i <= list@.len(),
            all == imports(list@),
            known == export_views(exports@),
            imports_known(all, known, 0) == imports_known(all, known, i as int),
        decreases list@.len() - i,
    {
        let require = &list[i];
        assert(all[i as int] == require@);
        match find_exports(exports, require.module.as_str()) {
            None => {
                return Err(
                    MagError::Eval(
                        cat3("resolved import ", require.module.as_str(), " is unavailable"),
                    ),
                );
            },
            Some(names) => {
                if let ImportExposure::Selective(selected) = &require.exposure {
                    match check_selectors(require.module.as_str(), names, selected) {
                        Err(error) => return Err(error),
                        Ok(_) => {},
                    }
                }
            },
        }
        i = i + 1;
    }
    Ok(())
}

// ---------------------------------------------------------------------------
// Names that imports open
// ---------------------------------------------------------------------------

/// Whether an import exposes a module under its own name.
pub open spec fn keeps_name(exposure: Exposure) -> bool {
    !(exposure is NamespaceAlias)
}

/// The modules that keep their own names, among the first `n` imports.
pub open spec fn kept_modules(list: Seq<Import>, n: int) -> Set<Seq<char>>
    decreases n,
{
    if n <= 0 {
        Set::empty()
    } else if keeps_name(list[n - 1].exposure) {
        kept_modules(list, n - 1).insert(list[n - 1].module)
    } else {
        kept_modules(list, n - 1)
    }
}

/// Whether a selector suppresses an export of a module.
pub open spec fn suppresses(import: Import, module: Seq<char>, name: Seq<char>) -> bool {
    match import.exposure {
        Exposure::Selective(selected) => import.module == module && exists|k: int|
            0 <= k < selected.len() && (#[trigger] selected[k]).export == name
                && selected[k].local is None,
        _ => false,
    }
}

pub open spec fn suppressed(list: Seq<Import>, module: Seq<char>, name: Seq<char>) -> bool {
    exists|i: int| 0 <= i < list.len() && suppresses(#[trigger] list[i], module, name)
}

/// A local name, the module it comes from, and the export it stands for.
pub type Opened = (Seq<char>, Seq<char>, Seq<char>);

/// The exports of an open import, from index `i` on, that nothing suppresses.
pub open spec fn open_names(
    list: Seq<Import>,
    module: Seq<char>,
    names: Seq<Seq<char>>,
    i: int,
) -> Seq<Opened>
    decreases names.len() - i,
{
    if i < 0 || i >= names.len() {
        Seq::empty()
    } else if suppressed(list, module, names[i]) {
        open_names(list, module, names, i + 1)
    } else {
        seq![(names[i], module, names[i])] + open_names(list, module, names, i + 1)
    }
}

/// The exports that selectors take, from index `i` on.
pub open spec fn selected_names(module: Seq<char>, list: Seq<Selector>, i: int) -> Seq<Opened>
    decreases list.len() - i,
{
    if i < 0 || i >= list.len() {
        Seq::empty()
    } else {
        match list[i].local {
            Some(local) => seq![(local, module, list[i].export)] + selected_names(
                module,
                list,
                i + 1,
            ),
            None => selected_names(module, list, i + 1),
        }
    }
}

pub open spec fn opened_by(list: Seq<Import>, exports: Exports, import: Import) -> Seq<Opened> {
    match import.exposure {
        Exposure::Open => match exports_of(exports, import.module, 0) {
            Some(names) => open_names(list, import.module, names, 0),
            None => Seq::empty(),
        },
        Exposure::Selective(selected) => selected_names(import.module, selected, 0),
        _ => Seq::empty(),
    }
}

/// The names that the first `n` imports open.
pub open spec fn opened(list: Seq<Import>, exports: Exports, n: int) -> Seq<Opened>
    decreases n,
{
    if n <= 0 {
        Seq::empty()
    } else {
        opened(list, exports, n - 1) + opened_by(list, exports, list[n - 1])
    }
}

/// The aliases that the first `n` imports give to modules.
pub open spec fn alias_pairs(list: Seq<Import>, n: int) -> Seq<(Seq<char>, Seq<char>)>
    decreases n,
{
    if n <= 0 {
        Seq::empty()
    } else {
        match list[n - 1].exposure {
            Exposure::NamespaceAlias(alias) => alias_pairs(list, n - 1).push(
                (alias, list[n - 1].module),
            ),
            _ => alias_pairs(list, n - 1),
        }
    }
}

pub open spec fn opened_views(list: Seq<(String, String, String)>) -> Seq<Opened> {
    Seq::new(list.len(), |i: int| (list[i].0@, list[i].1@, list[i].2@))
}

pub open spec fn pair_views(list: Seq<(String, String)>) -> Seq<(Seq<char>, Seq<char>)> {
    Seq::new(list.len(), |i: int| (list[i].0@, list[i].1@))
}

pub(crate) fn find_canonical(list: &Vec<Require>) -> (names: Names)
    ensures
        names@ == kept_modules(imports(list@), list@.len() as int),
{
    let ghost all = imports(list@);
    let mut names = Names::new();
    let mut n: usize = 0;
    while n < list.len()
        invariant
            n <= list@.len(),
            all == imports(list@),
            names@ == kept_modules(all, n as int),
        decreases list@.len() - n,
    {
        assert(all[n as int] == list@[n as int]@);
        match &list[n].exposure {
            ImportExposure::NamespaceAlias(_) => {},
            _ => names.insert(list[n].module.clone()),
        }
        n = n + 1;
    }
    names
}

fn suppresses_here(require: &Require, module: &str, name: &str) -> (yes: bool)
    ensures
        yes == suppresses(require@, module@, name@),
{
    match &require.exposure {
        ImportExposure::Selective(list) => {
            if !same_text(require.module.as_str(), module) {
                return false;
            }
            let ghost all = selectors(list@);
            let mut k: usize = 0;
            while k < list.len()
                invariant
                    k <= list@.len(),
                    all == selectors(list@),
                    require@.module == module@,
                    require@.exposure == Exposure::Selective(all),
                    forall|j: int|
                        0 <= j < k ==> !((#[trigger] all[j]).export == name@ && all[j].local is None),
                decreases list@.len() - k,
            {
                assert(all[k as int] == list@[k as int]@);
                if list[k].local.is_none() && same_text(list[k].export.as_str(), name) {
                    assert(all[k as int].export == name@);
                    return true;
                }
                k = k + 1;
            }
            false
        },
        _ => false,
    }
}

fn is_suppressed(list: &Vec<Require>, module: &str, name: &str) -> (yes: bool)
    ensures
        yes == suppressed(imports(list@), module@, name@),
{
    let ghost all = imports(list@);
    let mut i: usize = 0;
    while i < list.len()
        invariant
            i <= list@.len(),
            all == imports(list@),
            forall|j: int| 0 <= j < i ==> !suppresses(#[trigger] all[j], module@, name@),
        decreases list@.len() - i,
    {
        assert(all[i as int] == list@[i as int]@);
        if suppresses_here(&list[i], module, name) {
            assert(suppresses(all[i as int], module@, name@));
            return true;
        }
        i = i + 1;
    }
    false
}

fn push_opened(list: &mut Vec<(String, String, String)>, local: &str, module: &str, export: &str)
    ensures
        opened_views(final(list)@) == opened_views(old(list)@).push((local@, module@, export@)),
{
    let ghost before = opened_views(list@);
    list.push((local.to_owned(), module.to_owned(), export.to_owned()));
    assert(opened_views(list@) =~= before.push((local@, module@, export@)));
}

fn add_open_names(
    list: &Vec<Require>,
    module: &str,
    names: &Vec<String>,
    found: &mut Vec<(String, String, String)>,
)
    ensures
        opened_views(final(found)@) == opened_views(old(found)@) + open_names(
            imports(list@),
            module@,
            texts(names@),
            0,
        ),
{
    let ghost all = texts(names@);
    let ghost given = imports(list@);
    let ghost start = opened_views(found@);
    let ghost rest = open_names(given, module@, all, 0);
    let mut i: usize = 0;
    while i < names.len()
        invariant
            i <= names@.len(),
            all == texts(names@),
            given == imports(list@),
            start + rest == opened_views(found@) + open_names(given, module@, all, i as int),
        decreases names@.len() - i,
    {
        assert(all[i as int] == names@[i as int]@);
        let name = names[i].as_str();
        if !is_suppressed(list, module, name) {
            let ghost before = opened_views(found@);
            let ghost tail = open_names(given, module@, all, i + 1);
            push_opened(found, name, module, name);
            assert(before + (seq![(name@, module@, name@)] + tail) =~= before.push(
                (name@, module@, name@),
            ) + tail);
        }
        i = i + 1;
    }
    assert(opened_views(found@) + Seq::<Opened>::empty() =~= opened_views(found@));
}

fn add_selected_names(
    module: &str,
    list: &Vec<ImportSelector>,
    found: &mut Vec<(String, String, String)>,
)
    ensures
        opened_views(final(found)@) == opened_views(old(found)@) + selected_names(
            module@,
            selectors(list@),
            0,
        ),
{
    let ghost all = selectors(list@);
    let ghost start = opened_views(found@);
    let ghost rest = selected_names(module@, all, 0);
    let mut i: usize = 0;
    while i < list.len()
        invariant
            i <= list@.len(),
            all == selectors(list@),
            start + rest == opened_views(found@) + selected_names(module@, all, i as int),
        decreases list@.len() - i,
    {
        assert(all[i as int] == list@[i as int]@);
        let selector = &list[i];
        if let Some(local) = &selector.local {
            let ghost before = opened_views(found@);
            let ghost tail = selected_names(module@, all, i + 1);
            push_opened(found, local.as_str(), module, selector.export.as_str());
            assert(before + (seq![(local@, module@, selector.export@)] + tail) =~= before.push(
                (local@, module@, selector.export@),
            ) + tail);
        }
        i = i + 1;
    }
    assert(opened_views(found@) + Seq::<Opened>::empty() =~= opened_views(found@));
}

pub(crate) fn find_opened(list: &Vec<Require>, exports: &Vec<(String, Vec<String>)>) -> (found: Vec<
    (String, String, String),
>)
    ensures
        opened_views(found@) == opened(
            imports(list@),
            export_views(exports@),
            list@.len() as int,
        ),
{
    let ghost all = imports(list@);
    let ghost known = export_views(exports@);
    let mut found: Vec<(String, String, String)> = Vec::new();
    assert(opened_views(found@) =~= Seq::<Opened>::empty());
    let mut n: usize = 0;
    while n < list.len()
        invariant
            n <= list@.len(),
            all == imports(list@),
            known == export_views(exports@),
            opened_views(found@) == opened(all, known, n as int),
        decreases list@.len() - n,
    {
        let require = &list[n];
        assert(all[n as int] == require@);
        let ghost before = opened_views(found@);
        assert(before + Seq::<Opened>::empty() =~= before);
        match &require.exposure {
            ImportExposure::Open => match find_exports(exports, require.module.as_str()) {
                Some(names) => add_open_names(list, require.module.as_str(), names, &mut found),
                None => {},
            },
            ImportExposure::Selective(selected) => add_selected_names(
                require.module.as_str(),
                selected,
                &mut found,
            ),
            _ => {},
        }
        n = n + 1;
    }
    found
}

pub(crate) fn find_aliases(list: &Vec<Require>) -> (found: Vec<(String, String)>)
    ensures
        pair_views(found@) == alias_pairs(imports(list@), list@.len() as int),
{
    let ghost all = imports(list@);
    let mut found: Vec<(String, String)> = Vec::new();
    assert(pair_views(found@) =~= Seq::<(Seq<char>, Seq<char>)>::empty());
    let mut n: usize = 0;
    while n < list.len()
        invariant
            n <= list@.len(),
            all == imports(list@),
            pair_views(found@) == alias_pairs(all, n as int),
        decreases list@.len() - n,
    {
        let require = &list[n];
        assert(all[n as int] == require@);
        if let ImportExposure::NamespaceAlias(alias) = &require.exposure {
            let ghost before = pair_views(found@);
            found.push((alias.clone(), require.module.clone()));
            assert(pair_views(found@) =~= before.push((alias@, require.module@)));
        }
        n = n + 1;
    }
    found
}

} // verus!
