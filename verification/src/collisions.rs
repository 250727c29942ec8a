//! Names that collide when modules are imported, and what importing installs.

use crate::authored::{
    Exposure, Import, ImportExposure, ImportSelector, Module, ModuleForm, Require, Selector,
    TopForm, imports, selectors, top_forms,
};
use crate::builtins::{all_builtins, builtin_name, builtin_names};
use crate::error::{Failure, MagError};
use crate::imports::{
    Exports, Opened, alias_pairs, check_imports, export_views, exported, find_aliases,
    find_canonical, find_form_name, find_opened, form_name, imports_known, is_exported,
    keeps_name, kept_modules, opened, opened_views, pair_views,
};
use crate::scope::{lemma_sorted_names, sort_names, sorted_names};
use crate::text::{
    cat2, cat3, cat4, cat5, cat6, chars_text, join_texts, joined, same_text, text_chars, texts,
};
use crate::types::Names;
use vstd::prelude::*;

verus! {

/// A spelling, and a description of what it stands for.
pub type Claim = (Seq<char>, Seq<char>);

// ---------------------------------------------------------------------------
// Claims
// ---------------------------------------------------------------------------

/// The claims of the first `n` forms of the importing module.
pub open spec fn form_claims(forms: Seq<TopForm>, n: int) -> Seq<Claim>
    decreases n,
{
    if n <= 0 {
        Seq::empty()
    } else {
        match form_name(forms[n - 1]) {
            Some(name) => form_claims(forms, n - 1).push(
                (
                    name,
                    if forms[n - 1] is Type {
                        "local type "@ + name
                    } else {
                        "local let "@ + name
                    },
                ),
            ),
            None => form_claims(forms, n - 1),
        }
    }
}

/// The names of types that every module knows.
pub open spec fn known_types() -> Seq<Seq<char>> {
    seq![
        "List"@,
        "Map"@,
        "Set"@,
        "Artifact"@,
        "JsonValue"@,
        "TypeDescriptor"@,
        "TypeSchema"@,
        "SemanticTypeId"@,
        "PackedValue"@,
        "Unit"@,
        "Bool"@,
        "Int"@,
        "Float"@,
        "String"@,
    ]
}

/// The claims of what every module knows.
pub open spec fn builtin_claims() -> Seq<Claim> {
    Seq::new(
        all_builtins().len() + known_types().len(),
        |i: int|
            {
                let name = if i < all_builtins().len() {
                    builtin_name(all_builtins()[i])
                } else {
                    known_types()[i - all_builtins().len()]
                };
                (name, "builtin "@ + name)
            },
    )
}

/// The first dot of a text, from index `i` on; its length if there is none.
pub open spec fn dot_from(text: Seq<char>, i: int) -> int
    decreases text.len() - i,
{
    if 0 <= i < text.len() && text[i] != '.' {
        dot_from(text, i + 1)
    } else {
        i
    }
}

/// What stands before the first dot of a name.
pub open spec fn root_of(module: Seq<char>) -> Seq<char> {
    module.take(dot_from(module, 0))
}

/// The claims that the modules of the first `n` imports make by their own names.
pub open spec fn root_claims(list: Seq<Import>, n: int) -> Seq<Claim>
    decreases n,
{
    if n <= 0 {
        Seq::empty()
    } else if keeps_name(list[n - 1].exposure) {
        let root = root_of(list[n - 1].module);
        root_claims(list, n - 1).push((root, "canonical namespace "@ + root))
    } else {
        root_claims(list, n - 1)
    }
}

pub open spec fn alias_claims(pairs: Seq<(Seq<char>, Seq<char>)>) -> Seq<Claim> {
    Seq::new(
        pairs.len(),
        |i: int|
            (pairs[i].0, "namespace alias "@ + pairs[i].0 + " for "@ + pairs[i].1),
    )
}

pub open spec fn opened_claims(list: Seq<Opened>) -> Seq<Claim> {
    Seq::new(
        list.len(),
        |i: int|
            (list[i].0, "imported export "@ + list[i].1 + "."@ + list[i].2),
    )
}

/// The claims of a module whose name goes on, behind the dot at an index, with a
/// name that an imported module exports.
pub open spec fn claims_at_dot(
    module: Seq<char>,
    i: int,
    names: Set<Seq<char>>,
    exports: Exports,
) -> Seq<Claim> {
    let prefix = module.take(i);
    let end = dot_from(module, i + 1);
    let spelling = module.take(end);
    if module[i] == '.' && names.contains(prefix) && exported(
        exports,
        prefix,
        module.subrange(i + 1, end),
    ) {
        seq![
            (spelling, "canonical namespace "@ + spelling),
            (spelling, "imported export "@ + spelling),
        ]
    } else {
        Seq::empty()
    }
}

pub open spec fn claims_within(
    module: Seq<char>,
    i: int,
    names: Set<Seq<char>>,
    exports: Exports,
) -> Seq<Claim>
    decreases module.len() - i,
{
    if i < 0 || i >= module.len() {
        Seq::empty()
    } else {
        claims_at_dot(module, i, names, exports) + claims_within(module, i + 1, names, exports)
    }
}

/// The claims of modules whose names start with the name of an imported module.
pub open spec fn nested_claims(
    list: Seq<Import>,
    names: Set<Seq<char>>,
    exports: Exports,
    n: int,
) -> Seq<Claim>
    decreases n,
{
    if n <= 0 {
        Seq::empty()
    } else if keeps_name(list[n - 1].exposure) {
        nested_claims(list, names, exports, n - 1) + claims_within(
            list[n - 1].module,
            0,
            names,
            exports,
        )
    } else {
        nested_claims(list, names, exports, n - 1)
    }
}

/// All claims on names in a module.
pub open spec fn claims(list: Seq<Import>, exports: Exports, forms: Seq<TopForm>) -> Seq<Claim> {
    let n = list.len() as int;
    form_claims(forms, forms.len() as int) + builtin_claims() + root_claims(list, n)
        + alias_claims(alias_pairs(list, n)) + opened_claims(opened(list, exports, n))
        + nested_claims(list, kept_modules(list, n), exports, n)
}

fn push_claim(found: &mut Vec<(String, String)>, spelling: String, description: String)
    ensures
        pair_views(final(found)@) == pair_views(old(found)@).push((spelling@, description@)),
{
    let ghost before = pair_views(found@);
    let ghost view = (spelling@, description@);
    found.push((spelling, description));
    assert(pair_views(found@) =~= before.push(view));
}

fn add_form_claims(forms: &Vec<ModuleForm>, found: &mut Vec<(String, String)>)
    ensures
        pair_views(final(found)@) == pair_views(old(found)@) + form_claims(
            top_forms(forms@),
            forms@.len() as int,
        ),
{
    let ghost all = top_forms(forms@);
    let ghost start = pair_views(found@);
    assert(start + form_claims(all, 0) =~= start);
    let mut n: usize = 0;
    while n < forms.len()
        invariant
            n <= forms@.len(),
            all == top_forms(forms@),
            pair_views(found@) == start + form_claims(all, n as int),
        decreases forms@.len() - n,
    {
        assert(all[n as int] == forms@[n as int]@);
        if let Some(name) = find_form_name(&forms[n]) {
            let description = match &forms[n] {
                ModuleForm::Type(_) => cat2("local type ", name.as_str()),
                _ => cat2("local let ", name.as_str()),
            };
            let ghost entry = (name@, description@);
            push_claim(found, name, description);
            assert(pair_views(found@) =~= start + form_claims(all, n as int).push(entry));
        }
        n = n + 1;
    }
}

fn known_type_names() -> (names: Vec<&'static str>)
    ensures
        names@.len() == known_types().len(),
        forall|i: int| 0 <= i < names@.len() ==> (#[trigger] names@[i])@ == known_types()[i],
{
    let names = vec![
        "List",
        "Map",
        "Set",
        "Artifact",
        "JsonValue",
        "TypeDescriptor",
        "TypeSchema",
        "SemanticTypeId",
        "PackedValue",
        "Unit",
        "Bool",
        "Int",
        "Float",
        "String",
    ];
    names
}

fn add_builtin_claims(found: &mut Vec<(String, String)>)
    ensures
        pair_views(final(found)@) == pair_views(old(found)@) + builtin_claims(),
{
    let ghost start = pair_views(found@);
    let ghost all = builtin_claims();
    let names = builtin_names();
    let types = known_type_names();
    let ghost first = all_builtins().len() as int;
    assert(start + all.take(0) =~= start);
    let mut i: usize = 0;
    while i < names.len()
        invariant
            i <= names@.len(),
            names@.len() == all_builtins().len(),
            first == all_builtins().len(),
            all == builtin_claims(),
            all.len() == first + known_types().len(),
            forall|k: int| 0 <= k < names@.len() ==> (#[trigger] names@[k])@ == builtin_name(
                all_builtins()[k],
            ),
            pair_views(found@) == start + all.take(i as int),
        decreases names@.len() - i,
    {
        let ghost before = pair_views(found@);
        let description = cat2("builtin ", names[i]);
        let ghost entry = (names@[i as int]@, description@);
        push_claim(found, names[i].to_owned(), description);
        assert(entry == all[i as int]);
        assert(before.push(entry) =~= start + all.take(i + 1));
        i = i + 1;
    }
    let mut k: usize = 0;
    while k < types.len()
        invariant
            k <= types@.len(),
            types@.len() == known_types().len(),
            first == all_builtins().len(),
            all == builtin_claims(),
            all.len() == first + known_types().len(),
            forall|j: int| 0 <= j < types@.len() ==> (#[trigger] types@[j])@ == known_types()[j],
            pair_views(found@) == start + all.take(first + k),
        decreases types@.len() - k,
    {
        let ghost before = pair_views(found@);
        let description = cat2("builtin ", types[k]);
        let ghost entry = (types@[k as int]@, description@);
        push_claim(found, types[k].to_owned(), description);
        assert(entry == all[first + k]);
        assert(before.push(entry) =~= start + all.take(first + k + 1));
        k = k + 1;
    }
    assert(all.take(all.len() as int) =~= all);
}

fn find_dot(chars: &Vec<char>, start: usize) -> (at: usize)
    requires
        start <= chars@.len(),
    ensures
        at == dot_from(chars@, start as int),
        start <= at <= chars@.len(),
{
    let mut i: usize = start;
    while i < chars.len() && chars[i] != '.'
        invariant
            start <= i <= chars@.len(),
            dot_from(chars@, start as int) == dot_from(chars@, i as int),
        decreases chars@.len() - i,
    {
        i = i + 1;
    }
    i
}

fn find_root(module: &str) -> (root: String)
    ensures
        root@ == root_of(module@),
{
    let chars = text_chars(module);
    let end = find_dot(&chars, 0);
    let root = chars_text(&chars, 0, end);
    assert(root@ =~= module@.take(end as int));
    root
}

fn add_root_claims(list: &Vec<Require>, found: &mut Vec<(String, String)>)
    ensures
        pair_views(final(found)@) == pair_views(old(found)@) + root_claims(
            imports(list@),
            list@.len() as int,
        ),
{
    let ghost all = imports(list@);
    let ghost start = pair_views(found@);
    assert(start + root_claims(all, 0) =~= start);
    let mut n: usize = 0;
    while n < list.len()
        invariant
            n <= list@.len(),
            all == imports(list@),
            pair_views(found@) == start + root_claims(all, n as int),
        decreases list@.len() - n,
    {
        assert(all[n as int] == list@[n as int]@);
        match &list[n].exposure {
            ImportExposure::NamespaceAlias(_) => {},
            _ => {
                let root = find_root(list[n].module.as_str());
                let description = cat2("canonical namespace ", root.as_str());
                let ghost entry = (root@, description@);
                push_claim(found, root, description);
                assert(pair_views(found@) =~= start + root_claims(all, n as int).push(entry));
            },
        }
        n = n + 1;
    }
}

fn add_alias_claims(pairs: &Vec<(String, String)>, found: &mut Vec<(String, String)>)
    ensures
        pair_views(final(found)@) == pair_views(old(found)@) + alias_claims(pair_views(pairs@)),
{
    let ghost all = alias_claims(pair_views(pairs@));
    let ghost start = pair_views(found@);
    assert(start + all.take(0) =~= start);
    let mut i: usize = 0;
    while i < pairs.len()
        invariant
            i <= pairs@.len(),
            all == alias_claims(pair_views(pairs@)),
            all.len() == pairs@.len(),
            pair_views(found@) == start + all.take(i as int),
        decreases pairs@.len() - i,
    {
        let pair = &pairs[i];
        assert(pair_views(pairs@)[i as int] == (pair.0@, pair.1@));
        let ghost before = pair_views(found@);
        let description = cat4("namespace alias ", pair.0.as_str(), " for ", pair.1.as_str());
        push_claim(found, pair.0.clone(), description);
        assert(before.push(all[i as int]) =~= start + all.take(i + 1));
        i = i + 1;
    }
    assert(all.take(all.len() as int) =~= all);
}

fn add_opened_claims(list: &Vec<(String, String, String)>, found: &mut Vec<(String, String)>)
    ensures
        pair_views(final(found)@) == pair_views(old(found)@) + opened_claims(
            opened_views(list@),
        ),
{
    let ghost all = opened_claims(opened_views(list@));
    let ghost start = pair_views(found@);
    assert(start + all.take(0) =~= start);
    let mut i: usize = 0;
    while i < list.len()
        invariant
            i <= list@.len(),
            all == opened_claims(opened_views(list@)),
            all.len() == list@.len(),
            pair_views(found@) == start + all.take(i as int),
        decreases list@.len() - i,
    {
        let item = &list[i];
        assert(opened_views(list@)[i as int] == (item.0@, item.1@, item.2@));
        let ghost before = pair_views(found@);
        let description = cat4("imported export ", item.1.as_str(), ".", item.2.as_str());
        push_claim(found, item.0.clone(), description);
        assert(before.push(all[i as int]) =~= start + all.take(i + 1));
        i = i + 1;
    }
    assert(all.take(all.len() as int) =~= all);
}

fn add_claims_within(
    module: &str,
    names: &Names,
    exports: &Vec<(String, Vec<String>)>,
    found: &mut Vec<(String, String)>,
)
    ensures
        pair_views(final(found)@) == pair_views(old(found)@) + claims_within(
            module@,
            0,
            names@,
            export_views(exports@),
        ),
{
    let chars = text_chars(module);
    let ghost known = export_views(exports@);
    let ghost start = pair_views(found@);
    let ghost whole = claims_within(module@, 0, names@, known);
    let mut i: usize = 0;
    while i < chars.len()
        invariant
            i <= chars@.len(),
            chars@ == module@,
            known == export_views(exports@),
            start + whole == pair_views(found@) + claims_within(
                module@,
                i as int,
                names@,
                known,
            ),
        decreases chars@.len() - i,
    {
        let ghost before = pair_views(found@);
        let ghost tail = claims_within(module@, i + 1, names@, known);
        let ghost added = claims_at_dot(module@, i as int, names@, known);
        assert(before + (added + tail) =~= (before + added) + tail);
        assert(before + Seq::<Claim>::empty() =~= before);
        if chars[i] == '.' {
            let end = find_dot(&chars, i + 1);
            let prefix = chars_text(&chars, 0, i);
            let segment = chars_text(&chars, i + 1, end);
            let spelling = chars_text(&chars, 0, end);
            assert(prefix@ =~= module@.take(i as int));
            assert(spelling@ =~= module@.take(end as int));
            if names.contains(prefix.as_str()) && is_exported(
                exports,
                prefix.as_str(),
                segment.as_str(),
            ) {
                let space = cat2("canonical namespace ", spelling.as_str());
                let export = cat2("imported export ", spelling.as_str());
                push_claim(found, spelling.clone(), space);
                push_claim(found, spelling, export);
                assert(pair_views(found@) =~= before + added);
            }
        }
        i = i + 1;
    }
    assert(pair_views(found@) + Seq::<Claim>::empty() =~= pair_views(found@));
}

fn add_nested_claims(
    list: &Vec<Require>,
    names: &Names,
    exports: &Vec<(String, Vec<String>)>,
    found: &mut Vec<(String, String)>,
)
    ensures
        pair_views(final(found)@) == pair_views(old(found)@) + nested_claims(
            imports(list@),
            names@,
            export_views(exports@),
            list@.len() as int,
        ),
{
    let ghost all = imports(list@);
    let ghost known = export_views(exports@);
    let ghost start = pair_views(found@);
    assert(start + nested_claims(all, names@, known, 0) =~= start);
    let mut n: usize = 0;
    while n < list.len()
        invariant
            n <= list@.len(),
            all == imports(list@),
            known == export_views(exports@),
            pair_views(found@) == start + nested_claims(all, names@, known, n as int),
        decreases list@.len() - n,
    {
        assert(all[n as int] == list@[n as int]@);
        match &list[n].exposure {
            ImportExposure::NamespaceAlias(_) => {},
            _ => {
                let ghost before = nested_claims(all, names@, known, n as int);
                add_claims_within(list[n].module.as_str(), names, exports, found);
                let ghost added = claims_within(all[n as int].module, 0, names@, known);
                assert((start + before) + added =~= start + (before + added));
            },
        }
        n = n + 1;
    }
}

fn find_claims(list: &Vec<Require>, exports: &Vec<(String, Vec<String>)>, module: &Module) -> (found:
    Vec<(String, String)>)
    ensures
        pair_views(found@) == claims(
            imports(list@),
            export_views(exports@),
            top_forms(module.forms@),
        ),
{
    let mut found: Vec<(String, String)> = Vec::new();
    assert(pair_views(found@) =~= Seq::<Claim>::empty());
    add_form_claims(&module.forms, &mut found);
    assert(pair_views(found@) =~= form_claims(
        top_forms(module.forms@),
        module.forms@.len() as int,
    ));
    add_builtin_claims(&mut found);
    add_root_claims(list, &mut found);
    let aliases = find_aliases(list);
    add_alias_claims(&aliases, &mut found);
    let names = find_opened(list, exports);
    add_opened_claims(&names, &mut found);
    let modules = find_canonical(list);
    add_nested_claims(list, &modules, exports, &mut found);
    assert(imports(list@).len() == list@.len());
    assert(top_forms(module.forms@).len() == module.forms@.len());
    found
}

// ---------------------------------------------------------------------------
// Collisions
// ---------------------------------------------------------------------------

/// The spellings of the first `n` claims.
pub open spec fn spellings(list: Seq<Claim>, n: int) -> Set<Seq<char>>
    decreases n,
{
    if n <= 0 {
        Set::empty()
    } else {
        spellings(list, n - 1).insert(list[n - 1].0)
    }
}

/// What a spelling stands for, by the first `n` claims.
pub open spec fn meanings(list: Seq<Claim>, spelling: Seq<char>, n: int) -> Set<Seq<char>>
    decreases n,
{
    if n <= 0 {
        Set::empty()
    } else if list[n - 1].0 == spelling {
        meanings(list, spelling, n - 1).insert(list[n - 1].1)
    } else {
        meanings(list, spelling, n - 1)
    }
}

/// The different descriptions of a spelling, in ascending order.
pub open spec fn candidates_of(list: Seq<Claim>, spelling: Seq<char>) -> Seq<Seq<char>> {
    sorted_names(meanings(list, spelling, list.len() as int))
}

pub open spec fn starts_with(text: Seq<char>, prefix: Seq<char>) -> bool {
    text.len() >= prefix.len() && text.take(prefix.len() as int) == prefix
}

/// Whether a description is one that an import brings.
pub open spec fn comes_by_import(description: Seq<char>) -> bool {
    starts_with(description, "imported export "@) || starts_with(
        description,
        "canonical namespace "@,
    ) || starts_with(description, "namespace alias "@)
}

/// Whether a spelling stands for several things, one of them by an import.
pub open spec fn collides_at(list: Seq<Claim>, spelling: Seq<char>) -> bool {
    let found = candidates_of(list, spelling);
    found.len() > 1 && exists|i: int| 0 <= i < found.len() && comes_by_import(#[trigger] found[i])
}

/// The first of some spellings, from index `i` on, that collides.
pub open spec fn first_collision(list: Seq<Claim>, names: Seq<Seq<char>>, i: int) -> Option<
    Seq<char>,
>
    decreases names.len() - i,
{
    if i < 0 || i >= names.len() {
        None
    } else if collides_at(list, names[i]) {
        Some(names[i])
    } else {
        first_collision(list, names, i + 1)
    }
}

/// How selectors, from index `i` on, can be changed so that they leave a
/// spelling alone.
pub open spec fn selector_repairs(
    module: Seq<char>,
    list: Seq<Selector>,
    spelling: Seq<char>,
    n: int,
) -> Set<Seq<char>>
    decreases n,
{
    if n <= 0 {
        Set::empty()
    } else if list[n - 1].local == Some(spelling) {
        selector_repairs(module, list, spelling, n - 1).insert(
            "remove or rename selector `"@ + module + ".{"@ + list[n - 1].export + "}`"@,
        )
    } else {
        selector_repairs(module, list, spelling, n - 1)
    }
}

/// How an import can be changed so that it leaves a spelling alone.
pub open spec fn import_repairs(import: Import, exports: Exports, spelling: Seq<char>) -> Set<
    Seq<char>,
> {
    let m = import.module;
    match import.exposure {
        Exposure::Open => if exported(exports, m, spelling) {
            Set::empty().insert(
                "replace `import "@ + m + "` with `import "@ + m + ".{}`, or add `import "@ + m + (
                ".{"@ + spelling + " as _}`"@),
            )
        } else {
            Set::empty()
        },
        Exposure::Selective(list) => selector_repairs(m, list, spelling, list.len() as int),
        Exposure::Qualified => if root_of(m) == spelling {
            Set::empty().insert(
                "replace `import "@ + m + ".{}` with `import "@ + m
                    + " as alias` and qualify its uses through `alias`"@,
            )
        } else {
            Set::empty()
        },
        _ => Set::empty(),
    }
}

pub open spec fn repairs(list: Seq<Import>, exports: Exports, spelling: Seq<char>, n: int) -> Set<
    Seq<char>,
>
    decreases n,
{
    if n <= 0 {
        Set::empty()
    } else {
        repairs(list, exports, spelling, n - 1).union(
            import_repairs(list[n - 1], exports, spelling),
        )
    }
}

pub open spec fn repairs_text(list: Seq<Seq<char>>) -> Seq<char> {
    if list.len() == 0 {
        Seq::empty()
    } else {
        "; repairs: "@ + joined(list, "; "@)
    }
}

pub open spec fn collision_failure(
    list: Seq<Import>,
    exports: Exports,
    found: Seq<Claim>,
    spelling: Seq<char>,
) -> Failure {
    Failure::Type(
        "import collision at '"@ + spelling + "'; candidates: "@ + joined(
            candidates_of(found, spelling),
            ", "@,
        ) + repairs_text(sorted_names(repairs(list, exports, spelling, list.len() as int))),
    )
}

fn find_spellings(list: &Vec<(String, String)>) -> (names: Vec<String>)
    ensures
        texts(names@) == sorted_names(spellings(pair_views(list@), list@.len() as int)),
{
    let ghost all = pair_views(list@);
    let mut names = Names::new();
    let mut n: usize = 0;
    while n < list.len()
        invariant
            n <= list@.len(),
            all == pair_views(list@),
            names@ == spellings(all, n as int),
        decreases list@.len() - n,
    {
        let claim = &list[n];
        assert(all[n as int] == (claim.0@, claim.1@));
        names.insert(claim.0.clone());
        n = n + 1;
    }
    sort_names(&names)
}

fn find_candidates(list: &Vec<(String, String)>, spelling: &str) -> (names: Vec<String>)
    ensures
        texts(names@) == candidates_of(pair_views(list@), spelling@),
{
    let ghost all = pair_views(list@);
    let mut names = Names::new();
    let mut n: usize = 0;
    while n < list.len()
        invariant
            n <= list@.len(),
            all == pair_views(list@),
            names@ == meanings(all, spelling@, n as int),
        decreases list@.len() - n,
    {
        let claim = &list[n];
        assert(all[n as int] == (claim.0@, claim.1@));
        if same_text(claim.0.as_str(), spelling) {
            names.insert(claim.1.clone());
        }
        n = n + 1;
    }
    assert(all.len() == list@.len());
    sort_names(&names)
}

fn text_starts_with(text: &str, prefix: &str) -> (yes: bool)
    ensures
        yes == starts_with(text@, prefix@),
{
    let chars = text_chars(text);
    let head = text_chars(prefix);
    if chars.len() < head.len() {
        return false;
    }
    let start = chars_text(&chars, 0, head.len());
    assert(start@ =~= text@.take(head@.len() as int));
    same_text(start.as_str(), prefix)
}

fn is_import_claim(description: &str) -> (yes: bool)
    ensures
        yes == comes_by_import(description@),
{
    text_starts_with(description, "imported export ") || text_starts_with(
        description,
        "canonical namespace ",
    ) || text_starts_with(description, "namespace alias ")
}

fn is_collision(list: &Vec<(String, String)>, spelling: &str) -> (yes: bool)
    ensures
        yes == collides_at(pair_views(list@), spelling@),
{
    let found = find_candidates(list, spelling);
    let ghost all = texts(found@);
    assert(all.len() == found@.len());
    if found.len() < 2 {
        return false;
    }
    let mut i: usize = 0;
    while i < found.len()
        invariant
            i <= found@.len(),
            all == texts(found@),
            all == candidates_of(pair_views(list@), spelling@),
            all.len() > 1,
            forall|k: int| 0 <= k < i ==> !comes_by_import(#[trigger] all[k]),
        decreases found@.len() - i,
    {
        assert(all[i as int] == found@[i as int]@);
        if is_import_claim(found[i].as_str()) {
            assert(comes_by_import(all[i as int]));
            return true;
        }
        i = i + 1;
    }
    false
}

fn find_collision(list: &Vec<(String, String)>) -> (spelling: Option<String>)
    ensures
        match (spelling, first_collision(
            pair_views(list@),
            sorted_names(spellings(pair_views(list@), list@.len() as int)),
            0,
        )) {
            (Some(spelling), Some(view)) => spelling@ == view,
            (None, None) => true,
            _ => false,
        },
{
    let names = find_spellings(list);
    let ghost all = texts(names@);
    let ghost found = pair_views(list@);
    let mut i: usize = 0;
    while i < names.len()
        invariant
            i <= names@.len(),
            all == texts(names@),
            found == pair_views(list@),
            all == sorted_names(spellings(found, list@.len() as int)),
            first_collision(found, all, 0) == first_collision(found, all, i as int),
        decreases names@.len() - i,
    {
        assert(all[i as int] == names@[i as int]@);
        if is_collision(list, names[i].as_str()) {
            return Some(names[i].clone());
        }
        i = i + 1;
    }
    None
}

fn find_selector_repairs(module: &str, list: &Vec<ImportSelector>, spelling: &str) -> (names: Names)
    ensures
        names@ == selector_repairs(module@, selectors(list@), spelling@, list@.len() as int),
{
    let ghost all = selectors(list@);
    let mut names = Names::new();
    let mut n: usize = 0;
    while n < list.len()
        invariant
            n <= list@.len(),
            all == selectors(list@),
            names@ == selector_repairs(module@, all, spelling@, n as int),
        decreases list@.len() - n,
    {
        assert(all[n as int] == list@[n as int]@);
        if let Some(local) = &list[n].local {
            if same_text(local.as_str(), spelling) {
                names.insert(
                    cat5(
                        "remove or rename selector `",
                        module,
                        ".{",
                        list[n].export.as_str(),
                        "}`",
                    ),
                );
            }
        }
        n = n + 1;
    }
    names
}

fn find_import_repairs(require: &Require, exports: &Vec<(String, Vec<String>)>, spelling: &str) -> (names:
    Names)
    ensures
        names@ == import_repairs(require@, export_views(exports@), spelling@),
{
    let m = require.module.as_str();
    let mut names = Names::new();
    match &require.exposure {
        ImportExposure::Open => {
            if is_exported(exports, m, spelling) {
                let first = cat6(
                    "replace `import ",
                    m,
                    "` with `import ",
                    m,
                    ".{}`, or add `import ",
                    m,
                );
                let second = cat3(".{", spelling, " as _}`");
                names.insert(cat2(first.as_str(), second.as_str()));
            }
            names
        },
        ImportExposure::Selective(list) => {
            assert(selectors(list@).len() == list@.len());
            find_selector_repairs(m, list, spelling)
        },
        ImportExposure::Qualified => {
            let root = find_root(m);
            if same_text(root.as_str(), spelling) {
                names.insert(
                    cat5(
                        "replace `import ",
                        m,
                        ".{}` with `import ",
                        m,
                        " as alias` and qualify its uses through `alias`",
                    ),
                );
            }
            names
        },
        _ => names,
    }
}

fn find_repairs(list: &Vec<Require>, exports: &Vec<(String, Vec<String>)>, spelling: &str) -> (names:
    Vec<String>)
    ensures
        texts(names@) == sorted_names(
            repairs(imports(list@), export_views(exports@), spelling@, list@.len() as int),
        ),
{
    let ghost all = imports(list@);
    let ghost known = export_views(exports@);
    let mut names = Names::new();
    let mut n: usize = 0;
    while n < list.len()
        invariant
            n <= list@.len(),
            all == imports(list@),
            known == export_views(exports@),
            names@ == repairs(all, known, spelling@, n as int),
        decreases list@.len() - n,
    {
        assert(all[n as int] == list@[n as int]@);
        let more = find_import_repairs(&list[n], exports, spelling);
        names.extend(&more);
        n = n + 1;
    }
    sort_names(&names)
}

fn collision_error(
    list: &Vec<Require>,
    exports: &Vec<(String, Vec<String>)>,
    found: &Vec<(String, String)>,
    spelling: &str,
) -> (error: MagError)
    ensures
        error@ == collision_failure(
            imports(list@),
            export_views(exports@),
            pair_views(found@),
            spelling@,
        ),
{
    let names = find_candidates(found, spelling);
    let listed = join_texts(&names, ", ");
    let fixes = find_repairs(list, exports, spelling);
    assert(imports(list@).len() == list@.len());
    assert(texts(fixes@).len() == fixes@.len());
    let tail = if fixes.len() == 0 {
        let none = String::new();
        assert(none@ =~= Seq::empty());
        none
    } else {
        let listed = join_texts(&fixes, "; ");
        cat2("; repairs: ", listed.as_str())
    };
    MagError::Type(
        cat5(
            "import collision at '",
            spelling,
            "'; candidates: ",
            listed.as_str(),
            tail.as_str(),
        ),
    )
}

// ---------------------------------------------------------------------------
// Plans
// ---------------------------------------------------------------------------

/// What importing installs: modules under their own names and under aliases, and
/// exports under local names.
#[derive(Debug)]
pub struct Plan {
    pub modules: Vec<String>,
    pub aliases: Vec<(String, String)>,
    pub opened: Vec<(String, String, String)>,
}

pub ghost struct Planned {
    pub modules: Seq<Seq<char>>,
    pub aliases: Seq<(Seq<char>, Seq<char>)>,
    pub opened: Seq<Opened>,
}

impl Plan {
    pub open spec fn view(&self) -> Planned {
        Planned {
            modules: texts(self.modules@),
            aliases: pair_views(self.aliases@),
            opened: opened_views(self.opened@),
        }
    }
}

/// What the imports of a module install, or why they cannot stand together.
pub open spec fn planned(list: Seq<Import>, exports: Exports, forms: Seq<TopForm>) -> Result<
    Planned,
    Failure,
> {
    let n = list.len() as int;
    match imports_known(list, exports, 0) {
        Err(failure) => Err(failure),
        Ok(_) => {
            let found = claims(list, exports, forms);
            match first_collision(
                found,
                sorted_names(spellings(found, found.len() as int)),
                0,
            ) {
                Some(spelling) => Err(collision_failure(list, exports, found, spelling)),
                None => Ok(
                    Planned {
                        modules: sorted_names(kept_modules(list, n)),
                        aliases: alias_pairs(list, n),
                        opened: opened(list, exports, n),
                    },
                ),
            }
        },
    }
}

/// Plans the imports of a module.
pub fn plan_imports(
    required: &Vec<Require>,
    exports: &Vec<(String, Vec<String>)>,
    module: &Module,
) -> (result: Result<Plan, MagError>)
    ensures
        match (result, planned(
            imports(required@),
            export_views(exports@),
            top_forms(module.forms@),
        )) {
            (Ok(plan), Ok(view)) => plan@ == view,
            (Err(error), Err(failure)) => error@ == failure,
            _ => false,
        },
{
    match check_imports(required, exports) {
        Err(error) => return Err(error),
        Ok(_) => {},
    }
    let found = find_claims(required, exports, module);
    assert(pair_views(found@).len() == found@.len());
    assert(imports(required@).len() == required@.len());
    if let Some(spelling) = find_collision(&found) {
        return Err(collision_error(required, exports, &found, spelling.as_str()));
    }
    let names = find_canonical(required);
    Ok(
        Plan {
            modules: sort_names(&names),
            aliases: find_aliases(required),
            opened: find_opened(required, exports),
        },
    )
}

// ---------------------------------------------------------------------------
// Laws
// ---------------------------------------------------------------------------

proof fn lemma_spellings(list: Seq<Claim>, n: int)
    requires
        n <= list.len(),
    ensures
        spellings(list, n).finite(),
        forall|i: int| 0 <= i < n ==> spellings(list, n).contains((#[trigger] list[i]).0),
    decreases n,
{
    if n > 0 {
        lemma_spellings(list, n - 1);
    }
}

proof fn lemma_meanings(list: Seq<Claim>, spelling: Seq<char>, n: int)
    requires
        n <= list.len(),
    ensures
        meanings(list, spelling, n).finite(),
        forall|i: int|
            0 <= i < n && (#[trigger] list[i]).0 == spelling ==> meanings(
                list,
                spelling,
                n,
            ).contains(list[i].1),
    decreases n,
{
    if n > 0 {
        lemma_meanings(list, spelling, n - 1);
    }
}

proof fn lemma_none_collides(list: Seq<Claim>, names: Seq<Seq<char>>, i: int, k: int)
    requires
        0 <= i <= k < names.len(),
        first_collision(list, names, i) is None,
    ensures
        !collides_at(list, names[k]),
    decreases k - i,
{
    if i < k {
        lemma_none_collides(list, names, i + 1, k);
    }
}

/// Where imports can stand together, a spelling that an import brings stands for one
/// thing only.
pub proof fn lemma_imports_unambiguous(
    list: Seq<Import>,
    exports: Exports,
    forms: Seq<TopForm>,
    i: int,
    j: int,
)
    requires
        planned(list, exports, forms) is Ok,
        0 <= i < claims(list, exports, forms).len(),
        0 <= j < claims(list, exports, forms).len(),
        claims(list, exports, forms)[i].0 == claims(list, exports, forms)[j].0,
        comes_by_import(claims(list, exports, forms)[i].1),
    ensures
        claims(list, exports, forms)[i].1 == claims(list, exports, forms)[j].1,
{
    let found = claims(list, exports, forms);
    let n = found.len() as int;
    let spelling = found[i].0;
    let names = spellings(found, n);
    lemma_spellings(found, n);
    lemma_sorted_names(names);
    let listed = sorted_names(names);
    assert(listed.to_set().contains(spelling));
    let k = listed.index_of(spelling);
    assert(listed[k] == spelling);
    lemma_none_collides(found, listed, 0, k);
    lemma_meanings(found, spelling, n);
    let known = meanings(found, spelling, n);
    lemma_sorted_names(known);
    let shown = candidates_of(found, spelling);
    assert(known.contains(found[i].1) && known.contains(found[j].1));
    assert(shown.to_set().contains(found[i].1) && shown.to_set().contains(found[j].1));
    let a = shown.index_of(found[i].1);
    let b = shown.index_of(found[j].1);
    assert(shown[a] == found[i].1 && shown[b] == found[j].1);
    assert(comes_by_import(shown[a]));
}

} // verus!
