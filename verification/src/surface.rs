//! Modules in the expression syntax.

use crate::authored::{
    Exposure, Import, ImportExposure, ImportSelector, Module, ModuleForm, NamePath, Require,
    Selector, TopForm, imports, path_text, selectors, top_forms,
};
use crate::cursor::{
    Fixity, NESTING_LIMIT, Step, Syn, Syntax, ate_punct, ate_word, binding_taken, bumped,
    fixity_of, fixity_views, flaw_here, flawed, here, is_operator, is_punct, is_word, moved,
    name_taken, newlines_skipped, ok, separated, step_path, step_unit, tag_at, too_nested,
    want_punct, want_word,
};
use crate::diagnostic::{Source, SourceSnapshot, measurable};
use crate::error::{Failure, MagError};
use crate::expr_syntax::item_taken;
use crate::fixity::{fixities_from, scan_fixities, scan_top_level_lets, top_lets};
use crate::lexer::Reader;
use crate::text::{same_text, texts};
use crate::tokens::{Fault, Flaw, Sort, Tag, Tok, pieces_from, read_pieces, report, reported, toks};
use crate::type_syntax::{declaration_taken, step_forms};
use crate::types::Names;
use vstd::prelude::*;
use vstd::string::*;

verus! {

// ---------------------------------------------------------------------------
// Imports
// ---------------------------------------------------------------------------

/// More segments of the path of a module, while dots follow that open no braces.
pub open spec fn module_path_from(syn: Syn, before: Seq<Seq<char>>, left: nat) -> Step<
    Seq<Seq<char>>,
>
    decreases left,
{
    if !is_punct(here(syn), '.') || is_punct(tag_at(syn, syn.at + 1), '{') {
        ok(syn, before)
    } else {
        let dot = bumped(syn);
        if is_operator(here(dot), "*"@) {
            flawed(dot, flaw_here(dot, "wildcard imports are unsupported"@))
        } else if left == 0 {
            flawed(dot, too_nested(dot))
        } else {
            let name = name_taken(dot);
            match name.result {
                Err(flaw) => flawed(name.syn, flaw),
                Ok(text) => module_path_from(name.syn, before.push(text), (left - 1) as nat),
            }
        }
    }
}

/// What an import under a local name adds: an alias, and the fixity that the
/// module declares for it.
pub open spec fn with_alias(syn: Syn, local: Seq<char>, path: Seq<Seq<char>>) -> Syn {
    Syn {
        fixities: match fixity_of(syn, local) {
            Some(fixity) => syn.fixities.push((path_text(path), fixity)),
            None => syn.fixities,
        },
        aliases: syn.aliases.push((local, path)),
        ..syn
    }
}

/// A selector: an export, and the name that it gets here unless it is suppressed.
pub open spec fn selector_taken(syn: Syn, path: Seq<Seq<char>>) -> Step<Selector> {
    let export = name_taken(syn);
    match export.result {
        Err(flaw) => flawed(export.syn, flaw),
        Ok(text) => {
            let word = ate_word(export.syn, "as"@);
            let local = if word.yes {
                let name = binding_taken(word.syn);
                match name.result {
                    Err(flaw) => flawed(name.syn, flaw),
                    Ok(name_text) => ok(
                        name.syn,
                        if name_text == "_"@ {
                            None
                        } else {
                            Some(name_text)
                        },
                    ),
                }
            } else {
                ok(export.syn, Some(text))
            };
            match local.result {
                Err(flaw) => flawed(local.syn, flaw),
                Ok(name) => ok(
                    match name {
                        Some(name) => with_alias(local.syn, name, path.push(text)),
                        None => local.syn,
                    },
                    Selector { export: text, local: name },
                ),
            }
        },
    }
}

pub open spec fn selectors_from(
    syn: Syn,
    path: Seq<Seq<char>>,
    before: Seq<Selector>,
    left: nat,
) -> Step<Seq<Selector>>
    decreases left,
{
    let selector = selector_taken(syn, path);
    match selector.result {
        Err(flaw) => flawed(selector.syn, flaw),
        Ok(item) => {
            let after = before.push(item);
            let close = ate_punct(selector.syn, '}');
            if close.yes {
                ok(close.syn, after)
            } else {
                let comma = want_punct(selector.syn, ',');
                match comma.result {
                    Err(flaw) => flawed(comma.syn, flaw),
                    Ok(_) => {
                        let close = ate_punct(comma.syn, '}');
                        if close.yes {
                            ok(close.syn, after)
                        } else if left == 0 {
                            flawed(comma.syn, too_nested(comma.syn))
                        } else {
                            selectors_from(comma.syn, path, after, (left - 1) as nat)
                        }
                    },
                }
            }
        },
    }
}

/// What an import exposes of a module.
pub open spec fn exposure_taken(syn: Syn, path: Seq<Seq<char>>) -> Step<Exposure> {
    let word = ate_word(syn, "as"@);
    let dot = ate_punct(syn, '.');
    if word.yes {
        let alias = binding_taken(word.syn);
        match alias.result {
            Err(flaw) => flawed(alias.syn, flaw),
            Ok(name) => if name == "_"@ {
                flawed(
                    alias.syn,
                    flaw_here(alias.syn, "'_' is only valid after 'as' in an import selector"@),
                )
            } else {
                ok(
                    Syn {
                        namespaces: alias.syn.namespaces.insert(name),
                        aliases: alias.syn.aliases.push((name, seq![name])),
                        ..alias.syn
                    },
                    Exposure::NamespaceAlias(name),
                )
            },
        }
    } else if dot.yes {
        let brace = want_punct(dot.syn, '{');
        match brace.result {
            Err(flaw) => flawed(brace.syn, flaw),
            Ok(_) => {
                let close = ate_punct(brace.syn, '}');
                if close.yes {
                    ok(close.syn, Exposure::Qualified)
                } else {
                    let list = selectors_from(
                        brace.syn,
                        path,
                        Seq::empty(),
                        NESTING_LIMIT as nat,
                    );
                    match list.result {
                        Err(flaw) => flawed(list.syn, flaw),
                        Ok(selected) => ok(list.syn, Exposure::Selective(selected)),
                    }
                }
            },
        }
    } else {
        ok(syn, Exposure::Open)
    }
}

/// An import, which is noted.
pub open spec fn import_taken(syn: Syn) -> Step<()> {
    let word = want_word(syn, "import"@);
    match word.result {
        Err(flaw) => flawed(word.syn, flaw),
        Ok(_) => {
            let first = name_taken(word.syn);
            match first.result {
                Err(flaw) => flawed(first.syn, flaw),
                Ok(name) => {
                    let path = module_path_from(first.syn, seq![name], NESTING_LIMIT as nat);
                    match path.result {
                        Err(flaw) => flawed(path.syn, flaw),
                        Ok(segments) => {
                            let exposure = exposure_taken(path.syn, segments);
                            match exposure.result {
                                Err(flaw) => flawed(exposure.syn, flaw),
                                Ok(exposed) => ok(
                                    Syn {
                                        imported: exposure.syn.imported.push(
                                            Import {
                                                module: path_text(segments),
                                                exposure: exposed,
                                            },
                                        ),
                                        ..exposure.syn
                                    },
                                    (),
                                ),
                            }
                        },
                    }
                },
            }
        },
    }
}

fn push_alias(syntax: &mut Syntax, local: String, path: NamePath)
    ensures
        final(syntax)@ == (Syn {
            aliases: old(syntax)@.aliases.push((local@, path@)),
            ..old(syntax)@
        }),
{
    let ghost before = syntax@;
    let ghost view = (local@, path@);
    syntax.aliases.push((local, path));
    assert(syntax@.aliases =~= before.aliases.push(view));
}

impl<'a> Syntax<'a> {
    fn parse_module_path(&mut self) -> (result: Result<NamePath, Fault>)
        ensures
            step_path(final(self)@, result) == ({
                let first = name_taken(old(self)@);
                match first.result {
                    Err(flaw) => flawed(first.syn, flaw),
                    Ok(name) => module_path_from(first.syn, seq![name], NESTING_LIMIT as nat),
                }
            }),
    {
        let first = match self.expect_name() {
            Err(fault) => return Err(fault),
            Ok(name) => name,
        };
        let ghost name = first@;
        let ghost start = self@;
        let mut segments: Vec<String> = Vec::new();
        segments.push(first);
        assert(texts(segments@) =~= seq![name]);
        let ghost whole = module_path_from(start, seq![name], NESTING_LIMIT as nat);
        let mut left: u64 = NESTING_LIMIT;
        while self.at_punct('.')
            invariant
                start == name_taken(old(self)@).syn,
                name_taken(old(self)@).result == Ok::<Seq<char>, Flaw>(name),
                whole == module_path_from(start, seq![name], NESTING_LIMIT as nat),
                whole == module_path_from(self@, texts(segments@), left as nat),
            decreases left,
        {
            let brace = match self.ahead(1) {
                Sort::Punct(mark) => *mark == '{',
                _ => false,
            };
            if brace {
                return Ok(NamePath { segments });
            }
            self.bump();
            if self.at_operator("*") {
                return Err(self.fault("wildcard imports are unsupported"));
            }
            if left == 0 {
                return Err(self.nested_fault());
            }
            match self.expect_name() {
                Err(fault) => return Err(fault),
                Ok(name) => {
                    let ghost before = texts(segments@);
                    let ghost view = name@;
                    segments.push(name);
                    assert(texts(segments@) =~= before.push(view));
                },
            }
            left = left - 1;
        }
        Ok(NamePath { segments })
    }

    fn add_alias(&mut self, local: &str, path: NamePath)
        ensures
            final(self)@ == with_alias(old(self)@, local@, path@),
    {
        let ghost before = self@;
        match self.find_fixity(local) {
            Some(fixity) => {
                let text = path.text();
                let ghost view = (text@, fixity);
                self.fixities.push((text, fixity));
                assert(self@.fixities =~= before.fixities.push(view));
            },
            None => {},
        }
        push_alias(self, local.to_owned(), path);
    }

    fn parse_selector(&mut self, path: &NamePath) -> (result: Result<ImportSelector, Fault>)
        ensures
            (Step {
                syn: final(self)@,
                result: match result {
                    Ok(selector) => Ok(selector@),
                    Err(fault) => Err(fault@),
                },
            }) == selector_taken(old(self)@, path@),
    {
        let export = match self.expect_name() {
            Err(fault) => return Err(fault),
            Ok(name) => name,
        };
        let local = if self.eat_word("as") {
            match self.expect_binding_name() {
                Err(fault) => return Err(fault),
                Ok(name) => if same_text(name.as_str(), "_") {
                    None
                } else {
                    Some(name)
                },
            }
        } else {
            Some(export.clone())
        };
        if let Some(name) = &local {
            let mut full = path.copy();
            let ghost before = full@;
            full.segments.push(export.clone());
            assert(full@ =~= before.push(export@));
            self.add_alias(name.as_str(), full);
        }
        Ok(ImportSelector { export, local })
    }

    fn parse_selectors(&mut self, path: &NamePath) -> (result: Result<Vec<ImportSelector>, Fault>)
        ensures
            (Step {
                syn: final(self)@,
                result: match result {
                    Ok(list) => Ok(selectors(list@)),
                    Err(fault) => Err(fault@),
                },
            }) == selectors_from(old(self)@, path@, Seq::empty(), NESTING_LIMIT as nat),
    {
        let ghost whole = selectors_from(self@, path@, Seq::empty(), NESTING_LIMIT as nat);
        let mut list: Vec<ImportSelector> = Vec::new();
        assert(selectors(list@) =~= Seq::<Selector>::empty());
        let mut left: u64 = NESTING_LIMIT;
        loop
            invariant
                whole == selectors_from(
                    old(self)@,
                    path@,
                    Seq::empty(),
                    NESTING_LIMIT as nat,
                ),
                whole == selectors_from(self@, path@, selectors(list@), left as nat),
            decreases left,
        {
            match self.parse_selector(path) {
                Err(fault) => return Err(fault),
                Ok(selector) => {
                    let ghost before = selectors(list@);
                    let ghost view = selector@;
                    list.push(selector);
                    assert(selectors(list@) =~= before.push(view));
                },
            }
            if self.eat_punct('}') {
                return Ok(list);
            }
            match self.expect_punct(',') {
                Err(fault) => return Err(fault),
                Ok(_) => {},
            }
            if self.eat_punct('}') {
                return Ok(list);
            }
            if left == 0 {
                return Err(self.nested_fault());
            }
            left = left - 1;
        }
    }

    fn parse_exposure(&mut self, path: &NamePath) -> (result: Result<ImportExposure, Fault>)
        ensures
            (Step {
                syn: final(self)@,
                result: match result {
                    Ok(exposure) => Ok(exposure@),
                    Err(fault) => Err(fault@),
                },
            }) == exposure_taken(old(self)@, path@),
    {
        if self.eat_word("as") {
            let alias = match self.expect_binding_name() {
                Err(fault) => return Err(fault),
                Ok(alias) => alias,
            };
            if same_text(alias.as_str(), "_") {
                return Err(self.fault("'_' is only valid after 'as' in an import selector"));
            }
            self.namespaces.insert(alias.clone());
            push_alias(self, alias.clone(), NamePath::single(alias.as_str()));
            return Ok(ImportExposure::NamespaceAlias(alias));
        }
        if self.eat_punct('.') {
            match self.expect_punct('{') {
                Err(fault) => return Err(fault),
                Ok(_) => {},
            }
            if self.eat_punct('}') {
                return Ok(ImportExposure::Qualified);
            }
            return match self.parse_selectors(path) {
                Err(fault) => Err(fault),
                Ok(list) => Ok(ImportExposure::Selective(list)),
            };
        }
        Ok(ImportExposure::Open)
    }

    fn parse_import(&mut self) -> (result: Result<(), Fault>)
        ensures
            step_unit(final(self)@, result) == import_taken(old(self)@),
    {
        match self.expect_word("import") {
            Err(fault) => return Err(fault),
            Ok(_) => {},
        }
        let path = match self.parse_module_path() {
            Err(fault) => return Err(fault),
            Ok(path) => path,
        };
        let exposure = match self.parse_exposure(&path) {
            Err(fault) => return Err(fault),
            Ok(exposure) => exposure,
        };
        let ghost before = self@;
        let require = Require { module: path.text(), exposure };
        let ghost view = require@;
        self.imported.push(require);
        assert(self@.imported =~= before.imported.push(view));
        Ok(())
    }
}

// ---------------------------------------------------------------------------
// Modules
// ---------------------------------------------------------------------------

/// The end of a fixity declaration, which was read before.
pub open spec fn past_fixity(syn: Syn, i: int) -> int
    decreases syn.toks.len() - i,
{
    let tag = tag_at(syn, i);
    if 0 <= i < syn.toks.len() && !(tag is Newline) && !is_punct(tag, ';') && !(tag is Eof) {
        past_fixity(syn, i + 1)
    } else {
        i
    }
}

pub open spec fn declares_fixity(tag: Tag) -> bool {
    is_word(tag, "fixity"@) || is_word(tag, "infixl"@) || is_word(tag, "infixr"@) || is_word(
        tag,
        "infix"@,
    )
}

/// One form of a module: what it adds to the forms.
pub open spec fn form_taken(syn: Syn, before: Seq<TopForm>) -> Step<Seq<TopForm>> {
    if is_word(here(syn), "import"@) {
        let import = import_taken(syn);
        match import.result {
            Err(flaw) => flawed(import.syn, flaw),
            Ok(_) => ok(import.syn, before),
        }
    } else if declares_fixity(here(syn)) {
        ok(moved(syn, past_fixity(syn, syn.at)), before)
    } else if is_word(here(syn), "type"@) || is_word(here(syn), "newtype"@) {
        let forms = declaration_taken(syn);
        match forms.result {
            Err(flaw) => flawed(forms.syn, flaw),
            Ok(list) => ok(forms.syn, before + list),
        }
    } else {
        let item = item_taken(syn, NESTING_LIMIT as nat);
        match item.result {
            Err(flaw) => flawed(item.syn, flaw),
            Ok(value) => ok(item.syn, before.push(TopForm::Block(value))),
        }
    }
}

pub open spec fn forms_from(syn: Syn, before: Seq<TopForm>, left: nat) -> Step<Seq<TopForm>>
    decreases left,
{
    if here(syn) is Eof {
        ok(syn, before)
    } else {
        let form = form_taken(syn, before);
        match form.result {
            Err(flaw) => form,
            Ok(forms) => {
                let end = separated(form.syn);
                match end.result {
                    Err(flaw) => flawed(end.syn, flaw),
                    Ok(_) => if left == 0 {
                        flawed(end.syn, too_nested(end.syn))
                    } else {
                        forms_from(end.syn, forms, (left - 1) as nat)
                    },
                }
            },
        }
    }
}

pub open spec fn import_forms(list: Seq<Import>) -> Seq<TopForm> {
    Seq::new(list.len(), |i: int| TopForm::Require(list[i]))
}

/// The state in which a parse starts.
pub open spec fn starting(
    text: Seq<char>,
    list: Seq<Tok>,
    fixities: Seq<(Seq<char>, Fixity)>,
) -> Syn {
    Syn {
        text,
        toks: list,
        at: 0,
        fixities,
        aliases: Seq::empty(),
        variants: Seq::empty(),
        imported: Seq::empty(),
        namespaces: Set::empty(),
        bound: top_lets(list, 0, 0, Set::empty()),
        braces: true,
        special: Seq::empty(),
    }
}

/// The forms of a module, imports first.
pub open spec fn module_forms(text: Seq<char>) -> Result<Seq<TopForm>, Flaw> {
    match pieces_from(text, 0, Seq::empty()) {
        Err(flaw) => Err(flaw),
        Ok(list) => match fixities_from(list, 0, Seq::empty()) {
            Err(flaw) => Err(flaw),
            Ok(fixities) => {
                let start = newlines_skipped(starting(text, list, fixities));
                let forms = forms_from(start, Seq::empty(), NESTING_LIMIT as nat);
                match forms.result {
                    Err(flaw) => Err(flaw),
                    Ok(list) => Ok(import_forms(forms.syn.imported) + list),
                }
            },
        },
    }
}

/// What a source text compiles to, or why it does not.
pub open spec fn surface_module(source: Source) -> Result<Seq<TopForm>, Failure> {
    match module_forms(source.text) {
        Ok(forms) => Ok(forms),
        Err(flaw) => Err(reported(source, flaw)),
    }
}

fn append_forms(forms: &mut Vec<ModuleForm>, more: Vec<ModuleForm>)
    ensures
        top_forms(final(forms)@) == top_forms(old(forms)@) + top_forms(more@),
{
    let ghost start = forms@;
    let ghost added = more@;
    let mut more = more;
    forms.append(&mut more);
    assert(top_forms(forms@) =~= top_forms(start) + top_forms(added));
}

fn forms_of_imports(list: Vec<Require>) -> (forms: Vec<ModuleForm>)
    ensures
        top_forms(forms@) == import_forms(imports(list@)),
{
    let ghost given = list@;
    let count = list.len();
    let mut rest = list;
    let mut forms: Vec<ModuleForm> = Vec::new();
    assert(rest@ =~= given.skip(0));
    assert(top_forms(forms@) =~= import_forms(imports(given)).take(0));
    let mut i: usize = 0;
    while i < count
        invariant
            i <= count,
            count == given.len(),
            rest@ == given.skip(i as int),
            forms@.len() == i,
            top_forms(forms@) == import_forms(imports(given)).take(i as int),
        decreases count - i,
    {
        let ghost before = top_forms(forms@);
        let require = rest.remove(0);
        assert(require == given[i as int]);
        let form = ModuleForm::Require(require);
        let ghost view = form@;
        forms.push(form);
        assert(rest@ =~= given.skip(i + 1));
        assert(top_forms(forms@) =~= before.push(view));
        assert(before.push(view) =~= import_forms(imports(given)).take(i + 1));
        i = i + 1;
    }
    assert(import_forms(imports(given)).take(given.len() as int) =~= import_forms(imports(given)));
    forms
}

impl<'a> Syntax<'a> {
    fn skip_fixity(&mut self)
        ensures
            final(self)@ == moved(old(self)@, past_fixity(old(self)@, old(self)@.at)),
    {
        let ghost start = self@;
        let mut i: usize = self.at;
        while i < self.pieces.len() && !self.ends_fixity(i)
            invariant
                start == self@,
                start == old(self)@,
                past_fixity(start, start.at) == past_fixity(start, i as int),
            decreases self.pieces@.len() - i,
        {
            i = i + 1;
        }
        self.at = i;
    }

    fn ends_fixity(&self, i: usize) -> (yes: bool)
        ensures
            yes == (tag_at(self@, i as int) is Newline || is_punct(tag_at(self@, i as int), ';')
                || tag_at(self@, i as int) is Eof),
    {
        match self.sort_at(i) {
            Sort::Newline => true,
            Sort::Eof => true,
            Sort::Punct(mark) => *mark == ';',
            _ => false,
        }
    }

    fn parse_form(&mut self, forms: &mut Vec<ModuleForm>) -> (result: Result<(), Fault>)
        ensures
            match form_taken(old(self)@, top_forms(old(forms)@)).result {
                Ok(view) => result is Ok && top_forms(final(forms)@) == view,
                Err(flaw) => result matches Err(fault) && fault@ == flaw,
            },
            final(self)@ == form_taken(old(self)@, top_forms(old(forms)@)).syn,
    {
        if self.at_word("import") {
            return self.parse_import();
        }
        if self.at_word("fixity") || self.at_word("infixl") || self.at_word("infixr")
            || self.at_word("infix") {
            self.skip_fixity();
            return Ok(());
        }
        if self.at_word("type") || self.at_word("newtype") {
            return match self.parse_type_declaration() {
                Err(fault) => Err(fault),
                Ok(list) => {
                    append_forms(forms, list);
                    Ok(())
                },
            };
        }
        match self.parse_item(NESTING_LIMIT) {
            Err(fault) => Err(fault),
            Ok(item) => {
                let ghost before = top_forms(forms@);
                let form = ModuleForm::Block(item);
                let ghost view = form@;
                forms.push(form);
                assert(top_forms(forms@) =~= before.push(view));
                Ok(())
            },
        }
    }

    fn parse_forms(&mut self) -> (result: Result<Vec<ModuleForm>, Fault>)
        ensures
            step_forms(final(self)@, result) == forms_from(
                old(self)@,
                Seq::empty(),
                NESTING_LIMIT as nat,
            ),
    {
        let ghost whole = forms_from(self@, Seq::empty(), NESTING_LIMIT as nat);
        let mut forms: Vec<ModuleForm> = Vec::new();
        assert(top_forms(forms@) =~= Seq::<TopForm>::empty());
        let mut left: u64 = NESTING_LIMIT;
        while !self.at_eof()
            invariant
                whole == forms_from(old(self)@, Seq::empty(), NESTING_LIMIT as nat),
                whole == forms_from(self@, top_forms(forms@), left as nat),
            decreases left,
        {
            match self.parse_form(&mut forms) {
                Err(fault) => return Err(fault),
                Ok(_) => {},
            }
            match self.require_separator() {
                Err(fault) => return Err(fault),
                Ok(_) => {},
            }
            if left == 0 {
                return Err(self.nested_fault());
            }
            left = left - 1;
        }
        Ok(forms)
    }
}

fn parse_text(chars: &Vec<char>) -> (result: Result<Module, Fault>)
    ensures
        match result {
            Ok(module) => module_forms(chars@) == Ok::<Seq<TopForm>, Flaw>(
                top_forms(module.forms@),
            ),
            Err(fault) => module_forms(chars@) == Err::<Seq<TopForm>, Flaw>(fault@),
        },
{
    let pieces = match read_pieces(chars) {
        Err(fault) => return Err(fault),
        Ok(pieces) => pieces,
    };
    let fixities = match scan_fixities(&pieces) {
        Err(fault) => return Err(fault),
        Ok(fixities) => fixities,
    };
    let bound = scan_top_level_lets(&pieces);
    let mut syntax = Syntax {
        chars,
        pieces,
        at: 0,
        fixities,
        aliases: Vec::new(),
        variants: Vec::new(),
        imported: Vec::new(),
        namespaces: Names::new(),
        bound,
        braces: true,
        special: Vec::new(),
    };
    proof {
        assert(syntax@.aliases =~= Seq::empty());
        assert(syntax@.variants =~= Seq::empty());
        assert(syntax@.imported =~= Seq::empty());
        assert(syntax@.special =~= Seq::empty());
        assert(syntax@ == starting(chars@, toks(pieces@), fixity_views(fixities@)));
    }
    syntax.newlines();
    let forms = match syntax.parse_forms() {
        Err(fault) => return Err(fault),
        Ok(forms) => forms,
    };
    let mut all = forms_of_imports(syntax.imported);
    append_forms(&mut all, forms);
    Ok(Module { forms: all })
}

/// Compiles the text of a module.
pub fn compile_source(source: &SourceSnapshot) -> (result: Result<Module, MagError>)
    requires
        measurable(source.text@),
    ensures
        match result {
            Ok(module) => surface_module(source@) == Ok::<Seq<TopForm>, Failure>(
                top_forms(module.forms@),
            ),
            Err(error) => surface_module(source@) == Err::<Seq<TopForm>, Failure>(error@),
        },
{
    let reader = Reader::new(source);
    match parse_text(&reader.chars) {
        Ok(module) => Ok(module),
        Err(fault) => Err(report(&reader, fault)),
    }
}

} // verus!
