//! A cursor over the tokens of a module, and what has been learned so far.

use crate::authored::{Import, NamePath, Require, Type, TypeTerm, imports, path_text, type_terms};
use crate::text::{cat3, char_text, chars_text, copy_texts, same_text, text_chars, texts};
use crate::tokens::{Fault, Flaw, Piece, Sort, Tag, Tok, toks};
use crate::types::Names;
use vstd::prelude::*;
use vstd::string::*;

verus! {

/// How deeply a text may nest, and how long its lists may be.
pub const NESTING_LIMIT: u64 = 0xffff_ffff_ffff_ffff;

#[derive(Debug, Clone, Copy, PartialEq, Eq, Structural)]
pub enum Associativity {
    Left,
    Right,
    Neither,
}

/// How an operator binds, and where that was declared.
#[derive(Debug, Clone, Copy, PartialEq, Eq, Structural)]
pub struct Fixity {
    pub precedence: u8,
    pub associativity: Associativity,
    pub from: usize,
    pub to: usize,
}

/// What is known of a constructor of this module.
#[derive(Debug)]
pub struct VariantMetadata {
    pub owner: String,
    pub owner_params: Vec<String>,
    pub payload: Type,
    pub field_order: Vec<String>,
}

pub ghost struct Variant {
    pub owner: Seq<char>,
    pub owner_params: Seq<Seq<char>>,
    pub payload: TypeTerm,
    pub field_order: Seq<Seq<char>>,
}

impl VariantMetadata {
    pub open spec fn view(&self) -> Variant {
        Variant {
            owner: self.owner@,
            owner_params: texts(self.owner_params@),
            payload: self.payload@,
            field_order: texts(self.field_order@),
        }
    }

    pub fn copy(&self) -> (copy: Self)
        ensures
            copy@ == self@,
    {
        VariantMetadata {
            owner: self.owner.clone(),
            owner_params: copy_texts(&self.owner_params),
            payload: self.payload.copy(),
            field_order: copy_texts(&self.field_order),
        }
    }
}

/// A constructor that was written with the type arguments of its owner.
#[derive(Debug)]
pub struct Special {
    pub marker: String,
    pub owner: Type,
    pub constructor: String,
}

pub ghost struct Specialized {
    pub marker: Seq<char>,
    pub owner: TypeTerm,
    pub constructor: Seq<char>,
}

impl Special {
    pub open spec fn view(&self) -> Specialized {
        Specialized {
            marker: self.marker@,
            owner: self.owner@,
            constructor: self.constructor@,
        }
    }
}

/// The state of a parse. Later fixities and aliases for a name replace earlier
/// ones.
pub struct Syntax<'a> {
    pub chars: &'a Vec<char>,
    pub pieces: Vec<Piece>,
    pub at: usize,
    pub fixities: Vec<(String, Fixity)>,
    pub aliases: Vec<(String, NamePath)>,
    pub variants: Vec<(String, VariantMetadata)>,
    pub imported: Vec<Require>,
    pub namespaces: Names,
    pub bound: Names,
    pub braces: bool,
    pub special: Vec<Special>,
}

pub ghost struct Syn {
    pub text: Seq<char>,
    pub toks: Seq<Tok>,
    pub at: int,
    pub fixities: Seq<(Seq<char>, Fixity)>,
    pub aliases: Seq<(Seq<char>, Seq<Seq<char>>)>,
    pub variants: Seq<(Seq<char>, Variant)>,
    pub imported: Seq<Import>,
    pub namespaces: Set<Seq<char>>,
    pub bound: Set<Seq<char>>,
    pub braces: bool,
    pub special: Seq<Specialized>,
}

pub open spec fn fixity_views(list: Seq<(String, Fixity)>) -> Seq<(Seq<char>, Fixity)> {
    Seq::new(list.len(), |i: int| (list[i].0@, list[i].1))
}

pub open spec fn alias_views(list: Seq<(String, NamePath)>) -> Seq<(Seq<char>, Seq<Seq<char>>)> {
    Seq::new(list.len(), |i: int| (list[i].0@, list[i].1.view()))
}

pub open spec fn variant_views(list: Seq<(String, VariantMetadata)>) -> Seq<(Seq<char>, Variant)> {
    Seq::new(list.len(), |i: int| (list[i].0@, list[i].1.view()))
}

pub open spec fn special_views(list: Seq<Special>) -> Seq<Specialized> {
    Seq::new(list.len(), |i: int| list[i].view())
}

impl<'a> Syntax<'a> {
    pub open spec fn view(&self) -> Syn {
        Syn {
            text: self.chars@,
            toks: toks(self.pieces@),
            at: self.at as int,
            fixities: fixity_views(self.fixities@),
            aliases: alias_views(self.aliases@),
            variants: variant_views(self.variants@),
            imported: imports(self.imported@),
            namespaces: self.namespaces@,
            bound: self.bound@,
            braces: self.braces,
            special: special_views(self.special@),
        }
    }
}

/// What a piece of a parse came to.
pub ghost struct Step<T> {
    pub syn: Syn,
    pub result: Result<T, Flaw>,
}

pub open spec fn ok<T>(syn: Syn, value: T) -> Step<T> {
    Step { syn, result: Ok(value) }
}

pub open spec fn flawed<T>(syn: Syn, flaw: Flaw) -> Step<T> {
    Step { syn, result: Err(flaw) }
}

pub open spec fn step_unit(syn: Syn, result: Result<(), Fault>) -> Step<()> {
    Step {
        syn,
        result: match result {
            Ok(_) => Ok(()),
            Err(fault) => Err(fault@),
        },
    }
}

pub open spec fn step_text(syn: Syn, result: Result<String, Fault>) -> Step<Seq<char>> {
    Step {
        syn,
        result: match result {
            Ok(text) => Ok(text@),
            Err(fault) => Err(fault@),
        },
    }
}

pub open spec fn step_texts(syn: Syn, result: Result<Vec<String>, Fault>) -> Step<Seq<Seq<char>>> {
    Step {
        syn,
        result: match result {
            Ok(list) => Ok(texts(list@)),
            Err(fault) => Err(fault@),
        },
    }
}

pub open spec fn step_path(syn: Syn, result: Result<NamePath, Fault>) -> Step<Seq<Seq<char>>> {
    Step {
        syn,
        result: match result {
            Ok(path) => Ok(path@),
            Err(fault) => Err(fault@),
        },
    }
}

pub open spec fn step_type(syn: Syn, result: Result<Type, Fault>) -> Step<TypeTerm> {
    Step {
        syn,
        result: match result {
            Ok(ty) => Ok(ty@),
            Err(fault) => Err(fault@),
        },
    }
}

pub open spec fn step_types(syn: Syn, result: Result<Vec<Type>, Fault>) -> Step<Seq<TypeTerm>> {
    Step {
        syn,
        result: match result {
            Ok(types) => Ok(type_terms(types@)),
            Err(fault) => Err(fault@),
        },
    }
}

// ---------------------------------------------------------------------------
// Tokens
// ---------------------------------------------------------------------------

/// The token at an index; behind the last one, the end of the text.
pub open spec fn tok_at(syn: Syn, i: int) -> Tok {
    if 0 <= i < syn.toks.len() {
        syn.toks[i]
    } else {
        Tok { tag: Tag::Eof, from: syn.text.len() as int, to: syn.text.len() as int }
    }
}

pub open spec fn tag_at(syn: Syn, i: int) -> Tag {
    tok_at(syn, i).tag
}

/// The token under the cursor.
pub open spec fn here(syn: Syn) -> Tag {
    tag_at(syn, syn.at)
}

pub open spec fn moved(syn: Syn, at: int) -> Syn {
    Syn { at, ..syn }
}

/// A step past the token under the cursor; the end of the text is never passed.
pub open spec fn bumped(syn: Syn) -> Syn {
    if here(syn) is Eof {
        syn
    } else {
        moved(syn, syn.at + 1)
    }
}

pub open spec fn parse_flaw(message: Seq<char>, tok: Tok) -> Flaw {
    Flaw {
        code: "MAG2001"@,
        stage: "parser"@,
        message,
        from: tok.from,
        to: tok.to,
        note: None,
    }
}

/// A fault at the token under the cursor.
pub open spec fn flaw_here(syn: Syn, message: Seq<char>) -> Flaw {
    parse_flaw(message, tok_at(syn, syn.at))
}

pub open spec fn too_nested(syn: Syn) -> Flaw {
    flaw_here(syn, "nesting limit reached"@)
}

/// The first index from `i` on at which no line ends.
pub open spec fn past_newlines(syn: Syn, i: int) -> int
    decreases syn.toks.len() - i,
{
    if 0 <= i < syn.toks.len() && tag_at(syn, i) is Newline {
        past_newlines(syn, i + 1)
    } else {
        i
    }
}

pub open spec fn newlines_skipped(syn: Syn) -> Syn {
    moved(syn, past_newlines(syn, syn.at))
}

pub open spec fn is_word(tag: Tag, word: Seq<char>) -> bool {
    tag == Tag::Ident(word)
}

pub open spec fn is_operator(tag: Tag, name: Seq<char>) -> bool {
    tag == Tag::Operator(name)
}

pub open spec fn is_punct(tag: Tag, mark: char) -> bool {
    tag == Tag::Punct(mark)
}

/// Whether a token was taken, and the state behind it.
pub ghost struct Eaten {
    pub syn: Syn,
    pub yes: bool,
}

pub open spec fn ate_word(syn: Syn, word: Seq<char>) -> Eaten {
    if is_word(here(syn), word) {
        Eaten { syn: bumped(syn), yes: true }
    } else {
        Eaten { syn, yes: false }
    }
}

pub open spec fn ate_punct(syn: Syn, mark: char) -> Eaten {
    if is_punct(here(syn), mark) {
        Eaten { syn: bumped(syn), yes: true }
    } else {
        Eaten { syn, yes: false }
    }
}

/// An operator is taken whole.
pub open spec fn ate_operator(syn: Syn, name: Seq<char>) -> Eaten {
    if is_operator(here(syn), name) {
        Eaten { syn: bumped(syn), yes: true }
    } else {
        Eaten { syn, yes: false }
    }
}

/// A closing bracket is taken off the front of a longer operator.
pub open spec fn ate_close(syn: Syn) -> Eaten {
    match here(syn) {
        Tag::Operator(name) => if name.len() > 0 && name[0] == '>' {
            if name.len() == 1 {
                Eaten { syn: bumped(syn), yes: true }
            } else {
                let tok = tok_at(syn, syn.at);
                Eaten {
                    syn: Syn {
                        toks: syn.toks.update(
                            syn.at,
                            Tok {
                                tag: Tag::Operator(name.skip(1)),
                                from: if tok.from < syn.text.len() {
                                    tok.from + 1
                                } else {
                                    tok.from
                                },
                                to: tok.to,
                            },
                        ),
                        ..syn
                    },
                    yes: true,
                }
            }
        } else {
            Eaten { syn, yes: false }
        },
        _ => Eaten { syn, yes: false },
    }
}

pub open spec fn ate_arrow(syn: Syn) -> Eaten {
    if here(syn) is Arrow {
        Eaten { syn: bumped(syn), yes: true }
    } else {
        Eaten { syn, yes: false }
    }
}

pub open spec fn ate_fat_arrow(syn: Syn) -> Eaten {
    if here(syn) is FatArrow {
        Eaten { syn: bumped(syn), yes: true }
    } else {
        Eaten { syn, yes: false }
    }
}

/// A token that has to be there.
pub open spec fn wanted(eaten: Eaten, what: Seq<char>) -> Step<()> {
    if eaten.yes {
        ok(eaten.syn, ())
    } else {
        flawed(eaten.syn, flaw_here(eaten.syn, "expected '"@ + what + "'"@))
    }
}

pub open spec fn want_punct(syn: Syn, mark: char) -> Step<()> {
    wanted(ate_punct(syn, mark), seq![mark])
}

pub open spec fn want_word(syn: Syn, word: Seq<char>) -> Step<()> {
    wanted(ate_word(syn, word), word)
}

pub open spec fn want_operator(syn: Syn, name: Seq<char>) -> Step<()> {
    wanted(ate_operator(syn, name), name)
}

pub open spec fn want_close(syn: Syn) -> Step<()> {
    wanted(ate_close(syn), ">"@)
}

pub open spec fn want_arrow(syn: Syn) -> Step<()> {
    wanted(ate_arrow(syn), "->"@)
}

pub open spec fn want_fat_arrow(syn: Syn) -> Step<()> {
    wanted(ate_fat_arrow(syn), "=>"@)
}

/// A name: a word or an operator.
pub open spec fn name_taken(syn: Syn) -> Step<Seq<char>> {
    match here(syn) {
        Tag::Ident(name) => ok(bumped(syn), name),
        Tag::Operator(name) => ok(bumped(syn), name),
        _ => flawed(bumped(syn), parse_flaw("expected name"@, tok_at(syn, syn.at))),
    }
}

/// The name that a token is where an operator is named in parentheses.
pub open spec fn operator_name(tag: Tag) -> Option<Seq<char>> {
    match tag {
        Tag::Ident(name) => Some(name),
        Tag::Operator(name) => Some(name),
        Tag::Arrow => Some("->"@),
        Tag::FatArrow => Some("=>"@),
        _ => None,
    }
}

/// The name of a binding: a name, or an operator in parentheses.
pub open spec fn binding_taken(syn: Syn) -> Step<Seq<char>> {
    let open = ate_punct(syn, '(');
    if !open.yes {
        name_taken(syn)
    } else {
        match operator_name(here(open.syn)) {
            None => flawed(
                bumped(open.syn),
                parse_flaw("expected operator binding name"@, tok_at(open.syn, open.syn.at)),
            ),
            Some(name) => {
                let close = want_punct(bumped(open.syn), ')');
                match close.result {
                    Err(flaw) => flawed(close.syn, flaw),
                    Ok(_) => ok(close.syn, name),
                }
            },
        }
    }
}

/// A line has to end here, or the text or a block.
pub open spec fn separated(syn: Syn) -> Step<()> {
    if here(syn) is Newline {
        ok(newlines_skipped(syn), ())
    } else if here(syn) is Eof || is_punct(here(syn), '}') {
        ok(syn, ())
    } else {
        flawed(syn, flaw_here(syn, "expected newline"@))
    }
}

pub(crate) fn parse_fault(message: String, from: usize, to: usize) -> (fault: Fault)
    ensures
        fault@ == parse_flaw(message@, Tok { tag: Tag::Eof, from: from as int, to: to as int }),
{
    Fault {
        code: "MAG2001".to_owned(),
        stage: "parser".to_owned(),
        message,
        from,
        to,
        note: None,
    }
}

impl<'a> Syntax<'a> {
    pub fn sort_at(&self, i: usize) -> (sort: &Sort)
        ensures
            sort@ == tag_at(self@, i as int),
    {
        if i < self.pieces.len() {
            assert(self@.toks[i as int] == self.pieces@[i as int]@);
            &self.pieces[i].sort
        } else {
            &Sort::Eof
        }
    }

    /// The token a number of places behind the cursor.
    pub fn ahead(&self, offset: usize) -> (sort: &Sort)
        requires
            offset <= 2,
        ensures
            sort@ == tag_at(self@, self@.at + offset),
    {
        let length = self.pieces.len();
        if self.at < length && offset < length - self.at {
            self.sort_at(self.at + offset)
        } else {
            &Sort::Eof
        }
    }

    pub fn peek(&self) -> (sort: &Sort)
        ensures
            sort@ == here(self@),
    {
        self.sort_at(self.at)
    }

    pub fn range_at(&self, i: usize) -> (range: (usize, usize))
        ensures
            range.0 == tok_at(self@, i as int).from,
            range.1 == tok_at(self@, i as int).to,
    {
        if i < self.pieces.len() {
            assert(self@.toks[i as int] == self.pieces@[i as int]@);
            (self.pieces[i].from, self.pieces[i].to)
        } else {
            (self.chars.len(), self.chars.len())
        }
    }

    pub fn bump(&mut self)
        ensures
            final(self)@ == bumped(old(self)@),
    {
        let length = self.pieces.len();
        match self.peek() {
            Sort::Eof => {},
            _ => {
                assert(self.at < length);
                self.at = self.at + 1;
            },
        }
    }

    /// A fault at the token under the cursor.
    pub fn fault(&self, message: &str) -> (fault: Fault)
        ensures
            fault@ == flaw_here(self@, message@),
    {
        let (from, to) = self.range_at(self.at);
        parse_fault(message.to_owned(), from, to)
    }

    pub fn nested_fault(&self) -> (fault: Fault)
        ensures
            fault@ == too_nested(self@),
    {
        self.fault("nesting limit reached")
    }

    pub fn newlines(&mut self)
        ensures
            final(self)@ == newlines_skipped(old(self)@),
    {
        let ghost start = self@;
        let mut i: usize = self.at;
        while self.newline_at(i)
            invariant
                start == self@,
                start == old(self)@,
                past_newlines(start, start.at) == past_newlines(start, i as int),
            decreases self.pieces@.len() - i,
        {
            i = i + 1;
        }
        self.at = i;
    }

    pub(crate) fn newline_at(&self, i: usize) -> (yes: bool)
        ensures
            yes == (tag_at(self@, i as int) is Newline),
            yes ==> i < self.pieces@.len() <= usize::MAX,
    {
        let length = self.pieces.len();
        match self.sort_at(i) {
            Sort::Newline => true,
            _ => false,
        }
    }

    pub fn at_word(&self, word: &str) -> (yes: bool)
        ensures
            yes == is_word(here(self@), word@),
    {
        match self.peek() {
            Sort::Ident(name) => same_text(name.as_str(), word),
            _ => false,
        }
    }

    pub fn at_operator(&self, name: &str) -> (yes: bool)
        ensures
            yes == is_operator(here(self@), name@),
    {
        match self.peek() {
            Sort::Operator(found) => same_text(found.as_str(), name),
            _ => false,
        }
    }

    pub fn at_punct(&self, mark: char) -> (yes: bool)
        ensures
            yes == is_punct(here(self@), mark),
    {
        match self.peek() {
            Sort::Punct(found) => *found == mark,
            _ => false,
        }
    }

    pub fn at_newline(&self) -> (yes: bool)
        ensures
            yes == (here(self@) is Newline),
    {
        match self.peek() {
            Sort::Newline => true,
            _ => false,
        }
    }

    pub fn at_eof(&self) -> (yes: bool)
        ensures
            yes == (here(self@) is Eof),
    {
        match self.peek() {
            Sort::Eof => true,
            _ => false,
        }
    }

    pub fn eat_word(&mut self, word: &str) -> (yes: bool)
        ensures
            (Eaten { syn: final(self)@, yes }) == ate_word(old(self)@, word@),
    {
        if self.at_word(word) {
            self.bump();
            true
        } else {
            false
        }
    }

    pub fn eat_punct(&mut self, mark: char) -> (yes: bool)
        ensures
            (Eaten { syn: final(self)@, yes }) == ate_punct(old(self)@, mark),
    {
        if self.at_punct(mark) {
            self.bump();
            true
        } else {
            false
        }
    }

    pub fn eat_operator(&mut self, name: &str) -> (yes: bool)
        ensures
            (Eaten { syn: final(self)@, yes }) == ate_operator(old(self)@, name@),
    {
        if self.at_operator(name) {
            self.bump();
            true
        } else {
            false
        }
    }

    /// Takes a closing bracket, also off the front of a longer operator.
    pub fn eat_close(&mut self) -> (yes: bool)
        ensures
            (Eaten { syn: final(self)@, yes }) == ate_close(old(self)@),
    {
        let ghost before = self@;
        let rest = match self.peek() {
            Sort::Operator(name) => {
                let letters = text_chars(name.as_str());
                if letters.len() == 0 || letters[0] != '>' {
                    return false;
                }
                if letters.len() == 1 {
                    None
                } else {
                    let text = chars_text(&letters, 1, letters.len());
                    assert(text@ =~= name@.skip(1));
                    Some(text)
                }
            },
            _ => return false,
        };
        match rest {
            None => self.bump(),
            Some(text) => {
                let at = self.at;
                assert(at < self.pieces@.len());
                assert(before.toks[at as int] == self.pieces@[at as int]@);
                let from = self.pieces[at].from;
                let to = self.pieces[at].to;
                let start = if from < self.chars.len() {
                    from + 1
                } else {
                    from
                };
                let piece = Piece { sort: Sort::Operator(text), from: start, to };
                let ghost view = piece@;
                self.pieces.set(at, piece);
                assert(self@.toks =~= before.toks.update(at as int, view));
            },
        }
        true
    }

    pub fn eat_arrow(&mut self) -> (yes: bool)
        ensures
            (Eaten { syn: final(self)@, yes }) == ate_arrow(old(self)@),
    {
        match self.peek() {
            Sort::Arrow => {
                self.bump();
                true
            },
            _ => false,
        }
    }

    fn eat_fat_arrow(&mut self) -> (yes: bool)
        ensures
            (Eaten { syn: final(self)@, yes }) == ate_fat_arrow(old(self)@),
    {
        match self.peek() {
            Sort::FatArrow => {
                self.bump();
                true
            },
            _ => false,
        }
    }

    fn missing(&self, what: &str) -> (fault: Fault)
        ensures
            fault@ == flaw_here(self@, "expected '"@ + what@ + "'"@),
    {
        let message = cat3("expected '", what, "'");
        self.fault(message.as_str())
    }

    pub fn expect_punct(&mut self, mark: char) -> (result: Result<(), Fault>)
        ensures
            step_unit(final(self)@, result) == want_punct(old(self)@, mark),
    {
        if self.eat_punct(mark) {
            Ok(())
        } else {
            let what = char_text(mark);
            Err(self.missing(what.as_str()))
        }
    }

    pub fn expect_word(&mut self, word: &str) -> (result: Result<(), Fault>)
        ensures
            step_unit(final(self)@, result) == want_word(old(self)@, word@),
    {
        if self.eat_word(word) {
            Ok(())
        } else {
            Err(self.missing(word))
        }
    }

    pub fn expect_operator(&mut self, name: &str) -> (result: Result<(), Fault>)
        ensures
            step_unit(final(self)@, result) == want_operator(old(self)@, name@),
    {
        if self.eat_operator(name) {
            Ok(())
        } else {
            Err(self.missing(name))
        }
    }

    pub fn expect_close(&mut self) -> (result: Result<(), Fault>)
        ensures
            step_unit(final(self)@, result) == want_close(old(self)@),
    {
        if self.eat_close() {
            Ok(())
        } else {
            Err(self.missing(">"))
        }
    }

    pub fn expect_arrow(&mut self) -> (result: Result<(), Fault>)
        ensures
            step_unit(final(self)@, result) == want_arrow(old(self)@),
    {
        if self.eat_arrow() {
            Ok(())
        } else {
            Err(self.missing("->"))
        }
    }

    pub fn expect_fat_arrow(&mut self) -> (result: Result<(), Fault>)
        ensures
            step_unit(final(self)@, result) == want_fat_arrow(old(self)@),
    {
        if self.eat_fat_arrow() {
            Ok(())
        } else {
            Err(self.missing("=>"))
        }
    }

    pub fn expect_name(&mut self) -> (result: Result<String, Fault>)
        ensures
            step_text(final(self)@, result) == name_taken(old(self)@),
    {
        let (from, to) = self.range_at(self.at);
        let name = match self.peek() {
            Sort::Ident(name) => Some(name.clone()),
            Sort::Operator(name) => Some(name.clone()),
            _ => None,
        };
        self.bump();
        match name {
            Some(name) => Ok(name),
            None => Err(parse_fault("expected name".to_owned(), from, to)),
        }
    }

    pub fn expect_binding_name(&mut self) -> (result: Result<String, Fault>)
        ensures
            step_text(final(self)@, result) == binding_taken(old(self)@),
    {
        if !self.eat_punct('(') {
            return self.expect_name();
        }
        let (from, to) = self.range_at(self.at);
        let name = find_operator_name(self.peek());
        self.bump();
        match name {
            None => Err(parse_fault("expected operator binding name".to_owned(), from, to)),
            Some(name) => match self.expect_punct(')') {
                Err(fault) => Err(fault),
                Ok(_) => Ok(name),
            },
        }
    }

    pub fn require_separator(&mut self) -> (result: Result<(), Fault>)
        ensures
            step_unit(final(self)@, result) == separated(old(self)@),
    {
        if self.at_newline() {
            self.newlines();
            return Ok(());
        }
        if self.at_eof() || self.at_punct('}') {
            return Ok(());
        }
        Err(self.fault("expected newline"))
    }
}

pub(crate) fn find_operator_name(sort: &Sort) -> (name: Option<String>)
    ensures
        match (name, operator_name(sort@)) {
            (Some(name), Some(view)) => name@ == view,
            (None, None) => true,
            _ => false,
        },
{
    match sort {
        Sort::Ident(name) => Some(name.clone()),
        Sort::Operator(name) => Some(name.clone()),
        Sort::Arrow => Some("->".to_owned()),
        Sort::FatArrow => Some("=>".to_owned()),
        _ => None,
    }
}

// ---------------------------------------------------------------------------
// Names
// ---------------------------------------------------------------------------

/// What the latest of the first `n` aliases for a name stands for.
pub open spec fn alias_of(
    aliases: Seq<(Seq<char>, Seq<Seq<char>>)>,
    name: Seq<char>,
    n: int,
) -> Option<Seq<Seq<char>>>
    decreases n,
{
    if n <= 0 {
        None
    } else if aliases[n - 1].0 == name {
        Some(aliases[n - 1].1)
    } else {
        alias_of(aliases, name, n - 1)
    }
}

pub open spec fn aliased(syn: Syn, name: Seq<char>) -> Option<Seq<Seq<char>>> {
    alias_of(syn.aliases, name, syn.aliases.len() as int)
}

/// The latest of the first `n` fixities for a name.
pub open spec fn fixity_in(list: Seq<(Seq<char>, Fixity)>, name: Seq<char>, n: int) -> Option<Fixity>
    decreases n,
{
    if n <= 0 {
        None
    } else if list[n - 1].0 == name {
        Some(list[n - 1].1)
    } else {
        fixity_in(list, name, n - 1)
    }
}

pub open spec fn fixity_of(syn: Syn, name: Seq<char>) -> Option<Fixity> {
    fixity_in(syn.fixities, name, syn.fixities.len() as int)
}

/// The full name behind a name: a binding stands for itself, an alias for a path.
pub open spec fn resolved_name(syn: Syn, name: Seq<char>) -> Seq<char> {
    if syn.bound.contains(name) {
        name
    } else {
        match aliased(syn, name) {
            Some(path) => path_text(path),
            None => name,
        }
    }
}

/// More segments of a path, while dots follow.
pub open spec fn segments_from(syn: Syn, before: Seq<Seq<char>>, left: nat) -> Step<Seq<Seq<char>>>
    decreases left,
{
    let dot = ate_punct(syn, '.');
    if !dot.yes {
        ok(syn, before)
    } else if left == 0 {
        flawed(syn, too_nested(syn))
    } else {
        let name = name_taken(dot.syn);
        match name.result {
            Err(flaw) => flawed(name.syn, flaw),
            Ok(text) => segments_from(name.syn, before.push(text), (left - 1) as nat),
        }
    }
}

/// A dotted name whose first segment may be an alias.
pub open spec fn path_taken(syn: Syn) -> Step<Seq<Seq<char>>> {
    let first = name_taken(syn);
    match first.result {
        Err(flaw) => flawed(first.syn, flaw),
        Ok(name) => segments_from(
            first.syn,
            match aliased(syn, name) {
                Some(path) => path,
                None => seq![name],
            },
            NESTING_LIMIT as nat,
        ),
    }
}

impl<'a> Syntax<'a> {
    pub fn find_alias(&self, name: &str) -> (path: Option<&NamePath>)
        ensures
            match (path, aliased(self@, name@)) {
                (Some(path), Some(view)) => path@ == view,
                (None, None) => true,
                _ => false,
            },
    {
        let ghost all = self@.aliases;
        let mut n: usize = self.aliases.len();
        while n > 0
            invariant
                n <= self.aliases@.len(),
                all == alias_views(self.aliases@),
                aliased(self@, name@) == alias_of(all, name@, n as int),
            decreases n,
        {
            let entry = &self.aliases[n - 1];
            assert(all[n - 1] == (entry.0@, entry.1@));
            if same_text(entry.0.as_str(), name) {
                return Some(&entry.1);
            }
            n = n - 1;
        }
        None
    }

    pub fn find_fixity(&self, name: &str) -> (fixity: Option<Fixity>)
        ensures
            fixity == fixity_of(self@, name@),
    {
        let ghost all = self@.fixities;
        let mut n: usize = self.fixities.len();
        while n > 0
            invariant
                n <= self.fixities@.len(),
                all == fixity_views(self.fixities@),
                fixity_of(self@, name@) == fixity_in(all, name@, n as int),
            decreases n,
        {
            let entry = &self.fixities[n - 1];
            assert(all[n - 1] == (entry.0@, entry.1));
            if same_text(entry.0.as_str(), name) {
                return Some(entry.1);
            }
            n = n - 1;
        }
        None
    }

    pub fn resolve_name(&self, name: &str) -> (full: String)
        ensures
            full@ == resolved_name(self@, name@),
    {
        if self.bound.contains(name) {
            return name.to_owned();
        }
        match self.find_alias(name) {
            Some(path) => path.text(),
            None => name.to_owned(),
        }
    }

    pub fn take_segments(&mut self, first: Vec<String>) -> (result: Result<NamePath, Fault>)
        ensures
            step_path(final(self)@, result) == segments_from(
                old(self)@,
                texts(first@),
                NESTING_LIMIT as nat,
            ),
    {
        let ghost whole = segments_from(self@, texts(first@), NESTING_LIMIT as nat);
        let mut segments = first;
        let mut left: u64 = NESTING_LIMIT;
        while self.at_punct('.')
            invariant
                whole == segments_from(old(self)@, texts(first@), NESTING_LIMIT as nat),
                whole == segments_from(self@, texts(segments@), left as nat),
            decreases left,
        {
            if left == 0 {
                return Err(self.nested_fault());
            }
            self.bump();
            match self.expect_name() {
                Err(fault) => return Err(fault),
                Ok(name) => {
                    let ghost before = texts(segments@);
                    let ghost view = name@;
                    segments.push(name);
                    assert(texts(segments@) =~= before.push(view));
                },
            }
            left = left - 1;
        }
        Ok(NamePath { segments })
    }

    pub fn expect_name_path(&mut self) -> (result: Result<NamePath, Fault>)
        ensures
            step_path(final(self)@, result) == path_taken(old(self)@),
    {
        let name = match self.expect_name() {
            Err(fault) => return Err(fault),
            Ok(name) => name,
        };
        let segments = match self.find_alias(name.as_str()) {
            Some(path) => copy_texts(&path.segments),
            None => {
                let mut segments: Vec<String> = Vec::new();
                let ghost view = name@;
                segments.push(name);
                assert(texts(segments@) =~= seq![view]);
                segments
            },
        };
        self.take_segments(segments)
    }
}

} // verus!
