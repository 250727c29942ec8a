//! Operators: how they bind, and how expressions between them are put together.

use crate::authored::{Expr, NamePath, Term, terms};
use crate::cursor::{
    Associativity, Fixity, Step, Syn, Syntax, bumped, find_operator_name, fixity_in, fixity_of,
    fixity_views, flaw_here, flawed, here, is_punct, is_word, ok, operator_name, resolved_name,
    tok_at,
};
use crate::text::{cat3, cat5, cat6, chars_text, decimal, decimal_text, same_text, text_chars};
use crate::tokens::{
    Fault, Flaw, Piece, Sort, Tag, Tok, is_operator_char, is_separator_char, operator_char,
    separator_char, toks,
};
use crate::types::Names;
use vstd::prelude::*;
use vstd::string::*;

verus! {

// ---------------------------------------------------------------------------
// Declarations of fixities
// ---------------------------------------------------------------------------

/// The token at an index; behind the last one, the end of the text.
pub open spec fn tag_in(list: Seq<Tok>, i: int) -> Tag {
    if 0 <= i < list.len() {
        list[i].tag
    } else {
        Tag::Eof
    }
}

fn sort_in(list: &Vec<Piece>, i: usize) -> (sort: &Sort)
    ensures
        sort@ == tag_in(toks(list@), i as int),
{
    if i < list.len() {
        assert(toks(list@)[i as int] == list@[i as int]@);
        &list[i].sort
    } else {
        &Sort::Eof
    }
}

/// How a declaration that starts at an index binds, and where its precedence is.
pub open spec fn declared_at(list: Seq<Tok>, i: int) -> Option<(Associativity, int)> {
    if is_word(tag_in(list, i), "infixl"@) {
        Some((Associativity::Left, i + 1))
    } else if is_word(tag_in(list, i), "infixr"@) {
        Some((Associativity::Right, i + 1))
    } else if is_word(tag_in(list, i), "infix"@) {
        Some((Associativity::Neither, i + 1))
    } else if is_word(tag_in(list, i), "fixity"@) {
        if is_word(tag_in(list, i + 1), "left"@) {
            Some((Associativity::Left, i + 2))
        } else if is_word(tag_in(list, i + 1), "right"@) {
            Some((Associativity::Right, i + 2))
        } else if is_word(tag_in(list, i + 1), "none"@) {
            Some((Associativity::Neither, i + 2))
        } else {
            None
        }
    } else {
        None
    }
}

/// The end of the line at an index.
pub open spec fn stop_of_line(list: Seq<Tok>, i: int) -> int
    decreases list.len() - i,
{
    if 0 <= i < list.len() && !(tag_in(list, i) is Newline) && !(tag_in(list, i) is Eof) {
        stop_of_line(list, i + 1)
    } else {
        i
    }
}

pub open spec fn is_gap(tag: Tag) -> bool {
    tag is Newline || is_punct(tag, ';')
}

/// The first index from `i` on at which something stands.
pub open spec fn past_gaps(list: Seq<Tok>, i: int) -> int
    decreases list.len() - i,
{
    if 0 <= i < list.len() && is_gap(tag_in(list, i)) {
        past_gaps(list, i + 1)
    } else {
        i
    }
}

/// The name at an index, plain or in parentheses: the name, the index of its
/// token, and the index behind it.
pub open spec fn fixity_name(list: Seq<Tok>, i: int) -> Option<(Seq<char>, int, int)> {
    match tag_in(list, i) {
        Tag::Ident(name) => Some((name, i, i + 1)),
        Tag::Operator(name) => Some((name, i, i + 1)),
        Tag::Punct(mark) => if mark == '(' && is_punct(tag_in(list, i + 2), ')') {
            match operator_name(tag_in(list, i + 1)) {
                Some(name) => Some((name, i + 1, i + 3)),
                None => None,
            }
        } else {
            None
        },
        _ => None,
    }
}

pub open spec fn fixity_flaw(message: Seq<char>, tok: Tok) -> Flaw {
    Flaw {
        code: "MAG2002"@,
        stage: "parser"@,
        message,
        from: tok.from,
        to: tok.to,
        note: None,
    }
}

pub open spec fn tok_in(list: Seq<Tok>, i: int, other: Tok) -> Tok {
    if 0 <= i < list.len() {
        list[i]
    } else {
        other
    }
}

/// The names of a declaration from index `i` on, and where it ends.
pub open spec fn named_from(
    list: Seq<Tok>,
    start: Tok,
    i: int,
    precedence: u8,
    associativity: Associativity,
    before: Seq<(Seq<char>, Fixity)>,
) -> Result<(Seq<(Seq<char>, Fixity)>, int), Flaw>
    decreases list.len() - i,
{
    match fixity_name(list, i) {
        None => Err(
            fixity_flaw("fixity declaration requires a term name"@, tok_in(list, i, start)),
        ),
        Some((name, place, next)) => {
            let tok = list[place];
            let fixity = Fixity {
                precedence,
                associativity,
                from: tok.from as usize,
                to: tok.to as usize,
            };
            match fixity_in(before, name, before.len() as int) {
                Some(previous) => Err(
                    Flaw {
                        code: "MAG2003"@,
                        stage: "parser"@,
                        message: "duplicate fixity declaration for '"@ + name + "'"@,
                        from: tok.from,
                        to: tok.to,
                        note: Some(
                            ("previous declaration"@, previous.from as int, previous.to as int),
                        ),
                    },
                ),
                None => if is_punct(tag_in(list, next), ',') {
                    named_from(
                        list,
                        start,
                        next + 1,
                        precedence,
                        associativity,
                        before.push((name, fixity)),
                    )
                } else {
                    Ok((before.push((name, fixity)), next))
                },
            }
        },
    }
}

/// One declaration: the precedence at an index, then names.
pub open spec fn declaration_from(
    list: Seq<Tok>,
    start: Tok,
    i: int,
    associativity: Associativity,
    before: Seq<(Seq<char>, Fixity)>,
) -> Result<(Seq<(Seq<char>, Fixity)>, int), Flaw> {
    match tag_in(list, i) {
        Tag::Int(precedence) => if 0 <= precedence <= 9 {
            named_from(list, start, i + 1, precedence as u8, associativity, before)
        } else {
            Err(fixity_flaw("fixity precedence must be 0..9"@, list[i]))
        },
        _ => Err(fixity_flaw("fixity declaration requires precedence 0..9"@, start)),
    }
}

/// The fixities that lines from index `i` on declare, after others.
pub open spec fn fixities_from(list: Seq<Tok>, i: int, before: Seq<(Seq<char>, Fixity)>) -> Result<
    Seq<(Seq<char>, Fixity)>,
    Flaw,
>
    decreases list.len() - i,
{
    if i < 0 || i >= list.len() {
        Ok(before)
    } else if is_gap(tag_in(list, i)) {
        fixities_from(list, i + 1, before)
    } else {
        match declared_at(list, i) {
            Some((associativity, place)) => match declaration_from(
                list,
                list[i],
                place,
                associativity,
                before,
            ) {
                Err(flaw) => Err(flaw),
                Ok((after, next)) => if i < next <= list.len() {
                    fixities_from(list, next, after)
                } else {
                    Ok(after)
                },
            },
            None => if is_word(tag_in(list, i), "fixity"@) {
                fixities_from(list, i + 1, before)
            } else {
                let stop = stop_of_line(list, i);
                if stop > i && tag_in(list, stop) is Newline {
                    fixities_from(list, stop, before)
                } else {
                    Ok(before)
                }
            },
        }
    }
}

fn word_in(list: &Vec<Piece>, i: usize, word: &str) -> (yes: bool)
    ensures
        yes == is_word(tag_in(toks(list@), i as int), word@),
{
    match sort_in(list, i) {
        Sort::Ident(name) => same_text(name.as_str(), word),
        _ => false,
    }
}

fn punct_in(list: &Vec<Piece>, i: usize, mark: char) -> (yes: bool)
    ensures
        yes == is_punct(tag_in(toks(list@), i as int), mark),
{
    match sort_in(list, i) {
        Sort::Punct(found) => *found == mark,
        _ => false,
    }
}

fn find_declared(list: &Vec<Piece>, i: usize) -> (found: Option<(Associativity, usize)>)
    requires
        i < list@.len(),
    ensures
        match (found, declared_at(toks(list@), i as int)) {
            (Some(found), Some(view)) => found.0 == view.0 && found.1 == view.1 && found.1
                > i && found.1 <= list@.len() + 1,
            (None, None) => true,
            _ => false,
        },
{
    let length = list.len();
    assert(i < length);
    if word_in(list, i, "infixl") {
        Some((Associativity::Left, i + 1))
    } else if word_in(list, i, "infixr") {
        Some((Associativity::Right, i + 1))
    } else if word_in(list, i, "infix") {
        Some((Associativity::Neither, i + 1))
    } else if word_in(list, i, "fixity") && i + 1 < length {
        if word_in(list, i + 1, "left") {
            Some((Associativity::Left, i + 2))
        } else if word_in(list, i + 1, "right") {
            Some((Associativity::Right, i + 2))
        } else if word_in(list, i + 1, "none") {
            Some((Associativity::Neither, i + 2))
        } else {
            None
        }
    } else {
        None
    }
}

fn find_fixity_name(list: &Vec<Piece>, i: usize) -> (found: Option<(String, usize, usize)>)
    ensures
        match (found, fixity_name(toks(list@), i as int)) {
            (Some(found), Some(view)) => found.0@ == view.0 && found.1 == view.1 && found.2
                == view.2 && found.1 < list@.len() && i < found.2 <= list@.len(),
            (None, None) => true,
            _ => false,
        },
{
    let length = list.len();
    if i >= length {
        return None;
    }
    match sort_in(list, i) {
        Sort::Ident(name) => Some((name.clone(), i, i + 1)),
        Sort::Operator(name) => Some((name.clone(), i, i + 1)),
        Sort::Punct(mark) => {
            if *mark == '(' && length - i > 2 && punct_in(list, i + 2, ')') {
                match find_operator_name(sort_in(list, i + 1)) {
                    Some(name) => Some((name, i + 1, i + 3)),
                    None => None,
                }
            } else {
                None
            }
        },
        _ => None,
    }
}

fn find_in_list(list: &Vec<(String, Fixity)>, name: &str) -> (fixity: Option<Fixity>)
    ensures
        fixity == fixity_in(fixity_views(list@), name@, list@.len() as int),
{
    let ghost all = fixity_views(list@);
    let mut n: usize = list.len();
    while n > 0
        invariant
            n <= list@.len(),
            all == fixity_views(list@),
            fixity_in(all, name@, list@.len() as int) == fixity_in(all, name@, n as int),
        decreases n,
    {
        let entry = &list[n - 1];
        assert(all[n - 1] == (entry.0@, entry.1));
        if same_text(entry.0.as_str(), name) {
            return Some(entry.1);
        }
        n = n - 1;
    }
    None
}

fn fixity_fault(message: &str, from: usize, to: usize) -> (fault: Fault)
    ensures
        fault@ == fixity_flaw(message@, Tok { tag: Tag::Eof, from: from as int, to: to as int }),
{
    Fault {
        code: "MAG2002".to_owned(),
        stage: "parser".to_owned(),
        message: message.to_owned(),
        from,
        to,
        note: None,
    }
}

#[verifier::rlimit(40)]
fn read_names(
    list: &Vec<Piece>,
    start: usize,
    first: usize,
    precedence: u8,
    associativity: Associativity,
    fixities: &mut Vec<(String, Fixity)>,
) -> (result: Result<usize, Fault>)
    requires
        start < list@.len(),
    ensures
        match (result, named_from(
            toks(list@),
            toks(list@)[start as int],
            first as int,
            precedence,
            associativity,
            fixity_views(old(fixities)@),
        )) {
            (Ok(next), Ok(view)) => fixity_views(final(fixities)@) == view.0 && next == view.1
                && next > first && next <= list@.len(),
            (Err(fault), Err(flaw)) => fault@ == flaw,
            _ => false,
        },
{
    let ghost all = toks(list@);
    let ghost start_tok = all[start as int];
    assert(start_tok == list@[start as int]@);
    let ghost whole = named_from(
        all,
        start_tok,
        first as int,
        precedence,
        associativity,
        fixity_views(fixities@),
    );
    let mut i: usize = first;
    loop
        invariant
            start < list@.len(),
            first <= i,
            all == toks(list@),
            start_tok == all[start as int],
            start_tok == list@[start as int]@,
            whole == named_from(
                all,
                start_tok,
                first as int,
                precedence,
                associativity,
                fixity_views(old(fixities)@),
            ),
            whole == named_from(
                all,
                start_tok,
                i as int,
                precedence,
                associativity,
                fixity_views(fixities@),
            ),
        decreases list@.len() + 1 - i,
    {
        let (name, place, next) = match find_fixity_name(list, i) {
            Some(found) => found,
            None => {
                let at = if i < list.len() {
                    i
                } else {
                    start
                };
                assert(all[at as int] == list@[at as int]@);
                return Err(
                    fixity_fault(
                        "fixity declaration requires a term name",
                        list[at].from,
                        list[at].to,
                    ),
                );
            },
        };
        assert(all[place as int] == list@[place as int]@);
        let from = list[place].from;
        let to = list[place].to;
        match find_in_list(fixities, name.as_str()) {
            Some(previous) => {
                let message = cat3("duplicate fixity declaration for '", name.as_str(), "'");
                return Err(
                    Fault {
                        code: "MAG2003".to_owned(),
                        stage: "parser".to_owned(),
                        message,
                        from,
                        to,
                        note: Some(
                            ("previous declaration".to_owned(), previous.from, previous.to),
                        ),
                    },
                );
            },
            None => {},
        }
        let fixity = Fixity { precedence, associativity, from, to };
        let ghost before = fixity_views(fixities@);
        let ghost view = (name@, fixity);
        fixities.push((name, fixity));
        assert(fixity_views(fixities@) =~= before.push(view));
        if !punct_in(list, next, ',') {
            return Ok(next);
        }
        let length = list.len();
        assert(next < length);
        i = next + 1;
    }
}

pub open spec fn fixities_read(result: Result<Vec<(String, Fixity)>, Fault>) -> Result<
    Seq<(Seq<char>, Fixity)>,
    Flaw,
> {
    match result {
        Ok(list) => Ok(fixity_views(list@)),
        Err(fault) => Err(fault@),
    }
}

/// The fixities that a module declares.
#[verifier::rlimit(40)]
pub fn scan_fixities(list: &Vec<Piece>) -> (result: Result<Vec<(String, Fixity)>, Fault>)
    ensures
        fixities_read(result) == fixities_from(toks(list@), 0, Seq::empty()),
{
    let ghost all = toks(list@);
    let length = list.len();
    let mut fixities: Vec<(String, Fixity)> = Vec::new();
    assert(fixity_views(fixities@) =~= Seq::<(Seq<char>, Fixity)>::empty());
    let mut i: usize = 0;
    while i < length
        invariant
            length == list@.len(),
            all == toks(list@),
            all.len() == length,
            fixities_from(all, 0, Seq::empty()) == fixities_from(
                all,
                i as int,
                fixity_views(fixities@),
            ),
        decreases length - i,
    {
        assert(all[i as int] == list@[i as int]@);
        let gap = match sort_in(list, i) {
            Sort::Newline => true,
            Sort::Punct(mark) => *mark == ';',
            _ => false,
        };
        if gap {
            i = i + 1;
            continue;
        }
        match find_declared(list, i) {
            Some((associativity, place)) => {
                let precedence = match sort_in(list, place) {
                    Sort::Int(value) => *value,
                    _ => return Err(
                        fixity_fault(
                            "fixity declaration requires precedence 0..9",
                            list[i].from,
                            list[i].to,
                        ),
                    ),
                };
                assert(place < length);
                assert(all[place as int] == list@[place as int]@);
                if precedence < 0 || precedence > 9 {
                    return Err(
                        fixity_fault(
                            "fixity precedence must be 0..9",
                            list[place].from,
                            list[place].to,
                        ),
                    );
                }
                match read_names(
                    list,
                    i,
                    place + 1,
                    precedence as u8,
                    associativity,
                    &mut fixities,
                ) {
                    Err(fault) => return Err(fault),
                    Ok(next) => {
                        i = next;
                    },
                }
            },
            None => {
                if word_in(list, i, "fixity") {
                    i = i + 1;
                } else {
                    let stop = find_stop(list, i);
                    match sort_in(list, stop) {
                        Sort::Newline => {},
                        _ => return Ok(fixities),
                    }
                    assert(stop > i);
                    i = stop;
                }
            },
        }
    }
    Ok(fixities)
}

fn find_stop(list: &Vec<Piece>, start: usize) -> (stop: usize)
    requires
        start <= list@.len(),
    ensures
        stop == stop_of_line(toks(list@), start as int),
        start <= stop <= list@.len(),
{
    let ghost all = toks(list@);
    let mut i: usize = start;
    while i < list.len() && !stops_at(list, i)
        invariant
            start <= i <= list@.len(),
            all == toks(list@),
            stop_of_line(all, start as int) == stop_of_line(all, i as int),
        decreases list@.len() - i,
    {
        i = i + 1;
    }
    i
}

fn stops_at(list: &Vec<Piece>, i: usize) -> (yes: bool)
    ensures
        yes == (tag_in(toks(list@), i as int) is Newline || tag_in(toks(list@), i as int) is Eof),
{
    match sort_in(list, i) {
        Sort::Newline => true,
        Sort::Eof => true,
        _ => false,
    }
}

// ---------------------------------------------------------------------------
// Names that are bound
// ---------------------------------------------------------------------------

/// The name that a binding at an index gives to its value.
pub open spec fn let_name(list: Seq<Tok>, i: int) -> Option<Seq<char>> {
    match tag_in(list, i + 1) {
        Tag::Ident(name) => Some(name),
        Tag::Operator(name) => Some(name),
        Tag::Punct(mark) => if mark == '(' {
            match tag_in(list, i + 2) {
                Tag::Operator(name) => Some(name),
                _ => None,
            }
        } else {
            None
        },
        _ => None,
    }
}

pub open spec fn opens(tag: Tag) -> bool {
    is_punct(tag, '(') || is_punct(tag, '[') || is_punct(tag, '{')
}

pub open spec fn closes(tag: Tag) -> bool {
    is_punct(tag, ')') || is_punct(tag, ']') || is_punct(tag, '}')
}

pub open spec fn with_let(list: Seq<Tok>, i: int, before: Set<Seq<char>>) -> Set<Seq<char>> {
    match let_name(list, i) {
        Some(name) => before.insert(name),
        None => before,
    }
}

/// The names that bindings outside all brackets introduce.
pub open spec fn top_lets(list: Seq<Tok>, i: int, depth: nat, before: Set<Seq<char>>) -> Set<
    Seq<char>,
>
    decreases list.len() - i,
{
    if i < 0 || i + 1 >= list.len() {
        before
    } else {
        let tag = tag_in(list, i);
        if opens(tag) {
            top_lets(list, i + 1, depth + 1, before)
        } else if closes(tag) {
            top_lets(
                list,
                i + 1,
                if depth > 0 {
                    (depth - 1) as nat
                } else {
                    0
                },
                before,
            )
        } else if is_word(tag, "let"@) && depth == 0 {
            top_lets(list, i + 1, depth, with_let(list, i, before))
        } else {
            top_lets(list, i + 1, depth, before)
        }
    }
}

/// The names that the bindings of a block introduce, outside inner blocks.
pub open spec fn block_lets(list: Seq<Tok>, i: int, depth: nat, before: Set<Seq<char>>) -> Set<
    Seq<char>,
>
    decreases list.len() - i,
{
    if i < 0 || i >= list.len() {
        before
    } else {
        let tag = tag_in(list, i);
        if is_punct(tag, '}') {
            if depth == 0 {
                before
            } else {
                block_lets(list, i + 1, (depth - 1) as nat, before)
            }
        } else if is_punct(tag, '{') {
            block_lets(list, i + 1, depth + 1, before)
        } else if is_word(tag, "let"@) && depth == 0 {
            block_lets(list, i + 1, depth, with_let(list, i, before))
        } else {
            block_lets(list, i + 1, depth, before)
        }
    }
}

fn add_let(list: &Vec<Piece>, i: usize, names: &mut Names)
    requires
        i < list@.len(),
    ensures
        final(names)@ == with_let(toks(list@), i as int, old(names)@),
{
    let length = list.len();
    if i + 1 >= length {
        return;
    }
    match sort_in(list, i + 1) {
        Sort::Ident(name) => names.insert(name.clone()),
        Sort::Operator(name) => names.insert(name.clone()),
        Sort::Punct(mark) => {
            if *mark == '(' && i + 2 < length {
                match sort_in(list, i + 2) {
                    Sort::Operator(name) => names.insert(name.clone()),
                    _ => {},
                }
            }
        },
        _ => {},
    }
}

pub fn scan_top_level_lets(list: &Vec<Piece>) -> (names: Names)
    ensures
        names@ == top_lets(toks(list@), 0, 0, Set::empty()),
{
    let ghost all = toks(list@);
    let length = list.len();
    let mut names = Names::new();
    let mut depth: usize = 0;
    let mut i: usize = 0;
    while i < length && i + 1 < length
        invariant
            length == list@.len(),
            all == toks(list@),
            all.len() == length,
            depth <= i <= length,
            top_lets(all, 0, 0, Set::empty()) == top_lets(all, i as int, depth as nat, names@),
        decreases length - i,
    {
        match sort_in(list, i) {
            Sort::Punct(mark) => {
                if *mark == '(' || *mark == '[' || *mark == '{' {
                    depth = depth + 1;
                } else if (*mark == ')' || *mark == ']' || *mark == '}') && depth > 0 {
                    depth = depth - 1;
                }
            },
            Sort::Ident(word) => {
                if depth == 0 && same_text(word.as_str(), "let") {
                    add_let(list, i, &mut names);
                }
            },
            _ => {},
        }
        i = i + 1;
    }
    names
}

pub fn scan_direct_block_lets(list: &Vec<Piece>, start: usize) -> (names: Names)
    ensures
        names@ == block_lets(toks(list@), start as int, 0, Set::empty()),
{
    let ghost all = toks(list@);
    let length = list.len();
    let mut names = Names::new();
    let mut depth: usize = 0;
    let mut i: usize = start;
    while i < length
        invariant
            length == list@.len(),
            all == toks(list@),
            all.len() == length,
            start <= i,
            depth <= i - start,
            block_lets(all, start as int, 0, Set::empty()) == block_lets(
                all,
                i as int,
                depth as nat,
                names@,
            ),
        decreases length - i,
    {
        match sort_in(list, i) {
            Sort::Punct(mark) => {
                if *mark == '}' {
                    if depth == 0 {
                        return names;
                    }
                    depth = depth - 1;
                } else if *mark == '{' {
                    depth = depth + 1;
                }
            },
            Sort::Ident(word) => {
                if depth == 0 && same_text(word.as_str(), "let") {
                    add_let(list, i, &mut names);
                }
            },
            _ => {},
        }
        i = i + 1;
    }
    names
}

// ---------------------------------------------------------------------------
// Infix operators
// ---------------------------------------------------------------------------

/// An operator between two operands, and where it stands.
pub type Infix = (Seq<char>, int, int);

/// Whether a name consists of operator characters.
pub open spec fn symbolic(name: Seq<char>) -> bool {
    forall|i: int| 0 <= i < name.len() ==> operator_char(#[trigger] name[i])
}

pub open spec fn ends_operand(name: Seq<char>) -> bool {
    name == "then"@ || name == "else"@ || name == "case"@ || name == "let"@ || name == "type"@
        || name == "import"@ || name == "as"@
}

/// The infix operator that a token is: its name, and whether it is symbolic.
pub open spec fn infix_at(syn: Syn) -> Option<(Seq<char>, bool)> {
    match here(syn) {
        Tag::Operator(name) => if name == "="@ || name == "|"@ || name == ">"@ || name == "<"@ {
            None
        } else {
            Some((resolved_name(syn, name), true))
        },
        Tag::Arrow => Some((resolved_name(syn, "->"@), true)),
        Tag::Ident(name) => if ends_operand(name) {
            None
        } else {
            Some((resolved_name(syn, name), symbolic(name)))
        },
        _ => None,
    }
}

pub open spec fn spaced_before(syn: Syn, tok: Tok) -> bool {
    0 < tok.from <= syn.text.len() && separator_char(syn.text[tok.from - 1])
}

pub open spec fn spaced_after(syn: Syn, tok: Tok) -> bool {
    0 <= tok.to < syn.text.len() && separator_char(syn.text[tok.to])
}

pub open spec fn source_range(text: Seq<char>, from: int, to: int) -> Seq<char> {
    if 0 <= from <= to <= text.len() {
        text.subrange(from, to)
    } else {
        Seq::empty()
    }
}

pub open spec fn spacing_flaw(syn: Syn, tok: Tok) -> Flaw {
    let side = if spaced_before(syn, tok) {
        "after"@
    } else if spaced_after(syn, tok) {
        "before"@
    } else {
        "before and after"@
    };
    Flaw {
        code: "MAG2012"@,
        stage: "parser"@,
        message: "symbolic infix operator '"@ + source_range(syn.text, tok.from, tok.to)
            + "' requires whitespace "@ + side
            + " it; write infix operators with spaces on both sides"@,
        from: tok.from,
        to: tok.to,
        note: None,
    }
}

/// The next infix operator, if one follows; a symbolic one needs space on both
/// sides.
pub open spec fn infix_taken(syn: Syn) -> Step<Option<Infix>> {
    let tok = tok_at(syn, syn.at);
    match infix_at(syn) {
        None => ok(syn, None),
        Some((name, symbol)) => if symbol && !(spaced_before(syn, tok) && spaced_after(syn, tok)) {
            flawed(syn, spacing_flaw(syn, tok))
        } else {
            ok(bumped(syn), Some((name, tok.from, tok.to)))
        },
    }
}

pub open spec fn infix_view(operator: (String, usize, usize)) -> Infix {
    (operator.0@, operator.1 as int, operator.2 as int)
}

pub open spec fn infix_views(list: Seq<(String, usize, usize)>) -> Seq<Infix> {
    Seq::new(list.len(), |i: int| infix_view(list[i]))
}

pub open spec fn step_infix(syn: Syn, result: Result<Option<(String, usize, usize)>, Fault>) -> Step<
    Option<Infix>,
> {
    Step {
        syn,
        result: match result {
            Ok(Some(operator)) => Ok(Some(infix_view(operator))),
            Ok(None) => Ok(None),
            Err(fault) => Err(fault@),
        },
    }
}

fn is_symbolic(name: &str) -> (yes: bool)
    ensures
        yes == symbolic(name@),
{
    let chars = text_chars(name);
    let mut i: usize = 0;
    while i < chars.len()
        invariant
            i <= chars@.len(),
            chars@ == name@,
            forall|k: int| 0 <= k < i ==> operator_char(#[trigger] name@[k]),
        decreases chars@.len() - i,
    {
        if !is_operator_char(chars[i]) {
            assert(!operator_char(name@[i as int]));
            return false;
        }
        i = i + 1;
    }
    true
}

impl<'a> Syntax<'a> {
    fn find_infix(&self) -> (found: Option<(String, bool)>)
        ensures
            match (found, infix_at(self@)) {
                (Some(found), Some(view)) => found.0@ == view.0 && found.1 == view.1,
                (None, None) => true,
                _ => false,
            },
    {
        match self.peek() {
            Sort::Operator(name) => {
                let text = name.as_str();
                if same_text(text, "=") || same_text(text, "|") || same_text(text, ">")
                    || same_text(text, "<") {
                    None
                } else {
                    Some((self.resolve_name(text), true))
                }
            },
            Sort::Arrow => Some((self.resolve_name("->"), true)),
            Sort::Ident(name) => {
                let text = name.as_str();
                if same_text(text, "then") || same_text(text, "else") || same_text(text, "case")
                    || same_text(text, "let") || same_text(text, "type") || same_text(
                    text,
                    "import",
                ) || same_text(text, "as") {
                    None
                } else {
                    Some((self.resolve_name(text), is_symbolic(text)))
                }
            },
            _ => None,
        }
    }

    fn spacing_fault(&self, from: usize, to: usize, before: bool, after: bool) -> (fault: Fault)
        requires
            from == tok_at(self@, self@.at).from,
            to == tok_at(self@, self@.at).to,
            before == spaced_before(self@, tok_at(self@, self@.at)),
            after == spaced_after(self@, tok_at(self@, self@.at)),
        ensures
            fault@ == spacing_flaw(self@, tok_at(self@, self@.at)),
    {
        let side = if before {
            "after"
        } else if after {
            "before"
        } else {
            "before and after"
        };
        let shown = if from <= to && to <= self.chars.len() {
            chars_text(self.chars, from, to)
        } else {
            let none = String::new();
            assert(none@ =~= Seq::empty());
            none
        };
        let message = cat5(
            "symbolic infix operator '",
            shown.as_str(),
            "' requires whitespace ",
            side,
            " it; write infix operators with spaces on both sides",
        );
        Fault {
            code: "MAG2012".to_owned(),
            stage: "parser".to_owned(),
            message,
            from,
            to,
            note: None,
        }
    }

    pub fn take_infix_operator(&mut self) -> (result: Result<
        Option<(String, usize, usize)>,
        Fault,
    >)
        ensures
            step_infix(final(self)@, result) == infix_taken(old(self)@),
    {
        let (from, to) = self.range_at(self.at);
        let (name, symbol) = match self.find_infix() {
            None => return Ok(None),
            Some(found) => found,
        };
        if symbol {
            let before = from > 0 && from <= self.chars.len() && is_separator_char(
                self.chars[from - 1],
            );
            let after = to < self.chars.len() && is_separator_char(self.chars[to]);
            if !(before && after) {
                return Err(self.spacing_fault(from, to, before, after));
            }
        }
        self.bump();
        Ok(Some((name, from, to)))
    }
}

/// The call of an infix operator.
pub open spec fn infix_call(name: Seq<char>, left: Term, right: Term) -> Term {
    Term::Call(Box::new(Term::Name(seq![name])), None, seq![left, right])
}

/// The values after the last two were put together.
pub open spec fn reduced(values: Seq<Term>, name: Seq<char>) -> Seq<Term> {
    values.take(values.len() - 2).push(
        infix_call(name, values[values.len() - 2], values[values.len() - 1]),
    )
}

pub open spec fn incomplete(syn: Syn) -> Flaw {
    flaw_here(syn, "internal parser error: incomplete infix expression"@)
}

pub open spec fn operator_fixity(syn: Syn, operator: Infix) -> Fixity {
    match fixity_of(syn, operator.0) {
        Some(fixity) => fixity,
        None => Fixity {
            precedence: 9,
            associativity: Associativity::Left,
            from: operator.1 as usize,
            to: operator.2 as usize,
        },
    }
}

pub open spec fn conflict(top: Fixity, fixity: Fixity) -> bool {
    top.precedence == fixity.precedence && (top.associativity != fixity.associativity
        || top.associativity is Neither)
}

/// Whether an operator binds before the one behind it.
pub open spec fn binds_first(top: Fixity, fixity: Fixity) -> bool {
    top.precedence > fixity.precedence || (top.precedence == fixity.precedence
        && fixity.associativity is Left)
}

pub open spec fn conflict_flaw(top: (Seq<char>, Fixity), operator: Infix, fixity: Fixity) -> Flaw {
    Flaw {
        code: "MAG2010"@,
        stage: "parser"@,
        message: "conflicting fixities for '"@ + top.0 + "' and '"@ + operator.0
            + "' at precedence "@ + decimal(fixity.precedence as nat),
        from: operator.1,
        to: operator.2,
        note: Some(
            ("'"@ + top.0 + "' fixity declared here"@, top.1.from as int, top.1.to as int),
        ),
    }
}

/// Values, and operators that still wait for their right operands.
pub ghost struct Pending {
    pub values: Seq<Term>,
    pub stack: Seq<(Seq<char>, Fixity)>,
}

/// Puts together what binds before an operator.
pub open spec fn settled(syn: Syn, pending: Pending, operator: Infix, fixity: Fixity) -> Result<
    Pending,
    Flaw,
>
    decreases pending.stack.len(),
{
    if pending.stack.len() == 0 {
        Ok(pending)
    } else {
        let top = pending.stack.last();
        if conflict(top.1, fixity) {
            Err(conflict_flaw(top, operator, fixity))
        } else if !binds_first(top.1, fixity) {
            Ok(pending)
        } else if pending.values.len() < 2 {
            Err(incomplete(syn))
        } else {
            settled(
                syn,
                Pending {
                    values: reduced(pending.values, top.0),
                    stack: pending.stack.drop_last(),
                },
                operator,
                fixity,
            )
        }
    }
}

/// Puts together what is left.
pub open spec fn unwound(syn: Syn, pending: Pending) -> Result<Term, Flaw>
    decreases pending.stack.len(),
{
    if pending.stack.len() == 0 {
        if pending.values.len() == 0 {
            Err(flaw_here(syn, "internal parser error: infix expression produced no value"@))
        } else {
            Ok(pending.values.last())
        }
    } else if pending.values.len() < 2 {
        Err(incomplete(syn))
    } else {
        unwound(
            syn,
            Pending {
                values: reduced(pending.values, pending.stack.last().0),
                stack: pending.stack.drop_last(),
            },
        )
    }
}

/// Puts operands from index `i` on together with the operators before them.
pub open spec fn associated_from(
    syn: Syn,
    operands: Seq<Term>,
    operators: Seq<Infix>,
    i: int,
    pending: Pending,
) -> Result<Term, Flaw>
    decreases operators.len() - i,
{
    if i < 0 || i >= operators.len() {
        unwound(syn, pending)
    } else {
        let fixity = operator_fixity(syn, operators[i]);
        match settled(syn, pending, operators[i], fixity) {
            Err(flaw) => Err(flaw),
            Ok(after) => if i + 1 >= operands.len() {
                Err(flaw_here(syn, "internal parser error: missing right operand"@))
            } else {
                associated_from(
                    syn,
                    operands,
                    operators,
                    i + 1,
                    Pending {
                        values: after.values.push(operands[i + 1]),
                        stack: after.stack.push((operators[i].0, fixity)),
                    },
                )
            },
        }
    }
}

/// The expression that operands with operators between them stand for.
pub open spec fn reassociated(syn: Syn, operands: Seq<Term>, operators: Seq<Infix>) -> Result<
    Term,
    Flaw,
> {
    if operands.len() == 0 {
        Err(flaw_here(syn, "internal parser error: expression has no operand"@))
    } else {
        associated_from(
            syn,
            operands,
            operators,
            0,
            Pending { values: seq![operands[0]], stack: Seq::empty() },
        )
    }
}

pub open spec fn term_read(result: Result<Expr, Fault>) -> Result<Term, Flaw> {
    match result {
        Ok(expr) => Ok(expr@),
        Err(fault) => Err(fault@),
    }
}

fn reduce_operator(values: &mut Vec<Expr>, name: &str) -> (done: bool)
    ensures
        done == (old(values)@.len() >= 2),
        done ==> terms(final(values)@) == reduced(terms(old(values)@), name@),
{
    let ghost all = terms(values@);
    if values.len() < 2 {
        return false;
    }
    match (values.pop(), values.pop()) {
        (Some(right), Some(left)) => {
            let ghost left_view = left@;
            let ghost right_view = right@;
            let mut args: Vec<Expr> = Vec::new();
            args.push(left);
            args.push(right);
            assert(terms(args@) =~= seq![left_view, right_view]);
            let callee = Expr::Name(NamePath::single(name));
            assert(callee@ == Term::Name(seq![name@]));
            let call = Expr::Call { callee: Box::new(callee), type_args: None, args };
            assert(call@ == infix_call(name@, left_view, right_view));
            let ghost view = call@;
            values.push(call);
            assert(terms(values@) =~= all.take(all.len() - 2).push(view));
            true
        },
        _ => false,
    }
}

impl<'a> Syntax<'a> {
    fn conflict_fault(
        &self,
        top: &(String, Fixity),
        operator: &(String, usize, usize),
        fixity: Fixity,
    ) -> (fault: Fault)
        ensures
            fault@ == conflict_flaw((top.0@, top.1), infix_view(*operator), fixity),
    {
        let precedence = decimal_text(fixity.precedence as u64);
        let message = cat6(
            "conflicting fixities for '",
            top.0.as_str(),
            "' and '",
            operator.0.as_str(),
            "' at precedence ",
            precedence.as_str(),
        );
        let note = cat3("'", top.0.as_str(), "' fixity declared here");
        Fault {
            code: "MAG2010".to_owned(),
            stage: "parser".to_owned(),
            message,
            from: operator.1,
            to: operator.2,
            note: Some((note, top.1.from, top.1.to)),
        }
    }

    fn settle(
        &self,
        values: &mut Vec<Expr>,
        stack: &mut Vec<(String, Fixity)>,
        operator: &(String, usize, usize),
        fixity: Fixity,
    ) -> (result: Result<(), Fault>)
        ensures
            match settled(
                self@,
                Pending { values: terms(old(values)@), stack: fixity_views(old(stack)@) },
                infix_view(*operator),
                fixity,
            ) {
                Ok(view) => result is Ok && terms(final(values)@) == view.values && fixity_views(
                    final(stack)@,
                ) == view.stack,
                Err(flaw) => result matches Err(fault) && fault@ == flaw,
            },
    {
        let ghost whole = settled(
            self@,
            Pending { values: terms(values@), stack: fixity_views(stack@) },
            infix_view(*operator),
            fixity,
        );
        while stack.len() > 0
            invariant
                whole == settled(
                    self@,
                    Pending { values: terms(old(values)@), stack: fixity_views(old(stack)@) },
                    infix_view(*operator),
                    fixity,
                ),
                whole == settled(
                    self@,
                    Pending { values: terms(values@), stack: fixity_views(stack@) },
                    infix_view(*operator),
                    fixity,
                ),
            decreases stack@.len(),
        {
            let ghost all = fixity_views(stack@);
            let top = &stack[stack.len() - 1];
            assert(all.last() == (top.0@, top.1));
            assert(terms(values@).len() == values@.len());
            let same = top.1.precedence == fixity.precedence;
            let neither = match top.1.associativity {
                Associativity::Neither => true,
                _ => false,
            };
            if same && (top.1.associativity != fixity.associativity || neither) {
                return Err(self.conflict_fault(top, operator, fixity));
            }
            let left = match fixity.associativity {
                Associativity::Left => true,
                _ => false,
            };
            if !(top.1.precedence > fixity.precedence || (same && left)) {
                return Ok(());
            }
            if !reduce_operator(values, top.0.as_str()) {
                return Err(self.fault("internal parser error: incomplete infix expression"));
            }
            let _ = stack.pop();
            assert(fixity_views(stack@) =~= all.drop_last());
        }
        Ok(())
    }

    fn unwind(&self, values: Vec<Expr>, stack: Vec<(String, Fixity)>) -> (result: Result<
        Expr,
        Fault,
    >)
        ensures
            term_read(result) == unwound(
                self@,
                Pending { values: terms(values@), stack: fixity_views(stack@) },
            ),
    {
        let ghost whole = unwound(
            self@,
            Pending { values: terms(values@), stack: fixity_views(stack@) },
        );
        let mut rest = values;
        let mut waiting = stack;
        while waiting.len() > 0
            invariant
                whole == unwound(
                    self@,
                    Pending { values: terms(values@), stack: fixity_views(stack@) },
                ),
                whole == unwound(
                    self@,
                    Pending { values: terms(rest@), stack: fixity_views(waiting@) },
                ),
            decreases waiting@.len(),
        {
            let ghost all = fixity_views(waiting@);
            let top = &waiting[waiting.len() - 1];
            assert(all.last() == (top.0@, top.1));
            assert(terms(rest@).len() == rest@.len());
            if !reduce_operator(&mut rest, top.0.as_str()) {
                return Err(self.fault("internal parser error: incomplete infix expression"));
            }
            let _ = waiting.pop();
            assert(fixity_views(waiting@) =~= all.drop_last());
        }
        let ghost all = terms(rest@);
        assert(all.len() == rest@.len());
        match rest.pop() {
            Some(expr) => {
                assert(all.last() == expr@);
                Ok(expr)
            },
            None => Err(
                self.fault("internal parser error: infix expression produced no value"),
            ),
        }
    }

    /// Puts operands together as the fixities of the operators between them say.
    pub fn reassociate(&self, operands: Vec<Expr>, operators: &Vec<(String, usize, usize)>) -> (result:
        Result<Expr, Fault>)
        ensures
            term_read(result) == reassociated(self@, terms(operands@), infix_views(operators@)),
    {
        let ghost all = terms(operands@);
        let ghost marks = infix_views(operators@);
        assert(all.len() == operands@.len());
        let mut rest = operands;
        if rest.len() == 0 {
            return Err(self.fault("internal parser error: expression has no operand"));
        }
        let mut values: Vec<Expr> = Vec::new();
        let mut stack: Vec<(String, Fixity)> = Vec::new();
        let first = rest.remove(0);
        assert(first@ == all[0]);
        values.push(first);
        assert(terms(rest@) =~= all.skip(1));
        assert(terms(values@) =~= seq![all[0]]);
        assert(fixity_views(stack@) =~= Seq::<(Seq<char>, Fixity)>::empty());
        let mut i: usize = 0;
        while i < operators.len()
            invariant
                i <= operators@.len(),
                all == terms(operands@),
                marks == infix_views(operators@),
                i + 1 <= all.len(),
                terms(rest@) == all.skip(i + 1),
                reassociated(self@, all, marks) == associated_from(
                    self@,
                    all,
                    marks,
                    i as int,
                    Pending { values: terms(values@), stack: fixity_views(stack@) },
                ),
            decreases operators@.len() - i,
        {
            let operator = &operators[i];
            assert(marks[i as int] == infix_view(*operator));
            let fixity = match self.find_fixity(operator.0.as_str()) {
                Some(fixity) => fixity,
                None => Fixity {
                    precedence: 9,
                    associativity: Associativity::Left,
                    from: operator.1,
                    to: operator.2,
                },
            };
            assert(fixity == operator_fixity(self@, marks[i as int]));
            match self.settle(&mut values, &mut stack, operator, fixity) {
                Err(fault) => return Err(fault),
                Ok(_) => {},
            }
            assert(terms(rest@).len() == rest@.len());
            if rest.len() == 0 {
                return Err(self.fault("internal parser error: missing right operand"));
            }
            let ghost before = terms(values@);
            let ghost waiting = fixity_views(stack@);
            let ghost earlier = terms(rest@);
            let next = rest.remove(0);
            assert(next@ == earlier[0]);
            assert(earlier[0] == all[i + 1]);
            values.push(next);
            stack.push((operator.0.clone(), fixity));
            assert(terms(values@) =~= before.push(all[i + 1]));
            assert(fixity_views(stack@) =~= waiting.push((operator.0@, fixity)));
            assert(terms(rest@) =~= earlier.skip(1));
            assert(earlier.skip(1) =~= all.skip(i + 2));
            i = i + 1;
        }
        self.unwind(values, stack)
    }
}

} // verus!
