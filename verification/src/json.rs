//! JSON documents.

use crate::text::{
    cat3, decimal, decimal_text, join_texts, joined, signed_decimal, signed_text, texts,
};
use vstd::prelude::*;
use vstd::string::*;

verus! {

/// A floating-point number: its bits, the notation in which a JSON document
/// writes it (`null` where JSON has none), and the one in which it is shown.
#[derive(Debug)]
pub struct Float {
    pub bits: u64,
    pub text: String,
    pub shown: String,
}

pub ghost struct Num {
    pub bits: u64,
    pub text: Seq<char>,
    pub shown: Seq<char>,
}

impl Float {
    pub open spec fn view(&self) -> Num {
        Num { bits: self.bits, text: self.text@, shown: self.shown@ }
    }

    pub fn copy(&self) -> (copy: Self)
        ensures
            copy@ == self@,
    {
        Float { bits: self.bits, text: self.text.clone(), shown: self.shown.clone() }
    }
}

/// A JSON document; the members of an object keep their order.
#[derive(Debug)]
pub enum Json {
    Null,
    Bool(bool),
    Int(i64),
    /// An integer above those that the language has, and the number with a fraction that is
    /// nearest to it.
    Large(u64, Float),
    Float(Float),
    Str(String),
    Array(Vec<Json>),
    Object(Vec<(String, Json)>),
}

pub ghost enum Data {
    Null,
    Bool(bool),
    Int(int),
    Large(int, Num),
    Float(Num),
    Str(Seq<char>),
    Array(Seq<Data>),
    Object(Seq<(Seq<char>, Data)>),
}

impl Json {
    pub open spec fn view(&self) -> Data
        decreases self,
    {
        match self {
            Json::Null => Data::Null,
            Json::Bool(value) => Data::Bool(*value),
            Json::Int(value) => Data::Int(*value as int),
            Json::Large(value, nearest) => Data::Large(*value as int, nearest@),
            Json::Float(value) => Data::Float(value@),
            Json::Str(value) => Data::Str(value@),
            Json::Array(items) => Data::Array(data_items(items@)),
            Json::Object(members) => Data::Object(data_members(members@)),
        }
    }
}

pub open spec fn data_items(items: Seq<Json>) -> Seq<Data>
    decreases items,
{
    Seq::new(
        items.len(),
        |i: int|
            if 0 <= i < items.len() {
                items[i].view()
            } else {
                arbitrary()
            },
    )
}

pub open spec fn data_members(members: Seq<(String, Json)>) -> Seq<(Seq<char>, Data)>
    decreases members,
{
    Seq::new(
        members.len(),
        |i: int|
            if 0 <= i < members.len() {
                (members[i].0@, members[i].1.view())
            } else {
                arbitrary()
            },
    )
}

impl Json {
    pub fn copy(&self) -> (copy: Self)
        ensures
            copy@ == self@,
        decreases self,
    {
        match self {
            Json::Null => Json::Null,
            Json::Bool(value) => Json::Bool(*value),
            Json::Int(value) => Json::Int(*value),
            Json::Large(value, nearest) => Json::Large(*value, nearest.copy()),
            Json::Float(value) => Json::Float(value.copy()),
            Json::Str(value) => Json::Str(value.clone()),
            Json::Array(items) => Json::Array(copy_items(items)),
            Json::Object(members) => Json::Object(copy_members(members)),
        }
    }
}

pub fn copy_items(items: &Vec<Json>) -> (copy: Vec<Json>)
    ensures
        data_items(copy@) == data_items(items@),
    decreases items,
{
    let mut copy: Vec<Json> = Vec::new();
    let mut i: usize = 0;
    while i < items.len()
        invariant
            i <= items@.len(),
            copy@.len() == i,
            forall|j: int| 0 <= j < i ==> (#[trigger] copy@[j])@ == items@[j]@,
        decreases items@.len() - i,
    {
        copy.push(items[i].copy());
        i = i + 1;
    }
    assert(data_items(copy@) =~= data_items(items@));
    copy
}

pub fn copy_members(members: &Vec<(String, Json)>) -> (copy: Vec<(String, Json)>)
    ensures
        data_members(copy@) == data_members(members@),
    decreases members,
{
    let mut copy: Vec<(String, Json)> = Vec::new();
    let mut i: usize = 0;
    while i < members.len()
        invariant
            i <= members@.len(),
            copy@.len() == i,
            forall|j: int|
                0 <= j < i ==> (#[trigger] copy@[j]).0@ == members@[j].0@ && copy@[j].1@
                    == members@[j].1@,
        decreases members@.len() - i,
    {
        let member = &members[i];
        copy.push((member.0.clone(), member.1.copy()));
        i = i + 1;
    }
    assert(data_members(copy@) =~= data_members(members@));
    copy
}

/// A hexadecimal digit.
pub open spec fn hex_digit(value: int) -> char {
    "0123456789abcdef"@[value]
}

/// A character as it stands in a JSON string literal: quotes, backslashes and control
/// characters are escaped.
pub open spec fn escaped(ch: char) -> Seq<char> {
    if ch == '"' || ch == '\\' {
        seq!['\\', ch]
    } else if ch == '\u{8}' {
        "\\b"@
    } else if ch == '\t' {
        "\\t"@
    } else if ch == '\n' {
        "\\n"@
    } else if ch == '\u{c}' {
        "\\f"@
    } else if ch == '\r' {
        "\\r"@
    } else if (ch as u32) < 0x20 {
        "\\u00"@ + seq![hex_digit(ch as int / 16), hex_digit(ch as int % 16)]
    } else {
        seq![ch]
    }
}

/// The first `n` characters of a text as they stand in a JSON string literal.
pub open spec fn escaped_text(text: Seq<char>, n: int) -> Seq<char>
    decreases n,
{
    if n <= 0 || n > text.len() {
        Seq::empty()
    } else {
        escaped_text(text, n - 1) + escaped(text[n - 1])
    }
}

/// A text as a JSON string literal.
pub open spec fn quoted(text: Seq<char>) -> Seq<char> {
    seq!['"'] + escaped_text(text, text.len() as int) + seq!['"']
}

/// Trusted: `serde_json::to_string` on a `str` does not fail. It writes the text in quotes,
/// with a backslash before quotes and backslashes, short escapes for five control
/// characters, and four hexadecimal digits for the others below the space.
#[verifier::external_body]
pub(crate) fn quote(text: &str) -> (literal: String)
    ensures
        literal@ == quoted(text@),
{
    serde_json::to_string(text).unwrap_or_default()
}

/// The compact notation of a document.
pub open spec fn json_text(data: Data) -> Seq<char>
    decreases data,
{
    match data {
        Data::Null => "null"@,
        Data::Bool(value) => if value {
            "true"@
        } else {
            "false"@
        },
        Data::Int(value) => signed_decimal(value),
        Data::Large(value, _) => decimal(value as nat),
        Data::Float(value) => value.text,
        Data::Str(value) => quoted(value),
        Data::Array(items) => "["@ + joined(item_texts(items), ","@) + "]"@,
        Data::Object(members) => "{"@ + joined(member_texts(members), ","@) + "}"@,
    }
}

pub open spec fn item_texts(items: Seq<Data>) -> Seq<Seq<char>>
    decreases items,
{
    Seq::new(
        items.len(),
        |i: int|
            if 0 <= i < items.len() {
                json_text(items[i])
            } else {
                arbitrary()
            },
    )
}

pub open spec fn member_texts(members: Seq<(Seq<char>, Data)>) -> Seq<Seq<char>>
    decreases members,
{
    Seq::new(
        members.len(),
        |i: int|
            if 0 <= i < members.len() {
                quoted(members[i].0) + ":"@ + json_text(members[i].1)
            } else {
                arbitrary()
            },
    )
}

impl Json {
    /// The compact notation of this document.
    pub fn to_text(&self) -> (text: String)
        ensures
            text@ == json_text(self@),
        decreases self,
    {
        match self {
            Json::Null => "null".to_owned(),
            Json::Bool(value) => if *value {
                "true".to_owned()
            } else {
                "false".to_owned()
            },
            Json::Int(value) => signed_text(*value),
            Json::Large(value, _) => decimal_text(*value),
            Json::Float(value) => value.text.clone(),
            Json::Str(value) => quote(value.as_str()),
            Json::Array(items) => {
                let parts = items_text(items);
                let body = join_texts(&parts, ",");
                cat3("[", body.as_str(), "]")
            },
            Json::Object(members) => {
                let parts = members_text(members);
                let body = join_texts(&parts, ",");
                cat3("{", body.as_str(), "}")
            },
        }
    }
}

fn items_text(items: &Vec<Json>) -> (parts: Vec<String>)
    ensures
        texts(parts@) == item_texts(data_items(items@)),
    decreases items,
{
    let mut parts: Vec<String> = Vec::new();
    let mut i: usize = 0;
    while i < items.len()
        invariant
            i <= items@.len(),
            parts@.len() == i,
            forall|j: int| 0 <= j < i ==> (#[trigger] parts@[j])@ == json_text(items@[j]@),
        decreases items@.len() - i,
    {
        parts.push(items[i].to_text());
        i = i + 1;
    }
    assert(texts(parts@) =~= item_texts(data_items(items@)));
    parts
}

fn members_text(members: &Vec<(String, Json)>) -> (parts: Vec<String>)
    ensures
        texts(parts@) == member_texts(data_members(members@)),
    decreases members,
{
    let mut parts: Vec<String> = Vec::new();
    let mut i: usize = 0;
    while i < members.len()
        invariant
            i <= members@.len(),
            parts@.len() == i,
            forall|j: int|
                0 <= j < i ==> (#[trigger] parts@[j])@ == quoted(members@[j].0@) + ":"@ + json_text(
                    members@[j].1@,
                ),
        decreases members@.len() - i,
    {
        let member = &members[i];
        let name = quote(member.0.as_str());
        let value = member.1.to_text();
        parts.push(cat3(name.as_str(), ":", value.as_str()));
        i = i + 1;
    }
    assert(texts(parts@) =~= member_texts(data_members(members@)));
    parts
}

} // verus!
