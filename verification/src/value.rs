//! Structured values: the nested documents that extraction produces.

use vstd::prelude::*;
use crate::assoc::{get, key_index, put};

verus! {

/// A structured value. A floating-point number is kept as the decimal
/// literal that denotes it, so that no rounding happens before storage.
#[derive(Debug, PartialEq, Eq)]
pub enum Datum {
    /// No value.
    Null,
    /// A truth value.
    Bool(bool),
    /// A text.
    Str(String),
    /// A signed integer.
    Int(i64),
    /// A floating-point number, by its literal.
    Float(String),
    /// A list of values.
    Array(Vec<Datum>),
    /// A document: keyed values, in the order in which the keys were first
    /// put.
    Doc(Vec<(String, Datum)>),
}

/// The mathematical content of a [`Datum`].
pub enum Node {
    Null,
    Bool(bool),
    Str(Seq<char>),
    Int(int),
    Float(Seq<char>),
    Array(Seq<Node>),
    Doc(Seq<(Seq<char>, Node)>),
}

/// The content of a list of values.
pub open spec fn nodes(items: Seq<Datum>) -> Seq<Node>
    decreases items,
{
    Seq::new(
        items.len(),
        |i: int|
            if 0 <= i < items.len() {
                node(items[i])
            } else {
                Node::Int(0)
            },
    )
}

/// The content of a list of keyed values.
pub open spec fn fields(entries: Seq<(String, Datum)>) -> Seq<(Seq<char>, Node)>
    decreases entries,
{
    Seq::new(
        entries.len(),
        |i: int|
            if 0 <= i < entries.len() {
                (entries[i].0@, node(entries[i].1))
            } else {
                (Seq::empty(), Node::Int(0))
            },
    )
}

/// The content of a value.
pub open spec fn node(v: Datum) -> Node
    decreases v,
{
    match v {
        Datum::Null => Node::Null,
        Datum::Bool(b) => Node::Bool(b),
        Datum::Str(s) => Node::Str(s@),
        Datum::Int(n) => Node::Int(n as int),
        Datum::Float(s) => Node::Float(s@),
        Datum::Array(items) => Node::Array(nodes(items@)),
        Datum::Doc(entries) => Node::Doc(fields(entries@)),
    }
}

impl View for Datum {
    type V = Node;

    open spec fn view(&self) -> Node {
        node(*self)
    }
}

/// The content of a list grows by the content of what is pushed.
pub proof fn lemma_nodes_push(items: Seq<Datum>, x: Datum)
    ensures
        nodes(items.push(x)) == nodes(items).push(x@),
{
    assert(nodes(items.push(x)) =~= nodes(items).push(x@));
}

/// The position of `key` in a document, or its length when `key` is
/// absent.
pub fn doc_position(entries: &Vec<(String, Datum)>, key: &String) -> (i: usize)
    ensures
        i == key_index(fields(entries@), key@, 0),
        i <= entries.len(),
{
    let mut i: usize = 0;
    while i < entries.len() && entries[i].0 != *key
        invariant
            i <= entries.len(),
            key_index(fields(entries@), key@, 0) == key_index(fields(entries@), key@, i as int),
        decreases entries.len() - i,
    {
        i += 1;
    }
    i
}

/// Gives `key` the value `value` in a document: in the place of the old
/// value when the key is there, at the end when it is not.
pub fn doc_put(entries: &mut Vec<(String, Datum)>, key: String, value: Datum)
    ensures
        fields(final(entries)@) == put(fields(old(entries)@), key@, value@),
{
    let i = doc_position(entries, &key);
    let ghost before = fields(entries@);
    if i < entries.len() {
        entries[i] = (key, value);
        assert(fields(entries@) =~= before.update(i as int, (key@, value@)));
    } else {
        entries.push((key, value));
        assert(fields(entries@) =~= before.push((key@, value@)));
    }
}

/// The value of `key` in a document, if the document holds the key.
pub fn doc_get<'a>(entries: &'a Vec<(String, Datum)>, key: &String) -> (r: Option<&'a Datum>)
    ensures
        match r {
            Some(v) => get(fields(entries@), key@) == Some(v@),
            None => get(fields(entries@), key@) is None,
        },
{
    let i = doc_position(entries, key);
    if i < entries.len() {
        Some(&entries[i].1)
    } else {
        None
    }
}

/// The empty document.
pub fn doc_new() -> (entries: Vec<(String, Datum)>)
    ensures
        fields(entries@) == Seq::<(Seq<char>, Node)>::empty(),
{
    let entries: Vec<(String, Datum)> = Vec::new();
    assert(fields(entries@) =~= Seq::<(Seq<char>, Node)>::empty());
    entries
}

} // verus!
