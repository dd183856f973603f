//! The attributes of an element.

use crate::text::{chars_eq, to_chars, words, words_of, views};
use fnv::FnvHashMap;
use vstd::prelude::*;

verus! {

/// A table from attribute names to values with a fast hash for short keys.
#[verifier::external_body]
#[derive(Debug)]
pub struct AttrTable {
    inner: FnvHashMap<String, String>,
}

/// The value that a table holds for each name that it holds.
pub uninterp spec fn attr_table_entries(table: AttrTable) -> Map<Seq<char>, Seq<char>>;

/// The table that holds no name.
pub open spec fn no_attributes() -> Map<Seq<char>, Seq<char>> {
    Map::empty()
}

/// `FnvHashMap::default`: an empty map.
#[verifier::external_body]
fn table_new() -> (table: AttrTable)
    ensures
        attr_table_entries(table) == no_attributes(),
{
    AttrTable { inner: FnvHashMap::default() }
}

/// `FnvHashMap::with_capacity_and_hasher`: an empty map with room for
/// `capacity` entries. The bound keeps the size of that room within what an
/// allocation can be asked for.
#[verifier::external_body]
fn table_with_capacity(capacity: usize) -> (table: AttrTable)
    requires
        capacity <= 0x100_0000,
    ensures
        attr_table_entries(table) == no_attributes(),
{
    AttrTable { inner: FnvHashMap::with_capacity_and_hasher(capacity, Default::default()) }
}

/// `HashMap::get`: the value stored under the name, if the name is there.
#[verifier::external_body]
fn table_get<'a>(table: &'a AttrTable, name: &str) -> (value: Option<&'a str>)
    ensures
        value is Some <==> attr_table_entries(*table).contains_key(name@),
        value is Some ==> value->0@ == attr_table_entries(*table)[name@],
{
    table.inner.get(name).map(|s| s.as_str())
}

/// `HashMap::insert`: the name is bound to the value, in place of any value
/// it had; all other names stay as they are.
#[verifier::external_body]
fn table_insert(table: &mut AttrTable, name: String, value: String)
    ensures
        attr_table_entries(*final(table)) == attr_table_entries(*old(table)).insert(
            name@,
            value@,
        ),
{
    table.inner.insert(name, value);
}

/// `HashMap::remove`: the name is taken out and its value returned, if it
/// was there; all other names stay as they are.
#[verifier::external_body]
fn table_remove(table: &mut AttrTable, name: &str) -> (value: Option<String>)
    ensures
        attr_table_entries(*final(table)) == attr_table_entries(*old(table)).remove(name@),
        value is Some <==> attr_table_entries(*old(table)).contains_key(name@),
        value is Some ==> value->0@ == attr_table_entries(*old(table))[name@],
{
    table.inner.remove(name)
}

/// `HashMap::len`: the number of names stored.
#[verifier::external_body]
fn table_len(table: &AttrTable) -> (n: usize)
    ensures
        n == attr_table_entries(*table).len(),
{
    table.inner.len()
}

/// `HashMap::iter`, each entry copied out: every name stored comes once,
/// with its value, and nothing else comes. The order is the map's own.
#[verifier::external_body]
fn table_pairs(table: &AttrTable) -> (pairs: Vec<(String, String)>)
    ensures
        pairs.len() == attr_table_entries(*table).len(),
        forall|i: int|
            0 <= i < pairs.len() ==> attr_table_entries(*table).contains_pair(
                (#[trigger] pairs[i]).0@,
                pairs[i].1@,
            ),
        forall|i: int, j: int|
            0 <= i < j < pairs.len() ==> (#[trigger] pairs[i]).0@ != (#[trigger] pairs[j]).0@,
{
    table.inner.iter().map(|(k, v)| (k.clone(), v.clone())).collect()
}

/// `HashMap::clone`: a map with the same names and values.
#[verifier::external_body]
fn table_clone(table: &AttrTable) -> (copy: AttrTable)
    ensures
        attr_table_entries(copy) == attr_table_entries(*table),
{
    AttrTable { inner: table.inner.clone() }
}

/// The attributes of an element: values by name. Names are told apart by
/// case, and setting a name again replaces its value.
#[derive(Debug)]
pub struct Attributes {
    attrs: AttrTable,
}

impl View for Attributes {
    type V = Map<Seq<char>, Seq<char>>;

    closed spec fn view(&self) -> Map<Seq<char>, Seq<char>> {
        attr_table_entries(self.attrs)
    }
}

/// Whether `class` is one of the words of a `class` attribute's value.
pub open spec fn class_listed(value: Seq<char>, class: Seq<char>) -> bool {
    words_of(value).contains(class)
}

/// Whether the attributes name the class `class`.
pub open spec fn has_class_in(attrs: Map<Seq<char>, Seq<char>>, class: Seq<char>) -> bool {
    attrs.contains_key("class"@) && class_listed(attrs["class"@], class)
}

/// Whether `word` is one of the words of `value`.
pub fn word_listed(value: &str, word: &str) -> (r: bool)
    ensures
        r == class_listed(value@, word@),
{
    let list = words(&to_chars(value));
    let w = to_chars(word);
    let mut i: usize = 0;
    while i < list.len()
        invariant
            i <= list.len(),
            views(list@) == words_of(value@),
            w@ == word@,
            forall|k: int| 0 <= k < i ==> (#[trigger] views(list@)[k]) != word@,
        decreases list.len() - i,
    {
        if chars_eq(&list[i], &w) {
            assert(views(list@)[i as int] == word@);
            return true;
        }
        i += 1;
    }
    false
}

impl Attributes {
    /// No attributes.
    pub fn new() -> (r: Self)
        ensures
            r@ == no_attributes(),
    {
        Attributes { attrs: table_new() }
    }

    /// No attributes, with room for `capacity` of them.
    pub fn with_capacity(capacity: usize) -> (r: Self)
        requires
            capacity <= 0x100_0000,
        ensures
            r@ == no_attributes(),
    {
        Attributes { attrs: table_with_capacity(capacity) }
    }

    /// The value of the attribute `name`, if it is set.
    pub fn get(&self, name: &str) -> (r: Option<&str>)
        ensures
            r is Some <==> self@.contains_key(name@),
            r is Some ==> r->0@ == self@[name@],
    {
        table_get(&self.attrs, name)
    }

    /// Sets the attribute `name` to `value`.
    pub fn set(&mut self, name: String, value: String)
        ensures
            final(self)@ == old(self)@.insert(name@, value@),
    {
        table_insert(&mut self.attrs, name, value)
    }

    /// Takes the attribute `name` away and returns the value it had.
    pub fn remove(&mut self, name: &str) -> (r: Option<String>)
        ensures
            final(self)@ == old(self)@.remove(name@),
            r is Some <==> old(self)@.contains_key(name@),
            r is Some ==> r->0@ == old(self)@[name@],
    {
        table_remove(&mut self.attrs, name)
    }

    /// Whether the attribute `name` is set.
    pub fn contains(&self, name: &str) -> (r: bool)
        ensures
            r == self@.contains_key(name@),
    {
        table_get(&self.attrs, name).is_some()
    }

    /// The number of attributes.
    pub fn len(&self) -> (n: usize)
        ensures
            n == self@.len(),
    {
        table_len(&self.attrs)
    }

    /// Whether no attribute is set.
    pub fn is_empty(&self) -> (r: bool)
        ensures
            r == (self@.len() == 0),
    {
        table_len(&self.attrs) == 0
    }

    /// Every attribute once, as a pair of name and value, in no particular
    /// order.
    pub fn iter(&self) -> (pairs: Vec<(String, String)>)
        ensures
            pairs.len() == self@.len(),
            forall|i: int|
                0 <= i < pairs.len() ==> self@.contains_pair(
                    (#[trigger] pairs[i]).0@,
                    pairs[i].1@,
                ),
            forall|i: int, j: int|
                0 <= i < j < pairs.len() ==> (#[trigger] pairs[i]).0@ != (#[trigger] pairs[j]).0@,
    {
        table_pairs(&self.attrs)
    }

    /// The words of the `class` attribute, in order; none where it is not
    /// set.
    pub fn classes(&self) -> (list: Vec<Vec<char>>)
        ensures
            views(list@) == if self@.contains_key("class"@) {
                words_of(self@["class"@])
            } else {
                Seq::<Seq<char>>::empty()
            },
    {
        match table_get(&self.attrs, "class") {
            Some(value) => words(&to_chars(value)),
            None => {
                let list: Vec<Vec<char>> = Vec::new();
                assert(views(list@) =~= Seq::<Seq<char>>::empty());
                list
            },
        }
    }

    /// Whether `class` is one of the words of the `class` attribute.
    pub fn has_class(&self, class: &str) -> (r: bool)
        ensures
            r == has_class_in(self@, class@),
    {
        match table_get(&self.attrs, "class") {
            Some(value) => word_listed(value, class),
            None => false,
        }
    }

    /// The value of the `id` attribute, if it is set.
    pub fn id(&self) -> (r: Option<&str>)
        ensures
            r is Some <==> self@.contains_key("id"@),
            r is Some ==> r->0@ == self@["id"@],
    {
        table_get(&self.attrs, "id")
    }
}

impl Clone for Attributes {
    fn clone(&self) -> (copy: Self)
        ensures
            copy@ == self@,
    {
        Attributes { attrs: table_clone(&self.attrs) }
    }
}

impl Default for Attributes {
    fn default() -> (r: Self)
        ensures
            r@ == no_attributes(),
    {
        Attributes { attrs: table_new() }
    }
}

} // verus!
