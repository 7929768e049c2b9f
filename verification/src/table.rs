//! Symbol tables: names and the numbers they stand for.

use hashbrown::HashMap;
use vstd::prelude::*;

verus! {

/// A table from names to numbers, kept in a hash map of hashbrown.
#[verifier::external_body]
pub struct SymbolTable {
    map: HashMap<String, u32>,
}

/// The entries of a table: each name with the number entered under it.
pub uninterp spec fn table_entries(table: SymbolTable) -> Map<Seq<char>, u32>;

/// `HashMap::new` of hashbrown: a table without entries.
#[verifier::external_body]
fn new_table() -> (table: SymbolTable)
    ensures
        forall|name: Seq<char>| !table_entries(table).contains_key(name),
{
    SymbolTable { map: HashMap::new() }
}

/// `HashMap::get` of hashbrown: the number entered under a name, if one is.
#[verifier::external_body]
fn table_get(table: &SymbolTable, name: &str) -> (found: Option<u32>)
    ensures
        found == (if table_entries(*table).contains_key(name@) {
            Some(table_entries(*table)[name@])
        } else {
            None
        }),
{
    table.map.get(name).copied()
}

/// `HashMap::insert` of hashbrown: enters a number under a name, in place of
/// one that stood there, and leaves the other entries as they were.
#[verifier::external_body]
fn table_insert(table: &mut SymbolTable, name: String, value: u32)
    ensures
        table_entries(*final(table)) == table_entries(*old(table)).insert(name@, value),
{
    table.map.insert(name, value);
}

impl View for SymbolTable {
    type V = Map<Seq<char>, u32>;

    open spec fn view(&self) -> Map<Seq<char>, u32> {
        table_entries(*self)
    }
}

impl SymbolTable {
    pub fn new() -> (table: SymbolTable)
        ensures
            table@ == Map::<Seq<char>, u32>::empty(),
    {
        let table = new_table();
        assert(table@ =~= Map::<Seq<char>, u32>::empty());
        table
    }

    /// The number entered under `name`, if one is.
    pub fn get(&self, name: &str) -> (found: Option<u32>)
        ensures
            found == (if self@.contains_key(name@) {
                Some(self@[name@])
            } else {
                None
            }),
    {
        table_get(self, name)
    }

    /// Enters `value` under `name`, in place of what stood there.
    pub fn insert(&mut self, name: String, value: u32)
        ensures
            final(self)@ == old(self)@.insert(name@, value),
    {
        table_insert(self, name, value)
    }

    /// As `get`, for a name given by its characters.
    pub fn find(&self, name: &Vec<char>) -> (found: Option<u32>)
        ensures
            found == (if self@.contains_key(name@) {
                Some(self@[name@])
            } else {
                None
            }),
    {
        let key = crate::text::to_text(name);
        table_get(self, key.as_str())
    }

    /// As `insert`, for a name given by its characters.
    pub fn enter(&mut self, name: &Vec<char>, value: u32)
        ensures
            final(self)@ == old(self)@.insert(name@, value),
    {
        let key = crate::text::to_text(name);
        table_insert(self, key, value)
    }
}

} // verus!
