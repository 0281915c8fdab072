//! A lookup table from symbols to indices.

use vstd::prelude::*;

verus! {

/// A table from symbols to indices, held in a `hashbrown::HashMap`.
#[verifier::external_body]
pub struct SymbolTable {
    map: hashbrown::HashMap<u64, usize>,
}

/// The key-value pairs that a table holds.
pub uninterp spec fn table_entries(t: SymbolTable) -> Map<u64, usize>;

impl SymbolTable {
    /// The pairs of the table, as a map.
    pub open spec fn view(&self) -> Map<u64, usize> {
        table_entries(*self)
    }

    /// `hashbrown::HashMap::new`: the new map holds nothing.
    #[verifier::external_body]
    pub(crate) fn new() -> (table: SymbolTable)
        ensures
            table_entries(table) =~= Map::empty(),
    {
        SymbolTable { map: hashbrown::HashMap::new() }
    }

    /// `hashbrown::HashMap::get`: the value stored under `key`, if there is one.
    #[verifier::external_body]
    pub(crate) fn get(&self, key: u64) -> (r: Option<usize>)
        ensures
            r == (if table_entries(*self).contains_key(key) {
                Some(table_entries(*self)[key])
            } else {
                None
            }),
    {
        self.map.get(&key).copied()
    }

    /// `hashbrown::HashMap::insert`: stores `value` under `key` and returns the value that
    /// was stored under it before, if there was one.
    #[verifier::external_body]
    pub(crate) fn insert(&mut self, key: u64, value: usize) -> (r: Option<usize>)
        ensures
            table_entries(*final(self)) == table_entries(*old(self)).insert(key, value),
            r == (if table_entries(*old(self)).contains_key(key) {
                Some(table_entries(*old(self))[key])
            } else {
                None
            }),
    {
        self.map.insert(key, value)
    }
}

} // verus!
