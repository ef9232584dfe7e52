//! Tables from names to values: the globals of a machine, and the methods and
//! the fields of a struct.
use crate::value::Value;
use rustc_hash::FxHasher;
use std::hash::BuildHasherDefault;
use vstd::prelude::*;

verus! {

/// A `hashbrown` map from a name, given as the place of its string in the
/// heap, to a value.
#[verifier::external_body]
pub struct Table {
    map: hashbrown::HashMap<usize, Value, BuildHasherDefault<FxHasher>>,
}

/// What a table holds.
pub uninterp spec fn table_contents(table: Table) -> Map<usize, Value>;

/// What a table without entries holds.
pub open spec fn no_entries() -> Map<usize, Value> {
    Map::empty()
}

/// Whether the entries are those of the map, each of them once, in some order.
pub open spec fn lists(entries: Seq<(usize, Value)>, map: Map<usize, Value>) -> bool {
    &&& entries.no_duplicates()
    &&& forall|name: usize, value: Value| #[trigger]
        entries.contains((name, value)) <==> map.contains_key(name) && map[name] == value
}

impl View for Table {
    type V = Map<usize, Value>;

    open spec fn view(&self) -> Map<usize, Value> {
        table_contents(*self)
    }
}

impl Table {
    /// `HashMap::with_capacity_and_hasher`: the map that it makes is empty. A
    /// capacity beyond the address space would panic.
    #[verifier::external_body]
    pub(crate) fn with_capacity(capacity: usize) -> (table: Table)
        requires
            capacity <= 0x1000,
        ensures
            table_contents(table) == no_entries(),
    {
        let map = hashbrown::HashMap::with_capacity_and_hasher(
            capacity,
            BuildHasherDefault::default(),
        );
        Table { map }
    }

    /// `HashMap::insert`: the name then has the value, and no other name is
    /// touched.
    #[verifier::external_body]
    pub(crate) fn insert(&mut self, name: usize, value: Value)
        ensures
            table_contents(*final(self)) == table_contents(*old(self)).insert(name, value),
    {
        self.map.insert(name, value);
    }

    /// `HashMap::get`: the value of a name that the map holds.
    #[verifier::external_body]
    pub(crate) fn get(&self, name: usize) -> (value: Option<Value>)
        ensures
            value == (if table_contents(*self).contains_key(name) {
                Some(table_contents(*self)[name])
            } else {
                None
            }),
    {
        self.map.get(&name).copied()
    }

    /// `HashMap::iter`: each entry comes out once. In which order they come is
    /// not said.
    #[verifier::external_body]
    pub(crate) fn entries(&self) -> (entries: Vec<(usize, Value)>)
        ensures
            lists(entries@, table_contents(*self)),
    {
        self.map.iter().map(|(name, value)| (*name, *value)).collect()
    }

    /// `HashMap::clone`: the copy holds what the map holds.
    #[verifier::external_body]
    pub(crate) fn duplicate(&self) -> (copy: Table)
        ensures
            table_contents(copy) == table_contents(*self),
    {
        Table { map: self.map.clone() }
    }
}

} // verus!
