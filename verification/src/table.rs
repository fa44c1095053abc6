use std::collections::HashSet;

use dashmap::DashMap;
use vstd::prelude::*;

use crate::tick::InstrumentState;
use crate::units::InstrumentId;

verus! {

/// `dashmap::DashMap`, the sharded concurrent map the engine keeps its
/// per-instrument entries in.
#[verifier::external_type_specification]
#[verifier::external_body]
#[verifier::reject_recursive_types(K)]
#[verifier::reject_recursive_types(V)]
#[verifier::reject_recursive_types(S)]
pub struct ExDashMap<K, V, S>(DashMap<K, V, S>);

/// What the engine keeps per instrument: its rolling state and the ids of
/// the rules currently firing for it.
pub struct InstrumentEntry {
    /// Rolling state of the instrument.
    pub state: InstrumentState,
    /// Values of the ids of the rules currently firing for the instrument.
    pub firing: HashSet<u128>,
}

impl InstrumentEntry {
    /// The entry as plain values.
    pub open spec fn contents(&self) -> (InstrumentState, Set<u128>) {
        (self.state, self.firing@)
    }
}

/// What an instrument table holds: for each instrument (by its text), its
/// state and the ids of its firing rules.
pub uninterp spec fn table_entries(m: DashMap<InstrumentId, InstrumentEntry>) -> Map<Seq<char>, (InstrumentState, Set<u128>)>;

/// An empty table, from `dashmap::DashMap::new`.
#[verifier::external_body]
pub(crate) fn table_new() -> (table: DashMap<InstrumentId, InstrumentEntry>)
    ensures
        table_entries(table) =~= Map::empty(),
{
    DashMap::new()
}

/// Store `entry` under `key`, replacing any entry for the same instrument,
/// with `dashmap::DashMap::insert` (keys compare by their text).
#[verifier::external_body]
pub(crate) fn table_insert(m: &mut DashMap<InstrumentId, InstrumentEntry>, key: InstrumentId, entry: InstrumentEntry)
    ensures
        table_entries(*final(m)) == table_entries(*old(m)).insert(key@, entry.contents()),
{
    m.insert(key, entry);
}

/// Take the entry of `key` out of the table, with
/// `dashmap::DashMap::remove`.
#[verifier::external_body]
pub(crate) fn table_remove(m: &mut DashMap<InstrumentId, InstrumentEntry>, key: &InstrumentId) -> (r: Option<InstrumentEntry>)
    ensures
        table_entries(*final(m)) == table_entries(*old(m)).remove(key@),
        r is Some <==> table_entries(*old(m)).contains_key(key@),
        r matches Some(e) ==> e.contents() == table_entries(*old(m))[key@],
{
    m.remove(key).map(|(_, entry)| entry)
}

/// A copy of the state stored for `key`, with `dashmap::DashMap::get`.
#[verifier::external_body]
pub(crate) fn table_state(m: &DashMap<InstrumentId, InstrumentEntry>, key: &InstrumentId) -> (r: Option<InstrumentState>)
    ensures
        r == if table_entries(*m).contains_key(key@) {
            Some(table_entries(*m)[key@].0)
        } else {
            None::<InstrumentState>
        },
{
    m.get(key).map(|entry| entry.state)
}

/// Number of instruments in the table, with `dashmap::DashMap::len`.
#[verifier::external_body]
pub(crate) fn table_len(m: &DashMap<InstrumentId, InstrumentEntry>) -> (n: usize)
    ensures
        n == table_entries(*m).len(),
{
    m.len()
}

} // verus!
