//! Fault bookkeeping of the test harness: which faults are active for
//! which targets, keyed by "<fault_type>:<target>".

use std::sync::atomic::AtomicU32;

use dashmap::DashMap;
use vstd::prelude::*;
use vstd::string::StringExecFns;

verus! {

#[verifier::external_type_specification]
#[verifier::external_body]
#[verifier::reject_recursive_types(K)]
#[verifier::reject_recursive_types(V)]
#[verifier::reject_recursive_types(S)]
pub struct ExDashMap<K, V, S>(dashmap::DashMap<K, V, S>);

/// An injected fault.
pub struct FaultEntry {
    pub fault_type: String,
    pub target: String,
    pub duration_ms: u64,
    pub count: AtomicU32,
}

/// What the fault table records of an entry.
pub open spec fn fault_view(e: FaultEntry) -> (Seq<char>, Seq<char>, u64) {
    (e.fault_type@, e.target@, e.duration_ms)
}

/// Contents of a fault table: key view to entry view.
pub uninterp spec fn fault_table(m: DashMap<String, FaultEntry>) -> Map<
    Seq<char>,
    (Seq<char>, Seq<char>, u64),
>;

/// The empty fault table.
pub open spec fn no_faults() -> Map<Seq<char>, (Seq<char>, Seq<char>, u64)> {
    Map::empty()
}

/// `DashMap::new`: an empty map.
#[verifier::external_body]
fn table_new() -> (r: DashMap<String, FaultEntry>)
    ensures
        fault_table(r) == no_faults(),
{
    DashMap::new()
}

/// `DashMap::insert`: stores `value` under `key`, replacing an old value.
#[verifier::external_body]
fn table_insert(m: &mut DashMap<String, FaultEntry>, key: String, value: FaultEntry)
    ensures
        fault_table(*final(m)) == fault_table(*old(m)).insert(key@, fault_view(value)),
{
    m.insert(key, value);
}

/// `DashMap::clear`: removes every entry.
#[verifier::external_body]
fn table_clear(m: &mut DashMap<String, FaultEntry>)
    ensures
        fault_table(*final(m)) == no_faults(),
{
    m.clear();
}

/// `DashMap::contains_key`: whether `key` has an entry.
#[verifier::external_body]
fn table_contains(m: &DashMap<String, FaultEntry>, key: &String) -> (r: bool)
    ensures
        r == fault_table(*m).contains_key(key@),
{
    m.contains_key(key)
}

/// `DashMap::iter`, keeping each key: every key once, in the map's
/// (unspecified) iteration order.
#[verifier::external_body]
fn table_keys(m: &DashMap<String, FaultEntry>) -> (r: Vec<String>)
    ensures
        r@.map_values(|s: String| s@).to_set() == fault_table(*m).dom(),
        r@.map_values(|s: String| s@).no_duplicates(),
{
    m.iter().map(|e| e.key().clone()).collect()
}

/// Key under which a fault is recorded.
pub open spec fn fault_key(fault_type: Seq<char>, target: Seq<char>) -> Seq<char> {
    fault_type + ":"@ + target
}

fn make_key(fault_type: &str, target: &str) -> (r: String)
    ensures
        r@ == fault_key(fault_type@, target@),
{
    let mut key = fault_type.to_owned();
    key.append(":");
    key.append(target);
    key
}

/// Active faults of a test node.
pub struct FaultInjector {
    faults: DashMap<String, FaultEntry>,
}

impl View for FaultInjector {
    type V = Map<Seq<char>, (Seq<char>, Seq<char>, u64)>;

    closed spec fn view(&self) -> Self::V {
        fault_table(self.faults)
    }
}

impl FaultInjector {
    pub fn new() -> (r: Self)
        ensures
            r@ == no_faults(),
    {
        FaultInjector { faults: table_new() }
    }

    /// Record a fault of `fault_type` against `target`, replacing an
    /// earlier one for the same pair.
    pub fn add_fault(&mut self, fault_type: &str, target: &str, duration_ms: u64, count: u32)
        ensures
            final(self)@ == old(self)@.insert(
                fault_key(fault_type@, target@),
                (fault_type@, target@, duration_ms),
            ),
    {
        let key = make_key(fault_type, target);
        let entry = FaultEntry {
            fault_type: fault_type.to_owned(),
            target: target.to_owned(),
            duration_ms,
            count: AtomicU32::new(count),
        };
        table_insert(&mut self.faults, key, entry);
    }

    /// Remove every fault.
    pub fn clear_all(&mut self)
        ensures
            final(self)@ == no_faults(),
    {
        table_clear(&mut self.faults);
    }

    /// Whether a fault of `fault_type` against `target` is active.
    pub fn has_fault(&self, fault_type: &str, target: &str) -> (r: bool)
        ensures
            r == self@.contains_key(fault_key(fault_type@, target@)),
    {
        let key = make_key(fault_type, target);
        table_contains(&self.faults, &key)
    }

    /// Keys of all active faults, each once, in unspecified order.
    pub fn active_faults(&self) -> (r: Vec<String>)
        ensures
            r@.map_values(|s: String| s@).to_set() == self@.dom(),
            r@.map_values(|s: String| s@).no_duplicates(),
    {
        table_keys(&self.faults)
    }
}

impl Default for FaultInjector {
    fn default() -> (r: Self)
        ensures
            r@ == no_faults(),
    {
        Self::new()
    }
}

/// A fault is active right after it is added, and stays active when other
/// faults are added.
pub proof fn law_added_fault_is_active(
    faults: Map<Seq<char>, (Seq<char>, Seq<char>, u64)>,
    fault_type: Seq<char>,
    target: Seq<char>,
    entry: (Seq<char>, Seq<char>, u64),
    other: Seq<char>,
)
    ensures
        faults.insert(fault_key(fault_type, target), entry).contains_key(fault_key(fault_type, target)),
        faults.contains_key(other) ==> faults.insert(fault_key(fault_type, target), entry).contains_key(
            other,
        ),
{
}

} // verus!
