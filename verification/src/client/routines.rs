use vstd::prelude::*;

use dashmap::DashMap;

use crate::net::{IpAddress, SocketAddress, spec_socket_address};

verus! {

/// The concurrent map that holds the sending routines, one per interface name.
#[verifier::external_type_specification]
#[verifier::external_body]
#[verifier::reject_recursive_types(K)]
#[verifier::reject_recursive_types(V)]
#[verifier::reject_recursive_types(S)]
pub struct ExDashMap<K, V, S>(DashMap<K, V, S>);

/// What a sending routine for one interface records: the address it sends
/// from (the interface's address, port 0), the server address it sends to,
/// when it last received a packet (nanoseconds on the program's monotonic
/// clock), how many bytes it has received, and whether it is closing.
#[derive(Clone, Copy, Debug, PartialEq, Eq, Structural)]
pub struct RoutineState {
    pub src_addr: SocketAddress,
    pub dst_addr: SocketAddress,
    pub last_received_at: u64,
    pub total_received_bytes: usize,
    pub is_closing: bool,
}

impl RoutineState {
    /// A new routine sending from `source` (port 0) to `dst`, created at
    /// `now`: nothing received yet, not closing.
    pub fn new(source: IpAddress, dst: SocketAddress, now: u64) -> (r: RoutineState)
        ensures
            r == (RoutineState {
                src_addr: spec_socket_address(source, 0),
                dst_addr: dst,
                last_received_at: now,
                total_received_bytes: 0,
                is_closing: false,
            }),
    {
        RoutineState {
            src_addr: SocketAddress::new(source, 0),
            dst_addr: dst,
            last_received_at: now,
            total_received_bytes: 0,
            is_closing: false,
        }
    }
}

/// The routines a `DashMap` holds, keyed by the characters of the
/// interface name.
pub uninterp spec fn dash_entries(m: DashMap<String, RoutineState>) -> Map<Seq<char>, RoutineState>;

/// The entry of `key` in a map of routines, as an option.
pub open spec fn spec_lookup(m: Map<Seq<char>, RoutineState>, key: Seq<char>) -> Option<RoutineState> {
    if m.contains_key(key) {
        Some(m[key])
    } else {
        None
    }
}

/// `DashMap::new`: an empty map.
#[verifier::external_body]
fn dash_new() -> (r: DashMap<String, RoutineState>)
    ensures
        dash_entries(r).dom().is_empty(),
{
    DashMap::new()
}

/// `DashMap::insert`: the key now maps to the value; the value it mapped to
/// before, if any, is returned.
#[verifier::external_body]
fn dash_insert(m: &mut DashMap<String, RoutineState>, key: String, value: RoutineState) -> (r: Option<RoutineState>)
    ensures
        dash_entries(*final(m)) == dash_entries(*old(m)).insert(key@, value),
        r == spec_lookup(dash_entries(*old(m)), key@),
{
    m.insert(key, value)
}

/// `DashMap::remove`: the key no longer maps to anything; the value it
/// mapped to, if any, is returned.
#[verifier::external_body]
fn dash_remove(m: &mut DashMap<String, RoutineState>, key: &String) -> (r: Option<RoutineState>)
    ensures
        dash_entries(*final(m)) == dash_entries(*old(m)).remove(key@),
        r == spec_lookup(dash_entries(*old(m)), key@),
{
    m.remove(key).map(|(_, v)| v)
}

/// `DashMap::get`: a copy of the value the key maps to, if any.
#[verifier::external_body]
fn dash_get(m: &DashMap<String, RoutineState>, key: &String) -> (r: Option<RoutineState>)
    ensures
        r == spec_lookup(dash_entries(*m), key@),
{
    m.get(key).map(|r| *r)
}

/// `DashMap::contains_key`: whether the key maps to a value.
#[verifier::external_body]
fn dash_contains_key(m: &DashMap<String, RoutineState>, key: &String) -> (r: bool)
    ensures
        r == dash_entries(*m).contains_key(key@),
{
    m.contains_key(key)
}

/// `DashMap::iter`, keys only: every key once, in the map's own order, which
/// depends on its hasher and is left open here.
#[verifier::external_body]
fn dash_keys(m: &DashMap<String, RoutineState>) -> (r: Vec<String>)
    ensures
        forall|k: Seq<char>| dash_entries(*m).contains_key(k) <==> exists|i: int|
            0 <= i < r@.len() && #[trigger] r@[i]@ == k,
        forall|i: int, j: int| 0 <= i < r@.len() && 0 <= j < r@.len() && i != j ==> r@[i]@ != r@[j]@,
{
    m.iter().map(|entry| entry.key().clone()).collect()
}

/// The table of sending routines of the client, keyed by interface name.
pub struct Routines {
    table: DashMap<String, RoutineState>,
}

impl View for Routines {
    type V = Map<Seq<char>, RoutineState>;

    closed spec fn view(&self) -> Map<Seq<char>, RoutineState> {
        dash_entries(self.table)
    }
}

/// Why a routine is dropped when the interfaces are checked.
#[derive(Clone, Copy, Debug, PartialEq, Eq, Structural)]
pub enum DropReason {
    /// The interface is in the excluded list.
    Excluded,
    /// The interface's usable address is no longer the routine's.
    AddressChanged,
    /// The interface has no usable address any more.
    NoAddress,
    /// No interface of that name exists any more.
    Gone,
}

/// What a write-back loop does next for its interface.
#[derive(Clone, Copy, Debug, PartialEq, Eq, Structural)]
pub enum WriteBack {
    /// The routine is closing: the loop ends.
    Stop,
    /// The routine is open: the loop waits for a packet.
    Listen,
}

/// The errors of the routine table.
#[derive(Clone, Copy, Debug, PartialEq, Eq, Structural)]
pub enum RoutineError {
    /// No routine has that interface name.
    NotFound,
}

impl Routines {
    /// An empty table.
    pub fn new() -> (r: Routines)
        ensures
            r@ == Map::<Seq<char>, RoutineState>::empty(),
    {
        let r = Routines { table: dash_new() };
        assert(r@ =~= Map::<Seq<char>, RoutineState>::empty());
        r
    }

    /// The routine of an interface, if there is one.
    pub fn get(&self, ifname: &String) -> (r: Option<RoutineState>)
        ensures
            r == spec_lookup(self@, ifname@),
    {
        dash_get(&self.table, ifname)
    }

    /// Whether an interface has a routine.
    pub fn contains(&self, ifname: &String) -> (r: bool)
        ensures
            r == self@.contains_key(ifname@),
    {
        dash_contains_key(&self.table, ifname)
    }

    /// The names of all routines, each once, in the table's own order.
    pub fn names(&self) -> (r: Vec<String>)
        ensures
            forall|k: Seq<char>| self@.contains_key(k) <==> exists|i: int|
                0 <= i < r@.len() && #[trigger] r@[i]@ == k,
            forall|i: int, j: int| 0 <= i < r@.len() && 0 <= j < r@.len() && i != j ==> r@[i]@ != r@[j]@,
    {
        dash_keys(&self.table)
    }

    /// Adds the routine of an interface that has none. (Adding one where one
    /// exists is a fault of the caller: the program stops.)
    pub fn add(&mut self, ifname: String, state: RoutineState)
        requires
            !old(self)@.contains_key(ifname@),
        ensures
            final(self)@ == old(self)@.insert(ifname@, state),
    {
        let _ = dash_insert(&mut self.table, ifname, state);
    }

    /// Removes the routine of an interface, if any, and returns it.
    pub fn remove(&mut self, ifname: &String) -> (r: Option<RoutineState>)
        ensures
            final(self)@ == old(self)@.remove(ifname@),
            r == spec_lookup(old(self)@, ifname@),
    {
        dash_remove(&mut self.table, ifname)
    }

    /// Removes the routines of all the names given.
    pub fn remove_all(&mut self, names: &Vec<String>)
        ensures
            final(self)@ == old(self)@.remove_keys(names@.map_values(|n: String| n@).to_set()),
    {
        let ghost start = self@;
        let ghost keys = names@.map_values(|n: String| n@);
        let n = names.len();
        let mut i: usize = 0;
        while i < n
            invariant
                n == names@.len(),
                keys == names@.map_values(|n: String| n@),
                i <= n,
                self@ == start.remove_keys(keys.take(i as int).to_set()),
            decreases n - i,
        {
            let ghost before = self@;
            let _ = self.remove(&names[i]);
            proof {
                assert(keys.take(i + 1) == keys.take(i as int).push(keys[i as int]));
                let a = keys.take(i as int);
                let b = keys.take(i + 1);
                assert forall|x: Seq<char>| #[trigger] b.contains(x) <==> a.contains(x) || x == keys[i as int] by {
                    if b.contains(x) {
                        let t = choose|t: int| 0 <= t < b.len() && b[t] == x;
                        if t < i {
                            assert(a[t] == x);
                        }
                    }
                    if a.contains(x) {
                        let t = choose|t: int| 0 <= t < a.len() && a[t] == x;
                        assert(b[t] == x);
                    }
                    if x == keys[i as int] {
                        assert(b[i as int] == x);
                    }
                }
                assert(b.to_set() =~= a.to_set().insert(keys[i as int]));
                assert(self@ =~= start.remove_keys(keys.take(i + 1).to_set()));
            }
            i = i + 1;
        }
        assert(keys.take(n as int) =~= keys);
    }
}

/// The record of a routine after it received `bytes` bytes at `now`.
pub open spec fn spec_after_receive(state: RoutineState, now: u64, bytes: usize) -> RoutineState {
    RoutineState {
        last_received_at: now,
        total_received_bytes: (state.total_received_bytes + bytes) as usize,
        ..state
    }
}

/// What the write-back loop of interface `name` does next.
pub open spec fn spec_write_back(m: Map<Seq<char>, RoutineState>, name: Seq<char>) -> Result<WriteBack, RoutineError> {
    match spec_lookup(m, name) {
        None => Err(RoutineError::NotFound),
        Some(st) => Ok(if st.is_closing { WriteBack::Stop } else { WriteBack::Listen }),
    }
}

impl Routines {
    /// What the write-back loop of an interface does next: stop when its
    /// routine is closing, listen when it is open; an error when the
    /// interface has no routine.
    pub fn write_back_step(&self, ifname: &String) -> (r: Result<WriteBack, RoutineError>)
        ensures
            r == spec_write_back(self@, ifname@),
    {
        match self.get(ifname) {
            None => Err(RoutineError::NotFound),
            Some(st) => Ok(if st.is_closing { WriteBack::Stop } else { WriteBack::Listen }),
        }
    }

    /// Records that the routine of `ifname` received `bytes` bytes at `now`:
    /// its last-received time becomes `now` and its byte count grows by
    /// `bytes`. An error, and no change, when the interface has no routine.
    pub fn record_received(&mut self, ifname: &String, now: u64, bytes: usize) -> (r: Result<(), RoutineError>)
        requires
            old(self)@.contains_key(ifname@) ==> old(self)@[ifname@].total_received_bytes + bytes
                <= usize::MAX,
        ensures
            old(self)@.contains_key(ifname@) ==> r == Ok::<(), RoutineError>(()) && final(self)@
                == old(self)@.insert(ifname@, spec_after_receive(old(self)@[ifname@], now, bytes)),
            !old(self)@.contains_key(ifname@) ==> r == Err::<(), RoutineError>(RoutineError::NotFound)
                && final(self)@ == old(self)@,
    {
        match self.get(ifname) {
            None => Err(RoutineError::NotFound),
            Some(st) => {
                let updated = RoutineState {
                    last_received_at: now,
                    total_received_bytes: st.total_received_bytes + bytes,
                    ..st
                };
                let _ = dash_insert(&mut self.table, ifname.clone(), updated);
                Ok(())
            },
        }
    }

    /// Marks the routine of `ifname` as closing, after a receive on its
    /// socket failed. An error, and no change, when the interface has no
    /// routine.
    pub fn mark_closing(&mut self, ifname: &String) -> (r: Result<(), RoutineError>)
        ensures
            old(self)@.contains_key(ifname@) ==> r == Ok::<(), RoutineError>(()) && final(self)@
                == old(self)@.insert(ifname@, RoutineState { is_closing: true, ..old(self)@[ifname@] }),
            !old(self)@.contains_key(ifname@) ==> r == Err::<(), RoutineError>(RoutineError::NotFound)
                && final(self)@ == old(self)@,
    {
        match self.get(ifname) {
            None => Err(RoutineError::NotFound),
            Some(st) => {
                let updated = RoutineState { is_closing: true, ..st };
                let _ = dash_insert(&mut self.table, ifname.clone(), updated);
                Ok(())
            },
        }
    }
}

/// Adding the routine of an interface that had none and then removing it
/// gives back the table as it was.
pub proof fn lemma_add_then_remove(m: Map<Seq<char>, RoutineState>, name: Seq<char>, state: RoutineState)
    requires
        !m.contains_key(name),
    ensures
        m.insert(name, state).remove(name) == m,
{
    assert(m.insert(name, state).remove(name) =~= m);
}

/// Once the routine of an interface is marked closing, its write-back loop
/// stops at its next step.
pub proof fn lemma_closing_stops_write_back(m: Map<Seq<char>, RoutineState>, name: Seq<char>)
    requires
        m.contains_key(name),
    ensures
        spec_write_back(m.insert(name, RoutineState { is_closing: true, ..m[name] }), name)
            == Ok::<WriteBack, RoutineError>(WriteBack::Stop),
{
}

/// A routine's record has only moved forward from `old` to `new`: same
/// addresses, byte count and last-received time not smaller, and a closing
/// routine still closing.
pub open spec fn spec_moved_forward(old: RoutineState, new: RoutineState) -> bool {
    &&& new.src_addr == old.src_addr
    &&& new.dst_addr == old.dst_addr
    &&& new.total_received_bytes >= old.total_received_bytes
    &&& new.last_received_at >= old.last_received_at
    &&& old.is_closing ==> new.is_closing
}

/// Every routine of `new` that was in `old` has only moved forward.
pub open spec fn spec_table_moved_forward(
    old: Map<Seq<char>, RoutineState>,
    new: Map<Seq<char>, RoutineState>,
) -> bool {
    forall|k: Seq<char>|
        #[trigger] new.contains_key(k) && old.contains_key(k) ==> spec_moved_forward(old[k], new[k])
}

/// Moving forward is reflexive and transitive, so it holds across any run
/// of steps that each move forward.
pub proof fn lemma_moved_forward_chains(
    a: Map<Seq<char>, RoutineState>,
    b: Map<Seq<char>, RoutineState>,
    c: Map<Seq<char>, RoutineState>,
)
    requires
        spec_table_moved_forward(a, b),
        spec_table_moved_forward(b, c),
        forall|k: Seq<char>| #[trigger] c.contains_key(k) && a.contains_key(k) ==> b.contains_key(k),
    ensures
        spec_table_moved_forward(a, a),
        spec_table_moved_forward(a, c),
{
    assert forall|k: Seq<char>| #[trigger] c.contains_key(k) && a.contains_key(k) implies spec_moved_forward(a[k], c[k]) by {
        assert(b.contains_key(k));
        assert(spec_moved_forward(a[k], b[k]));
        assert(spec_moved_forward(b[k], c[k]));
    }
}

/// Records only move forward: recording a packet at a time no earlier than
/// the routine's last one ([`Routines::record_received`]) and marking a
/// routine closing ([`Routines::mark_closing`]) move every routine forward:
/// byte counts never fall, last-received times never move back, and a
/// closing routine never reopens. Removals drop routines and change no
/// other.
pub proof fn lemma_routine_steps_move_forward(
    m: Map<Seq<char>, RoutineState>,
    name: Seq<char>,
    now: u64,
    bytes: usize,
    gone: Set<Seq<char>>,
)
    requires
        m.contains_key(name),
        now >= m[name].last_received_at,
        m[name].total_received_bytes + bytes <= usize::MAX,
    ensures
        spec_table_moved_forward(m, m.insert(name, spec_after_receive(m[name], now, bytes))),
        spec_table_moved_forward(m, m.insert(name, RoutineState { is_closing: true, ..m[name] })),
        spec_table_moved_forward(m, m.remove_keys(gone)),
{
}

/// What the write-back loop of an interface does next depends only on
/// whether its routine exists and is closing: an open routine keeps its
/// loop listening whatever it has received and whenever, a closing one
/// stops it, and a missing one is an error. Recording a packet leaves the
/// next step as it was.
pub proof fn lemma_write_back_law(
    m: Map<Seq<char>, RoutineState>,
    name: Seq<char>,
    now: u64,
    bytes: usize,
)
    ensures
        !m.contains_key(name) ==> spec_write_back(m, name) == Err::<WriteBack, RoutineError>(
            RoutineError::NotFound,
        ),
        m.contains_key(name) && !m[name].is_closing ==> spec_write_back(m, name) == Ok::<
            WriteBack,
            RoutineError,
        >(WriteBack::Listen),
        m.contains_key(name) && m[name].is_closing ==> spec_write_back(m, name) == Ok::<
            WriteBack,
            RoutineError,
        >(WriteBack::Stop),
        m.contains_key(name) ==> spec_write_back(
            m.insert(name, spec_after_receive(m[name], now, bytes)),
            name,
        ) == spec_write_back(m, name),
{
}

} // verus!
