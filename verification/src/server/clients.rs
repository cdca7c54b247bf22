use vstd::prelude::*;

use crate::net::SocketAddress;

verus! {

/// What the server knows of a client address: when it last heard from it
/// (nanoseconds on the program's monotonic clock) and how many bytes it has
/// received from it in all.
#[derive(Clone, Copy, Debug, PartialEq, Eq, Structural)]
pub struct ClientRecord {
    pub last_received_at: u64,
    pub total_received_bytes: usize,
}

/// Nanoseconds in a second: timestamps count nanoseconds on the program's
/// monotonic clock, as `Instant` does.
pub const NANOS_PER_SEC: u64 = 1_000_000_000;

/// Whole seconds from `then` to `now`; zero when `now` is earlier.
pub open spec fn spec_elapsed_secs(now: u64, then: u64) -> int {
    if now >= then {
        (now - then) / (NANOS_PER_SEC as int)
    } else {
        0
    }
}

/// Whether a client has been silent for more than `timeout` whole seconds.
pub open spec fn spec_timed_out(now: u64, record: ClientRecord, timeout: u64) -> bool {
    spec_elapsed_secs(now, record.last_received_at) > timeout
}

/// Whole seconds from `then` to `now`; zero when `now` is earlier.
pub fn elapsed_secs(now: u64, then: u64) -> (r: u64)
    ensures
        r == spec_elapsed_secs(now, then),
{
    if now >= then {
        (now - then) / NANOS_PER_SEC
    } else {
        0
    }
}

/// When a client counts as timed out: exactly when at least `timeout + 1`
/// whole seconds have passed since it was last heard from. A client silent
/// for at most `timeout` whole seconds (less than `timeout + 1` seconds) is
/// live, whatever the timeout; a clock reading earlier than the last-heard
/// time counts as no time passed.
pub proof fn lemma_timed_out_law(now: u64, record: ClientRecord, timeout: u64)
    ensures
        spec_timed_out(now, record, timeout) <==> now >= record.last_received_at && now
            - record.last_received_at >= (timeout + 1) * 1_000_000_000,
{
    if now >= record.last_received_at {
        let d: int = now - record.last_received_at;
        let t: int = timeout as int;
        assert(d / 1_000_000_000 > t <==> d >= (t + 1) * 1_000_000_000) by (nonlinear_arith)
            requires
                d >= 0,
                t >= 0,
        ;
    }
}

/// The record of a client after a packet of `bytes` bytes came from it at
/// `now`: a new client starts with that packet alone.
pub open spec fn spec_after_packet(old: Option<ClientRecord>, now: u64, bytes: usize) -> ClientRecord {
    match old {
        Some(r) => ClientRecord {
            last_received_at: now,
            total_received_bytes: (r.total_received_bytes + bytes) as usize,
        },
        None => ClientRecord { last_received_at: now, total_received_bytes: bytes },
    }
}

/// A packet moves the client's last-heard time to the packet's time and
/// adds the packet's size to its byte count; a new client starts with the
/// packet's size alone.
pub proof fn lemma_after_packet_law(r: ClientRecord, now: u64, bytes: usize)
    ensures
        spec_after_packet(None, now, bytes) == (ClientRecord {
            last_received_at: now,
            total_received_bytes: bytes,
        }),
        r.total_received_bytes + bytes <= usize::MAX ==> spec_after_packet(Some(r), now, bytes).total_received_bytes
            == r.total_received_bytes + bytes,
        spec_after_packet(Some(r), now, bytes).last_received_at == now,
{
}

/// The table of client addresses the server relays to; each address is in
/// it once.
///
/// The entries are a list of distinct addresses rather than a `HashMap`
/// keyed by [`SocketAddress`]: vstd specifies `HashMap` only for key types it
/// knows to hash and compare consistently (the integer types), and a struct
/// key such as `SocketAddress` is not one of them, so nothing about such a
/// map's contents could be proved. The order of the list, insertion order,
/// is one of the orders a hash map could have walked in.
pub struct ClientTable {
    entries: Vec<(SocketAddress, ClientRecord)>,
}

/// The index of the first entry with address `k`, or -1.
pub open spec fn spec_index_of(entries: Seq<(SocketAddress, ClientRecord)>, k: SocketAddress) -> int {
    if exists|i: int| 0 <= i < entries.len() && entries[i].0 == k {
        choose|i: int| 0 <= i < entries.len() && entries[i].0 == k
    } else {
        -1
    }
}

pub open spec fn spec_distinct(entries: Seq<(SocketAddress, ClientRecord)>) -> bool {
    forall|i: int, j: int|
        0 <= i < entries.len() && 0 <= j < entries.len() && i != j ==> entries[i].0
            != entries[j].0
}

/// The map from address to record that a list of distinct entries stands for.
pub open spec fn spec_entries_map(entries: Seq<(SocketAddress, ClientRecord)>) -> Map<
    SocketAddress,
    ClientRecord,
> {
    Map::new(
        |k: SocketAddress| spec_index_of(entries, k) >= 0,
        |k: SocketAddress| entries[spec_index_of(entries, k)].1,
    )
}

proof fn lemma_map_at(entries: Seq<(SocketAddress, ClientRecord)>, i: int)
    requires
        spec_distinct(entries),
        0 <= i < entries.len(),
    ensures
        spec_entries_map(entries).contains_key(entries[i].0),
        spec_entries_map(entries)[entries[i].0] == entries[i].1,
{
    let k = entries[i].0;
    assert(exists|j: int| 0 <= j < entries.len() && entries[j].0 == k);
    let j = spec_index_of(entries, k);
    assert(j == i);
}

proof fn lemma_map_absent(entries: Seq<(SocketAddress, ClientRecord)>, k: SocketAddress)
    requires
        forall|i: int| 0 <= i < entries.len() ==> entries[i].0 != k,
    ensures
        !spec_entries_map(entries).contains_key(k),
{
}

proof fn lemma_map_has(entries: Seq<(SocketAddress, ClientRecord)>, k: SocketAddress)
    requires
        spec_entries_map(entries).contains_key(k),
    ensures
        exists|i: int| 0 <= i < entries.len() && entries[i].0 == k,
{
}

/// Two lists of distinct entries with the same map.
proof fn lemma_map_ext(
    a: Seq<(SocketAddress, ClientRecord)>,
    m: Map<SocketAddress, ClientRecord>,
)
    requires
        spec_distinct(a),
        forall|i: int| 0 <= i < a.len() ==> m.contains_key(#[trigger] a[i].0) && m[a[i].0] == a[i].1,
        forall|k: SocketAddress| m.contains_key(k) ==> exists|i: int| 0 <= i < a.len() && a[i].0 == k,
    ensures
        spec_entries_map(a) == m,
{
    assert forall|k: SocketAddress| #[trigger] spec_entries_map(a).contains_key(k) <==> m.contains_key(k) by {
        if m.contains_key(k) {
            let i = choose|i: int| 0 <= i < a.len() && a[i].0 == k;
            lemma_map_at(a, i);
        }
        if spec_entries_map(a).contains_key(k) {
            lemma_map_has(a, k);
        }
    }
    assert forall|k: SocketAddress| #[trigger] spec_entries_map(a).contains_key(k) implies spec_entries_map(a)[k] == m[k] by {
        lemma_map_has(a, k);
        let i = choose|i: int| 0 <= i < a.len() && a[i].0 == k;
        lemma_map_at(a, i);
    }
    assert(spec_entries_map(a) =~= m);
}

impl View for ClientTable {
    type V = Map<SocketAddress, ClientRecord>;

    closed spec fn view(&self) -> Map<SocketAddress, ClientRecord> {
        spec_entries_map(self.entries@)
    }
}

impl ClientTable {
    #[verifier::type_invariant]
    closed spec fn inv(self) -> bool {
        spec_distinct(self.entries@)
    }

    /// An empty table.
    pub fn new() -> (r: ClientTable)
        ensures
            r@ == Map::<SocketAddress, ClientRecord>::empty(),
    {
        let r = ClientTable { entries: Vec::new() };
        assert(r@ =~= Map::<SocketAddress, ClientRecord>::empty());
        r
    }

    /// The number of clients.
    pub fn len(&self) -> (r: usize)
        ensures
            r == self@.len(),
    {
        proof {
            use_type_invariant(self);
            self.lemma_dom_finite_len();
        }
        self.entries.len()
    }

    proof fn lemma_dom_finite_len(&self)
        requires
            spec_distinct(self.entries@),
        ensures
            self@.dom().finite(),
            self@.len() == self.entries@.len(),
        decreases self.entries@.len(),
    {
        let e = self.entries@;
        let keys = e.map_values(|p: (SocketAddress, ClientRecord)| p.0);
        assert(keys.no_duplicates()) by {
            assert forall|i: int, j: int| 0 <= i < keys.len() && 0 <= j < keys.len() && i != j implies keys[i] != keys[j] by {}
        }
        assert forall|k: SocketAddress| #[trigger] self@.dom().contains(k) <==> keys.to_set().contains(k) by {
            if self@.dom().contains(k) {
                lemma_map_has(e, k);
                let i = choose|i: int| 0 <= i < e.len() && e[i].0 == k;
                assert(keys[i] == k);
            }
            if keys.to_set().contains(k) {
                let i = choose|i: int| 0 <= i < keys.len() && keys[i] == k;
                lemma_map_at(e, i);
            }
        }
        assert(self@.dom() =~= keys.to_set());
        keys.unique_seq_to_set();
    }

    fn find(&self, addr: &SocketAddress) -> (r: Option<usize>)
        ensures
            match r {
                Some(i) => i < self.entries@.len() && self.entries@[i as int].0 == *addr,
                None => forall|i: int| 0 <= i < self.entries@.len() ==> self.entries@[i].0 != *addr,
            },
    {
        let n = self.entries.len();
        let mut i: usize = 0;
        while i < n
            invariant
                n == self.entries@.len(),
                i <= n,
                forall|j: int| 0 <= j < i ==> self.entries@[j].0 != *addr,
            decreases n - i,
        {
            if self.entries[i].0 == *addr {
                return Some(i);
            }
            i = i + 1;
        }
        None
    }

    /// The record of a client address, if it is in the table.
    pub fn get(&self, addr: &SocketAddress) -> (r: Option<ClientRecord>)
        ensures
            r == (if self@.contains_key(*addr) { Some(self@[*addr]) } else { None }),
    {
        proof { use_type_invariant(self); }
        match self.find(addr) {
            Some(i) => {
                proof { lemma_map_at(self.entries@, i as int); }
                Some(self.entries[i].1)
            },
            None => None,
        }
    }

    /// Records a packet of `bytes` bytes received from `addr` at `now`: the
    /// client's last-heard time becomes `now` and its byte count grows by
    /// `bytes`; an address not yet in the table is added with that packet
    /// alone. Returns whether the address is new.
    pub fn record_packet(&mut self, addr: SocketAddress, now: u64, bytes: usize) -> (is_new: bool)
        requires
            old(self)@.contains_key(addr) ==> old(self)@[addr].total_received_bytes + bytes
                <= usize::MAX,
        ensures
            is_new == !old(self)@.contains_key(addr),
            final(self)@ == old(self)@.insert(
                addr,
                spec_after_packet(
                    if old(self)@.contains_key(addr) { Some(old(self)@[addr]) } else { None },
                    now,
                    bytes,
                ),
            ),
    {
        proof { use_type_invariant(&*self); }
        let ghost old_entries = self.entries@;
        let ghost old_map = self@;
        match self.find(&addr) {
            Some(i) => {
                proof { lemma_map_at(old_entries, i as int); }
                let rec = self.entries[i].1;
                let updated = ClientRecord {
                    last_received_at: now,
                    total_received_bytes: rec.total_received_bytes + bytes,
                };
                let mut entries: Vec<(SocketAddress, ClientRecord)> = Vec::new();
                std::mem::swap(&mut entries, &mut self.entries);
                entries.set(i, (addr, updated));
                proof {
                    let new_map = old_map.insert(addr, updated);
                    assert(spec_distinct(entries@));
                    assert forall|j: int| 0 <= j < entries@.len() implies new_map.contains_key(#[trigger] entries@[j].0) && new_map[entries@[j].0] == entries@[j].1 by {
                        if j != i {
                            lemma_map_at(old_entries, j);
                        }
                    }
                    assert forall|k: SocketAddress| new_map.contains_key(k) implies exists|j: int| 0 <= j < entries@.len() && entries@[j].0 == k by {
                        if k != addr {
                            lemma_map_has(old_entries, k);
                            let j = choose|j: int| 0 <= j < old_entries.len() && old_entries[j].0 == k;
                            assert(entries@[j].0 == k);
                        } else {
                            assert(entries@[i as int].0 == k);
                        }
                    }
                    lemma_map_ext(entries@, new_map);
                }
                self.entries = entries;
                false
            },
            None => {
                proof { lemma_map_absent(old_entries, addr); }
                let fresh = ClientRecord { last_received_at: now, total_received_bytes: bytes };
                let mut entries: Vec<(SocketAddress, ClientRecord)> = Vec::new();
                std::mem::swap(&mut entries, &mut self.entries);
                entries.push((addr, fresh));
                proof {
                    let new_map = old_map.insert(addr, fresh);
                    assert(spec_distinct(entries@));
                    assert forall|j: int| 0 <= j < entries@.len() implies new_map.contains_key(#[trigger] entries@[j].0) && new_map[entries@[j].0] == entries@[j].1 by {
                        if j < old_entries.len() {
                            lemma_map_at(old_entries, j);
                        }
                    }
                    assert forall|k: SocketAddress| new_map.contains_key(k) implies exists|j: int| 0 <= j < entries@.len() && entries@[j].0 == k by {
                        if k != addr {
                            lemma_map_has(old_entries, k);
                            let j = choose|j: int| 0 <= j < old_entries.len() && old_entries[j].0 == k;
                            assert(entries@[j].0 == k);
                        } else {
                            assert(entries@[old_entries.len() as int].0 == k);
                        }
                    }
                    lemma_map_ext(entries@, new_map);
                }
                self.entries = entries;
                true
            },
        }
    }
}


/// Whether a list of addresses holds `a`.
pub fn contains_address(list: &Vec<SocketAddress>, a: &SocketAddress) -> (r: bool)
    ensures
        r == list@.contains(*a),
{
    let n = list.len();
    let mut i: usize = 0;
    while i < n
        invariant
            n == list@.len(),
            i <= n,
            forall|j: int| 0 <= j < i ==> list@[j] != *a,
        decreases n - i,
    {
        if list[i] == *a {
            assert(list@[i as int] == *a);
            return true;
        }
        i = i + 1;
    }
    false
}

impl ClientTable {
    /// Splits the clients in two: those silent for more than `timeout` whole
    /// seconds at `now`, which are to be dropped, and the others, which are
    /// to be sent the packet. Each client is in exactly one of the two lists,
    /// once.
    pub fn partition(&self, now: u64, timeout: u64) -> (r: (Vec<SocketAddress>, Vec<SocketAddress>))
        ensures
            r.0@.no_duplicates(),
            r.1@.no_duplicates(),
            forall|k: SocketAddress|
                r.0@.contains(k) <==> self@.contains_key(k) && spec_timed_out(now, self@[k], timeout),
            forall|k: SocketAddress|
                r.1@.contains(k) <==> self@.contains_key(k) && !spec_timed_out(now, self@[k], timeout),
    {
        proof { use_type_invariant(self); }
        let ghost e = self.entries@;
        let mut dropped: Vec<SocketAddress> = Vec::new();
        let mut kept: Vec<SocketAddress> = Vec::new();
        let n = self.entries.len();
        let mut i: usize = 0;
        while i < n
            invariant
                e == self.entries@,
                spec_distinct(e),
                n == e.len(),
                i <= n,
                dropped@.no_duplicates(),
                kept@.no_duplicates(),
                forall|k: SocketAddress| dropped@.contains(k) <==> exists|j: int|
                    0 <= j < i && #[trigger] e[j].0 == k && spec_timed_out(now, e[j].1, timeout),
                forall|k: SocketAddress| kept@.contains(k) <==> exists|j: int|
                    0 <= j < i && #[trigger] e[j].0 == k && !spec_timed_out(now, e[j].1, timeout),
            decreases n - i,
        {
            let (addr, rec) = self.entries[i];
            let ghost d0 = dropped@;
            let ghost k0 = kept@;
            if elapsed_secs(now, rec.last_received_at) > timeout {
                proof {
                    assert(!d0.contains(addr)) by {
                        if d0.contains(addr) {
                            let j = choose|j: int| 0 <= j < i && #[trigger] e[j].0 == addr && spec_timed_out(now, e[j].1, timeout);
                            assert(e[j].0 == e[i as int].0);
                        }
                    }
                }
                dropped.push(addr);
                proof {
                    assert forall|k: SocketAddress| dropped@.contains(k) <==> exists|j: int|
                        0 <= j < i + 1 && #[trigger] e[j].0 == k && spec_timed_out(now, e[j].1, timeout) by {
                        if dropped@.contains(k) && k != addr {
                            assert(d0.contains(k)) by {
                                let t = choose|t: int| 0 <= t < dropped@.len() && dropped@[t] == k;
                                assert(d0[t] == k);
                            }
                        }
                        if exists|j: int| 0 <= j < i + 1 && #[trigger] e[j].0 == k && spec_timed_out(now, e[j].1, timeout) {
                            if k != addr {
                                assert(d0.contains(k));
                                let t = choose|t: int| 0 <= t < d0.len() && d0[t] == k;
                                assert(dropped@[t] == k);
                            } else {
                                assert(dropped@[d0.len() as int] == k);
                            }
                        }
                    }
                    assert forall|k: SocketAddress| kept@.contains(k) <==> exists|j: int|
                        0 <= j < i + 1 && #[trigger] e[j].0 == k && !spec_timed_out(now, e[j].1, timeout) by {
                        if exists|j: int| 0 <= j < i + 1 && #[trigger] e[j].0 == k && !spec_timed_out(now, e[j].1, timeout) {
                            let j = choose|j: int| 0 <= j < i + 1 && #[trigger] e[j].0 == k && !spec_timed_out(now, e[j].1, timeout);
                            assert(j != i);
                        }
                    }
                }
            } else {
                proof {
                    assert(!k0.contains(addr)) by {
                        if k0.contains(addr) {
                            let j = choose|j: int| 0 <= j < i && #[trigger] e[j].0 == addr && !spec_timed_out(now, e[j].1, timeout);
                            assert(e[j].0 == e[i as int].0);
                        }
                    }
                }
                kept.push(addr);
                proof {
                    assert forall|k: SocketAddress| kept@.contains(k) <==> exists|j: int|
                        0 <= j < i + 1 && #[trigger] e[j].0 == k && !spec_timed_out(now, e[j].1, timeout) by {
                        if kept@.contains(k) && k != addr {
                            assert(k0.contains(k)) by {
                                let t = choose|t: int| 0 <= t < kept@.len() && kept@[t] == k;
                                assert(k0[t] == k);
                            }
                        }
                        if exists|j: int| 0 <= j < i + 1 && #[trigger] e[j].0 == k && !spec_timed_out(now, e[j].1, timeout) {
                            if k != addr {
                                assert(k0.contains(k));
                                let t = choose|t: int| 0 <= t < k0.len() && k0[t] == k;
                                assert(kept@[t] == k);
                            } else {
                                assert(kept@[k0.len() as int] == k);
                            }
                        }
                    }
                    assert forall|k: SocketAddress| dropped@.contains(k) <==> exists|j: int|
                        0 <= j < i + 1 && #[trigger] e[j].0 == k && spec_timed_out(now, e[j].1, timeout) by {
                        if exists|j: int| 0 <= j < i + 1 && #[trigger] e[j].0 == k && spec_timed_out(now, e[j].1, timeout) {
                            let j = choose|j: int| 0 <= j < i + 1 && #[trigger] e[j].0 == k && spec_timed_out(now, e[j].1, timeout);
                            assert(j != i);
                        }
                    }
                }
            }
            i = i + 1;
        }
        proof {
            assert forall|k: SocketAddress| #[trigger] self@.contains_key(k) implies exists|j: int| 0 <= j < n && e[j].0 == k && self@[k] == e[j].1 by {
                lemma_map_has(e, k);
                let j = choose|j: int| 0 <= j < e.len() && e[j].0 == k;
                lemma_map_at(e, j);
            }
            assert forall|j: int| 0 <= j < n implies self@.contains_key(#[trigger] e[j].0) && self@[e[j].0] == e[j].1 by {
                lemma_map_at(e, j);
            }
        }
        (dropped, kept)
    }

    /// Removes every client whose address is in `addrs`; the others stay as
    /// they were.
    pub fn remove_clients(&mut self, addrs: &Vec<SocketAddress>)
        ensures
            final(self)@ == old(self)@.remove_keys(addrs@.to_set()),
    {
        proof { use_type_invariant(&*self); }
        let ghost e = self.entries@;
        let ghost target = self@.remove_keys(addrs@.to_set());
        let mut kept: Vec<(SocketAddress, ClientRecord)> = Vec::new();
        let ghost mut src: Seq<int> = Seq::empty();
        let n = self.entries.len();
        let mut i: usize = 0;
        while i < n
            invariant
                e == self.entries@,
                spec_distinct(e),
                n == e.len(),
                i <= n,
                src.len() == kept@.len(),
                forall|t: int| 0 <= t < src.len() ==> 0 <= #[trigger] src[t] < i,
                forall|t: int| 0 <= t < src.len() ==> kept@[t] == e[#[trigger] src[t]],
                forall|t: int| 0 <= t < src.len() ==> !addrs@.contains(e[#[trigger] src[t]].0),
                spec_distinct(kept@),
                forall|j: int| 0 <= j < i && !addrs@.contains(#[trigger] e[j].0) ==> exists|t: int| 0 <= t < src.len() && src[t] == j,
            decreases n - i,
        {
            let entry = self.entries[i];
            if !contains_address(addrs, &entry.0) {
                let ghost k0 = kept@;
                let ghost s0 = src;
                kept.push(entry);
                proof {
                    src = src.push(i as int);
                    assert forall|a: int, b: int| 0 <= a < kept@.len() && 0 <= b < kept@.len() && a != b implies kept@[a].0 != kept@[b].0 by {
                        if a < k0.len() && b < k0.len() {
                            assert(kept@[a] == k0[a] && kept@[b] == k0[b]);
                        } else if a == k0.len() {
                            assert(kept@[b] == e[src[b]]);
                        } else {
                            assert(kept@[a] == e[src[a]]);
                        }
                    }
                    assert forall|j: int| 0 <= j < i + 1 && !addrs@.contains(#[trigger] e[j].0) implies exists|t: int| 0 <= t < src.len() && src[t] == j by {
                        if j < i {
                            let t = choose|t: int| 0 <= t < s0.len() && s0[t] == j;
                            assert(src[t] == j);
                        } else {
                            assert(src[s0.len() as int] == j);
                        }
                    }
                }
            }
            i = i + 1;
        }
        proof {
            assert forall|t: int| 0 <= t < kept@.len() implies target.contains_key(#[trigger] kept@[t].0) && target[kept@[t].0] == kept@[t].1 by {
                assert(kept@[t] == e[src[t]]);
                lemma_map_at(e, src[t]);
            }
            assert forall|k: SocketAddress| target.contains_key(k) implies exists|t: int| 0 <= t < kept@.len() && kept@[t].0 == k by {
                lemma_map_has(e, k);
                let j = choose|j: int| 0 <= j < e.len() && e[j].0 == k;
                let t = choose|t: int| 0 <= t < src.len() && src[t] == j;
                assert(kept@[t] == e[src[t]]);
            }
            lemma_map_ext(kept@, target);
        }
        self.entries = kept;
    }
}

impl ClientTable {
    /// Ends a relay round: drops the clients that timed out and those whose
    /// send failed, in that order, as one removal.
    pub fn end_round(&mut self, timed_out: Vec<SocketAddress>, failed: Vec<SocketAddress>)
        ensures
            final(self)@ == old(self)@.remove_keys((timed_out@ + failed@).to_set()),
    {
        let mut drop_list = timed_out;
        let mut failed = failed;
        let ghost joined = drop_list@ + failed@;
        drop_list.append(&mut failed);
        assert(drop_list@ =~= joined);
        if drop_list.len() > 0 {
            self.remove_clients(&drop_list);
        } else {
            assert(drop_list@.to_set() =~= Set::<SocketAddress>::empty());
            assert(self@.remove_keys(drop_list@.to_set()) =~= self@);
        }
    }
}

/// After a round of the relay (the clients are split at `now`, the packet
/// is sent to the live ones, and the timed-out ones and those whose send
/// failed are removed) every client left has been heard from within the
/// timeout, and every client heard from within the timeout whose send did
/// not fail is still there, with its record unchanged.
pub proof fn lemma_round_keeps_live_clients(
    table: Map<SocketAddress, ClientRecord>,
    now: u64,
    timeout: u64,
    timed_out: Seq<SocketAddress>,
    failed: Seq<SocketAddress>,
)
    requires
        forall|k: SocketAddress|
            timed_out.contains(k) <==> table.contains_key(k) && spec_timed_out(now, table[k], timeout),
    ensures
        forall|k: SocketAddress| #[trigger] table.remove_keys((timed_out + failed).to_set()).contains_key(k)
            ==> !spec_timed_out(now, table[k], timeout) && !failed.contains(k),
        forall|k: SocketAddress|
            table.contains_key(k) && !spec_timed_out(now, table[k], timeout) && !failed.contains(k)
                ==> #[trigger] table.remove_keys((timed_out + failed).to_set()).contains_key(k)
                && table.remove_keys((timed_out + failed).to_set())[k] == table[k],
{
    let gone = (timed_out + failed).to_set();
    assert forall|k: SocketAddress| #[trigger] gone.contains(k) <==> timed_out.contains(k) || failed.contains(k) by {
        if timed_out.contains(k) {
            let i = choose|i: int| 0 <= i < timed_out.len() && timed_out[i] == k;
            assert((timed_out + failed)[i] == k);
        }
        if failed.contains(k) {
            let i = choose|i: int| 0 <= i < failed.len() && failed[i] == k;
            assert((timed_out + failed)[timed_out.len() + i] == k);
        }
    }
}

/// One event of the server's client table: a packet of `.2` bytes from
/// `.0` at time `.1` when `.3` is true, the removal of `.0` otherwise.
pub open spec fn spec_apply(
    m: Map<SocketAddress, ClientRecord>,
    e: (SocketAddress, u64, usize, bool),
) -> Map<SocketAddress, ClientRecord> {
    if e.3 {
        m.insert(
            e.0,
            spec_after_packet(if m.contains_key(e.0) { Some(m[e.0]) } else { None }, e.1, e.2),
        )
    } else {
        m.remove(e.0)
    }
}

/// The table after a run of events, in order.
pub open spec fn spec_run(
    m: Map<SocketAddress, ClientRecord>,
    events: Seq<(SocketAddress, u64, usize, bool)>,
) -> Map<SocketAddress, ClientRecord>
    decreases events.len(),
{
    if events.len() == 0 {
        m
    } else {
        spec_apply(spec_run(m, events.drop_last()), events.last())
    }
}

/// The bytes of all packets from `a` in a run of events.
pub open spec fn spec_bytes_from(events: Seq<(SocketAddress, u64, usize, bool)>, a: SocketAddress) -> int
    decreases events.len(),
{
    if events.len() == 0 {
        0
    } else {
        spec_bytes_from(events.drop_last(), a) + if events.last().3 && events.last().0 == a {
            events.last().2 as int
        } else {
            0
        }
    }
}

/// The time of the last packet from `a` in a run of events, if any.
pub open spec fn spec_last_from(events: Seq<(SocketAddress, u64, usize, bool)>, a: SocketAddress) -> Option<u64>
    decreases events.len(),
{
    if events.len() == 0 {
        None
    } else if events.last().3 && events.last().0 == a {
        Some(events.last().1)
    } else {
        spec_last_from(events.drop_last(), a)
    }
}

proof fn lemma_no_packets_no_bytes(events: Seq<(SocketAddress, u64, usize, bool)>, a: SocketAddress)
    ensures
        spec_last_from(events, a) is None ==> spec_bytes_from(events, a) == 0,
    decreases events.len(),
{
    if events.len() > 0 {
        lemma_no_packets_no_bytes(events.drop_last(), a);
    }
}

/// A client's record counts exactly its own packets since it entered the
/// table: when `a` is not in the table at the start and is not removed
/// during a run (whatever happens to other addresses), then after the run
/// `a` is in the table exactly when a packet came from it, its byte count
/// is the sum of the sizes of those packets, and its last-heard time is the
/// time of the latest of them. The sum must fit in a `usize`, as
/// [`ClientTable::record_packet`] requires at each packet.
pub proof fn lemma_record_accounts_packets(
    m: Map<SocketAddress, ClientRecord>,
    events: Seq<(SocketAddress, u64, usize, bool)>,
    a: SocketAddress,
)
    requires
        !m.contains_key(a),
        forall|i: int| 0 <= i < events.len() && (#[trigger] events[i]).0 == a ==> events[i].3,
        spec_bytes_from(events, a) <= usize::MAX,
    ensures
        spec_run(m, events).contains_key(a) <==> spec_last_from(events, a) is Some,
        spec_run(m, events).contains_key(a) ==> spec_run(m, events)[a].total_received_bytes
            == spec_bytes_from(events, a) && Some(spec_run(m, events)[a].last_received_at)
            == spec_last_from(events, a),
    decreases events.len(),
{
    if events.len() > 0 {
        let rest = events.drop_last();
        assert forall|i: int| 0 <= i < rest.len() && (#[trigger] rest[i]).0 == a implies rest[i].3 by {
            assert(rest[i] == events[i]);
        }
        assert(spec_bytes_from(rest, a) <= spec_bytes_from(events, a));
        lemma_record_accounts_packets(m, rest, a);
        lemma_no_packets_no_bytes(rest, a);
        let e = events.last();
        let before = spec_run(m, rest);
        assert(spec_run(m, events) == spec_apply(before, e));
        if e.0 == a {
            assert(events[events.len() - 1] == e);
            assert(e.3);
            assert(spec_bytes_from(events, a) == spec_bytes_from(rest, a) + e.2);
            if before.contains_key(a) {
                assert(before[a].total_received_bytes + e.2 <= usize::MAX);
            }
        } else {
            assert(spec_bytes_from(events, a) == spec_bytes_from(rest, a));
            assert(spec_last_from(events, a) == spec_last_from(rest, a));
            assert(spec_run(m, events).contains_key(a) == before.contains_key(a));
            if before.contains_key(a) {
                assert(spec_run(m, events)[a] == before[a]);
            }
        }
    }
}

} // verus!
