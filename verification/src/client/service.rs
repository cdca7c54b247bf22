use vstd::prelude::*;

use crate::client::routines::{DropReason, RoutineState, Routines};
use crate::client::settings::ClientSettings;
use crate::interfaces::{Interface, get_address_by_interface, spec_first_usable};
use crate::net::{IpAddress, Ipv4Address, SocketAddress, spec_socket_address};

verus! {

/// The characters of each string of a list.
pub open spec fn spec_names(v: Seq<String>) -> Seq<Seq<char>> {
    v.map_values(|s: String| s@)
}

/// Whether `i` is the index of the first interface named `name`.
pub open spec fn spec_is_first_named(ifaces: Seq<Interface>, name: Seq<char>, i: int) -> bool {
    &&& 0 <= i < ifaces.len()
    &&& ifaces[i].name@ == name
    &&& forall|j: int| 0 <= j < i ==> (#[trigger] ifaces[j]).name@ != name
}

/// The index of the first interface named `name`, or -1 when none is.
pub open spec fn spec_first_named(ifaces: Seq<Interface>, name: Seq<char>) -> int {
    if exists|i: int| spec_is_first_named(ifaces, name, i) {
        choose|i: int| spec_is_first_named(ifaces, name, i)
    } else {
        -1
    }
}

proof fn lemma_first_named_unique(ifaces: Seq<Interface>, name: Seq<char>, i: int)
    requires
        spec_is_first_named(ifaces, name, i),
    ensures
        spec_first_named(ifaces, name) == i,
{
    let k = spec_first_named(ifaces, name);
    assert(spec_is_first_named(ifaces, name, k));
    if k < i {
        assert(ifaces[k].name@ != name);
    } else if i < k {
        assert(ifaces[i].name@ != name);
    }
}

proof fn lemma_first_named_none(ifaces: Seq<Interface>, name: Seq<char>)
    requires
        forall|j: int| 0 <= j < ifaces.len() ==> (#[trigger] ifaces[j]).name@ != name,
    ensures
        spec_first_named(ifaces, name) == -1,
{
}

/// Why the routine of interface `name`, sending from `state.src_addr`, is
/// dropped when the interfaces are `ifaces` and the excluded names
/// `excluded`; none when it stays. The first interface of that name counts.
pub open spec fn spec_drop_reason(
    name: Seq<char>,
    state: RoutineState,
    ifaces: Seq<Interface>,
    excluded: Seq<Seq<char>>,
) -> Option<DropReason> {
    if excluded.contains(name) {
        Some(DropReason::Excluded)
    } else {
        let i = spec_first_named(ifaces, name);
        if i < 0 {
            Some(DropReason::Gone)
        } else {
            match spec_first_usable(ifaces[i].addrs@) {
                Some(a) => if a != state.src_addr.spec_ip() {
                    Some(DropReason::AddressChanged)
                } else {
                    None
                },
                None => Some(DropReason::NoAddress),
            }
        }
    }
}

/// The address a new routine for `iface` would send from: none when the
/// interface is excluded, already has a routine, or has no usable address.
pub open spec fn spec_candidate(
    routines: Map<Seq<char>, RoutineState>,
    iface: Interface,
    excluded: Seq<Seq<char>>,
) -> Option<IpAddress> {
    if excluded.contains(iface.name@) || routines.contains_key(iface.name@) {
        None
    } else {
        spec_first_usable(iface.addrs@)
    }
}

/// Whether a list of names holds `name`.
pub fn contains_name(list: &Vec<String>, name: &String) -> (r: bool)
    ensures
        r == spec_names(list@).contains(name@),
{
    let n = list.len();
    let mut i: usize = 0;
    while i < n
        invariant
            n == list@.len(),
            i <= n,
            forall|j: int| 0 <= j < i ==> list@[j]@ != name@,
        decreases n - i,
    {
        if list[i] == *name {
            assert(spec_names(list@)[i as int] == name@);
            return true;
        }
        i = i + 1;
    }
    assert forall|j: int| 0 <= j < spec_names(list@).len() implies spec_names(list@)[j] != name@ by {
        assert(spec_names(list@)[j] == list@[j]@);
    }
    false
}

/// The index of the first interface named `name`.
fn find_interface(ifaces: &Vec<Interface>, name: &String) -> (r: Option<usize>)
    ensures
        match r {
            Some(i) => spec_first_named(ifaces@, name@) == i,
            None => spec_first_named(ifaces@, name@) == -1,
        },
{
    let n = ifaces.len();
    let mut i: usize = 0;
    while i < n
        invariant
            n == ifaces@.len(),
            i <= n,
            forall|j: int| 0 <= j < i ==> (#[trigger] ifaces@[j]).name@ != name@,
        decreases n - i,
    {
        if ifaces[i].name == *name {
            proof { lemma_first_named_unique(ifaces@, name@, i as int); }
            return Some(i);
        }
        i = i + 1;
    }
    proof { lemma_first_named_none(ifaces@, name@); }
    None
}

/// Why the routine of interface `name` is dropped, if it is: the interface
/// is excluded; or no interface has that name; or the first interface of
/// that name has no usable address; or its usable address is not the one
/// the routine sends from.
pub fn drop_reason(
    name: &String,
    state: &RoutineState,
    ifaces: &Vec<Interface>,
    excluded: &Vec<String>,
) -> (r: Option<DropReason>)
    ensures
        r == spec_drop_reason(name@, *state, ifaces@, spec_names(excluded@)),
{
    if contains_name(excluded, name) {
        return Some(DropReason::Excluded);
    }
    match find_interface(ifaces, name) {
        None => Some(DropReason::Gone),
        Some(i) => match get_address_by_interface(&ifaces[i]) {
            Some(a) => {
                if a != state.src_addr.ip() {
                    Some(DropReason::AddressChanged)
                } else {
                    None
                }
            },
            None => Some(DropReason::NoAddress),
        },
    }
}

/// The address the client's replies go back to: where the local WireGuard
/// last sent from.
pub open spec fn spec_initial_source() -> SocketAddress {
    SocketAddress::V4 { ip: Ipv4Address(0, 0, 0, 0), port: 0 }
}

/// The client's state: its settings, its sending routines, and the
/// address of the local WireGuard peer that replies are written back to.
pub struct Service {
    pub settings: ClientSettings,
    pub routines: Routines,
    pub source_addr: SocketAddress,
}

impl Service {
    /// A service with the given settings, no routine yet, and replies going
    /// to `0.0.0.0:0` until WireGuard is first heard from.
    pub fn new(settings: ClientSettings) -> (r: Service)
        ensures
            r.settings == settings,
            r.routines@ == Map::<Seq<char>, RoutineState>::empty(),
            r.source_addr == spec_initial_source(),
    {
        Service {
            settings,
            routines: Routines::new(),
            source_addr: SocketAddress::V4 { ip: Ipv4Address::unspecified(), port: 0 },
        }
    }

    /// The routines to drop, given the interfaces the system lists now: each
    /// routine whose [`spec_drop_reason`] is some reason, once, with that
    /// reason.
    pub fn stale_routines(&self, ifaces: &Vec<Interface>) -> (r: Vec<(String, DropReason)>)
        ensures
            forall|i: int, j: int|
                0 <= i < r@.len() && 0 <= j < r@.len() && i != j ==> r@[i].0@ != r@[j].0@,
            forall|i: int|
                #![trigger r@[i]]
                0 <= i < r@.len() ==> self.routines@.contains_key(r@[i].0@) && spec_drop_reason(
                    r@[i].0@,
                    self.routines@[r@[i].0@],
                    ifaces@,
                    spec_names(self.settings.excluded_interfaces@),
                ) == Some(r@[i].1),
            forall|k: Seq<char>|
                #![trigger self.routines@[k]]
                self.routines@.contains_key(k) && spec_drop_reason(
                    k,
                    self.routines@[k],
                    ifaces@,
                    spec_names(self.settings.excluded_interfaces@),
                ) is Some ==> exists|i: int| 0 <= i < r@.len() && #[trigger] r@[i].0@ == k,
    {
        let ghost m = self.routines@;
        let ghost ex = spec_names(self.settings.excluded_interfaces@);
        let names = self.routines.names();
        let mut out: Vec<(String, DropReason)> = Vec::new();
        let ghost mut src: Seq<int> = Seq::empty();
        let n = names.len();
        let mut i: usize = 0;
        while i < n
            invariant
                m == self.routines@,
                ex == spec_names(self.settings.excluded_interfaces@),
                n == names@.len(),
                i <= n,
                forall|k: Seq<char>| m.contains_key(k) <==> exists|t: int|
                    0 <= t < names@.len() && #[trigger] names@[t]@ == k,
                forall|a: int, b: int|
                    0 <= a < names@.len() && 0 <= b < names@.len() && a != b ==> names@[a]@
                        != names@[b]@,
                src.len() == out@.len(),
                forall|t: int| 0 <= t < src.len() ==> 0 <= #[trigger] src[t] < i,
                forall|t: int| 0 <= t < src.len() ==> out@[t].0@ == names@[#[trigger] src[t]]@,
                forall|a: int, b: int| 0 <= a < src.len() && 0 <= b < src.len() && a != b ==> src[a] != src[b],
                forall|t: int|
                    #![trigger out@[t]]
                    0 <= t < out@.len() ==> m.contains_key(out@[t].0@) && spec_drop_reason(
                        out@[t].0@,
                        m[out@[t].0@],
                        ifaces@,
                        ex,
                    ) == Some(out@[t].1),
                forall|j: int|
                    0 <= j < i && spec_drop_reason(
                        (#[trigger] names@[j])@,
                        m[names@[j]@],
                        ifaces@,
                        ex,
                    ) is Some ==> exists|t: int| 0 <= t < src.len() && src[t] == j,
            decreases n - i,
        {
            let name = &names[i];
            assert(m.contains_key(name@));
            match self.routines.get(name) {
                Some(state) => {
                    match drop_reason(name, &state, ifaces, &self.settings.excluded_interfaces) {
                        Some(reason) => {
                            let ghost s0 = src;
                            out.push((name.clone(), reason));
                            proof {
                                src = src.push(i as int);
                                assert forall|j: int|
                                    0 <= j < i + 1 && spec_drop_reason(
                                        (#[trigger] names@[j])@,
                                        m[names@[j]@],
                                        ifaces@,
                                        ex,
                                    ) is Some implies exists|t: int| 0 <= t < src.len() && src[t] == j by {
                                    if j < i {
                                        let t = choose|t: int| 0 <= t < s0.len() && s0[t] == j;
                                        assert(src[t] == j);
                                    } else {
                                        assert(src[s0.len() as int] == j);
                                    }
                                }
                            }
                        },
                        None => {},
                    }
                },
                None => {},
            }
            i = i + 1;
        }
        proof {
            assert forall|a: int, b: int|
                0 <= a < out@.len() && 0 <= b < out@.len() && a != b implies out@[a].0@ != out@[b].0@ by {
                assert(out@[a].0@ == names@[src[a]]@);
                assert(out@[b].0@ == names@[src[b]]@);
            }
            assert forall|k: Seq<char>|
                #![trigger m[k]]
                m.contains_key(k) && spec_drop_reason(k, m[k], ifaces@, ex) is Some implies exists|t: int|
                    0 <= t < out@.len() && #[trigger] out@[t].0@ == k by {
                let j = choose|j: int| 0 <= j < names@.len() && #[trigger] names@[j]@ == k;
                let t = choose|t: int| 0 <= t < src.len() && src[t] == j;
                assert(out@[t].0@ == k);
            }
        }
        out
    }

    /// Drops the routines of the names given, whatever the reason.
    pub fn drop_routines(&mut self, dropped: &Vec<(String, DropReason)>)
        ensures
            final(self).settings == old(self).settings,
            final(self).source_addr == old(self).source_addr,
            final(self).routines@ == old(self).routines@.remove_keys(
                dropped@.map_values(|d: (String, DropReason)| d.0@).to_set(),
            ),
    {
        let mut names: Vec<String> = Vec::new();
        let n = dropped.len();
        let mut i: usize = 0;
        while i < n
            invariant
                n == dropped@.len(),
                i <= n,
                names@.len() == i,
                forall|t: int| 0 <= t < i ==> (#[trigger] names@[t])@ == dropped@[t].0@,
            decreases n - i,
        {
            names.push(dropped[i].0.clone());
            i = i + 1;
        }
        assert(spec_names(names@) =~= dropped@.map_values(|d: (String, DropReason)| d.0@));
        self.routines.remove_all(&names);
    }

    /// The address a new routine for `iface` would send from: none when the
    /// interface is excluded or already has a routine; otherwise its usable
    /// address, if it has one.
    pub fn creation_candidate(&self, iface: &Interface) -> (r: Option<IpAddress>)
        ensures
            r == spec_candidate(
                self.routines@,
                *iface,
                spec_names(self.settings.excluded_interfaces@),
            ),
    {
        if contains_name(&self.settings.excluded_interfaces, &iface.name) {
            return None;
        }
        if self.routines.contains(&iface.name) {
            return None;
        }
        get_address_by_interface(iface)
    }

    /// Records the address WireGuard last sent from; replies go there.
    pub fn set_source_addr(&mut self, addr: SocketAddress)
        ensures
            final(self).source_addr == addr,
            final(self).settings == old(self).settings,
            final(self).routines@ == old(self).routines@,
    {
        self.source_addr = addr;
    }
}

/// After the stale routines are dropped, every routine left belongs to an
/// interface that is not excluded, exists, and still has as its usable
/// address the address the routine sends from; its record is unchanged.
pub proof fn lemma_pruned_routines_are_current(
    before: Map<Seq<char>, RoutineState>,
    dropped: Seq<Seq<char>>,
    ifaces: Seq<Interface>,
    excluded: Seq<Seq<char>>,
)
    requires
        forall|k: Seq<char>|
            #![trigger before[k]]
            before.contains_key(k) && spec_drop_reason(k, before[k], ifaces, excluded) is Some
                ==> dropped.contains(k),
    ensures
        forall|k: Seq<char>|
            #[trigger] before.remove_keys(dropped.to_set()).contains_key(k) ==> {
                let i = spec_first_named(ifaces, k);
                &&& before.remove_keys(dropped.to_set())[k] == before[k]
                &&& !excluded.contains(k)
                &&& 0 <= i < ifaces.len()
                &&& ifaces[i].name@ == k
                &&& spec_first_usable(ifaces[i].addrs@) == Some(before[k].src_addr.spec_ip())
            },
{
    assert forall|k: Seq<char>|
        #[trigger] before.remove_keys(dropped.to_set()).contains_key(k) implies {
            let i = spec_first_named(ifaces, k);
            &&& before.remove_keys(dropped.to_set())[k] == before[k]
            &&& !excluded.contains(k)
            &&& 0 <= i < ifaces.len()
            &&& ifaces[i].name@ == k
            &&& spec_first_usable(ifaces[i].addrs@) == Some(before[k].src_addr.spec_ip())
        } by {
        assert(!dropped.contains(k));
        assert(spec_drop_reason(k, before[k], ifaces, excluded) is None);
        let i = spec_first_named(ifaces, k);
        if i >= 0 {
            assert(exists|j: int| spec_is_first_named(ifaces, k, j));
            assert(spec_is_first_named(ifaces, k, i));
        }
    }
}

/// A routine created for the first interface of its name, from the address
/// [`Service::creation_candidate`] gave, is current: the next check of the
/// same interfaces does not drop it.
pub proof fn lemma_created_routine_is_current(
    routines: Map<Seq<char>, RoutineState>,
    ifaces: Seq<Interface>,
    idx: int,
    excluded: Seq<Seq<char>>,
    a: IpAddress,
    dst: SocketAddress,
    now: u64,
)
    requires
        spec_is_first_named(ifaces, ifaces[idx].name@, idx),
        spec_candidate(routines, ifaces[idx], excluded) == Some(a),
    ensures
        spec_drop_reason(
            ifaces[idx].name@,
            RoutineState {
                src_addr: spec_socket_address(a, 0),
                dst_addr: dst,
                last_received_at: now,
                total_received_bytes: 0,
                is_closing: false,
            },
            ifaces,
            excluded,
        ) is None,
{
    lemma_first_named_unique(ifaces, ifaces[idx].name@, idx);
    assert(spec_socket_address(a, 0).spec_ip() == a);
}

/// The record of a routine created at `now` for an interface whose usable
/// address is `a`, sending to `dst`, as [`RoutineState::new`] makes it.
pub open spec fn spec_new_routine(a: IpAddress, dst: SocketAddress, now: u64) -> RoutineState {
    RoutineState {
        src_addr: spec_socket_address(a, 0),
        dst_addr: dst,
        last_received_at: now,
        total_received_bytes: 0,
        is_closing: false,
    }
}

/// The table after the stale routines are dropped: the routines that
/// [`spec_drop_reason`] keeps, unchanged.
pub open spec fn spec_pruned(
    m: Map<Seq<char>, RoutineState>,
    ifaces: Seq<Interface>,
    excluded: Seq<Seq<char>>,
) -> Map<Seq<char>, RoutineState> {
    Map::new(
        |k: Seq<char>| m.contains_key(k) && spec_drop_reason(k, m[k], ifaces, excluded) is None,
        |k: Seq<char>| m[k],
    )
}

/// The table after routines are created, in order, for the first `n`
/// interfaces: each interface with a candidate address gets a routine,
/// sending to `dsts(j)` and made at `times(j)` for the interface at `j`.
/// Every creation is taken to succeed.
pub open spec fn spec_created(
    m: Map<Seq<char>, RoutineState>,
    ifaces: Seq<Interface>,
    excluded: Seq<Seq<char>>,
    dsts: spec_fn(int) -> SocketAddress,
    times: spec_fn(int) -> u64,
    n: nat,
) -> Map<Seq<char>, RoutineState>
    decreases n,
{
    if n == 0 {
        m
    } else {
        let before = spec_created(m, ifaces, excluded, dsts, times, (n - 1) as nat);
        let j = n - 1;
        match spec_candidate(before, ifaces[j], excluded) {
            Some(a) => before.insert(ifaces[j].name@, spec_new_routine(a, dsts(j), times(j))),
            None => before,
        }
    }
}

/// One pass of the interface check: drop the stale routines, then create
/// routines for the interfaces that have a candidate address.
pub open spec fn spec_pass(
    m: Map<Seq<char>, RoutineState>,
    ifaces: Seq<Interface>,
    excluded: Seq<Seq<char>>,
    dsts: spec_fn(int) -> SocketAddress,
    times: spec_fn(int) -> u64,
) -> Map<Seq<char>, RoutineState> {
    spec_created(spec_pruned(m, ifaces, excluded), ifaces, excluded, dsts, times, ifaces.len())
}

/// Whether no routine of a table would be dropped by a check of `ifaces`.
pub open spec fn spec_current(
    m: Map<Seq<char>, RoutineState>,
    ifaces: Seq<Interface>,
    excluded: Seq<Seq<char>>,
) -> bool {
    forall|k: Seq<char>| #[trigger] m.contains_key(k) ==> spec_drop_reason(k, m[k], ifaces, excluded) is None
}

/// Whether no routine of a table belongs to an excluded interface.
pub open spec fn spec_no_excluded(m: Map<Seq<char>, RoutineState>, excluded: Seq<Seq<char>>) -> bool {
    forall|k: Seq<char>| #[trigger] m.contains_key(k) ==> !excluded.contains(k)
}

/// Whether no two interfaces of a list share a name.
pub open spec fn spec_unique_names(ifaces: Seq<Interface>) -> bool {
    forall|i: int, j: int|
        0 <= i < ifaces.len() && 0 <= j < ifaces.len() && i != j ==> ifaces[i].name@ != ifaces[j].name@
}

/// Whether an interface named `k` is one the client sends on: it is listed,
/// not excluded, and has a usable address.
pub open spec fn spec_wanted(ifaces: Seq<Interface>, excluded: Seq<Seq<char>>, k: Seq<char>) -> bool {
    exists|j: int|
        0 <= j < ifaces.len() && (#[trigger] ifaces[j]).name@ == k && !excluded.contains(k)
            && spec_first_usable(ifaces[j].addrs@) is Some
}

/// Dropping the routines that [`Service::stale_routines`] names, as
/// [`Service::drop_routines`] does, leaves exactly [`spec_pruned`].
pub proof fn lemma_dropping_stale_is_pruning(
    m: Map<Seq<char>, RoutineState>,
    dropped: Seq<Seq<char>>,
    ifaces: Seq<Interface>,
    excluded: Seq<Seq<char>>,
)
    requires
        forall|i: int|
            0 <= i < dropped.len() ==> m.contains_key(#[trigger] dropped[i]) && spec_drop_reason(
                dropped[i],
                m[dropped[i]],
                ifaces,
                excluded,
            ) is Some,
        forall|k: Seq<char>|
            #![trigger m[k]]
            m.contains_key(k) && spec_drop_reason(k, m[k], ifaces, excluded) is Some
                ==> dropped.contains(k),
    ensures
        m.remove_keys(dropped.to_set()) == spec_pruned(m, ifaces, excluded),
{
    assert forall|k: Seq<char>| #[trigger] m.remove_keys(dropped.to_set()).contains_key(k) <==> spec_pruned(m, ifaces, excluded).contains_key(k) by {
        if dropped.contains(k) {
            let i = choose|i: int| 0 <= i < dropped.len() && dropped[i] == k;
            assert(spec_drop_reason(dropped[i], m[dropped[i]], ifaces, excluded) is Some);
        }
    }
    assert(m.remove_keys(dropped.to_set()) =~= spec_pruned(m, ifaces, excluded));
}

/// The routines of a current table belong to wanted interfaces.
proof fn lemma_current_is_wanted(
    m: Map<Seq<char>, RoutineState>,
    ifaces: Seq<Interface>,
    excluded: Seq<Seq<char>>,
    k: Seq<char>,
)
    requires
        spec_current(m, ifaces, excluded),
        m.contains_key(k),
    ensures
        spec_wanted(ifaces, excluded, k),
{
    assert(spec_drop_reason(k, m[k], ifaces, excluded) is None);
    let i = spec_first_named(ifaces, k);
    assert(exists|j: int| spec_is_first_named(ifaces, k, j));
    assert(spec_is_first_named(ifaces, k, i));
    assert(ifaces[i].name@ == k);
}

/// Creating routines from candidates keeps a current table current, and
/// adds exactly the wanted interfaces among those visited.
proof fn lemma_created_current(
    p: Map<Seq<char>, RoutineState>,
    ifaces: Seq<Interface>,
    excluded: Seq<Seq<char>>,
    dsts: spec_fn(int) -> SocketAddress,
    times: spec_fn(int) -> u64,
    n: nat,
)
    requires
        spec_unique_names(ifaces),
        spec_current(p, ifaces, excluded),
        n <= ifaces.len(),
    ensures
        spec_current(spec_created(p, ifaces, excluded, dsts, times, n), ifaces, excluded),
        forall|k: Seq<char>|
            #[trigger] spec_created(p, ifaces, excluded, dsts, times, n).contains_key(k) <==> p.contains_key(k)
                || exists|j: int|
                0 <= j < n && (#[trigger] ifaces[j]).name@ == k && !excluded.contains(k)
                    && spec_first_usable(ifaces[j].addrs@) is Some,
    decreases n,
{
    if n > 0 {
        let j = n - 1;
        lemma_created_current(p, ifaces, excluded, dsts, times, (n - 1) as nat);
        let before = spec_created(p, ifaces, excluded, dsts, times, (n - 1) as nat);
        let after = spec_created(p, ifaces, excluded, dsts, times, n);
        let name = ifaces[j].name@;
        assert(spec_is_first_named(ifaces, name, j));
        match spec_candidate(before, ifaces[j], excluded) {
            Some(a) => {
                lemma_created_routine_is_current(before, ifaces, j, excluded, a, dsts(j), times(j));
                assert(after == before.insert(name, spec_new_routine(a, dsts(j), times(j))));
                assert forall|k: Seq<char>| #[trigger] after.contains_key(k) implies spec_drop_reason(k, after[k], ifaces, excluded) is None by {
                    if k != name {
                        assert(before.contains_key(k));
                    }
                }
            },
            None => {},
        }
        assert forall|k: Seq<char>|
            #[trigger] after.contains_key(k) <==> p.contains_key(k) || exists|i: int|
                0 <= i < n && (#[trigger] ifaces[i]).name@ == k && !excluded.contains(k)
                    && spec_first_usable(ifaces[i].addrs@) is Some by {
            if exists|i: int|
                0 <= i < n && (#[trigger] ifaces[i]).name@ == k && !excluded.contains(k)
                    && spec_first_usable(ifaces[i].addrs@) is Some {
                let i = choose|i: int|
                    0 <= i < n && (#[trigger] ifaces[i]).name@ == k && !excluded.contains(k)
                        && spec_first_usable(ifaces[i].addrs@) is Some;
                if i < j {
                    assert(before.contains_key(k));
                }
            }
        }
    }
}

/// Creating routines for a table that already has a routine for every
/// wanted interface, and only for such, adds nothing.
proof fn lemma_created_settled(
    c: Map<Seq<char>, RoutineState>,
    ifaces: Seq<Interface>,
    excluded: Seq<Seq<char>>,
    dsts: spec_fn(int) -> SocketAddress,
    times: spec_fn(int) -> u64,
    n: nat,
)
    requires
        forall|k: Seq<char>| #[trigger] c.contains_key(k) <==> spec_wanted(ifaces, excluded, k),
        n <= ifaces.len(),
    ensures
        spec_created(c, ifaces, excluded, dsts, times, n) == c,
    decreases n,
{
    if n > 0 {
        let j = n - 1;
        lemma_created_settled(c, ifaces, excluded, dsts, times, (n - 1) as nat);
        let name = ifaces[j].name@;
        if !excluded.contains(name) && spec_first_usable(ifaces[j].addrs@) is Some {
            assert(spec_wanted(ifaces, excluded, name));
        }
        assert(spec_candidate(c, ifaces[j], excluded) is None);
    }
}

/// The interface check settles in one pass: when the interfaces listed have
/// distinct names and every creation succeeds, one pass leaves a routine
/// for exactly the wanted interfaces (listed, not excluded, with a usable
/// address), every one of them current and none excluded; a second pass
/// over the same interfaces drops nothing, creates nothing, and leaves the
/// table as it was.
pub proof fn lemma_pass_settles(
    m: Map<Seq<char>, RoutineState>,
    ifaces: Seq<Interface>,
    excluded: Seq<Seq<char>>,
    dsts: spec_fn(int) -> SocketAddress,
    times: spec_fn(int) -> u64,
    dsts2: spec_fn(int) -> SocketAddress,
    times2: spec_fn(int) -> u64,
)
    requires
        spec_unique_names(ifaces),
    ensures
        forall|k: Seq<char>|
            #[trigger] spec_pass(m, ifaces, excluded, dsts, times).contains_key(k) <==> spec_wanted(
                ifaces,
                excluded,
                k,
            ),
        spec_current(spec_pass(m, ifaces, excluded, dsts, times), ifaces, excluded),
        spec_no_excluded(spec_pass(m, ifaces, excluded, dsts, times), excluded),
        spec_pruned(spec_pass(m, ifaces, excluded, dsts, times), ifaces, excluded) == spec_pass(
            m,
            ifaces,
            excluded,
            dsts,
            times,
        ),
        spec_pass(spec_pass(m, ifaces, excluded, dsts, times), ifaces, excluded, dsts2, times2)
            == spec_pass(m, ifaces, excluded, dsts, times),
{
    let p0 = spec_pruned(m, ifaces, excluded);
    assert(spec_current(p0, ifaces, excluded));
    lemma_created_current(p0, ifaces, excluded, dsts, times, ifaces.len());
    let c = spec_pass(m, ifaces, excluded, dsts, times);
    assert forall|k: Seq<char>| #[trigger] c.contains_key(k) <==> spec_wanted(ifaces, excluded, k) by {
        if c.contains_key(k) {
            lemma_current_is_wanted(c, ifaces, excluded, k);
        }
        if spec_wanted(ifaces, excluded, k) {
            let j = choose|j: int|
                0 <= j < ifaces.len() && (#[trigger] ifaces[j]).name@ == k && !excluded.contains(k)
                    && spec_first_usable(ifaces[j].addrs@) is Some;
            assert(ifaces[j].name@ == k);
        }
    }
    assert forall|k: Seq<char>| #[trigger] c.contains_key(k) implies !excluded.contains(k) by {
        assert(spec_drop_reason(k, c[k], ifaces, excluded) is None);
    }
    assert(spec_pruned(c, ifaces, excluded) =~= c);
    lemma_created_settled(c, ifaces, excluded, dsts2, times2, ifaces.len());
}

/// No routine ever belongs to an excluded interface: the empty table has
/// none; pruning removes every one; creating from a candidate adds none;
/// removing routines or updating an existing one keeps it so.
pub proof fn lemma_exclusion_invariant(
    m: Map<Seq<char>, RoutineState>,
    excluded: Seq<Seq<char>>,
    ifaces: Seq<Interface>,
    iface: Interface,
    name: Seq<char>,
    st: RoutineState,
    gone: Set<Seq<char>>,
)
    ensures
        spec_no_excluded(Map::<Seq<char>, RoutineState>::empty(), excluded),
        spec_no_excluded(spec_pruned(m, ifaces, excluded), excluded),
        spec_no_excluded(m, excluded) ==> spec_no_excluded(m.remove_keys(gone), excluded),
        spec_no_excluded(m, excluded) && spec_candidate(m, iface, excluded) is Some
            ==> spec_no_excluded(m.insert(iface.name@, st), excluded),
        spec_no_excluded(m, excluded) && m.contains_key(name) ==> spec_no_excluded(
            m.insert(name, st),
            excluded,
        ),
{
    assert forall|k: Seq<char>| #[trigger] spec_pruned(m, ifaces, excluded).contains_key(k) implies !excluded.contains(k) by {
        assert(spec_drop_reason(k, m[k], ifaces, excluded) is None);
    }
}

/// What decides whether a routine is dropped: only the address it sends
/// from, the interfaces and the excluded names. Its byte count, its
/// last-received time and whether it is closing play no part. An excluded
/// routine is dropped as excluded; otherwise one whose interface is not
/// listed is gone; otherwise the first interface of its name decides: with
/// no usable address the routine is dropped for that, with a usable address
/// other than the routine's source IP it is dropped as changed, and with the
/// routine's own source IP it is kept.
pub proof fn lemma_drop_reason_law(
    name: Seq<char>,
    st: RoutineState,
    other: RoutineState,
    ifaces: Seq<Interface>,
    excluded: Seq<Seq<char>>,
    i: int,
)
    ensures
        other.src_addr == st.src_addr ==> spec_drop_reason(name, other, ifaces, excluded)
            == spec_drop_reason(name, st, ifaces, excluded),
        excluded.contains(name) ==> spec_drop_reason(name, st, ifaces, excluded) == Some(
            DropReason::Excluded,
        ),
        !excluded.contains(name) && (forall|j: int| 0 <= j < ifaces.len() ==> (#[trigger] ifaces[j]).name@ != name)
            ==> spec_drop_reason(name, st, ifaces, excluded) == Some(DropReason::Gone),
        !excluded.contains(name) && spec_is_first_named(ifaces, name, i) ==> {
            &&& spec_first_usable(ifaces[i].addrs@) is None ==> spec_drop_reason(name, st, ifaces, excluded)
                == Some(DropReason::NoAddress)
            &&& spec_first_usable(ifaces[i].addrs@) == Some(st.src_addr.spec_ip())
                ==> spec_drop_reason(name, st, ifaces, excluded) is None
            &&& (spec_first_usable(ifaces[i].addrs@) matches Some(a) && a != st.src_addr.spec_ip())
                ==> spec_drop_reason(name, st, ifaces, excluded) == Some(DropReason::AddressChanged)
        },
{
    if !excluded.contains(name) && spec_is_first_named(ifaces, name, i) {
        lemma_first_named_unique(ifaces, name, i);
    }
    if forall|j: int| 0 <= j < ifaces.len() ==> (#[trigger] ifaces[j]).name@ != name {
        lemma_first_named_none(ifaces, name);
    }
}

/// The candidate address of an interface: none when it is excluded or
/// already has a routine, whatever that routine records; otherwise its first
/// usable address, whatever other routines the table holds.
pub proof fn lemma_candidate_law(
    m: Map<Seq<char>, RoutineState>,
    other: Map<Seq<char>, RoutineState>,
    iface: Interface,
    excluded: Seq<Seq<char>>,
)
    ensures
        excluded.contains(iface.name@) ==> spec_candidate(m, iface, excluded) is None,
        m.contains_key(iface.name@) ==> spec_candidate(m, iface, excluded) is None,
        !excluded.contains(iface.name@) && !m.contains_key(iface.name@) ==> spec_candidate(
            m,
            iface,
            excluded,
        ) == spec_first_usable(iface.addrs@),
        m.contains_key(iface.name@) == other.contains_key(iface.name@) ==> spec_candidate(
            m,
            iface,
            excluded,
        ) == spec_candidate(other, iface, excluded),
{
}

/// The server address a new routine sends to: the first address the
/// destination name resolved to; none when it resolved to nothing.
pub fn pick_destination(resolved: &Vec<SocketAddress>) -> (r: Option<SocketAddress>)
    ensures
        r == (if resolved@.len() > 0 { Some(resolved@[0]) } else { None::<SocketAddress> }),
{
    if resolved.len() > 0 {
        Some(resolved[0])
    } else {
        None
    }
}

/// Whether a new routine's socket is bound to its interface by name: only
/// when the name is not empty.
pub fn binds_to_device(ifname: &String) -> (r: bool)
    ensures
        r == (ifname@.len() > 0),
{
    ifname.as_str().unicode_len() > 0
}

/// What a failed or successful send on a routine asks for: a failed send
/// closes the routine, named by its interface; a successful one asks
/// nothing.
pub fn closing_key(ifname: &String, sent: bool) -> (r: Option<String>)
    ensures
        r == (if sent { None } else { Some(*ifname) }),
{
    if sent {
        None
    } else {
        Some(ifname.clone())
    }
}

} // verus!
