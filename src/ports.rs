//! The reconciliation engine: the subscriptions that the declared roles ask for, their
//! difference from the live subscriptions, and the order in which the difference is applied.

use vstd::prelude::*;
use crate::prefs::{is_default_for, last_index_where, lemma_last_index_where, lookup, DevicePrefs, DeviceRole, PortDir, PrefsModel, UserPrefs};

verus! {

/// The bus client that owns the timer and announce ports.
pub const SYSTEM_CLIENT: i32 = 0;

/// The system client's timer port.
pub const SYSTEM_TIMER_PORT: i32 = 0;

/// The system client's port that announces ports coming, going and changing.
pub const SYSTEM_ANNOUNCE_PORT: i32 = 1;

/// A port's address on the bus: client id and port id.
#[derive(Debug, Clone, Copy, PartialEq, Eq, Hash, Structural)]
pub struct Addr {
    pub client: i32,
    pub port: i32,
}

/// A subscription: messages sent by `sender` are delivered to `dest`.
#[derive(Debug, Clone, Copy, PartialEq, Eq, Hash, Structural)]
pub struct Sub {
    pub sender: Addr,
    pub dest: Addr,
}

/// A snapshot of the bus: its named ports and its live subscriptions.
#[derive(Debug, Clone)]
pub struct AlsaMidi {
    pub ports: Vec<(String, Addr)>,
    pub subs: Vec<Sub>,
}

impl AlsaMidi {
    /// Port names are unique, and each live subscription is held once.
    pub open spec fn wf(&self) -> bool {
        &&& forall|i: int, j: int|
            0 <= i < self.ports@.len() && 0 <= j < self.ports@.len() && i != j
                ==> self.ports@[i].0@ != self.ports@[j].0@
        &&& self.subs@.no_duplicates()
    }
}

pub open spec fn deref_prefs(o: Option<&DevicePrefs>) -> Option<DevicePrefs> {
    match o {
        Some(d) => Some(*d),
        None => None,
    }
}

/// A broadcaster sends to `other` unless `other` is configured as input-only.
pub open spec fn broadcast_ok(other: Option<DevicePrefs>) -> bool {
    match other {
        Some(c) => c.port_dir != PortDir::Input,
        None => true,
    }
}

/// A monitor listens to `other` unless `other` broadcasts or is configured as output-only.
pub open spec fn monitor_ok(other: Option<DevicePrefs>) -> bool {
    match other {
        Some(c) => !c.roles@.contains(DeviceRole::Broadcast) && c.port_dir != PortDir::Output,
        None => true,
    }
}

/// `s` is asked for by the roles of port `a` towards port `b`.
pub open spec fn pair_edge(
    ports: Seq<(String, Addr)>,
    devs: Seq<DevicePrefs>,
    a: int,
    b: int,
    s: Sub,
) -> bool {
    &&& 0 <= a < ports.len()
    &&& 0 <= b < ports.len()
    &&& a != b
    &&& match lookup(devs, ports[a].0@) {
        Some(pa) => {
            let ob = lookup(devs, ports[b].0@);
            ||| (pa.roles@.contains(DeviceRole::Broadcast) && broadcast_ok(ob) && s == Sub {
                sender: ports[a].1,
                dest: ports[b].1,
            })
            ||| (pa.roles@.contains(DeviceRole::Monitor) && monitor_ok(ob) && s == Sub {
                sender: ports[b].1,
                dest: ports[a].1,
            })
        },
        None => false,
    }
}

/// `s` belongs to the expected subscription graph.
pub open spec fn expected_edge(ports: Seq<(String, Addr)>, devs: Seq<DevicePrefs>, s: Sub) -> bool {
    exists|a: int, b: int| #[trigger] pair_edge(ports, devs, a, b, s)
}

/// Pairs up to (i, j) in row-major order have been visited.
pub open spec fn visited(i: int, j: int, a: int, b: int) -> bool {
    a < i || (a == i && b < j)
}

fn contains_sub(subs: &Vec<Sub>, s: Sub) -> (r: bool)
    ensures
        r == subs@.contains(s),
{
    let mut i: usize = 0;
    while i < subs.len()
        invariant
            i <= subs@.len(),
            forall|k: int| 0 <= k < i ==> subs@[k] != s,
        decreases subs@.len() - i,
    {
        if subs[i] == s {
            return true;
        }
        i = i + 1;
    }
    false
}

/// Adds `s` to a duplicate-free list, unless it is there already.
fn insert_sub(subs: &mut Vec<Sub>, s: Sub)
    requires
        old(subs)@.no_duplicates(),
    ensures
        final(subs)@.no_duplicates(),
        forall|x: Sub| final(subs)@.contains(x) <==> (old(subs)@.contains(x) || x == s),
{
    if !contains_sub(subs, s) {
        subs.push(s);
        proof {
            assert forall|x: Sub| subs@.contains(x) <==> (old(subs)@.contains(x) || x == s) by {
                if x == s {
                    assert(subs@[subs@.len() - 1] == s);
                }
                if old(subs)@.contains(x) {
                    let k = choose|k: int| 0 <= k < old(subs)@.len() && old(subs)@[k] == x;
                    assert(subs@[k] == x);
                }
            }
        }
    }
}

fn has_role(roles: &Vec<DeviceRole>, role: DeviceRole) -> (r: bool)
    ensures
        r == roles@.contains(role),
{
    let mut i: usize = 0;
    while i < roles.len()
        invariant
            i <= roles@.len(),
            forall|k: int| 0 <= k < i ==> roles@[k] != role,
        decreases roles@.len() - i,
    {
        if roles[i] == role {
            return true;
        }
        i = i + 1;
    }
    false
}

fn broadcast_allowed(oconfig: Option<&DevicePrefs>) -> (r: bool)
    ensures
        r == broadcast_ok(deref_prefs(oconfig)),
{
    match oconfig {
        Some(c) => c.port_dir != PortDir::Input,
        None => true,
    }
}

fn monitor_allowed(oconfig: Option<&DevicePrefs>) -> (r: bool)
    ensures
        r == monitor_ok(deref_prefs(oconfig)),
{
    match oconfig {
        Some(c) => !has_role(&c.roles, DeviceRole::Broadcast) && c.port_dir != PortDir::Output,
        None => true,
    }
}

/// Records the subscription `port -> other`, unless `other` is input-only.
pub fn broadcast(port: Addr, other: Addr, oconfig: Option<&DevicePrefs>, subs: &mut Vec<Sub>)
    requires
        old(subs)@.no_duplicates(),
    ensures
        final(subs)@.no_duplicates(),
        forall|x: Sub|
            final(subs)@.contains(x) <==> (old(subs)@.contains(x) || (broadcast_ok(
                deref_prefs(oconfig),
            ) && x == (Sub { sender: port, dest: other }))),
{
    if broadcast_allowed(oconfig) {
        insert_sub(subs, Sub { sender: port, dest: other });
    }
}

/// Records the subscription `other -> port`, unless `other` broadcasts or is output-only.
pub fn monitor(port: Addr, other: Addr, oconfig: Option<&DevicePrefs>, subs: &mut Vec<Sub>)
    requires
        old(subs)@.no_duplicates(),
    ensures
        final(subs)@.no_duplicates(),
        forall|x: Sub|
            final(subs)@.contains(x) <==> (old(subs)@.contains(x) || (monitor_ok(
                deref_prefs(oconfig),
            ) && x == (Sub { sender: other, dest: port }))),
{
    if monitor_allowed(oconfig) {
        insert_sub(subs, Sub { sender: other, dest: port });
    }
}

impl AlsaMidi {
    /// The subscriptions that the configured roles ask for, each once.
    pub fn expected_subs(&self, user: &UserPrefs) -> (r: Vec<Sub>)
        ensures
            r@.no_duplicates(),
            forall|s: Sub| r@.contains(s) <==> expected_edge(self.ports@, user.devices(), s),
    {
        let ports = &self.ports;
        let ghost devs = user.devices();
        let mut out: Vec<Sub> = Vec::new();
        let n = ports.len();
        let mut i: usize = 0;
        while i < n
            invariant
                n == ports@.len(),
                ports@ == self.ports@,
                devs == user.devices(),
                i <= n,
                out@.no_duplicates(),
                forall|s: Sub|
                    out@.contains(s) <==> exists|a: int, b: int|
                        visited(i as int, 0, a, b) && #[trigger] pair_edge(ports@, devs, a, b, s),
            decreases n - i,
        {
            let pconfig = user.get_port_prefs(ports[i].0.as_str());
            let (is_broadcast, is_monitor) = match pconfig {
                Some(c) => (has_role(&c.roles, DeviceRole::Broadcast), has_role(&c.roles, DeviceRole::Monitor)),
                None => (false, false),
            };
            let mut j: usize = 0;
            while j < n
                invariant
                    n == ports@.len(),
                    ports@ == self.ports@,
                    devs == user.devices(),
                    i < n,
                    j <= n,
                    pconfig is None ==> !is_broadcast && !is_monitor,
                    lookup(devs, ports@[i as int].0@) == deref_prefs(pconfig),
                    pconfig matches Some(c) ==> is_broadcast == c.roles@.contains(DeviceRole::Broadcast)
                        && is_monitor == c.roles@.contains(DeviceRole::Monitor),
                    out@.no_duplicates(),
                    forall|s: Sub|
                        out@.contains(s) <==> exists|a: int, b: int|
                            visited(i as int, j as int, a, b) && #[trigger] pair_edge(ports@, devs, a, b, s),
                decreases n - j,
            {
                let ghost before = out@;
                if j != i {
                    let oconfig = user.get_port_prefs(ports[j].0.as_str());
                    if is_broadcast {
                        broadcast(ports[i].1, ports[j].1, oconfig, &mut out);
                    }
                    let ghost mid = out@;
                    if is_monitor {
                        monitor(ports[i].1, ports[j].1, oconfig, &mut out);
                    }
                    proof {
                        assert forall|s: Sub| out@.contains(s) <==> (before.contains(s)
                            || pair_edge(ports@, devs, i as int, j as int, s)) by {
                            assert(mid.contains(s) <==> (before.contains(s) || (is_broadcast
                                && broadcast_ok(deref_prefs(oconfig)) && s == (Sub {
                                sender: ports@[i as int].1,
                                dest: ports@[j as int].1,
                            }))));
                        }
                    }
                }
                proof {
                    assert forall|s: Sub| out@.contains(s) <==> exists|a: int, b: int|
                        visited(i as int, j + 1, a, b) && #[trigger] pair_edge(ports@, devs, a, b, s) by {
                        if out@.contains(s) {
                            if before.contains(s) {
                                let (a, b) = choose|a: int, b: int|
                                    visited(i as int, j as int, a, b) && #[trigger] pair_edge(ports@, devs, a, b, s);
                                assert(visited(i as int, j + 1, a, b));
                            } else {
                                assert(pair_edge(ports@, devs, i as int, j as int, s));
                                assert(visited(i as int, j + 1, i as int, j as int));
                            }
                        }
                        if exists|a: int, b: int|
                            visited(i as int, j + 1, a, b) && #[trigger] pair_edge(ports@, devs, a, b, s) {
                            let (a, b) = choose|a: int, b: int|
                                visited(i as int, j + 1, a, b) && #[trigger] pair_edge(ports@, devs, a, b, s);
                            if a == i && b == j {
                                assert(j != i);
                            } else {
                                assert(visited(i as int, j as int, a, b));
                            }
                        }
                    }
                }
                j = j + 1;
            }
            proof {
                assert forall|s: Sub| out@.contains(s) <==> exists|a: int, b: int|
                    visited(i + 1, 0, a, b) && #[trigger] pair_edge(ports@, devs, a, b, s) by {
                    if out@.contains(s) {
                        let (a, b) = choose|a: int, b: int|
                            visited(i as int, n as int, a, b) && #[trigger] pair_edge(ports@, devs, a, b, s);
                        assert(visited(i + 1, 0, a, b));
                    }
                    if exists|a: int, b: int|
                        visited(i + 1, 0, a, b) && #[trigger] pair_edge(ports@, devs, a, b, s) {
                        let (a, b) = choose|a: int, b: int|
                            visited(i + 1, 0, a, b) && #[trigger] pair_edge(ports@, devs, a, b, s);
                        assert(visited(i as int, n as int, a, b));
                    }
                }
            }
            i = i + 1;
        }
        proof {
            assert forall|s: Sub| out@.contains(s) <==> expected_edge(self.ports@, devs, s) by {
                if expected_edge(self.ports@, devs, s) {
                    let (a, b) = choose|a: int, b: int| #[trigger] pair_edge(self.ports@, devs, a, b, s);
                    assert(visited(n as int, 0, a, b));
                }
            }
        }
        out
    }
}

/// The elements of `from` that are not in `other`, each once, in the order of `from`.
fn missing_from(from: &Vec<Sub>, other: &Vec<Sub>) -> (r: Vec<Sub>)
    ensures
        r@.no_duplicates(),
        forall|s: Sub| r@.contains(s) <==> (from@.contains(s) && !other@.contains(s)),
{
    let mut out: Vec<Sub> = Vec::new();
    let mut k: usize = 0;
    while k < from.len()
        invariant
            k <= from@.len(),
            out@.no_duplicates(),
            forall|s: Sub|
                out@.contains(s) <==> (from@.take(k as int).contains(s) && !other@.contains(s)),
        decreases from@.len() - k,
    {
        let s = from[k];
        let ghost before = out@;
        if !contains_sub(other, s) {
            insert_sub(&mut out, s);
        }
        proof {
            assert forall|x: Sub| out@.contains(x) <==> (from@.take(k + 1).contains(x)
                && !other@.contains(x)) by {
                if from@.take(k as int).contains(x) {
                    let m2 = choose|m2: int| 0 <= m2 < k && #[trigger] from@.take(k as int)[m2] == x;
                    assert(from@.take(k + 1)[m2] == x);
                }
                if x == s {
                    assert(from@.take(k + 1)[k as int] == x);
                }
                if from@.take(k + 1).contains(x) {
                    let m = choose|m: int| 0 <= m < k + 1 && #[trigger] from@.take(k + 1)[m] == x;
                    if m < k {
                        assert(from@.take(k as int)[m] == x);
                    }
                }
            }
        }
        k = k + 1;
    }
    assert(from@.take(from@.len() as int) =~= from@);
    out
}

/// The operations of one reconciliation pass: subscriptions to create, then to remove.
#[derive(Debug, Clone)]
pub struct SubsUpdate {
    pub subscribe: Vec<Sub>,
    pub unsubscribe: Vec<Sub>,
}

/// `u` creates exactly the expected subscriptions that are not live, and removes exactly the
/// live subscriptions that are not expected, each once.
pub open spec fn update_matches(
    ports: Seq<(String, Addr)>,
    live: Seq<Sub>,
    devs: Seq<DevicePrefs>,
    u: SubsUpdate,
) -> bool {
    &&& u.subscribe@.no_duplicates()
    &&& u.unsubscribe@.no_duplicates()
    &&& forall|s: Sub|
        #[trigger] u.subscribe@.contains(s) <==> (expected_edge(ports, devs, s) && !live.contains(s))
    &&& forall|s: Sub|
        #[trigger] u.unsubscribe@.contains(s) <==> (live.contains(s) && !expected_edge(ports, devs, s))
}

impl AlsaMidi {
    /// The operations that bring the live subscriptions to the expected ones.
    pub fn update_subs(&self, user: &UserPrefs) -> (r: SubsUpdate)
        ensures
            update_matches(self.ports@, self.subs@, user.devices(), r),
    {
        let expected = self.expected_subs(user);
        let subscribe = missing_from(&expected, &self.subs);
        let unsubscribe = missing_from(&self.subs, &expected);
        SubsUpdate { subscribe, unsubscribe }
    }
}

/// What the bus should be asked to do next while an update is applied.
#[derive(Debug, Clone, Copy, PartialEq, Eq, Structural)]
pub enum SubsAction {
    Subscribe(Sub),
    Unsubscribe(Sub),
    /// Every operation has been issued.
    Done,
    /// A subscription could not be created: the remaining operations are dropped.
    Failed,
}

/// The progress of applying an update: subscriptions first, stopping at the first one that
/// fails; then removals, where a failure is passed over.
#[derive(Debug, Clone)]
pub struct SubsApply {
    pub update: SubsUpdate,
    pub subscribed: usize,
    pub unsubscribed: usize,
    pub failed: bool,
}

pub open spec fn action_of(a: SubsApply) -> SubsAction {
    if a.failed {
        SubsAction::Failed
    } else if a.subscribed < a.update.subscribe@.len() {
        SubsAction::Subscribe(a.update.subscribe@[a.subscribed as int])
    } else if a.unsubscribed < a.update.unsubscribe@.len() {
        SubsAction::Unsubscribe(a.update.unsubscribe@[a.unsubscribed as int])
    } else {
        SubsAction::Done
    }
}

impl SubsApply {
    pub fn new(update: SubsUpdate) -> (r: SubsApply)
        ensures
            r.update == update,
            r.subscribed == 0,
            r.unsubscribed == 0,
            !r.failed,
    {
        SubsApply { update, subscribed: 0, unsubscribed: 0, failed: false }
    }

    /// The operation to perform now.
    pub fn next_action(&self) -> (r: SubsAction)
        ensures
            r == action_of(*self),
    {
        if self.failed {
            SubsAction::Failed
        } else if self.subscribed < self.update.subscribe.len() {
            SubsAction::Subscribe(self.update.subscribe[self.subscribed])
        } else if self.unsubscribed < self.update.unsubscribe.len() {
            SubsAction::Unsubscribe(self.update.unsubscribe[self.unsubscribed])
        } else {
            SubsAction::Done
        }
    }

    /// Takes the outcome of the operation that `next_action` gave.
    pub fn record(&mut self, succeeded: bool)
        requires
            (action_of(*old(self)) is Subscribe) || (action_of(*old(self)) is Unsubscribe),
        ensures
            final(self).update == old(self).update,
            action_of(*old(self)) is Subscribe ==> final(self).unsubscribed == old(self).unsubscribed
                && if succeeded {
                final(self).subscribed == old(self).subscribed + 1 && !final(self).failed
            } else {
                final(self).subscribed == old(self).subscribed && final(self).failed
            },
            action_of(*old(self)) is Unsubscribe ==> final(self).subscribed == old(self).subscribed
                && final(self).unsubscribed == old(self).unsubscribed + 1 && !final(self).failed,
    {
        if self.subscribed < self.update.subscribe.len() {
            if succeeded {
                self.subscribed = self.subscribed + 1;
            } else {
                self.failed = true;
            }
        } else if self.unsubscribed < self.update.unsubscribe.len() {
            self.unsubscribed = self.unsubscribed + 1;
        }
    }
}

/// The live subscriptions once every operation of `u` has succeeded.
pub open spec fn applied(live: Seq<Sub>, u: SubsUpdate) -> Set<Sub> {
    live.to_set().union(u.subscribe@.to_set()).difference(u.unsubscribe@.to_set())
}

/// Once every operation of an update has succeeded, a second update computed from the same
/// ports and preferences creates and removes nothing.
pub proof fn lemma_update_idempotent(
    snap: AlsaMidi,
    user: UserPrefs,
    first: SubsUpdate,
    after: Seq<Sub>,
    second: SubsUpdate,
)
    requires
        update_matches(snap.ports@, snap.subs@, user.devices(), first),
        after.to_set() == applied(snap.subs@, first),
        update_matches(snap.ports@, after, user.devices(), second),
    ensures
        second.subscribe@.len() == 0,
        second.unsubscribe@.len() == 0,
{
    let devs = user.devices();
    assert forall|s: Sub| after.contains(s) <==> expected_edge(snap.ports@, devs, s) by {
        assert(after.to_set().contains(s) == after.contains(s));
        assert(snap.subs@.to_set().contains(s) == snap.subs@.contains(s));
        assert(first.subscribe@.to_set().contains(s) == first.subscribe@.contains(s));
        assert(first.unsubscribe@.to_set().contains(s) == first.unsubscribe@.contains(s));
    }
    if second.subscribe@.len() > 0 {
        let x = second.subscribe@[0];
        assert(second.subscribe@.contains(x));
        assert(expected_edge(snap.ports@, devs, x) && !after.contains(x));
    }
    if second.unsubscribe@.len() > 0 {
        let x = second.unsubscribe@[0];
        assert(second.unsubscribe@.contains(x));
        assert(!expected_edge(snap.ports@, devs, x) && after.contains(x));
    }
}

/// An update leaves alone every subscription that is both expected and live, and applying
/// all of it yields exactly the expected subscriptions.
pub proof fn lemma_update_exact(ports: Seq<(String, Addr)>, live: Seq<Sub>, devs: Seq<DevicePrefs>, u: SubsUpdate)
    requires
        update_matches(ports, live, devs, u),
    ensures
        forall|s: Sub|
            expected_edge(ports, devs, s) && live.contains(s) ==> !u.subscribe@.contains(s)
                && !u.unsubscribe@.contains(s),
        applied(live, u) == Set::new(|s: Sub| expected_edge(ports, devs, s)),
{
    assert forall|s: Sub| #[trigger] applied(live, u).contains(s) == expected_edge(ports, devs, s) by {
        assert(live.to_set().contains(s) == live.contains(s));
        assert(u.subscribe@.to_set().contains(s) == u.subscribe@.contains(s));
        assert(u.unsubscribe@.to_set().contains(s) == u.unsubscribe@.contains(s));
    }
    assert(applied(live, u) =~= Set::new(|s: Sub| expected_edge(ports, devs, s)));
}

/// Ports are told apart by their names (as `AlsaMidi::wf` holds) and by their addresses.
pub open spec fn ports_distinct(ports: Seq<(String, Addr)>) -> bool {
    forall|i: int, j: int|
        0 <= i < ports.len() && 0 <= j < ports.len() && i != j ==> ports[i].0@ != ports[j].0@
            && ports[i].1 != ports[j].1
}

/// A broadcasting port `a` sends to another port `b` exactly when `b` is not input-only.
pub proof fn lemma_broadcast_edge(ports: Seq<(String, Addr)>, devs: Seq<DevicePrefs>, a: int, b: int)
    requires
        ports_distinct(ports),
        0 <= a < ports.len(),
        0 <= b < ports.len(),
        a != b,
        lookup(devs, ports[a].0@) matches Some(pa) && pa.roles@.contains(DeviceRole::Broadcast),
    ensures
        expected_edge(ports, devs, Sub { sender: ports[a].1, dest: ports[b].1 }) <==> broadcast_ok(
            lookup(devs, ports[b].0@),
        ),
{
    let s = Sub { sender: ports[a].1, dest: ports[b].1 };
    if broadcast_ok(lookup(devs, ports[b].0@)) {
        assert(pair_edge(ports, devs, a, b, s));
    }
    if expected_edge(ports, devs, s) {
        let (x, y) = choose|x: int, y: int| #[trigger] pair_edge(ports, devs, x, y, s);
        if ports[x].1 == ports[a].1 {
            assert(x == a);
            assert(y == b);
        } else {
            assert(x == b);
            assert(y == a);
        }
    }
}

/// A monitoring port `a` receives from another port `b` exactly when `b` neither broadcasts
/// nor is output-only. Left out: `b` broadcasts while `a` is not input-only, for then `b`'s
/// own role sends to `a`.
pub proof fn lemma_monitor_edge(ports: Seq<(String, Addr)>, devs: Seq<DevicePrefs>, a: int, b: int)
    requires
        ports_distinct(ports),
        0 <= a < ports.len(),
        0 <= b < ports.len(),
        a != b,
        lookup(devs, ports[a].0@) matches Some(pa) && pa.roles@.contains(DeviceRole::Monitor),
        !(lookup(devs, ports[b].0@) matches Some(pb) && pb.roles@.contains(DeviceRole::Broadcast)
            && broadcast_ok(lookup(devs, ports[a].0@))),
    ensures
        expected_edge(ports, devs, Sub { sender: ports[b].1, dest: ports[a].1 }) <==> monitor_ok(
            lookup(devs, ports[b].0@),
        ),
{
    let s = Sub { sender: ports[b].1, dest: ports[a].1 };
    if monitor_ok(lookup(devs, ports[b].0@)) {
        assert(pair_edge(ports, devs, a, b, s));
    }
    if expected_edge(ports, devs, s) {
        let (x, y) = choose|x: int, y: int| #[trigger] pair_edge(ports, devs, x, y, s);
        if ports[x].1 == ports[b].1 {
            assert(x == b);
            assert(y == a);
        } else {
            assert(x == a);
            assert(y == b);
        }
    }
}

/// The names of the live ports that the store does not configure, in port order.
pub open spec fn unconfigured(ports: Seq<(String, Addr)>, devs: Seq<DevicePrefs>) -> Seq<Seq<char>> {
    ports.map_values(|p: (String, Addr)| p.0@).filter(|n: Seq<char>| lookup(devs, n) is None)
}

/// The store's document, followed by a default entry for each live port that it does not
/// configure.
pub fn add_ports(seq: &AlsaMidi, prefs: UserPrefs) -> (r: PrefsModel)
    ensures
        r.devices@.len() == prefs.devices().len() + unconfigured(seq.ports@, prefs.devices()).len(),
        r.devices@.take(prefs.devices().len() as int) == prefs.devices(),
        forall|k: int|
            0 <= k < unconfigured(seq.ports@, prefs.devices()).len() ==> is_default_for(
                #[trigger] r.devices@[prefs.devices().len() + k],
                unconfigured(seq.ports@, prefs.devices())[k],
            ),
{
    let ghost devs = prefs.devices();
    let ghost names = seq.ports@.map_values(|p: (String, Addr)| p.0@);
    let ghost pred = |n: Seq<char>| lookup(devs, n) is None;
    let mut missing: Vec<String> = Vec::new();
    let mut i: usize = 0;
    while i < seq.ports.len()
        invariant
            i <= seq.ports@.len(),
            devs == prefs.devices(),
            names == seq.ports@.map_values(|p: (String, Addr)| p.0@),
            pred == (|n: Seq<char>| lookup(devs, n) is None),
            missing@.len() == names.take(i as int).filter(pred).len(),
            forall|k: int|
                0 <= k < missing@.len() ==> #[trigger] missing@[k]@ == names.take(i as int).filter(pred)[k],
        decreases seq.ports@.len() - i,
    {
        let name = &seq.ports[i].0;
        let absent = prefs.get_port_prefs(name.as_str()).is_none();
        proof {
            assert(names.take(i + 1).drop_last() =~= names.take(i as int));
            assert(names.take(i + 1).last() == name@);
        }
        let ghost f0 = names.take(i as int).filter(pred);
        let ghost before = missing@;
        if absent {
            missing.push(name.clone());
        }
        proof {
            assert(absent == pred(name@));
            reveal(Seq::filter);
            assert(names.take(i + 1).filter(pred) == if absent {
                f0.push(name@)
            } else {
                f0
            });
            assert forall|k: int| 0 <= k < missing@.len() implies #[trigger] missing@[k]@ == names.take(
                i + 1,
            ).filter(pred)[k] by {
                if k < before.len() {
                    assert(missing@[k] == before[k]);
                }
            }
        }
        i = i + 1;
    }
    proof {
        assert(names.take(seq.ports@.len() as int) =~= names);
    }
    let mut devices = prefs.prefs_model.devices;
    let n0 = devices.len();
    let mut k: usize = 0;
    while k < missing.len()
        invariant
            k <= missing@.len(),
            n0 == devs.len(),
            devices@.len() == n0 + k,
            devices@.take(n0 as int) == devs,
            missing@.len() == unconfigured(seq.ports@, devs).len(),
            forall|m: int| 0 <= m < missing@.len() ==> #[trigger] missing@[m]@ == unconfigured(seq.ports@, devs)[m],
            forall|m: int| 0 <= m < k ==> is_default_for(#[trigger] devices@[n0 + m], missing@[m]@),
        decreases missing@.len() - k,
    {
        let ghost before = devices@;
        devices.push(DevicePrefs::from_port(missing[k].clone()));
        proof {
            assert(devices@.take(n0 as int) =~= before.take(n0 as int));
            assert forall|m: int| 0 <= m < k + 1 implies is_default_for(#[trigger] devices@[n0 + m], missing@[m]@) by {
                if m < k {
                    assert(devices@[n0 + m] == before[n0 + m]);
                }
            }
        }
        k = k + 1;
    }
    PrefsModel { devices }
}

/// One port as the bus enumerates it.
#[derive(Debug, Clone)]
pub struct PortListing {
    pub addr: Addr,
    /// None for a port whose name cannot be read.
    pub name: Option<String>,
    /// The live subscriptions that the bus reports for this port.
    pub subs: Vec<Sub>,
}

/// The listing belongs to an ordinary client, not to the bus's own timer and announce ports.
pub open spec fn is_user_port(l: PortListing) -> bool {
    l.addr.client != SYSTEM_CLIENT
}

/// A user port that carries the given name.
pub open spec fn listed_as(name: Seq<char>) -> spec_fn(PortListing) -> bool {
    |l: PortListing|
        is_user_port(l) && match l.name {
            Some(n) => n@ == name,
            None => false,
        }
}

/// The names of the named user ports, in listing order.
pub open spec fn listed_names(ls: Seq<PortListing>) -> Seq<Seq<char>>
    decreases ls.len(),
{
    if ls.len() == 0 {
        Seq::empty()
    } else {
        let rest = listed_names(ls.drop_last());
        match ls.last().name {
            Some(n) => if is_user_port(ls.last()) {
                rest.push(n@)
            } else {
                rest
            },
            None => rest,
        }
    }
}

/// The names of the named user ports of a listing, in order.
pub fn port_names(listing: &Vec<PortListing>) -> (r: Vec<String>)
    ensures
        r@.len() == listed_names(listing@).len(),
        forall|k: int| 0 <= k < r@.len() ==> #[trigger] r@[k]@ == listed_names(listing@)[k],
{
    let mut out: Vec<String> = Vec::new();
    let mut i: usize = 0;
    while i < listing.len()
        invariant
            i <= listing@.len(),
            out@.len() == listed_names(listing@.take(i as int)).len(),
            forall|k: int|
                0 <= k < out@.len() ==> #[trigger] out@[k]@ == listed_names(listing@.take(i as int))[k],
        decreases listing@.len() - i,
    {
        let ghost before = out@;
        proof {
            assert(listing@.take(i + 1).drop_last() =~= listing@.take(i as int));
        }
        if listing[i].addr.client != SYSTEM_CLIENT {
            if let Some(n) = &listing[i].name {
                out.push(n.clone());
                proof {
                    assert forall|k: int| 0 <= k < out@.len() implies #[trigger] out@[k]@
                        == listed_names(listing@.take(i + 1))[k] by {
                        if k < before.len() {
                            assert(out@[k] == before[k]);
                        }
                    }
                }
            }
        }
        i = i + 1;
    }
    assert(listing@.take(listing@.len() as int) =~= listing@);
    out
}

/// Neither end of the subscription is a port of the bus's own client.
pub open spec fn is_user_sub(s: Sub) -> bool {
    s.sender.client != SYSTEM_CLIENT && s.dest.client != SYSTEM_CLIENT
}

/// The subscription belongs to the routing graph: it is reported for some user port of the
/// listing and joins two user addresses.
pub open spec fn graph_sub(ls: Seq<PortListing>, s: Sub) -> bool {
    listed_sub(ls, s) && is_user_sub(s)
}

/// The subscription is reported for some user port of the listing.
pub open spec fn listed_sub(ls: Seq<PortListing>, s: Sub) -> bool {
    exists|m: int| 0 <= m < ls.len() && is_user_port(ls[m]) && (#[trigger] ls[m].subs@).contains(s)
}

fn find_port(ports: &Vec<(String, Addr)>, name: &String) -> (r: Option<usize>)
    ensures
        match r {
            Some(k) => k < ports@.len() && ports@[k as int].0@ == name@,
            None => forall|m: int| 0 <= m < ports@.len() ==> #[trigger] ports@[m].0@ != name@,
        },
{
    let mut k: usize = 0;
    while k < ports.len()
        invariant
            k <= ports@.len(),
            forall|m: int| 0 <= m < k ==> #[trigger] ports@[m].0@ != name@,
        decreases ports@.len() - k,
    {
        if ports[k].0 == *name {
            return Some(k);
        }
        k = k + 1;
    }
    None
}

/// Each named user port once, with the address of its last listing.
fn collect_ports(listing: &Vec<PortListing>) -> (ports: Vec<(String, Addr)>)
    ensures
        forall|a: int, b: int|
            0 <= a < ports@.len() && 0 <= b < ports@.len() && a != b ==> ports@[a].0@
                != ports@[b].0@,
        forall|k: int|
            #![trigger ports@[k]]
            0 <= k < ports@.len() ==> last_index_where(listing@, listed_as(ports@[k].0@)) >= 0
                && ports@[k].1 == listing@[last_index_where(listing@, listed_as(ports@[k].0@))].addr,
        forall|name: Seq<char>|
            last_index_where(listing@, #[trigger] listed_as(name)) >= 0 ==> exists|k: int|
                0 <= k < ports@.len() && #[trigger] ports@[k].0@ == name,
{
    let mut ports: Vec<(String, Addr)> = Vec::new();
    let mut i: usize = 0;
    while i < listing.len()
        invariant
            i <= listing@.len(),
            forall|a: int, b: int|
                0 <= a < ports@.len() && 0 <= b < ports@.len() && a != b ==> ports@[a].0@
                    != ports@[b].0@,
            forall|k: int|
                #![trigger ports@[k]]
                0 <= k < ports@.len() ==> last_index_where(
                    listing@.take(i as int),
                    listed_as(ports@[k].0@),
                ) >= 0 && ports@[k].1 == listing@[last_index_where(
                    listing@.take(i as int),
                    listed_as(ports@[k].0@),
                )].addr,
            forall|name: Seq<char>|
                last_index_where(listing@.take(i as int), #[trigger] listed_as(name)) >= 0
                    ==> exists|k: int| 0 <= k < ports@.len() && #[trigger] ports@[k].0@ == name,
        decreases listing@.len() - i,
    {
        let ghost pre = listing@.take(i as int);
        let ghost post = listing@.take(i + 1);
        let ghost before = ports@;
        proof {
            assert(post.drop_last() =~= pre);
            assert(post.last() == listing@[i as int]);
        }
        let named_user = match &listing[i].name {
            Some(_) => listing[i].addr.client != SYSTEM_CLIENT,
            None => false,
        };
        if named_user {
            let n = listing[i].name.as_ref().unwrap();
            let addr = listing[i].addr;
            let slot = find_port(&ports, n);
            let ghost at: int;
            match slot {
                Some(k) => {
                    ports.set(k, (n.clone(), addr));
                    proof { at = k as int; }
                },
                None => {
                    ports.push((n.clone(), addr));
                    proof { at = before.len() as int; }
                },
            }
            proof {
                assert(ports@[at].0@ == n@);
                assert(forall|m: int| 0 <= m < ports@.len() && m != at ==> #[trigger] ports@[m] == before[m]);
                assert(listed_as(n@)(listing@[i as int]));
                assert(last_index_where(post, listed_as(n@)) == i);
                assert forall|k2: int|
                    #![trigger ports@[k2]]
                    0 <= k2 < ports@.len() implies last_index_where(post, listed_as(ports@[k2].0@))
                        >= 0 && ports@[k2].1 == listing@[last_index_where(
                        post,
                        listed_as(ports@[k2].0@),
                    )].addr by {
                    if k2 != at {
                        assert(ports@[k2] == before[k2]);
                        assert(!listed_as(before[k2].0@)(listing@[i as int]));
                    }
                }
                assert forall|name: Seq<char>|
                    last_index_where(post, #[trigger] listed_as(name)) >= 0 implies exists|k2: int|
                        0 <= k2 < ports@.len() && #[trigger] ports@[k2].0@ == name by {
                    if name == n@ {
                        assert(ports@[at].0@ == name);
                    } else {
                        assert(!listed_as(name)(listing@[i as int]));
                        let k2 = choose|k2: int| 0 <= k2 < before.len() && #[trigger] before[k2].0@ == name;
                        assert(ports@[k2] == before[k2]);
                    }
                }
            }
        } else {
            proof {
                assert forall|name: Seq<char>| #[trigger] last_index_where(post, listed_as(name))
                    == last_index_where(pre, listed_as(name)) by {
                    assert(!listed_as(name)(listing@[i as int]));
                }
            }
        }
        i = i + 1;
    }
    proof {
        assert(listing@.take(listing@.len() as int) =~= listing@);
    }
    ports
}

/// Each subscription of a user port between two user addresses, once.
fn collect_subs(listing: &Vec<PortListing>) -> (subs: Vec<Sub>)
    ensures
        subs@.no_duplicates(),
        forall|s: Sub| subs@.contains(s) <==> graph_sub(listing@, s),
{
    let mut subs: Vec<Sub> = Vec::new();
    let mut i: usize = 0;
    while i < listing.len()
        invariant
            i <= listing@.len(),
            subs@.no_duplicates(),
            forall|s: Sub| subs@.contains(s) <==> graph_sub(listing@.take(i as int), s),
        decreases listing@.len() - i,
    {
        let ghost pre = listing@.take(i as int);
        let ghost post = listing@.take(i + 1);
        let ghost subs_before = subs@;
        let user = listing[i].addr.client != SYSTEM_CLIENT;
        let mut j: usize = 0;
        while j < listing[i].subs.len()
            invariant
                i < listing@.len(),
                j <= listing@[i as int].subs@.len(),
                subs@.no_duplicates(),
                user == is_user_port(listing@[i as int]),
                forall|s: Sub|
                    #[trigger] subs@.contains(s) <==> (subs_before.contains(s) || (user
                        && is_user_sub(s) && listing@[i as int].subs@.take(j as int).contains(s))),
            decreases listing@[i as int].subs@.len() - j,
        {
            let ghost t = listing@[i as int].subs@;
            let ghost mid = subs@;
            let sub = listing[i].subs[j];
            if user && sub.sender.client != SYSTEM_CLIENT && sub.dest.client != SYSTEM_CLIENT {
                insert_sub(&mut subs, sub);
            }
            proof {
                assert forall|s: Sub| #[trigger] subs@.contains(s) <==> (subs_before.contains(s) || (user
                    && is_user_sub(s) && t.take(j + 1).contains(s))) by {
                    assert(mid.contains(s) <==> (subs_before.contains(s) || (user && is_user_sub(s)
                        && t.take(j as int).contains(s))));
                    if t.take(j as int).contains(s) {
                        let m = choose|m: int| 0 <= m < j && #[trigger] t.take(j as int)[m] == s;
                        assert(t.take(j + 1)[m] == s);
                    }
                    if s == t[j as int] {
                        assert(t.take(j + 1)[j as int] == s);
                    }
                    if t.take(j + 1).contains(s) {
                        let m = choose|m: int| 0 <= m < j + 1 && #[trigger] t.take(j + 1)[m] == s;
                        if m < j {
                            assert(t.take(j as int)[m] == s);
                        }
                    }
                }
            }
            j = j + 1;
        }
        proof {
            let t = listing@[i as int].subs@;
            assert(t.take(t.len() as int) =~= t);
            assert forall|s: Sub| subs@.contains(s) <==> graph_sub(post, s) by {
                if graph_sub(post, s) {
                    let m = choose|m: int|
                        0 <= m < post.len() && is_user_port(post[m]) && (#[trigger] post[m].subs@).contains(s);
                    if m < i {
                        assert(pre[m] == post[m]);
                    } else {
                        assert(post[m] == listing@[i as int]);
                    }
                }
                if subs_before.contains(s) {
                    let m = choose|m: int|
                        0 <= m < pre.len() && is_user_port(pre[m]) && (#[trigger] pre[m].subs@).contains(s);
                    assert(pre[m] == post[m]);
                }
                if user && t.contains(s) {
                    assert(post[i as int] == listing@[i as int]);
                }
            }
        }
        i = i + 1;
    }
    proof {
        assert(listing@.take(listing@.len() as int) =~= listing@);
    }
    subs
}

impl AlsaMidi {
    /// The snapshot of a listing: each named user port once, with the address of its last
    /// listing; each subscription between user addresses once. The bus's own timer and
    /// announce ports stay out of both.
    pub fn from_listing(listing: &Vec<PortListing>) -> (r: AlsaMidi)
        ensures
            r.wf(),
            forall|k: int|
                #![trigger r.ports@[k]]
                0 <= k < r.ports@.len() ==> last_index_where(listing@, listed_as(r.ports@[k].0@))
                    >= 0 && r.ports@[k].1 == listing@[last_index_where(
                    listing@,
                    listed_as(r.ports@[k].0@),
                )].addr,
            forall|name: Seq<char>|
                last_index_where(listing@, #[trigger] listed_as(name)) >= 0 ==> exists|k: int|
                    0 <= k < r.ports@.len() && #[trigger] r.ports@[k].0@ == name,
            forall|s: Sub| r.subs@.contains(s) <==> graph_sub(listing@, s),
    {
        AlsaMidi { ports: collect_ports(listing), subs: collect_subs(listing) }
    }
}

/// An update subscribes a broadcasting port `a` to another port `b` that it does not already
/// reach exactly when `b` is not input-only.
pub proof fn lemma_broadcast_subscribed(snap: AlsaMidi, user: UserPrefs, u: SubsUpdate, a: int, b: int)
    requires
        ports_distinct(snap.ports@),
        update_matches(snap.ports@, snap.subs@, user.devices(), u),
        0 <= a < snap.ports@.len(),
        0 <= b < snap.ports@.len(),
        a != b,
        lookup(user.devices(), snap.ports@[a].0@) matches Some(pa) && pa.roles@.contains(
            DeviceRole::Broadcast,
        ),
        !snap.subs@.contains(Sub { sender: snap.ports@[a].1, dest: snap.ports@[b].1 }),
    ensures
        u.subscribe@.contains(Sub { sender: snap.ports@[a].1, dest: snap.ports@[b].1 })
            <==> broadcast_ok(lookup(user.devices(), snap.ports@[b].0@)),
{
    lemma_broadcast_edge(snap.ports@, user.devices(), a, b);
}

/// An update subscribes a monitoring port `a` to another port `b` that does not already reach
/// it exactly when `b` neither broadcasts nor is output-only; left out as in
/// `lemma_monitor_edge`.
pub proof fn lemma_monitor_subscribed(snap: AlsaMidi, user: UserPrefs, u: SubsUpdate, a: int, b: int)
    requires
        ports_distinct(snap.ports@),
        update_matches(snap.ports@, snap.subs@, user.devices(), u),
        0 <= a < snap.ports@.len(),
        0 <= b < snap.ports@.len(),
        a != b,
        lookup(user.devices(), snap.ports@[a].0@) matches Some(pa) && pa.roles@.contains(
            DeviceRole::Monitor,
        ),
        !(lookup(user.devices(), snap.ports@[b].0@) matches Some(pb) && pb.roles@.contains(
            DeviceRole::Broadcast,
        ) && broadcast_ok(lookup(user.devices(), snap.ports@[a].0@))),
        !snap.subs@.contains(Sub { sender: snap.ports@[b].1, dest: snap.ports@[a].1 }),
    ensures
        u.subscribe@.contains(Sub { sender: snap.ports@[b].1, dest: snap.ports@[a].1 })
            <==> monitor_ok(lookup(user.devices(), snap.ports@[b].0@)),
{
    lemma_monitor_edge(snap.ports@, user.devices(), a, b);
}

/// The kind of a message that the announce port delivers.
#[derive(Debug, Clone, Copy, PartialEq, Eq, Structural)]
pub enum BusEvent {
    PortStart,
    PortExit,
    PortChange,
    /// Any other kind: it does not change the set of ports.
    Other,
}

/// A port came, went or changed, so the port list must be read again.
pub fn ports_changed(event: BusEvent) -> (r: bool)
    ensures
        r == !(event is Other),
{
    match event {
        BusEvent::PortStart | BusEvent::PortExit | BusEvent::PortChange => true,
        BusEvent::Other => false,
    }
}

} // verus!
