use vstd::multiset::Multiset;
use vstd::prelude::*;

use crate::flow::{Flow, MICROS_PER_SECOND};
use crate::packet::{FlowKey, PacketFeatures};

verus! {

/// Event time between two expiration sweeps, in microseconds.
pub const EXPIRATION_CHECK_INTERVAL_US: i64 = 60_000_000;

/// A live flow together with the key it is filed under.
pub struct FlowEntry<T> {
    pub key: FlowKey,
    pub flow: T,
}

/// The live flows of one capture source, with their timeouts.
///
/// Flows are filed under the key of the direction their first packet took.
/// A table never files two flows under one key, nor one flow under a key
/// and another under its reverse.
pub struct FlowTable<T> {
    flow_map: Vec<FlowEntry<T>>,
    active_timeout: u64,
    idle_timeout: u64,
    early_export: Option<u64>,
    next_check_time: Option<i64>,
}

/// No two entries share a key, and no entry's key is the reverse of another's.
pub open spec fn keys_apart<T>(s: Seq<FlowEntry<T>>) -> bool {
    forall|i: int, j: int|
        #![trigger s[i], s[j]]
        0 <= i < s.len() && 0 <= j < s.len() && i != j ==> s[i].key != s[j].key && s[i].key
            != s[j].key.reverse()
}

/// Some entry is filed under `k`.
pub open spec fn holds_key<T>(s: Seq<FlowEntry<T>>, k: FlowKey) -> bool {
    exists|i: int| 0 <= i < s.len() && s[i].key == k
}

/// The key a packet is filed under: the backward key when a flow is filed
/// there, else the forward key.
pub open spec fn resolved_key<T>(s: Seq<FlowEntry<T>>, p: PacketFeatures) -> FlowKey {
    if holds_key(s, p.key_bwd()) {
        p.key_bwd()
    } else {
        p.key()
    }
}

/// The flows of the entries, in order.
pub open spec fn flows_of<T>(s: Seq<FlowEntry<T>>) -> Seq<T> {
    s.map_values(|e: FlowEntry<T>| e.flow)
}

/// Holds of an entry whose flow is not expired at `now_us`.
pub open spec fn live_at<T: Flow>(now_us: i64, active_timeout: u64, idle_timeout: u64) -> spec_fn(
    FlowEntry<T>,
) -> bool {
    |e: FlowEntry<T>| !e.flow.expired_at(now_us, active_timeout, idle_timeout)
}

/// Holds of an entry whose flow is expired at `now_us`.
pub open spec fn expired_at<T: Flow>(now_us: i64, active_timeout: u64, idle_timeout: u64) -> spec_fn(
    FlowEntry<T>,
) -> bool {
    |e: FlowEntry<T>| e.flow.expired_at(now_us, active_timeout, idle_timeout)
}

/// The entries whose flow is not expired at `now_us`, in order.
pub open spec fn live_entries<T: Flow>(
    s: Seq<FlowEntry<T>>,
    now_us: i64,
    active_timeout: u64,
    idle_timeout: u64,
) -> Seq<FlowEntry<T>> {
    s.filter(live_at(now_us, active_timeout, idle_timeout))
}

/// The flows that are expired at `now_us`, in order.
pub open spec fn expired_flows<T: Flow>(
    s: Seq<FlowEntry<T>>,
    now_us: i64,
    active_timeout: u64,
    idle_timeout: u64,
) -> Seq<T> {
    flows_of(s.filter(expired_at(now_us, active_timeout, idle_timeout)))
}

/// A packet at `now_us` starts a sweep when none was scheduled or the
/// scheduled time has come.
pub open spec fn sweep_due(next_check: Option<i64>, now_us: i64) -> bool {
    match next_check {
        None => true,
        Some(t) => now_us >= t,
    }
}

/// The time of the next sweep after one at `now_us`; it stays at the
/// largest timestamp where the interval would pass it.
pub open spec fn next_check_after(now_us: i64) -> i64 {
    if now_us <= i64::MAX - EXPIRATION_CHECK_INTERVAL_US {
        (now_us + EXPIRATION_CHECK_INTERVAL_US) as i64
    } else {
        i64::MAX
    }
}

/// Whether a flow first seen at `first_us` is exported early at `now_us`:
/// a threshold is set and the whole seconds elapsed exceed it.
pub open spec fn early_export_due(threshold: Option<u64>, now_us: i64, first_us: i64) -> bool {
    match threshold {
        None => false,
        Some(t) => now_us - first_us >= 0 && (now_us - first_us) / (MICROS_PER_SECOND as int) > t,
    }
}

/// The entry a packet opens: its forward key and a fresh flow.
pub open spec fn opened_by<T: Flow>(p: PacketFeatures) -> FlowEntry<T> {
    FlowEntry {
        key: p.key(),
        flow: T::started(
            p.key(),
            p.source_ip,
            p.source_port,
            p.destination_ip,
            p.destination_port,
            p.protocol,
            p.timestamp_us,
        ),
    }
}

/// The entries and exports after the packet's flow, filed at `i` of `pre`
/// under `k`, has seen the packet.
pub open spec fn after_lookup<T: Flow>(
    pre: Seq<FlowEntry<T>>,
    i: int,
    k: FlowKey,
    p: PacketFeatures,
    active_timeout: u64,
    idle_timeout: u64,
    early_export: Option<u64>,
) -> (Seq<FlowEntry<T>>, Seq<T>) {
    let f = pre[i].flow;
    let is_forward = k == p.key();
    let g = f.updated(p, is_forward);
    if f.expired_at(p.timestamp_us, active_timeout, idle_timeout) {
        (pre.remove(i).push(opened_by::<T>(p)), seq![f])
    } else if f.ended_by(p, is_forward) {
        (pre.remove(i), seq![g])
    } else if early_export_due(early_export, p.timestamp_us, f.first_seen()) {
        (pre.remove(i).push(FlowEntry { key: k, flow: g }), seq![g])
    } else {
        (pre.remove(i).push(FlowEntry { key: k, flow: g }), Seq::empty())
    }
}

proof fn lemma_keys_apart_remove<T>(s: Seq<FlowEntry<T>>, i: int)
    requires
        keys_apart(s),
        0 <= i < s.len(),
    ensures
        keys_apart(s.remove(i)),
        forall|j: int|
            0 <= j < s.remove(i).len() ==> s.remove(i)[j].key != s[i].key && s.remove(i)[j].key
                != s[i].key.reverse(),
{
    let r = s.remove(i);
    assert forall|a: int, b: int|
        #![trigger r[a], r[b]]
        0 <= a < r.len() && 0 <= b < r.len() && a != b implies r[a].key != r[b].key && r[a].key
            != r[b].key.reverse() by {
        let sa = if a < i {
            a
        } else {
            a + 1
        };
        let sb = if b < i {
            b
        } else {
            b + 1
        };
        assert(r[a] == s[sa]);
        assert(r[b] == s[sb]);
    }
    assert forall|j: int| 0 <= j < r.len() implies r[j].key != s[i].key && r[j].key
        != s[i].key.reverse() by {
        let sj = if j < i {
            j
        } else {
            j + 1
        };
        assert(r[j] == s[sj]);
        assert(s[sj].key != s[i].key.reverse());
    }
}

proof fn lemma_keys_apart_push<T>(s: Seq<FlowEntry<T>>, e: FlowEntry<T>)
    requires
        keys_apart(s),
        forall|j: int| 0 <= j < s.len() ==> s[j].key != e.key && s[j].key != e.key.reverse(),
    ensures
        keys_apart(s.push(e)),
{
    let r = s.push(e);
    assert forall|a: int, b: int|
        #![trigger r[a], r[b]]
        0 <= a < r.len() && 0 <= b < r.len() && a != b implies r[a].key != r[b].key && r[a].key
            != r[b].key.reverse() by {
        if a < s.len() && b < s.len() {
            assert(r[a] == s[a]);
            assert(r[b] == s[b]);
        } else if a < s.len() {
            assert(r[a] == s[a]);
        } else {
            assert(r[b] == s[b]);
            assert(s[b].key != e.key.reverse());
        }
    }
}

proof fn lemma_filter_keys_apart<T>(s: Seq<FlowEntry<T>>, pred: spec_fn(FlowEntry<T>) -> bool)
    requires
        keys_apart(s),
    ensures
        keys_apart(s.filter(pred)),
        forall|j: int| 0 <= j < s.filter(pred).len() ==> s.contains(#[trigger] s.filter(pred)[j]),
    decreases s.len(),
{
    reveal_with_fuel(Seq::filter, 1);
    if s.len() > 0 {
        let d = s.drop_last();
        let n = s.len() - 1;
        assert forall|a: int, b: int|
            #![trigger d[a], d[b]]
            0 <= a < d.len() && 0 <= b < d.len() && a != b implies d[a].key != d[b].key && d[a].key
                != d[b].key.reverse() by {
            assert(d[a] == s[a] && d[b] == s[b]);
        }
        lemma_filter_keys_apart(d, pred);
        let fd = d.filter(pred);
        assert forall|j: int| 0 <= j < fd.len() implies s.contains(#[trigger] fd[j]) by {
            let m = choose|m: int| 0 <= m < d.len() && d[m] == fd[j];
            assert(s[m] == fd[j]);
        }
        if pred(s.last()) {
            assert forall|j: int| 0 <= j < fd.len() implies fd[j].key != s.last().key
                && fd[j].key != s.last().key.reverse() by {
                let m = choose|m: int| 0 <= m < d.len() && d[m] == fd[j];
                assert(s[m] == fd[j]);
                assert(s[m].key != s[n].key.reverse());
            }
            lemma_keys_apart_push(fd, s.last());
            assert forall|j: int| 0 <= j < s.filter(pred).len() implies s.contains(
                #[trigger] s.filter(pred)[j],
            ) by {
                if j < fd.len() {
                    assert(s.filter(pred)[j] == fd[j]);
                } else {
                    assert(s[n] == s.filter(pred)[j]);
                }
            }
        }
    }
}

fn find_key<T>(entries: &Vec<FlowEntry<T>>, key: &FlowKey) -> (r: Option<usize>)
    ensures
        match r {
            Some(i) => i < entries@.len() && entries@[i as int].key == *key,
            None => !holds_key(entries@, *key),
        },
{
    let mut i: usize = 0;
    while i < entries.len()
        invariant
            i <= entries@.len(),
            forall|j: int| 0 <= j < i ==> entries@[j].key != *key,
        decreases entries@.len() - i,
    {
        if entries[i].key == *key {
            return Some(i);
        }
        i = i + 1;
    }
    None
}

fn early_export_is_due(threshold: Option<u64>, now_us: i64, first_us: i64) -> (r: bool)
    ensures
        r == early_export_due(threshold, now_us, first_us),
{
    match threshold {
        None => false,
        Some(t) => {
            let span: i128 = now_us as i128 - first_us as i128;
            if span < 0 {
                false
            } else {
                let whole_seconds: u128 = span as u128 / MICROS_PER_SECOND as u128;
                whole_seconds > t as u128
            }
        },
    }
}

/// The flows are in non-decreasing order of first-seen time.
pub open spec fn ordered_by_first_seen<T: Flow>(s: Seq<T>) -> bool {
    forall|i: int, j: int|
        0 <= i < j < s.len() ==> #[trigger] s[i].first_seen() <= #[trigger] s[j].first_seen()
}

fn index_of_earliest<T: Flow>(flows: &Vec<T>) -> (m: usize)
    requires
        flows@.len() > 0,
    ensures
        m < flows@.len(),
        forall|j: int| 0 <= j < flows@.len() ==> flows@[m as int].first_seen() <= #[trigger] flows@[j].first_seen(),
{
    let mut m: usize = 0;
    let mut earliest = flows[0].get_first_timestamp();
    let mut i: usize = 1;
    while i < flows.len()
        invariant
            1 <= i <= flows@.len(),
            m < i,
            earliest == flows@[m as int].first_seen(),
            forall|j: int| 0 <= j < i ==> earliest <= #[trigger] flows@[j].first_seen(),
        decreases flows@.len() - i,
    {
        let t = flows[i].get_first_timestamp();
        if t < earliest {
            m = i;
            earliest = t;
        }
        i = i + 1;
    }
    m
}

proof fn lemma_filter_push<A>(s: Seq<A>, x: A, pred: spec_fn(A) -> bool)
    ensures
        s.push(x).filter(pred) == if pred(x) {
            s.filter(pred).push(x)
        } else {
            s.filter(pred)
        },
{
    reveal_with_fuel(Seq::filter, 1);
    assert(s.push(x).drop_last() =~= s);
}

impl<T: Flow> FlowTable<T> {
    /// The entries, in the order they are held.
    pub closed spec fn entries(&self) -> Seq<FlowEntry<T>> {
        self.flow_map@
    }

    /// The active timeout, in seconds.
    pub closed spec fn active_limit(&self) -> u64 {
        self.active_timeout
    }

    /// The idle timeout, in seconds.
    pub closed spec fn idle_limit(&self) -> u64 {
        self.idle_timeout
    }

    /// The early-export threshold, in seconds, if any.
    pub closed spec fn early_limit(&self) -> Option<u64> {
        self.early_export
    }

    /// The event time of the next sweep, once one has run.
    pub closed spec fn next_check(&self) -> Option<i64> {
        self.next_check_time
    }

    /// The table's invariant.
    pub open spec fn wf(&self) -> bool {
        keys_apart(self.entries())
    }

    /// Whether `self` and `other` have the same timeouts and threshold.
    pub open spec fn same_settings(&self, other: &Self) -> bool {
        &&& self.active_limit() == other.active_limit()
        &&& self.idle_limit() == other.idle_limit()
        &&& self.early_limit() == other.early_limit()
    }

    /// The entries that remain for lookup once a packet at `now_us` has
    /// run the sweep, if one is due.
    pub open spec fn entries_after_sweep(&self, now_us: i64) -> Seq<FlowEntry<T>> {
        if sweep_due(self.next_check(), now_us) {
            live_entries(self.entries(), now_us, self.active_limit(), self.idle_limit())
        } else {
            self.entries()
        }
    }

    /// The flows that a packet at `now_us` sweeps out, if a sweep is due.
    pub open spec fn swept_flows(&self, now_us: i64) -> Seq<T> {
        if sweep_due(self.next_check(), now_us) {
            expired_flows(self.entries(), now_us, self.active_limit(), self.idle_limit())
        } else {
            Seq::empty()
        }
    }

    /// `new` is `old` after `process_packet(p)` returned `exports`: a due
    /// sweep ran first and reschedules the next one; then the packet is
    /// looked up under its resolved key. Where nothing is filed there, the
    /// packet opens a flow under its forward key; otherwise `after_lookup`
    /// says what becomes of the filed flow. The exports are the swept flows
    /// followed by those of the lookup.
    pub open spec fn processed(old: Self, new: Self, p: PacketFeatures, exports: Seq<T>) -> bool {
        let now = p.timestamp_us;
        let pre = old.entries_after_sweep(now);
        let swept = old.swept_flows(now);
        let k = resolved_key(pre, p);
        &&& new.same_settings(&old)
        &&& new.next_check() == if sweep_due(old.next_check(), now) {
            Some(next_check_after(now))
        } else {
            old.next_check()
        }
        &&& !holds_key(pre, k) ==> new.entries() == pre.push(opened_by::<T>(p)) && exports == swept
        &&& forall|i: int|
            0 <= i < pre.len() && #[trigger] pre[i].key == k ==> {
                let (entries, tail) = after_lookup(
                    pre,
                    i,
                    k,
                    p,
                    old.active_limit(),
                    old.idle_limit(),
                    old.early_limit(),
                );
                new.entries() == entries && exports == swept + tail
            }
    }

    /// The entries left after a due sweep keep the table's invariant.
    pub proof fn lemma_entries_after_sweep_apart(&self, now_us: i64)
        requires
            self.wf(),
        ensures
            keys_apart(self.entries_after_sweep(now_us)),
    {
        let s = self.entries();
        if sweep_due(self.next_check(), now_us) {
            lemma_filter_keys_apart(s, live_at::<T>(now_us, self.active_limit(), self.idle_limit()));
        }
    }

    /// An empty table with the given timeouts, in seconds.
    pub fn new(active_timeout: u64, idle_timeout: u64, early_export: Option<u64>) -> (r: Self)
        ensures
            r.wf(),
            r.entries() == Seq::<FlowEntry<T>>::empty(),
            r.active_limit() == active_timeout,
            r.idle_limit() == idle_timeout,
            r.early_limit() == early_export,
            r.next_check() == None::<i64>,
    {
        FlowTable {
            flow_map: Vec::new(),
            active_timeout,
            idle_timeout,
            early_export,
            next_check_time: None,
        }
    }

    /// The number of live flows.
    pub fn len(&self) -> (r: usize)
        ensures
            r == self.entries().len(),
    {
        self.flow_map.len()
    }

    /// Whether a flow is filed under `key`.
    pub fn contains_key(&self, key: &FlowKey) -> (r: bool)
        ensures
            r == holds_key(self.entries(), *key),
    {
        find_key(&self.flow_map, key).is_some()
    }

    /// The flow filed under `key`, if any.
    pub fn get(&self, key: &FlowKey) -> (r: Option<&T>)
        ensures
            match r {
                Some(f) => exists|i: int|
                    0 <= i < self.entries().len() && self.entries()[i].key == *key
                        && self.entries()[i].flow == *f,
                None => !holds_key(self.entries(), *key),
            },
    {
        match find_key(&self.flow_map, key) {
            Some(i) => {
                let f = &self.flow_map[i].flow;
                assert(self.entries()[i as int].key == *key && self.entries()[i as int].flow == *f);
                Some(f)
            },
            None => None,
        }
    }

    /// The active timeout, in seconds.
    pub fn active_timeout(&self) -> (r: u64)
        ensures
            r == self.active_limit(),
    {
        self.active_timeout
    }

    /// The idle timeout, in seconds.
    pub fn idle_timeout(&self) -> (r: u64)
        ensures
            r == self.idle_limit(),
    {
        self.idle_timeout
    }

    /// The early-export threshold, in seconds, if any.
    pub fn early_export(&self) -> (r: Option<u64>)
        ensures
            r == self.early_limit(),
    {
        self.early_export
    }

    /// The event time of the next sweep, once one has run.
    pub fn next_check_time(&self) -> (r: Option<i64>)
        ensures
            r == self.next_check(),
    {
        self.next_check_time
    }

    /// Files one packet: sweeps out expired flows when a sweep is due, then
    /// updates, replaces or opens the packet's flow. Returns the flows to
    /// export, in order.
    pub fn process_packet(&mut self, packet: &PacketFeatures) -> (exports: Vec<T>)
        requires
            old(self).wf(),
        ensures
            final(self).wf(),
            Self::processed(*old(self), *final(self), *packet, exports@),
    {
        let now = packet.timestamp_us;
        let due = match self.next_check_time {
            None => true,
            Some(t) => now >= t,
        };
        let mut exports: Vec<T> = if due {
            let swept = self.export_expired_flows(now);
            self.next_check_time = Some(
                if now <= i64::MAX - EXPIRATION_CHECK_INTERVAL_US {
                    now + EXPIRATION_CHECK_INTERVAL_US
                } else {
                    i64::MAX
                },
            );
            swept
        } else {
            Vec::new()
        };
        let ghost pre = self.flow_map@;
        let ghost swept = exports@;
        assert(pre == old(self).entries_after_sweep(now));
        assert(swept == old(self).swept_flows(now));
        let fwd = packet.flow_key();
        let bwd = packet.flow_key_bwd();
        let (found, key) = match find_key(&self.flow_map, &bwd) {
            Some(i) => (Some(i), bwd),
            None => (find_key(&self.flow_map, &fwd), fwd),
        };
        assert(key == resolved_key(pre, *packet));
        match found {
            None => {
                let flow = T::new(
                    fwd,
                    packet.source_ip,
                    packet.source_port,
                    packet.destination_ip,
                    packet.destination_port,
                    packet.protocol,
                    now,
                );
                proof {
                    lemma_keys_apart_push(pre, opened_by::<T>(*packet));
                }
                self.flow_map.push(FlowEntry { key: fwd, flow });
                assert(self.flow_map@ == pre.push(opened_by::<T>(*packet)));
            },
            Some(i) => {
                proof {
                    lemma_keys_apart_remove(pre, i as int);
                }
                let entry = self.flow_map.remove(i);
                let mut flow = entry.flow;
                if flow.is_expired(now, self.active_timeout, self.idle_timeout) {
                    exports.push(flow);
                    let fresh = T::new(
                        fwd,
                        packet.source_ip,
                        packet.source_port,
                        packet.destination_ip,
                        packet.destination_port,
                        packet.protocol,
                        now,
                    );
                    proof {
                        lemma_keys_apart_push(pre.remove(i as int), opened_by::<T>(*packet));
                    }
                    self.flow_map.push(FlowEntry { key: fwd, flow: fresh });
                    assert(exports@ =~= swept + seq![pre[i as int].flow]);
                } else {
                    let is_forward = key == fwd;
                    let ended = flow.update_flow(packet, is_forward);
                    if ended {
                        exports.push(flow);
                        assert(exports@ =~= swept + seq![flow]);
                    } else {
                        if early_export_is_due(self.early_export, now, flow.get_first_timestamp()) {
                            exports.push(flow.snapshot());
                            assert(exports@ =~= swept + seq![flow]);
                        } else {
                            assert(exports@ =~= swept + Seq::<T>::empty());
                        }
                        proof {
                            lemma_keys_apart_push(
                                pre.remove(i as int),
                                FlowEntry { key: key, flow: flow },
                            );
                        }
                        self.flow_map.push(FlowEntry { key, flow });
                    }
                }
            },
        }
        proof {
            if found.is_some() {
                let i = found.unwrap() as int;
                assert forall|j: int| 0 <= j < pre.len() && #[trigger] pre[j].key == key implies j
                    == i by {
                    if j != i {
                        assert(pre[j].key != pre[i].key);
                    }
                }
            } else {
                assert(exports@ =~= swept);
            }
        }
        exports
    }

    /// Empties the table and returns all its flows in non-decreasing order
    /// of first-seen time.
    pub fn export_all_flows(&mut self) -> (exported: Vec<T>)
        requires
            old(self).wf(),
        ensures
            final(self).wf(),
            final(self).same_settings(old(self)),
            final(self).next_check() == old(self).next_check(),
            final(self).entries() == Seq::<FlowEntry<T>>::empty(),
            exported@.len() == old(self).entries().len(),
            exported@.to_multiset() == flows_of(old(self).entries()).to_multiset(),
            ordered_by_first_seen(exported@),
    {
        broadcast use vstd::seq_lib::group_to_multiset_ensures;
        broadcast use vstd::multiset::group_multiset_axioms;

        let ghost s = self.flow_map@;
        let mut held: Vec<FlowEntry<T>> = Vec::new();
        std::mem::swap(&mut held, &mut self.flow_map);
        let mut rest: Vec<T> = Vec::new();
        for e in it: held.into_iter()
            invariant
                it.seq() == s,
                rest@ == flows_of(s.subrange(0, it.index() as int)),
                self.flow_map@ == Seq::<FlowEntry<T>>::empty(),
        {
            let ghost k = it.index() as int;
            assert(flows_of(s.subrange(0, k + 1)) =~= flows_of(s.subrange(0, k)).push(e.flow));
            rest.push(e.flow);
        }
        assert(s.subrange(0, s.len() as int) =~= s);
        let ghost all = rest@.to_multiset();
        let mut exported: Vec<T> = Vec::new();
        while rest.len() > 0
            invariant
                exported@.to_multiset().add(rest@.to_multiset()) == all,
                ordered_by_first_seen(exported@),
                forall|a: int, b: int|
                    0 <= a < exported@.len() && 0 <= b < rest@.len() ==> #[trigger] exported@[a].first_seen()
                        <= #[trigger] rest@[b].first_seen(),
                self.flow_map@ == Seq::<FlowEntry<T>>::empty(),
            decreases rest@.len(),
        {
            let m = index_of_earliest(&rest);
            let ghost before = rest@;
            let ghost out = exported@;
            let f = rest.remove(m);
            proof {
                vstd::seq_lib::to_multiset_remove(before, m as int);
                before.to_multiset_ensures();
                assert(before[m as int] == f);
                assert(before.contains(f));
            }
            assert(before.to_multiset().count(f) > 0);
            exported.push(f);
            proof {
                vstd::seq_lib::to_multiset_build(out, f);
            }
            assert(exported@.to_multiset() == out.to_multiset().insert(f));
            assert(exported@.to_multiset().add(rest@.to_multiset()) =~= out.to_multiset().add(
                before.to_multiset(),
            ));
            assert forall|a: int, b: int|
                0 <= a < exported@.len() && 0 <= b < rest@.len() implies #[trigger] exported@[a].first_seen()
                    <= #[trigger] rest@[b].first_seen() by {
                let bb = if b < m {
                    b
                } else {
                    b + 1
                };
                assert(rest@[b] == before[bb]);
                if a < out.len() {
                    assert(exported@[a] == out[a]);
                }
            }
            assert forall|a: int, b: int|
                0 <= a < b < exported@.len() implies #[trigger] exported@[a].first_seen()
                    <= #[trigger] exported@[b].first_seen() by {
                if b < out.len() {
                    assert(exported@[a] == out[a]);
                    assert(exported@[b] == out[b]);
                } else {
                    assert(exported@[a] == out[a]);
                    assert(exported@[b] == before[m as int]);
                }
            }
        }
        assert(rest@.to_multiset() =~= Multiset::empty());
        assert(exported@.to_multiset() =~= all);
        proof {
            vstd::seq_lib::to_multiset_len(exported@);
            vstd::seq_lib::to_multiset_len(flows_of(s));
        }
        exported
    }

    /// Removes every flow that is expired at `timestamp_us` and returns
    /// them, in the order they were held, for export.
    pub fn export_expired_flows(&mut self, timestamp_us: i64) -> (exported: Vec<T>)
        requires
            old(self).wf(),
        ensures
            final(self).wf(),
            final(self).same_settings(old(self)),
            final(self).next_check() == old(self).next_check(),
            final(self).entries() == live_entries(
                old(self).entries(),
                timestamp_us,
                old(self).active_limit(),
                old(self).idle_limit(),
            ),
            exported@ == expired_flows(
                old(self).entries(),
                timestamp_us,
                old(self).active_limit(),
                old(self).idle_limit(),
            ),
    {
        let ghost s = self.flow_map@;
        let active = self.active_timeout;
        let idle = self.idle_timeout;
        let ghost live = live_at::<T>(timestamp_us, active, idle);
        let ghost dead = expired_at::<T>(timestamp_us, active, idle);
        let mut held: Vec<FlowEntry<T>> = Vec::new();
        std::mem::swap(&mut held, &mut self.flow_map);
        let mut kept: Vec<FlowEntry<T>> = Vec::new();
        let mut exported: Vec<T> = Vec::new();
        for e in it: held.into_iter()
            invariant
                it.seq() == s,
                live == live_at::<T>(timestamp_us, active, idle),
                dead == expired_at::<T>(timestamp_us, active, idle),
                keys_apart(s),
                kept@ == s.subrange(0, it.index() as int).filter(live),
                exported@ == flows_of(s.subrange(0, it.index() as int).filter(dead)),
                self.active_timeout == active,
                self.idle_timeout == idle,
                self.flow_map@ == Seq::<FlowEntry<T>>::empty(),
        {
            let ghost k = it.index() as int;
            assert(s.subrange(0, k + 1).drop_last() =~= s.subrange(0, k));
            assert(s.subrange(0, k + 1).last() == s[k]);
            assert(e == s[k]);
            assert(s.subrange(0, k + 1) =~= s.subrange(0, k).push(s[k]));
            proof {
                lemma_filter_push(s.subrange(0, k), s[k], live);
                lemma_filter_push(s.subrange(0, k), s[k], dead);
            }
            if e.flow.is_expired(timestamp_us, active, idle) {
                let ghost before = s.subrange(0, k).filter(dead);
                exported.push(e.flow);
                assert(flows_of(before.push(s[k])) =~= flows_of(before).push(s[k].flow));
                assert(s.subrange(0, k + 1).filter(dead) == before.push(s[k]));
                assert(s.subrange(0, k + 1).filter(live) == s.subrange(0, k).filter(live));
            } else {
                proof {
                    assert(s.subrange(0, k + 1).filter(live) == s.subrange(0, k).filter(live).push(
                        s[k],
                    ));
                    assert(s.subrange(0, k + 1).filter(dead) == s.subrange(0, k).filter(dead));
                }
                kept.push(e);
            }
        }
        proof {
            assert(s.subrange(0, s.len() as int) =~= s);
            lemma_filter_keys_apart(s, live);
        }
        self.flow_map = kept;
        exported
    }
}

/// A well-formed table never files one conversation twice: where a flow is
/// filed under a key, none is filed under its reverse, unless the key is its
/// own reverse.
pub proof fn lemma_no_key_beside_its_reverse<T: Flow>(table: FlowTable<T>, k: FlowKey)
    requires
        table.wf(),
        holds_key(table.entries(), k),
        k != k.reverse(),
    ensures
        !holds_key(table.entries(), k.reverse()),
{
    let s = table.entries();
    let i = choose|i: int| 0 <= i < s.len() && s[i].key == k;
    assert forall|j: int| 0 <= j < s.len() implies s[j].key != k.reverse() by {
        if j != i {
            assert(s[j].key != s[i].key.reverse());
        }
    }
}

/// A packet at least as late as one that ran a sweep, and less than the
/// sweep interval after it, runs no sweep.
pub proof fn lemma_sweep_gating<T: Flow>(
    old: FlowTable<T>,
    new: FlowTable<T>,
    p: PacketFeatures,
    exports: Seq<T>,
    q: PacketFeatures,
)
    requires
        FlowTable::processed(old, new, p, exports),
        sweep_due(old.next_check(), p.timestamp_us),
        p.timestamp_us <= q.timestamp_us < p.timestamp_us + EXPIRATION_CHECK_INTERVAL_US,
        p.timestamp_us <= i64::MAX - EXPIRATION_CHECK_INTERVAL_US,
    ensures
        !sweep_due(new.next_check(), q.timestamp_us),
{
}

/// After a packet, no flow that was expired at its time stays filed when a
/// sweep ran. The packet's own flow, where one was filed, is handed out
/// exactly once: when it had expired, as it stood, and the packet opens a
/// new flow in its place; when the packet ended it, updated, and its key is
/// gone; when it was only exported early, updated, and it stays filed.
pub proof fn lemma_export_once<T: Flow>(
    old: FlowTable<T>,
    new: FlowTable<T>,
    p: PacketFeatures,
    exports: Seq<T>,
    i: int,
)
    requires
        old.wf(),
        new.wf(),
        FlowTable::processed(old, new, p, exports),
        0 <= i < old.entries_after_sweep(p.timestamp_us).len(),
        old.entries_after_sweep(p.timestamp_us)[i].key == resolved_key(
            old.entries_after_sweep(p.timestamp_us),
            p,
        ),
    ensures
        ({
            let now = p.timestamp_us;
            let pre = old.entries_after_sweep(now);
            let swept = old.swept_flows(now);
            let k = pre[i].key;
            let f = pre[i].flow;
            let g = f.updated(p, k == p.key());
            &&& sweep_due(old.next_check(), now) ==> forall|j: int|
                0 <= j < pre.len() ==> !(#[trigger] pre[j]).flow.expired_at(
                    now,
                    old.active_limit(),
                    old.idle_limit(),
                )
            &&& exports.subrange(0, swept.len() as int) == swept
            &&& f.expired_at(now, old.active_limit(), old.idle_limit()) ==> {
                &&& exports.len() == swept.len() + 1
                &&& exports.last() == f
                &&& new.entries().last() == opened_by::<T>(p)
                &&& forall|j: int|
                    0 <= j < new.entries().len() && (#[trigger] new.entries()[j]).key == k ==> j
                        == new.entries().len() - 1
            }
            &&& !f.expired_at(now, old.active_limit(), old.idle_limit()) && f.ended_by(
                p,
                k == p.key(),
            ) ==> {
                &&& exports.len() == swept.len() + 1
                &&& exports.last() == g
                &&& !holds_key(new.entries(), k)
            }
            &&& !f.expired_at(now, old.active_limit(), old.idle_limit()) && !f.ended_by(
                p,
                k == p.key(),
            ) ==> {
                &&& new.entries().last() == (FlowEntry { key: k, flow: g })
                &&& early_export_due(old.early_limit(), now, f.first_seen()) ==> exports.len()
                    == swept.len() + 1 && exports.last() == g
                &&& !early_export_due(old.early_limit(), now, f.first_seen()) ==> exports
                    == swept
            }
        }),
{
    broadcast use vstd::seq_lib::group_filter_ensures;

    let now = p.timestamp_us;
    let pre = old.entries_after_sweep(now);
    let swept = old.swept_flows(now);
    let k = pre[i].key;
    let f = pre[i].flow;
    assert(pre[i].key == k);
    let (entries, tail) = after_lookup(
        pre,
        i,
        k,
        p,
        old.active_limit(),
        old.idle_limit(),
        old.early_limit(),
    );
    assert(new.entries() == entries && exports == swept + tail);
    assert(exports.subrange(0, swept.len() as int) =~= swept);
    if sweep_due(old.next_check(), now) {
        let live = live_at::<T>(now, old.active_limit(), old.idle_limit());
        assert forall|j: int| 0 <= j < pre.len() implies !(#[trigger] pre[j]).flow.expired_at(
            now,
            old.active_limit(),
            old.idle_limit(),
        ) by {
            old.entries().lemma_filter_pred(live, j);
        }
    }
    old.lemma_entries_after_sweep_apart(now);
    lemma_keys_apart_remove(pre, i);
    let rest = pre.remove(i);
    if f.expired_at(now, old.active_limit(), old.idle_limit()) {
        assert forall|j: int|
            0 <= j < new.entries().len() && (#[trigger] new.entries()[j]).key == k implies j
                == new.entries().len() - 1 by {
            if j < rest.len() {
                assert(new.entries()[j] == rest[j]);
            }
        }
    } else if f.ended_by(p, k == p.key()) {
        assert forall|j: int| 0 <= j < new.entries().len() implies new.entries()[j].key != k by {
            assert(new.entries()[j] == rest[j]);
        }
    }
}

} // verus!
