//! The flow table: one entry per flow key, with creation and last-seen
//! times and the TCP reassembly state of both directions.
use vstd::prelude::*;

use crate::five_tuple::{Direction, FiveTuple};
use crate::tcp_reassembly::{accept_outcome, TcpDirection, TcpSegment, TcpState};

verus! {

/// Times recorded for a flow.
pub struct FlowTimes {
    pub first_seen: u64,
    pub last_seen: u64,
}

/// State of one flow.
pub struct Flow {
    key: FiveTuple,
    first_seen: u64,
    last_seen: u64,
    forward: TcpDirection,
    backward: TcpDirection,
}

impl Flow {
    closed spec fn wf(&self) -> bool {
        self.forward.wf() && self.backward.wf()
    }

    closed spec fn times(&self) -> FlowTimes {
        FlowTimes { first_seen: self.first_seen, last_seen: self.last_seen }
    }
}

/// The flow is idle at `now`: more than `idle` time units since it was last seen.
pub open spec fn is_idle(t: FlowTimes, now: u64, idle: u64) -> bool {
    now > t.last_seen && now - t.last_seen > idle
}

/// Flows by key.
pub struct FlowTable {
    flows: Vec<Flow>,
    view: Ghost<Map<FiveTuple, FlowTimes>>,
    tcp: Ghost<Map<FiveTuple, (TcpDirection, TcpDirection)>>,
    max_tcp_buffered: usize,
}

impl FlowTable {
    /// The flows, by key.
    pub closed spec fn flows(&self) -> Map<FiveTuple, FlowTimes> {
        self.view@
    }

    /// TCP reassembly state of each flow: (forward, backward) direction.
    pub closed spec fn directions(&self) -> Map<FiveTuple, (TcpDirection, TcpDirection)> {
        self.tcp@
    }

    /// TCP reassembly state of one direction of a flow.
    pub open spec fn direction(&self, k: FiveTuple, d: Direction) -> TcpDirection {
        match d {
            Direction::Forward => self.directions()[k].0,
            Direction::Backward => self.directions()[k].1,
        }
    }

    pub closed spec fn wf(&self) -> bool {
        &&& self.tcp@.dom() == self.view@.dom()
        &&& forall|i: int|
            0 <= i < self.flows.len() ==> self.tcp@[(#[trigger] self.flows[i]).key] == (
                self.flows[i].forward,
                self.flows[i].backward,
            )
        &&& forall|i: int| 0 <= i < self.flows.len() ==> (#[trigger] self.flows[i]).wf()
        &&& forall|i: int|
            0 <= i < self.flows.len() ==> self.view@.contains_key((#[trigger] self.flows[i]).key)
                && self.view@[self.flows[i].key] == self.flows[i].times()
        &&& forall|k: FiveTuple|
            #[trigger] self.view@.contains_key(k) ==> exists|i: int|
                0 <= i < self.flows.len() && (#[trigger] self.flows[i]).key == k
        &&& forall|i: int, j: int|
            0 <= i < self.flows.len() && 0 <= j < self.flows.len() && i != j ==> (
            #[trigger] self.flows[i]).key != (#[trigger] self.flows[j]).key
    }

    /// An empty table; each TCP direction buffers at most `max_tcp_buffered` bytes.
    pub fn new(max_tcp_buffered: usize) -> (r: FlowTable)
        ensures
            r.wf(),
            r.flows() == Map::<FiveTuple, FlowTimes>::empty(),
            r.directions() == Map::<FiveTuple, (TcpDirection, TcpDirection)>::empty(),
    {
        FlowTable { flows: Vec::new(), view: Ghost(Map::empty()), tcp: Ghost(Map::empty()), max_tcp_buffered }
    }

    /// Number of flows.
    pub fn len(&self) -> (r: usize)
        requires
            self.wf(),
        ensures
            r == self.flows().dom().len(),
    {
        proof {
            let keys = Seq::new(self.flows.len() as nat, |i: int| self.flows[i].key);
            assert(keys.no_duplicates());
            keys.unique_seq_to_set();
            assert(keys.to_set() =~= self.view@.dom()) by {
                assert forall|k: FiveTuple| #[trigger] self.view@.dom().contains(k) implies keys.contains(k) by {
                    let i = choose|i: int| 0 <= i < self.flows.len() && (#[trigger] self.flows[i]).key == k;
                    assert(keys[i] == k);
                }
            }
        }
        self.flows.len()
    }

    fn find(&self, key: &FiveTuple) -> (r: Option<usize>)
        ensures
            match r {
                Some(i) => i < self.flows.len() && self.flows[i as int].key == *key,
                None => forall|i: int| 0 <= i < self.flows.len() ==> (#[trigger] self.flows[i]).key != *key,
            },
    {
        let mut i: usize = 0;
        while i < self.flows.len()
            invariant
                i <= self.flows.len(),
                forall|j: int| 0 <= j < i ==> (#[trigger] self.flows[j]).key != *key,
            decreases self.flows.len() - i,
        {
            if self.flows[i].key == *key {
                return Some(i);
            }
            i += 1;
        }
        None
    }

    proof fn lemma_absent(&self, key: FiveTuple)
        requires
            self.wf(),
            forall|i: int| 0 <= i < self.flows.len() ==> (#[trigger] self.flows[i]).key != key,
        ensures
            !self.flows().contains_key(key),
    {
        if self.view@.contains_key(key) {
            let i = choose|i: int| 0 <= i < self.flows.len() && (#[trigger] self.flows[i]).key == key;
            assert(self.flows[i].key == key);
        }
    }

    /// Whether a flow with that key exists.
    pub fn contains(&self, key: &FiveTuple) -> (r: bool)
        requires
            self.wf(),
        ensures
            r == self.flows().contains_key(*key),
    {
        match self.find(key) {
            Some(_) => true,
            None => {
                proof {
                    self.lemma_absent(*key);
                }
                false
            },
        }
    }

    /// Remove the flow at position `i`.
    fn take_at(&mut self, i: usize) -> (r: Flow)
        requires
            old(self).wf(),
            i < old(self).flows.len(),
        ensures
            final(self).wf(),
            r.wf(),
            r == old(self).flows[i as int],
            r.key == old(self).flows[i as int].key,
            old(self).directions()[r.key] == (r.forward, r.backward),
            final(self).directions() == old(self).directions().remove(r.key),
            old(self).flows().contains_key(r.key),
            old(self).flows()[r.key] == r.times(),
            final(self).flows() == old(self).flows().remove(r.key),
            final(self).flows.len() == old(self).flows.len() - 1,
            forall|j: int| 0 <= j < i ==> final(self).flows[j] == old(self).flows[j],
            forall|j: int| i <= j < final(self).flows.len() ==> final(self).flows[j] == old(self).flows[j + 1],
            final(self).max_tcp_buffered == old(self).max_tcp_buffered,
    {
        let ghost old_flows = self.flows@;
        let f = self.flows.remove(i);
        let ghost key = f.key;
        self.view = Ghost(self.view@.remove(key));
        self.tcp = Ghost(self.tcp@.remove(key));
        assert(self.tcp@.dom() =~= self.view@.dom());
        assert forall|a: int| 0 <= a < self.flows.len() implies self.tcp@[(#[trigger] self.flows[a]).key] == (
            self.flows[a].forward,
            self.flows[a].backward,
        ) by {
            let b = if a < i { a } else { a + 1 };
            assert(old_flows[b] == self.flows[a]);
            assert(old_flows[b].key != old_flows[i as int].key);
        }
        assert forall|k: FiveTuple| #[trigger] self.view@.contains_key(k) implies exists|j: int|
            0 <= j < self.flows.len() && (#[trigger] self.flows[j]).key == k by {
            let j = choose|j: int| 0 <= j < old_flows.len() && (#[trigger] old_flows[j]).key == k;
            if j < i {
                assert(self.flows[j].key == k);
            } else {
                assert(self.flows[j - 1].key == k);
            }
        }
        assert forall|a: int| 0 <= a < self.flows.len() implies self.view@.contains_key((#[trigger] self.flows[a]).key)
            && self.view@[self.flows[a].key] == self.flows[a].times() by {
            let b = if a < i { a } else { a + 1 };
            assert(old_flows[b] == self.flows[a]);
            assert(old_flows[b].key != old_flows[i as int].key);
        }
        f
    }

    /// Add a flow under a key that has none.
    fn put(&mut self, f: Flow)
        requires
            old(self).wf(),
            f.wf(),
            !old(self).flows().contains_key(f.key),
        ensures
            final(self).wf(),
            final(self).flows() == old(self).flows().insert(f.key, f.times()),
            final(self).directions() == old(self).directions().insert(f.key, (f.forward, f.backward)),
            final(self).flows.len() == old(self).flows.len() + 1,
            final(self).flows[old(self).flows.len() as int] == f,
            forall|j: int| 0 <= j < old(self).flows.len() ==> final(self).flows[j] == old(self).flows[j],
            final(self).max_tcp_buffered == old(self).max_tcp_buffered,
    {
        let ghost old_flows = self.flows@;
        let ghost key = f.key;
        let ghost t = f.times();
        let ghost dirs = (f.forward, f.backward);
        self.flows.push(f);
        self.view = Ghost(self.view@.insert(key, t));
        self.tcp = Ghost(self.tcp@.insert(key, dirs));
        assert(self.tcp@.dom() =~= self.view@.dom());
        assert forall|a: int| 0 <= a < self.flows.len() implies self.tcp@[(#[trigger] self.flows[a]).key] == (
            self.flows[a].forward,
            self.flows[a].backward,
        ) by {
            if a < old_flows.len() {
                assert(old_flows[a] == self.flows[a]);
                assert(old(self).view@.contains_key(old_flows[a].key));
            }
        }
        assert forall|k: FiveTuple| #[trigger] self.view@.contains_key(k) implies exists|j: int|
            0 <= j < self.flows.len() && (#[trigger] self.flows[j]).key == k by {
            if k == key {
                assert(self.flows[old_flows.len() as int].key == k);
            } else {
                let j = choose|j: int| 0 <= j < old_flows.len() && (#[trigger] old_flows[j]).key == k;
                assert(self.flows[j].key == k);
            }
        }
        assert forall|a: int, b: int|
            0 <= a < self.flows.len() && 0 <= b < self.flows.len() && a != b implies (
            #[trigger] self.flows[a]).key != (#[trigger] self.flows[b]).key by {
            if a < old_flows.len() && b < old_flows.len() {
                assert(old_flows[a] == self.flows[a]);
                assert(old_flows[b] == self.flows[b]);
            } else if a < old_flows.len() {
                assert(old_flows[a] == self.flows[a]);
                assert(self.view@.contains_key(old_flows[a].key));
            } else {
                assert(old_flows[b] == self.flows[b]);
            }
        }
    }

    /// Find the flow of `key`, creating it when there is none, and record
    /// that it was seen at `ts`. Returns whether it was created.
    pub fn lookup_or_create(&mut self, key: FiveTuple, ts: u64) -> (is_new: bool)
        requires
            old(self).wf(),
        ensures
            final(self).wf(),
            final(self).directions() == old(self).directions().insert(key, final(self).directions()[key]),
            !is_new ==> final(self).directions()[key] == old(self).directions()[key],
            is_new ==> forall|d: Direction|
                #![trigger final(self).direction(key, d)]
                final(self).direction(key, d).wf() && final(self).direction(key, d).state() == TcpState::Init
                    && final(self).direction(key, d).stream().next() == 0 && final(self).direction(
                    key,
                    d,
                ).stream().pending().len() == 0,
            is_new == !old(self).flows().contains_key(key),
            final(self).flows() == old(self).flows().insert(
                key,
                if is_new {
                    FlowTimes { first_seen: ts, last_seen: ts }
                } else {
                    FlowTimes {
                        first_seen: old(self).flows()[key].first_seen,
                        last_seen: if ts > old(self).flows()[key].last_seen { ts } else { old(self).flows()[key].last_seen },
                    }
                },
            ),
    {
        match self.find(&key) {
            Some(i) => {
                let mut f = self.take_at(i);
                if ts > f.last_seen {
                    f.last_seen = ts;
                }
                self.put(f);
                assert(self.view@ =~= old(self).flows().insert(key, f.times()));
                assert(self.tcp@ =~= old(self).tcp@.insert(key, self.tcp@[key]));
                false
            },
            None => {
                proof {
                    self.lemma_absent(key);
                }
                let f = Flow {
                    key,
                    first_seen: ts,
                    last_seen: ts,
                    forward: TcpDirection::new(self.max_tcp_buffered),
                    backward: TcpDirection::new(self.max_tcp_buffered),
                };
                self.put(f);
                assert(self.tcp@ =~= old(self).tcp@.insert(key, self.tcp@[key]));
                true
            },
        }
    }

    /// Remove the flow of `key`; returns whether there was one.
    pub fn remove(&mut self, key: &FiveTuple) -> (r: bool)
        requires
            old(self).wf(),
        ensures
            final(self).wf(),
            r == old(self).flows().contains_key(*key),
            final(self).flows() == old(self).flows().remove(*key),
            final(self).directions() == old(self).directions().remove(*key),
    {
        match self.find(key) {
            Some(i) => {
                self.take_at(i);
                true
            },
            None => {
                proof {
                    self.lemma_absent(*key);
                }
                assert(self.view@.remove(*key) =~= self.view@);
                assert(self.tcp@.remove(*key) =~= self.tcp@);
                false
            },
        }
    }

    /// Remove every flow idle at `now` for longer than `idle`, and return
    /// their keys.
    pub fn expire(&mut self, now: u64, idle: u64) -> (r: Vec<FiveTuple>)
        requires
            old(self).wf(),
        ensures
            final(self).wf(),
            r@.no_duplicates(),
            forall|k: FiveTuple| #[trigger] r@.contains(k) <==> old(self).flows().contains_key(k) && is_idle(
                old(self).flows()[k],
                now,
                idle,
            ),
            final(self).flows() == old(self).flows().restrict(
                old(self).flows().dom().filter(|k: FiveTuple| !is_idle(old(self).flows()[k], now, idle)),
            ),
            final(self).directions() == old(self).directions().restrict(final(self).flows().dom()),
    {
        let ghost m0 = self.view@;
        let ghost t0 = self.tcp@;
        let mut r: Vec<FiveTuple> = Vec::new();
        let mut i: usize = 0;
        while i < self.flows.len()
            invariant
                self.wf(),
                i <= self.flows.len(),
                r@.no_duplicates(),
                forall|k: FiveTuple| #[trigger] r@.contains(k) ==> m0.contains_key(k) && is_idle(m0[k], now, idle) && !self.view@.contains_key(k),
                forall|k: FiveTuple| #[trigger] self.view@.contains_key(k) ==> m0.contains_key(k) && self.view@[k] == m0[k],
                forall|k: FiveTuple| #[trigger] self.tcp@.contains_key(k) ==> self.tcp@[k] == t0[k],
                t0.dom() == m0.dom(),
                forall|k: FiveTuple| m0.contains_key(k) && !is_idle(m0[k], now, idle) ==> #[trigger] self.view@.contains_key(k),
                forall|k: FiveTuple| #[trigger] m0.contains_key(k) && is_idle(m0[k], now, idle) ==> r@.contains(k) || self.view@.contains_key(k),
                forall|j: int| 0 <= j < i ==> !is_idle((#[trigger] self.flows[j]).times(), now, idle),
            decreases self.flows.len() - i,
        {
            let last = self.flows[i].last_seen;
            if now > last && now - last > idle {
                let ghost before = self.view@;
                let f = self.take_at(i);
                proof {
                    assert(!r@.contains(f.key));
                }
                let ghost old_r = r@;
                r.push(f.key);
                assert forall|k: FiveTuple| #[trigger] r@.contains(k) implies m0.contains_key(k) && is_idle(m0[k], now, idle) && !self.view@.contains_key(k) by {
                    if k != f.key {
                        let a = choose|a: int| 0 <= a < r@.len() && r@[a] == k;
                        assert(old_r[a] == k);
                        assert(old_r.contains(k));
                    } else {
                        assert(before.contains_key(k));
                    }
                }
                assert forall|k: FiveTuple| #[trigger] m0.contains_key(k) && is_idle(m0[k], now, idle) implies r@.contains(k) || self.view@.contains_key(k) by {
                    if k == f.key {
                        assert(r@[r@.len() - 1] == k);
                    } else if old_r.contains(k) {
                        let a = choose|a: int| 0 <= a < old_r.len() && old_r[a] == k;
                        assert(r@[a] == k);
                    }
                }
            } else {
                assert(self.flows[i as int].times() == self.view@[self.flows[i as int].key]);
                i += 1;
            }
        }
        let ghost keep = m0.dom().filter(|k: FiveTuple| !is_idle(m0[k], now, idle));
        assert forall|k: FiveTuple| #[trigger] self.view@.contains_key(k) implies !is_idle(m0[k], now, idle) by {
            let j = choose|j: int| 0 <= j < self.flows.len() && (#[trigger] self.flows[j]).key == k;
            assert(self.flows[j].times() == self.view@[k]);
        }
        assert(self.view@ =~= m0.restrict(keep));
        assert(self.tcp@ =~= t0.restrict(self.view@.dom()));
        r
    }

    /// Remove every flow and return their keys.
    pub fn drain(&mut self) -> (r: Vec<FiveTuple>)
        requires
            old(self).wf(),
        ensures
            final(self).wf(),
            r@.no_duplicates(),
            forall|k: FiveTuple| #[trigger] r@.contains(k) <==> old(self).flows().contains_key(k),
            final(self).flows() == Map::<FiveTuple, FlowTimes>::empty(),
            final(self).directions() == Map::<FiveTuple, (TcpDirection, TcpDirection)>::empty(),
    {
        let ghost m0 = self.view@;
        let mut r: Vec<FiveTuple> = Vec::new();
        while self.flows.len() > 0
            invariant
                self.wf(),
                r@.no_duplicates(),
                forall|k: FiveTuple| #[trigger] r@.contains(k) ==> m0.contains_key(k) && !self.view@.contains_key(k),
                forall|k: FiveTuple| #[trigger] self.view@.contains_key(k) ==> m0.contains_key(k),
                forall|k: FiveTuple| #[trigger] m0.contains_key(k) ==> r@.contains(k) || self.view@.contains_key(k),
            decreases self.flows.len(),
        {
            let ghost before = self.view@;
            let f = self.take_at(self.flows.len() - 1);
            proof {
                assert(!r@.contains(f.key));
            }
            let ghost old_r = r@;
            r.push(f.key);
            assert forall|k: FiveTuple| #[trigger] r@.contains(k) implies m0.contains_key(k) && !self.view@.contains_key(k) by {
                if k != f.key {
                    let a = choose|a: int| 0 <= a < r@.len() && r@[a] == k;
                    assert(old_r[a] == k);
                    assert(old_r.contains(k));
                } else {
                    assert(before.contains_key(k));
                }
            }
            assert forall|k: FiveTuple| #[trigger] m0.contains_key(k) implies r@.contains(k) || self.view@.contains_key(k) by {
                if k == f.key {
                    assert(r@[r@.len() - 1] == k);
                } else if old_r.contains(k) {
                    let a = choose|a: int| 0 <= a < old_r.len() && old_r[a] == k;
                    assert(r@[a] == k);
                }
            }
        }
        assert forall|k: FiveTuple| !#[trigger] self.view@.contains_key(k) by {
            if self.view@.contains_key(k) {
                let j = choose|j: int| 0 <= j < self.flows.len() && (#[trigger] self.flows[j]).key == k;
            }
        }
        assert(self.view@ =~= Map::<FiveTuple, FlowTimes>::empty());
        assert(self.tcp@ =~= Map::<FiveTuple, (TcpDirection, TcpDirection)>::empty());
        r
    }

    /// Feed a TCP segment to one direction of an existing flow; returns the
    /// bytes that direction delivers in order (nothing for an unknown flow).
    /// The other direction and the other flows are untouched.
    pub fn tcp_accept(&mut self, key: &FiveTuple, dir: Direction, seg: TcpSegment) -> (r: Vec<u8>)
        requires
            old(self).wf(),
        ensures
            final(self).wf(),
            final(self).flows() == old(self).flows(),
            !old(self).flows().contains_key(*key) ==> r@.len() == 0 && final(self).directions() == old(
                self,
            ).directions(),
            old(self).flows().contains_key(*key) ==> {
                &&& accept_outcome(old(self).direction(*key, dir), seg, final(self).direction(*key, dir), r@)
                &&& final(self).directions() == old(self).directions().insert(
                    *key,
                    final(self).directions()[*key],
                )
                &&& dir == Direction::Forward ==> final(self).directions()[*key].1 == old(self).directions()[*key].1
                &&& dir == Direction::Backward ==> final(self).directions()[*key].0 == old(self).directions()[*key].0
            },
    {
        match self.find(key) {
            None => {
                proof {
                    self.lemma_absent(*key);
                }
                Vec::new()
            },
            Some(i) => {
                let mut f = self.take_at(i);
                let out = match dir {
                    Direction::Forward => f.forward.accept(seg),
                    Direction::Backward => f.backward.accept(seg),
                };
                self.put(f);
                assert(self.view@ =~= old(self).flows());
                assert(self.tcp@ =~= old(self).tcp@.insert(*key, self.tcp@[*key]));
                out
            },
        }
    }
}

} // verus!
