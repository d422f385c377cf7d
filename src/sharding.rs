//! Flow-affine distribution over a fixed number of workers: every frame goes
//! to the worker its flow hashes to, and each worker runs its own pipeline
//! over its own flows.
use vstd::prelude::*;

use crate::analyzer::{events_of, is_open, packet_outcome, Analyzer, AnalyzerConfig, Dispatch};
use crate::five_tuple::{flow_key_of, worker_index, worker_of, FiveTuple};
use crate::layers::{decode_frame, decode_from, five_tuple_of, LayerType, MAX_LAYERS};
use crate::plugin::Event;

verus! {

/// The worker, out of `n`, that a frame goes to: its flow's worker, or the
/// first worker for a frame without an IP five-tuple.
pub open spec fn route_of(frame: Seq<u8>, link: LayerType, n: nat) -> nat {
    match five_tuple_of(frame, decode_from(frame, link, 0, MAX_LAYERS as nat).0) {
        Some(t) => worker_of(t, n),
        None => 0,
    }
}

/// The worker, out of `n`, that a frame goes to.
pub fn route(frame: &[u8], link: LayerType, n: usize) -> (r: usize)
    requires
        n > 0,
    ensures
        r as nat == route_of(frame@, link, n as nat),
        r < n,
{
    match decode_frame(frame, link).five_tuple {
        Some(t) => worker_index(&t, n),
        None => 0,
    }
}

/// Frames of one flow, in either direction, go to one worker, whatever the
/// number of workers.
pub proof fn lemma_flow_routed_to_one_worker(f1: Seq<u8>, l1: LayerType, f2: Seq<u8>, l2: LayerType, n: nat)
    requires
        n > 0,
        five_tuple_of(f1, decode_from(f1, l1, 0, MAX_LAYERS as nat).0) is Some,
        five_tuple_of(f2, decode_from(f2, l2, 0, MAX_LAYERS as nat).0) is Some,
        flow_key_of(five_tuple_of(f1, decode_from(f1, l1, 0, MAX_LAYERS as nat).0)->0) == flow_key_of(
            five_tuple_of(f2, decode_from(f2, l2, 0, MAX_LAYERS as nat).0)->0,
        ),
    ensures
        route_of(f1, l1, n) == route_of(f2, l2, n),
{
}

/// A fixed set of pipelines, one per worker, fed one frame at a time.
pub struct ShardedAnalyzer {
    workers: Vec<Analyzer>,
}

impl ShardedAnalyzer {
    pub closed spec fn workers(&self) -> Seq<Analyzer> {
        self.workers@
    }

    pub closed spec fn wf(&self) -> bool {
        &&& self.workers.len() > 0
        &&& forall|w: int| 0 <= w < self.workers.len() ==> (#[trigger] self.workers@[w]).wf()
    }

    /// `n` empty pipelines.
    pub fn new(config: &AnalyzerConfig, n: usize) -> (r: ShardedAnalyzer)
        requires
            n > 0,
        ensures
            r.wf(),
            r.workers().len() == n,
            forall|w: int| 0 <= w < n ==> (#[trigger] r.workers()[w]).log() == Seq::<Event>::empty(),
    {
        let mut workers: Vec<Analyzer> = Vec::new();
        let mut i: usize = 0;
        while i < n
            invariant
                i <= n,
                workers.len() == i,
                forall|w: int| 0 <= w < i ==> (#[trigger] workers@[w]).wf() && workers@[w].log() == Seq::<
                    Event,
                >::empty(),
            decreases n - i,
        {
            workers.push(Analyzer::new(config));
            i += 1;
        }
        ShardedAnalyzer { workers }
    }

    /// Number of workers.
    pub fn worker_count(&self) -> (r: usize)
        ensures
            r == self.workers().len(),
    {
        self.workers.len()
    }

    /// Run a frame through the pipeline of its worker: one step of that
    /// worker's analyzer (see `packet_outcome`). Returns the worker and what
    /// its pipeline reports; the other workers are untouched.
    pub fn handle_packet(&mut self, frame: &[u8], link: LayerType, ts: u64) -> (r: (usize, Vec<Dispatch>))
        requires
            old(self).wf(),
        ensures
            final(self).wf(),
            final(self).workers().len() == old(self).workers().len(),
            r.0 as nat == route_of(frame@, link, old(self).workers().len() as nat),
            packet_outcome(old(self).workers()[r.0 as int], frame@, link, final(self).workers()[r.0 as int], r.1@),
            forall|w: int|
                0 <= w < old(self).workers().len() && w != r.0 ==> #[trigger] final(self).workers()[w]
                    == old(self).workers()[w],
    {
        let w = route(frame, link, self.workers.len());
        let mut a = self.workers.remove(w);
        let out = a.handle_packet(frame, link, ts);
        self.workers.insert(w, a);
        assert forall|v: int| 0 <= v < self.workers.len() implies (#[trigger] self.workers@[v]).wf() by {
            if v != w {
                assert(self.workers@[v] == old(self).workers@[v]);
            }
        }
        (w, out)
    }

    /// Close every flow of every worker; returns what each reports, by worker.
    pub fn finish(&mut self) -> (r: Vec<Vec<Dispatch>>)
        requires
            old(self).wf(),
        ensures
            final(self).wf(),
            r.len() == old(self).workers().len(),
            final(self).workers().len() == old(self).workers().len(),
            forall|w: int|
                0 <= w < r.len() ==> #[trigger] final(self).workers()[w].log() == old(self).workers()[w].log()
                    + events_of(r@[w]@),
            forall|w: int, k: FiveTuple|
                0 <= w < r.len() ==> !#[trigger] is_open(final(self).workers()[w].log(), k),
    {
        let mut r: Vec<Vec<Dispatch>> = Vec::new();
        let mut i: usize = 0;
        while i < self.workers.len()
            invariant
                i <= self.workers.len(),
                self.wf(),
                r.len() == i,
                self.workers.len() == old(self).workers.len(),
                forall|w: int|
                    0 <= w < i ==> #[trigger] self.workers@[w].log() == old(self).workers@[w].log() + events_of(
                        r@[w]@,
                    ),
                forall|w: int, k: FiveTuple| 0 <= w < i ==> !#[trigger] is_open(self.workers@[w].log(), k),
                forall|w: int| i <= w < self.workers.len() ==> #[trigger] self.workers@[w] == old(self).workers@[w],
            decreases self.workers.len() - i,
        {
            let mut a = self.workers.remove(i);
            let out = a.finish();
            self.workers.insert(i, a);
            r.push(out);
            assert forall|v: int| 0 <= v < self.workers.len() implies (#[trigger] self.workers@[v]).wf() by {
                if v != i {
                    assert(self.workers@[v] == old(self).workers@[v] || v < i);
                }
            }
            i += 1;
        }
        r
    }
}

} // verus!
