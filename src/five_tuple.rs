//! Five-tuples, their direction-independent flow key, and the flow-affine
//! assignment of packets to workers.
use vstd::prelude::*;

verus! {

/// An IP address of either version, held as its numeric value.
#[derive(Clone, Copy, Debug, PartialEq, Eq, Hash, Structural)]
pub enum IpAddress {
    V4(u32),
    V6(u128),
}

impl IpAddress {
    /// Position of the address in the total order used to orient flows:
    /// every version 4 address comes before every version 6 address.
    pub open spec fn rank(self) -> int {
        match self {
            IpAddress::V4(a) => a as int,
            IpAddress::V6(a) => 0x1_0000_0000 + a as int,
        }
    }
}

/// (source address, destination address, protocol, source port, destination port).
#[derive(Clone, Copy, Debug, PartialEq, Eq, Hash, Structural)]
pub struct FiveTuple {
    pub src: IpAddress,
    pub dst: IpAddress,
    pub proto: u8,
    pub src_port: u16,
    pub dst_port: u16,
}

/// Which way a packet travels relative to the canonical orientation of its flow.
#[derive(Clone, Copy, Debug, PartialEq, Eq, Hash, Structural)]
pub enum Direction {
    /// Source endpoint is the lower one.
    Forward,
    /// Source endpoint is the higher one.
    Backward,
}

/// Endpoint (a, pa) is at or below endpoint (b, pb): by address, then by port.
pub open spec fn endpoint_le(a: IpAddress, pa: u16, b: IpAddress, pb: u16) -> bool {
    a.rank() < b.rank() || (a.rank() == b.rank() && pa <= pb)
}

fn address_lt(a: IpAddress, b: IpAddress) -> (r: bool)
    ensures
        r == (a.rank() < b.rank()),
{
    match (a, b) {
        (IpAddress::V4(x), IpAddress::V4(y)) => x < y,
        (IpAddress::V4(_), IpAddress::V6(_)) => true,
        (IpAddress::V6(_), IpAddress::V4(_)) => false,
        (IpAddress::V6(x), IpAddress::V6(y)) => x < y,
    }
}

fn endpoint_le_exec(a: IpAddress, pa: u16, b: IpAddress, pb: u16) -> (r: bool)
    ensures
        r == endpoint_le(a, pa, b, pb),
{
    if address_lt(a, b) {
        true
    } else if address_lt(b, a) {
        false
    } else {
        pa <= pb
    }
}

proof fn lemma_rank_injective(a: IpAddress, b: IpAddress)
    ensures
        a.rank() == b.rank() ==> a == b,
{
}

impl FiveTuple {
    /// The same tuple seen from the other end of the connection.
    pub open spec fn reversed(self) -> FiveTuple {
        FiveTuple {
            src: self.dst,
            dst: self.src,
            proto: self.proto,
            src_port: self.dst_port,
            dst_port: self.src_port,
        }
    }

    /// The tuple is in the orientation that the flow table stores.
    pub open spec fn is_canonical(self) -> bool {
        endpoint_le(self.src, self.src_port, self.dst, self.dst_port)
    }

    /// Swap source and destination.
    pub fn reverse(&self) -> (r: FiveTuple)
        ensures
            r == self.reversed(),
    {
        FiveTuple {
            src: self.dst,
            dst: self.src,
            proto: self.proto,
            src_port: self.dst_port,
            dst_port: self.src_port,
        }
    }

    /// Direction of this tuple relative to its flow key.
    pub fn direction(&self) -> (r: Direction)
        ensures
            r == (if self.is_canonical() { Direction::Forward } else { Direction::Backward }),
    {
        if endpoint_le_exec(self.src, self.src_port, self.dst, self.dst_port) {
            Direction::Forward
        } else {
            Direction::Backward
        }
    }
}

/// The key of the flow a tuple belongs to: the tuple in canonical orientation.
pub open spec fn flow_key_of(t: FiveTuple) -> FiveTuple {
    if t.is_canonical() {
        t
    } else {
        t.reversed()
    }
}

/// Normalise a tuple so that both directions of a connection give one key.
pub fn flow_key(t: &FiveTuple) -> (r: FiveTuple)
    ensures
        r == flow_key_of(*t),
        r.is_canonical(),
{
    if endpoint_le_exec(t.src, t.src_port, t.dst, t.dst_port) {
        *t
    } else {
        t.reverse()
    }
}

/// Both directions of a connection share one flow key.
pub proof fn lemma_flow_key_symmetric(t: FiveTuple)
    ensures
        flow_key_of(t) == flow_key_of(t.reversed()),
        flow_key_of(t).is_canonical(),
{
    lemma_rank_injective(t.src, t.dst);
    assert(t.reversed().reversed() == t);
}


/// Folds an address into 32 bits.
pub open spec fn address_fold(a: IpAddress) -> nat {
    match a {
        IpAddress::V4(x) => x as nat,
        IpAddress::V6(x) => (x % 4294967291) as nat,
    }
}

/// Hash of a tuple, computed over its flow key so that both directions agree.
pub open spec fn flow_hash_of(t: FiveTuple) -> nat {
    let k = flow_key_of(t);
    (address_fold(k.src) * 31 + address_fold(k.dst)) * 65599 + (k.proto as nat) * 0x1_0000_0000
        + (k.src_port as nat) * 0x1_0000 + k.dst_port as nat
}

/// The worker, out of `n`, that handles every packet of the tuple's flow.
pub open spec fn worker_of(t: FiveTuple, n: nat) -> nat {
    flow_hash_of(t) % n
}

fn address_fold_exec(a: IpAddress) -> (r: u64)
    ensures
        r as nat == address_fold(a),
        r < 0x1_0000_0000,
{
    match a {
        IpAddress::V4(x) => x as u64,
        IpAddress::V6(x) => (x % 4294967291) as u64,
    }
}

/// Symmetric flow hash: a tuple and its reverse hash alike.
pub fn flow_hash(t: &FiveTuple) -> (r: u64)
    ensures
        r as nat == flow_hash_of(*t),
{
    let k = flow_key(t);
    let a = address_fold_exec(k.src);
    let b = address_fold_exec(k.dst);
    assert(a * 31 + b < 0x20_0000_0000) by (nonlinear_arith)
        requires
            a < 0x1_0000_0000,
            b < 0x1_0000_0000,
    ;
    let m = a * 31 + b;
    assert(m * 65599 < 0x40_0000_0000_0000) by (nonlinear_arith)
        requires
            m < 0x20_0000_0000,
    ;
    m * 65599 + (k.proto as u64) * 0x1_0000_0000 + (k.src_port as u64) * 0x1_0000
        + k.dst_port as u64
}

/// Index of the worker, out of `n`, to which the tuple's packets go.
pub fn worker_index(t: &FiveTuple, n: usize) -> (r: usize)
    requires
        n > 0,
    ensures
        r as nat == worker_of(*t, n as nat),
        r < n,
{
    (flow_hash(t) % (n as u64)) as usize
}

/// Positions, in arrival order, of the tuples that satisfy `pred`.
pub open spec fn select_indices(ts: Seq<FiveTuple>, pred: spec_fn(FiveTuple) -> bool) -> Seq<
    usize,
>
    decreases ts.len(),
{
    if ts.len() == 0 {
        seq![]
    } else {
        let prev = select_indices(ts.drop_last(), pred);
        if pred(ts.last()) {
            prev.push((ts.len() - 1) as usize)
        } else {
            prev
        }
    }
}

/// Positions in the queue `q` whose packet belongs to flow `k`, in queue order.
pub open spec fn restrict_to_flow(ts: Seq<FiveTuple>, q: Seq<usize>, k: FiveTuple) -> Seq<usize>
    decreases q.len(),
{
    if q.len() == 0 {
        seq![]
    } else {
        let prev = restrict_to_flow(ts, q.drop_last(), k);
        let i = q.last();
        if i < ts.len() && flow_key_of(ts[i as int]) == k {
            prev.push(i)
        } else {
            prev
        }
    }
}

/// The queue of worker `w` out of `n`: positions of the packets it is handed.
pub open spec fn worker_queue(ts: Seq<FiveTuple>, n: nat, w: nat) -> Seq<usize> {
    select_indices(ts, |t: FiveTuple| worker_of(t, n) == w)
}

/// The packets of flow `k` in arrival order.
pub open spec fn flow_packets(ts: Seq<FiveTuple>, k: FiveTuple) -> Seq<usize> {
    select_indices(ts, |t: FiveTuple| flow_key_of(t) == k)
}

/// Distribute packets over `n` workers by flow: worker `w` receives, in arrival
/// order, the positions of the tuples whose flow hashes to `w`.
pub fn assign_workers(tuples: &Vec<FiveTuple>, n: usize) -> (r: Vec<Vec<usize>>)
    requires
        n > 0,
    ensures
        r.len() == n,
        forall|w: int| 0 <= w < n ==> #[trigger] r[w]@ == worker_queue(tuples@, n as nat, w as nat),
{
    let mut r: Vec<Vec<usize>> = Vec::new();
    let mut w: usize = 0;
    while w < n
        invariant
            w <= n,
            n > 0,
            r.len() == w,
            forall|j: int| 0 <= j < w ==> #[trigger] r[j]@ == worker_queue(tuples@, n as nat, j as nat),
        decreases n - w,
    {
        let ghost pred = |t: FiveTuple| worker_of(t, n as nat) == w as nat;
        let mut q: Vec<usize> = Vec::new();
        let mut i: usize = 0;
        while i < tuples.len()
            invariant
                i <= tuples.len(),
                n > 0,
                pred == (|t: FiveTuple| worker_of(t, n as nat) == w as nat),
                q@ == select_indices(tuples@.take(i as int), pred),
            decreases tuples.len() - i,
        {
            assert(tuples@.take(i + 1).drop_last() == tuples@.take(i as int));
            if worker_index(&tuples[i], n) == w {
                q.push(i);
            }
            i += 1;
        }
        assert(tuples@.take(tuples.len() as int) == tuples@);
        r.push(q);
        w += 1;
    }
    r
}

proof fn lemma_restrict_select(
    ts: Seq<FiveTuple>,
    m: int,
    pred: spec_fn(FiveTuple) -> bool,
    k: FiveTuple,
)
    requires
        0 <= m <= ts.len() <= usize::MAX,
        forall|t: FiveTuple| flow_key_of(t) == k ==> #[trigger] pred(t),
    ensures
        restrict_to_flow(ts, select_indices(ts.take(m), pred), k) == select_indices(
            ts.take(m),
            |t: FiveTuple| flow_key_of(t) == k,
        ),
    decreases m,
{
    if m > 0 {
        let prefix = ts.take(m - 1);
        assert(ts.take(m).drop_last() == prefix);
        lemma_restrict_select(ts, m - 1, pred, k);
        let q = select_indices(prefix, pred);
        let i = (m - 1) as usize;
        assert(ts.take(m).last() == ts[m - 1]);
        if pred(ts[m - 1]) {
            assert(q.push(i).drop_last() == q);
        }
    }
}

/// Flow affinity: whatever the number of workers, the worker that owns a flow
/// receives all of that flow's packets and in arrival order, so the packets of
/// one flow are observed in the same sequence for every worker count.
pub proof fn lemma_flow_order_independent_of_workers(ts: Seq<FiveTuple>, n: nat, t: FiveTuple)
    requires
        n > 0,
        ts.len() <= usize::MAX,
    ensures
        restrict_to_flow(ts, worker_queue(ts, n, worker_of(t, n)), flow_key_of(t)) == flow_packets(
            ts,
            flow_key_of(t),
        ),
{
    let k = flow_key_of(t);
    let w = worker_of(t, n);
    let pred = |u: FiveTuple| worker_of(u, n) == w;
    assert forall|u: FiveTuple| flow_key_of(u) == k implies #[trigger] pred(u) by {
        lemma_flow_key_idempotent(u);
        lemma_flow_key_idempotent(t);
    }
    lemma_restrict_select(ts, ts.len() as int, pred, k);
    assert(ts.take(ts.len() as int) == ts);
}

proof fn lemma_flow_key_idempotent(t: FiveTuple)
    ensures
        flow_key_of(flow_key_of(t)) == flow_key_of(t),
{
    lemma_flow_key_symmetric(t);
}

} // verus!
