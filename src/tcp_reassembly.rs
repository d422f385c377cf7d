//! TCP stream reassembly: segments are delivered in stream order, data ahead
//! of the expected offset is buffered until the gap closes, and data at or
//! before the delivered point is discarded as a retransmission.
use vstd::prelude::*;

verus! {

/// A piece of one direction's byte stream, at an offset relative to the
/// stream's start.
#[derive(Debug)]
pub struct StreamSegment {
    pub offset: u64,
    pub data: Vec<u8>,
}

pub open spec fn seg_end(s: StreamSegment) -> nat {
    (s.offset + s.data@.len()) as nat
}

pub open spec fn seg_covers(s: StreamSegment, p: int) -> bool {
    s.offset <= p < seg_end(s)
}

/// Some segment of `pool` carries stream position `p`.
pub open spec fn pool_covers(pool: Seq<StreamSegment>, p: int) -> bool {
    exists|i: int| 0 <= i < pool.len() && #[trigger] seg_covers(pool[i], p)
}

/// Byte `b` at stream position `p` is what some segment of `pool` carries there.
pub open spec fn supplied_by(pool: Seq<StreamSegment>, p: int, b: u8) -> bool {
    exists|i: int|
        0 <= i < pool.len() && #[trigger] seg_covers(pool[i], p) && b == pool[i].data@[p - pool[i].offset]
}

/// Total length of the segments.
pub open spec fn total_len(segs: Seq<StreamSegment>) -> nat
    decreases segs.len(),
{
    if segs.len() == 0 {
        0
    } else {
        total_len(segs.drop_last()) + segs.last().data@.len()
    }
}

proof fn lemma_total_len_remove(segs: Seq<StreamSegment>, i: int)
    requires
        0 <= i < segs.len(),
    ensures
        total_len(segs.remove(i)) + segs[i].data@.len() == total_len(segs),
    decreases segs.len(),
{
    if i < segs.len() - 1 {
        let r = segs.remove(i);
        assert(r.drop_last() == segs.drop_last().remove(i));
        assert(r.last() == segs.last());
        lemma_total_len_remove(segs.drop_last(), i);
    } else {
        assert(segs.remove(i) == segs.drop_last());
    }
}

proof fn lemma_total_len_prefix(segs: Seq<StreamSegment>, j: int)
    requires
        0 <= j <= segs.len(),
    ensures
        total_len(segs.take(j)) <= total_len(segs),
    decreases segs.len(),
{
    if j < segs.len() {
        assert(segs.drop_last().take(j) == segs.take(j));
        lemma_total_len_prefix(segs.drop_last(), j);
    } else {
        assert(segs.take(j) == segs);
    }
}

/// Append `data` from position `from` on.
fn append_tail(out: &mut Vec<u8>, data: &Vec<u8>, from: usize)
    requires
        from <= data.len(),
    ensures
        final(out)@ == old(out)@ + data@.subrange(from as int, data.len() as int),
{
    let mut k: usize = from;
    while k < data.len()
        invariant
            from <= k <= data.len(),
            out@ == old(out)@ + data@.subrange(from as int, k as int),
        decreases data.len() - k,
    {
        out.push(data[k]);
        k += 1;
        assert(out@ =~= old(out)@ + data@.subrange(from as int, k as int));
    }
}

/// Byte `b` is carried by some segment of `pool` at a position from `lo` up
/// to, not including, `hi`.
pub open spec fn from_pool(pool: Seq<StreamSegment>, lo: nat, hi: nat, b: u8) -> bool {
    exists|p: int| lo <= p < hi && #[trigger] supplied_by(pool, p, b)
}

/// What taking segment `seg` does to a buffer that expected offset `next0`,
/// held `pending0` and had or had not lost data, under ceiling `max`; `r` is
/// what it delivers. Unless the segment forces a flush, `r` is every byte
/// from `next0` up to the first position that no segment reaches, each byte
/// taken from a segment that carries it.
pub open spec fn push_outcome(
    next0: nat,
    pending0: Seq<StreamSegment>,
    lost0: bool,
    max: nat,
    seg: StreamSegment,
    next1: nat,
    pending1: Seq<StreamSegment>,
    lost1: bool,
    r: Seq<u8>,
) -> bool {
    let pool = pending0.push(seg);
    let forced = seg.offset > next0 && total_len(pending0) + seg.data@.len() > max;
    &&& lost1 == (lost0 || forced)
    &&& next0 <= next1
    &&& total_len(pending1) <= total_len(pending0) + seg.data@.len()
    &&& forall|i: int| 0 <= i < pending1.len() ==> (#[trigger] pending1[i]).offset > next1
    &&& forall|i: int| 0 <= i < pending1.len() ==> pool.contains(#[trigger] pending1[i])
    &&& forall|i: int| 0 <= i < pool.len() ==> pending1.contains(#[trigger] pool[i]) || seg_end(pool[i]) <= next1
    &&& forced ==> {
        &&& r.len() <= next1 - next0
        &&& forall|k: int| 0 <= k < r.len() ==> #[trigger] from_pool(pool, next0, next1, r[k])
    }
    &&& !forced ==> {
        &&& r.len() == next1 - next0
        &&& forall|p: int| next0 <= p < next1 ==> #[trigger] supplied_by(pool, p, r[p - next0])
    }
}

/// Reordering buffer for one direction of a stream.
pub struct StreamBuffer {
    next: u64,
    pending: Vec<StreamSegment>,
    buffered: u128,
    max_buffered: usize,
    data_lost: bool,
}

impl StreamBuffer {
    /// Stream offset of the next byte to deliver.
    pub closed spec fn next(&self) -> nat {
        self.next as nat
    }

    /// Segments held ahead of the expected offset.
    pub closed spec fn pending(&self) -> Seq<StreamSegment> {
        self.pending@
    }

    /// Ceiling on the bytes held in `pending`.
    pub closed spec fn max_buffered(&self) -> nat {
        self.max_buffered as nat
    }

    /// Some bytes were skipped by a forced flush.
    pub closed spec fn data_lost(&self) -> bool {
        self.data_lost
    }

    pub closed spec fn wf(&self) -> bool {
        &&& self.buffered == total_len(self.pending@)
        &&& self.buffered <= self.max_buffered
        &&& forall|i: int|
            0 <= i < self.pending.len() ==> (#[trigger] self.pending@[i]).offset > self.next && seg_end(
                self.pending@[i],
            ) <= u64::MAX
    }

    /// An empty buffer expecting stream offset zero.
    pub fn new(max_buffered: usize) -> (r: StreamBuffer)
        ensures
            r.wf(),
            r.next() == 0,
            r.pending() == Seq::<StreamSegment>::empty(),
            r.max_buffered() == max_buffered,
            !r.data_lost(),
    {
        let r = StreamBuffer { next: 0, pending: Vec::new(), buffered: 0, max_buffered, data_lost: false };
        assert(r.pending@ =~= Seq::<StreamSegment>::empty());
        r
    }

    /// Offset of the next byte to deliver.
    pub fn next_offset(&self) -> (r: u64)
        ensures
            r == self.next(),
    {
        self.next
    }

    /// Bytes held out of order.
    pub fn buffered_bytes(&self) -> (r: u128)
        requires
            self.wf(),
        ensures
            r == total_len(self.pending()),
    {
        self.buffered
    }

    /// Whether a forced flush has skipped data.
    pub fn has_lost_data(&self) -> (r: bool)
        ensures
            r == self.data_lost(),
    {
        self.data_lost
    }

    fn find_ready(&self) -> (r: Option<usize>)
        ensures
            match r {
                Some(i) => i < self.pending.len() && self.pending@[i as int].offset <= self.next,
                None => forall|i: int| 0 <= i < self.pending.len() ==> (#[trigger] self.pending@[i]).offset > self.next,
            },
    {
        let mut i: usize = 0;
        while i < self.pending.len()
            invariant
                i <= self.pending.len(),
                forall|j: int| 0 <= j < i ==> (#[trigger] self.pending@[j]).offset > self.next,
            decreases self.pending.len() - i,
        {
            if self.pending[i].offset <= self.next {
                return Some(i);
            }
            i += 1;
        }
        None
    }

    /// Deliver, in order, every held segment that the expected offset has reached.
    fn release(&mut self, out: &mut Vec<u8>)
        requires
            old(self).buffered == total_len(old(self).pending@),
            forall|i: int| 0 <= i < old(self).pending.len() ==> seg_end(#[trigger] old(self).pending@[i]) <= u64::MAX,
        ensures
            final(self).buffered == total_len(final(self).pending@),
            final(self).max_buffered == old(self).max_buffered,
            final(self).data_lost == old(self).data_lost,
            old(self).next <= final(self).next,
            final(self).buffered <= old(self).buffered,
            final(self).pending.len() <= old(self).pending.len(),
            (exists|i: int| 0 <= i < old(self).pending.len() && (#[trigger] old(self).pending@[i]).offset <= old(self).next)
                ==> final(self).pending.len() < old(self).pending.len(),
            final(out)@.len() == old(out)@.len() + final(self).next - old(self).next,
            final(out)@.take(old(out)@.len() as int) == old(out)@,
            forall|p: int|
                old(self).next <= p < final(self).next ==> #[trigger] supplied_by(
                    old(self).pending@,
                    p,
                    final(out)@[old(out)@.len() + p - old(self).next],
                ),
            forall|i: int|
                0 <= i < old(self).pending.len() ==> final(self).pending@.contains(#[trigger] old(self).pending@[i])
                    || seg_end(old(self).pending@[i]) <= final(self).next,
            forall|i: int|
                0 <= i < final(self).pending.len() ==> old(self).pending@.contains(#[trigger] final(self).pending@[i])
                    && final(self).pending@[i].offset > final(self).next && seg_end(final(self).pending@[i]) <= u64::MAX,
    {
        let ghost pool = self.pending@;
        let ghost next0 = self.next;
        let ghost out0 = out@;
        loop
            invariant
                self.buffered == total_len(self.pending@),
                self.max_buffered == old(self).max_buffered,
                self.data_lost == old(self).data_lost,
                pool == old(self).pending@,
                next0 == old(self).next,
                out0 == old(out)@,
                next0 <= self.next,
                self.buffered <= old(self).buffered,
                self.pending.len() <= pool.len(),
                self.pending.len() == pool.len() ==> self.pending@ == pool,
                out@.len() == out0.len() + self.next - next0,
                out@.take(out0.len() as int) == out0,
                forall|p: int| next0 <= p < self.next ==> #[trigger] supplied_by(pool, p, out@[out0.len() + p - next0]),
                forall|i: int| 0 <= i < pool.len() ==> self.pending@.contains(#[trigger] pool[i]) || seg_end(pool[i]) <= self.next,
                forall|i: int| 0 <= i < self.pending.len() ==> pool.contains(#[trigger] self.pending@[i]) && seg_end(self.pending@[i]) <= u64::MAX,
            ensures
                forall|i: int| 0 <= i < self.pending.len() ==> (#[trigger] self.pending@[i]).offset > self.next,
            decreases self.pending.len(),
        {
            match self.find_ready() {
                None => {
                    break;
                },
                Some(i) => {
                    let ghost before = self.pending@;
                    let ghost out_before = out@;
                    let ghost next_before = self.next;
                    proof {
                        lemma_total_len_remove(self.pending@, i as int);
                    }
                    let s = self.pending.remove(i);
                    self.buffered = self.buffered - s.data.len() as u128;
                    assert(pool.contains(s));
                    let end: u64 = s.offset + s.data.len() as u64;
                    if end > self.next {
                        append_tail(out, &s.data, (self.next - s.offset) as usize);
                        self.next = end;
                        assert forall|p: int| next0 <= p < self.next implies #[trigger] supplied_by(pool, p, out@[out0.len() + p - next0]) by {
                            if p < next_before {
                                assert(out@[out0.len() + p - next0] == out_before[out0.len() + p - next0]);
                                assert(supplied_by(pool, p, out_before[out0.len() + p - next0]));
                            } else {
                                let j = choose|j: int| 0 <= j < pool.len() && pool[j] == s;
                                let q = p - next_before;
                                assert(out@[out_before.len() + q] == s.data@[(next_before - s.offset) + q]);
                                assert(out@.take(out0.len() as int) =~= out0);
                                assert(seg_covers(pool[j], p));
                            }
                        }
                        assert(out@.take(out0.len() as int) =~= out0);
                    }
                    assert forall|a: int| 0 <= a < pool.len() implies self.pending@.contains(#[trigger] pool[a]) || seg_end(pool[a]) <= self.next by {
                        if before.contains(pool[a]) && pool[a] != s {
                            let b = choose|b: int| 0 <= b < before.len() && before[b] == pool[a];
                            if b < i {
                                assert(self.pending@[b] == pool[a]);
                            } else {
                                assert(self.pending@[b - 1] == pool[a]);
                            }
                        }
                    }
                    assert forall|a: int| 0 <= a < self.pending.len() implies pool.contains(#[trigger] self.pending@[a]) && seg_end(self.pending@[a]) <= u64::MAX by {
                        let b = if a < i { a } else { a + 1 };
                        assert(self.pending@[a] == before[b]);
                    }
                },
            }
        }
        proof {
            if exists|i: int| 0 <= i < pool.len() && (#[trigger] pool[i]).offset <= next0 {
                let i = choose|i: int| 0 <= i < pool.len() && (#[trigger] pool[i]).offset <= next0;
                if self.pending.len() == pool.len() {
                    assert(self.pending@[i].offset <= self.next);
                }
            }
        }
    }

    fn lowest_pending(&self) -> (r: usize)
        requires
            self.pending.len() > 0,
        ensures
            r < self.pending.len(),
            forall|i: int| 0 <= i < self.pending.len() ==> self.pending@[r as int].offset <= (#[trigger] self.pending@[i]).offset,
    {
        let mut best: usize = 0;
        let mut i: usize = 1;
        while i < self.pending.len()
            invariant
                best < self.pending.len(),
                1 <= i <= self.pending.len(),
                forall|j: int| 0 <= j < i ==> self.pending@[best as int].offset <= (#[trigger] self.pending@[j]).offset,
            decreases self.pending.len() - i,
        {
            if self.pending[i].offset < self.pending[best].offset {
                best = i;
            }
            i += 1;
        }
        best
    }

    /// Take one segment and return the bytes it makes deliverable, in order.
    ///
    /// A segment at or before the expected offset is delivered from that
    /// offset on (a retransmitted prefix is dropped), then every held segment
    /// it reaches. A segment ahead of the expected offset is held. When holding
    /// it would exceed the ceiling, the buffer is flushed by force: the
    /// expected offset jumps to the lowest held segment, skipping the gap, as
    /// often as needed to come back under the ceiling, and data loss is
    /// recorded.
    pub fn push(&mut self, seg: StreamSegment) -> (r: Vec<u8>)
        requires
            old(self).wf(),
            seg_end(seg) <= u64::MAX,
        ensures
            final(self).wf(),
            final(self).max_buffered() == old(self).max_buffered(),
            push_outcome(
                old(self).next(),
                old(self).pending(),
                old(self).data_lost(),
                old(self).max_buffered(),
                seg,
                final(self).next(),
                final(self).pending(),
                final(self).data_lost(),
                r@,
            ),
    {
        let ghost pool = self.pending@.push(seg);
        let ghost old_pending = self.pending@;
        let ghost old_buffered = self.buffered;
        let ghost next0 = self.next;
        let len = seg.data.len();
        let mut out: Vec<u8> = Vec::new();
        assert(pool.drop_last() == old_pending);
        if seg.offset <= self.next {
            let end: u64 = seg.offset + len as u64;
            if end > self.next {
                append_tail(&mut out, &seg.data, (self.next - seg.offset) as usize);
                self.next = end;
            }
            let ghost mid = out@;
            let ghost next1 = self.next;
            self.release(&mut out);
            assert forall|p: int| next0 <= p < self.next implies #[trigger] supplied_by(pool, p, out@[p - next0]) by {
                if p < next1 {
                    assert(out@[p - next0] == mid[p - next0]);
                    assert(seg_covers(pool[pool.len() - 1], p));
                } else {
                    assert(mid.len() == next1 - next0);
                    assert(supplied_by(old_pending, p, out@[mid.len() + p - next1]));
                    let i = choose|i: int|
                        0 <= i < old_pending.len() && #[trigger] seg_covers(old_pending[i], p) && out@[mid.len() + p - next1]
                            == old_pending[i].data@[p - old_pending[i].offset];
                    assert(pool[i] == old_pending[i]);
                    assert(seg_covers(pool[i], p));
                }
            }
            assert forall|i: int| 0 <= i < self.pending.len() implies pool.contains(#[trigger] self.pending@[i]) by {
                let j = choose|j: int| 0 <= j < old_pending.len() && old_pending[j] == self.pending@[i];
                assert(pool[j] == old_pending[j]);
            }
            assert forall|i: int| 0 <= i < pool.len() implies self.pending@.contains(#[trigger] pool[i]) || seg_end(pool[i]) <= self.next by {
                if i < old_pending.len() {
                    assert(pool[i] == old_pending[i]);
                }
            }
            return out;
        }
        proof {
            assert(pool.drop_last() == old_pending);
        }
        let forced = (len as u128) + self.buffered > self.max_buffered as u128;
        self.pending.push(seg);
        self.buffered = self.buffered + len as u128;
        if !forced {
            assert forall|i: int| 0 <= i < self.pending.len() implies pool.contains(#[trigger] self.pending@[i]) by {
                assert(pool[i] == self.pending@[i]);
            }
            assert forall|i: int| 0 <= i < pool.len() implies self.pending@.contains(#[trigger] pool[i]) || seg_end(pool[i]) <= self.next by {
                assert(pool[i] == self.pending@[i]);
            }
            return out;
        }
        self.data_lost = true;
        while self.buffered > self.max_buffered as u128
            invariant
                self.buffered == total_len(self.pending@),
                self.data_lost,
                self.max_buffered == old(self).max_buffered,
                next0 <= self.next,
                self.buffered <= old_buffered + len,
                forall|i: int| 0 <= i < self.pending.len() ==> (#[trigger] self.pending@[i]).offset > self.next,
                forall|i: int| 0 <= i < self.pending.len() ==> seg_end(#[trigger] self.pending@[i]) <= u64::MAX,
                forall|i: int| 0 <= i < self.pending.len() ==> pool.contains(#[trigger] self.pending@[i]),
                forall|i: int| 0 <= i < pool.len() ==> self.pending@.contains(#[trigger] pool[i]) || seg_end(pool[i]) <= self.next,
                out@.len() <= self.next - next0,
                forall|k: int| 0 <= k < out@.len() ==> #[trigger] from_pool(pool, next0 as nat, self.next as nat, out@[k]),
            decreases self.pending.len(),
        {
            if self.pending.len() == 0 {
                assert(self.pending@ =~= Seq::<StreamSegment>::empty());
                assert(false);
            }
            let low = self.lowest_pending();
            let ghost at_call = self.pending@;
            let ghost n_a = self.next;
            let ghost out_a = out@;
            self.next = self.pending[low].offset;
            let ghost n_b = self.next;
            assert(at_call[low as int].offset <= self.next);
            self.release(&mut out);
            assert forall|k: int| 0 <= k < out@.len() implies #[trigger] from_pool(pool, next0 as nat, self.next as nat, out@[k]) by {
                if k < out_a.len() {
                    assert(out@[k] == out_a[k]);
                    assert(from_pool(pool, next0 as nat, n_a as nat, out_a[k]));
                    let p = choose|p: int| next0 <= p < n_a && #[trigger] supplied_by(pool, p, out_a[k]);
                    assert(supplied_by(pool, p, out@[k]));
                } else {
                    let p = k - out_a.len() + n_b;
                    assert(supplied_by(at_call, p, out@[out_a.len() + p - n_b]));
                    lemma_supplied_within(at_call, pool, p, out@[k]);
                    assert(supplied_by(pool, p, out@[k]));
                }
            }
            assert forall|i: int| 0 <= i < self.pending.len() implies pool.contains(#[trigger] self.pending@[i]) by {
                let j = choose|j: int| 0 <= j < at_call.len() && at_call[j] == self.pending@[i];
                assert(pool.contains(at_call[j]));
            }
            assert forall|i: int| 0 <= i < pool.len() implies self.pending@.contains(#[trigger] pool[i]) || seg_end(pool[i]) <= self.next by {
                if at_call.contains(pool[i]) {
                    let j = choose|j: int| 0 <= j < at_call.len() && at_call[j] == pool[i];
                    assert(self.pending@.contains(at_call[j]) || seg_end(at_call[j]) <= self.next);
                }
            }
        }
        out
    }
}


/// The segments are pieces of stream `s`, each holding the bytes of `s` at
/// its offset.
pub open spec fn slices_of(segs: Seq<StreamSegment>, s: Seq<u8>) -> bool {
    forall|j: int|
        0 <= j < segs.len() ==> seg_end(#[trigger] segs[j]) <= s.len() && segs[j].data@ == s.subrange(
            segs[j].offset as int,
            seg_end(segs[j]) as int,
        )
}

/// Every position of `s` is carried by some segment.
pub open spec fn covers_stream(segs: Seq<StreamSegment>, s: Seq<u8>) -> bool {
    forall|p: int| 0 <= p < s.len() ==> #[trigger] pool_covers(segs, p)
}

proof fn lemma_supplied_within(a: Seq<StreamSegment>, b: Seq<StreamSegment>, p: int, x: u8)
    requires
        supplied_by(a, p, x),
        forall|i: int| 0 <= i < a.len() ==> b.contains(#[trigger] a[i]),
    ensures
        supplied_by(b, p, x),
{
    let i = choose|i: int| 0 <= i < a.len() && #[trigger] seg_covers(a[i], p) && x == a[i].data@[p - a[i].offset];
    assert(b.contains(a[i]));
    let j = choose|j: int| 0 <= j < b.len() && b[j] == a[i];
    assert(seg_covers(b[j], p));
}

/// Feed the segments of one direction, in arrival order, into a fresh buffer
/// holding at most `max_buffered` bytes, and return everything delivered.
/// Segments whose end does not fit a stream offset are ignored.
///
/// When the segments are pieces of a stream and fit the buffer together, the
/// output is a prefix of that stream, with no byte repeated or reordered
/// whatever the arrival order and retransmissions; once the segments cover
/// the stream, the output is the stream itself.
pub fn reassemble(segs: Vec<StreamSegment>, max_buffered: usize) -> (r: Vec<u8>)
    ensures
        forall|s: Seq<u8>|
            #![trigger slices_of(segs@, s)]
            slices_of(segs@, s) && s.len() <= u64::MAX && total_len(segs@) <= max_buffered ==> {
                &&& r@ == s.take(r@.len() as int)
                &&& covers_stream(segs@, s) ==> r@ == s
            },
{
    let ghost fs = segs@;
    let mut rest = segs;
    let n = rest.len();
    let ghost fits = forall|k: int| 0 <= k < fs.len() ==> seg_end(#[trigger] fs[k]) <= u64::MAX;
    let ghost small = total_len(fs) <= max_buffered;
    let mut buf = StreamBuffer::new(max_buffered);
    let mut out: Vec<u8> = Vec::new();
    let mut j: usize = 0;
    while j < n
        invariant
            n == fs.len(),
            j <= n,
            rest@ == fs.skip(j as int),
            fits == (forall|k: int| 0 <= k < fs.len() ==> seg_end(#[trigger] fs[k]) <= u64::MAX),
            small == (total_len(fs) <= max_buffered),
            buf.wf(),
            buf.max_buffered() == max_buffered,
            small ==> out@.len() == buf.next(),
            small ==> forall|p: int| 0 <= p < buf.next() ==> #[trigger] supplied_by(fs, p, out@[p]),
            forall|i: int| 0 <= i < buf.pending().len() ==> fs.contains(#[trigger] buf.pending()[i]),
            forall|i: int| 0 <= i < buf.pending().len() ==> (#[trigger] buf.pending()[i]).offset > buf.next(),
            small ==> total_len(buf.pending()) <= total_len(fs.take(j as int)),
            fits ==> forall|k: int|
                0 <= k < j ==> buf.pending().contains(#[trigger] fs[k]) || seg_end(fs[k]) <= buf.next(),
        decreases n - j,
    {
        assert(rest@.len() > 0 && rest@[0] == fs[j as int]);
        let piece = rest.remove(0);
        assert(rest@ =~= fs.skip(j + 1));
        if piece.data.len() as u128 + piece.offset as u128 <= u64::MAX as u128 {
            let ghost b0 = buf;
            let ghost out0 = out@;
            proof {
                assert(fs.take(j + 1).drop_last() == fs.take(j as int));
                if small {
                    lemma_total_len_prefix(fs, j + 1);
                }
            }
            let got = buf.push(piece);
            let ghost pool = b0.pending().push(fs[j as int]);
            assert forall|i: int| 0 <= i < pool.len() implies fs.contains(#[trigger] pool[i]) by {
                if i < b0.pending().len() {
                    assert(pool[i] == b0.pending()[i]);
                }
            }
            append_tail(&mut out, &got, 0);
            assert(got@.subrange(0, got@.len() as int) == got@);
            proof {
                if small {
                    assert(total_len(fs.take(j + 1)) == total_len(fs.take(j as int)) + fs[j as int].data@.len());
                    assert forall|p: int| 0 <= p < buf.next() implies #[trigger] supplied_by(fs, p, out@[p]) by {
                        if p < b0.next() {
                            assert(out@[p] == out0[p]);
                        } else {
                            assert(out@[p] == got@[p - b0.next()]);
                            assert(supplied_by(pool, p, got@[p - b0.next()]));
                            lemma_supplied_within(pool, fs, p, out@[p]);
                        }
                    }
                }
            }
            assert forall|i: int| 0 <= i < buf.pending().len() implies fs.contains(#[trigger] buf.pending()[i]) by {
                let k = choose|k: int| 0 <= k < pool.len() && pool[k] == buf.pending()[i];
                assert(fs.contains(pool[k]));
            }
            proof {
                if fits {
                    assert forall|k: int| 0 <= k < j + 1 implies buf.pending().contains(#[trigger] fs[k]) || seg_end(fs[k]) <= buf.next() by {
                        if k == j {
                            assert(pool[pool.len() - 1] == fs[k]);
                        } else if b0.pending().contains(fs[k]) {
                            let a = choose|a: int| 0 <= a < b0.pending().len() && b0.pending()[a] == fs[k];
                            assert(pool[a] == fs[k]);
                        }
                    }
                }
            }
        } else {
            proof {
                assert(fs.take(j + 1).drop_last() == fs.take(j as int));
            }
        }
        j += 1;
    }
    assert forall|s: Seq<u8>|
        slices_of(fs, s) && s.len() <= u64::MAX && total_len(fs) <= max_buffered implies {
            &&& out@ == s.take(out@.len() as int)
            &&& covers_stream(fs, s) ==> out@ == s
        } by {
        assert(fits) by {
            assert forall|k: int| 0 <= k < fs.len() implies seg_end(#[trigger] fs[k]) <= u64::MAX by {
                assert(seg_end(fs[k]) <= s.len());
            }
        }
        assert forall|p: int| 0 <= p < buf.next() implies p < s.len() && out@[p] == s[p] by {
            assert(supplied_by(fs, p, out@[p]));
            let k = choose|k: int| 0 <= k < fs.len() && #[trigger] seg_covers(fs[k], p) && out@[p] == fs[k].data@[p - fs[k].offset];
            assert(seg_end(fs[k]) <= s.len());
        }
        if buf.next() > s.len() {
            assert(s.len() < buf.next());
            assert(supplied_by(fs, s.len() as int, out@[s.len() as int]));
        }
        assert(out@ =~= s.take(out@.len() as int));
        if covers_stream(fs, s) {
            if buf.next() < s.len() {
                let p = buf.next() as int;
                assert(pool_covers(fs, p));
                let k = choose|k: int| 0 <= k < fs.len() && #[trigger] seg_covers(fs[k], p);
                assert(buf.pending().contains(fs[k]) || seg_end(fs[k]) <= buf.next());
                if buf.pending().contains(fs[k]) {
                    let a = choose|a: int| 0 <= a < buf.pending().len() && buf.pending()[a] == fs[k];
                    assert(buf.pending()[a].offset > buf.next());
                }
            }
            assert(out@ =~= s);
        }
    }
    out
}


/// Life cycle of one direction of a TCP stream.
#[derive(Clone, Copy, Debug, PartialEq, Eq, Structural)]
pub enum TcpState {
    /// Nothing seen yet.
    Init,
    /// Data is being delivered.
    Streaming,
    /// A FIN has been seen; data before it is still delivered.
    FinSeen,
    /// Reset: nothing more is delivered.
    Closed,
}

/// One TCP segment of a direction, as decoded from a packet.
#[derive(Debug)]
pub struct TcpSegment {
    pub seq: u32,
    pub syn: bool,
    pub fin: bool,
    pub rst: bool,
    pub data: Vec<u8>,
}

/// Distance from `isn` to `seq` in sequence space (modulo 2^32).
pub open spec fn seq_offset(seq: u32, isn: u32) -> nat {
    ((seq as int - isn as int + 0x1_0000_0000) % 0x1_0000_0000) as nat
}

/// What taking segment `seg` does to a direction that goes from `d0` to
/// `d1` and delivers `r`: nothing after a reset; a RST closes the direction
/// and releases its buffer; a SYN starts a fresh stream; other segments go
/// to the stream buffer at their offset from the initial sequence number
/// (see `push_outcome`), and a FIN moves the direction to `FinSeen`.
pub open spec fn accept_outcome(d0: TcpDirection, seg: TcpSegment, d1: TcpDirection, r: Seq<u8>) -> bool {
    &&& d1.wf()
    &&& d0.state() == TcpState::Closed ==> r.len() == 0 && d1 == d0
    &&& (d0.state() != TcpState::Closed && seg.rst ==> {
        &&& r.len() == 0
        &&& d1.state() == TcpState::Closed
        &&& d1.stream().pending().len() == 0
    })
    &&& (d0.state() != TcpState::Closed && !seg.rst && seg.syn ==> {
        &&& r.len() == 0
        &&& d1.state() == TcpState::Streaming
        &&& d1.isn() as nat == (seg.seq as nat + 1) % 0x1_0000_0000
        &&& d1.stream().next() == 0
        &&& d1.stream().pending().len() == 0
    })
    &&& (d0.state() != TcpState::Closed && !seg.rst && !seg.syn ==> {
        let fresh = d0.state() == TcpState::Init;
        let isn = if fresh { seg.seq } else { d0.isn() };
        let next0: nat = if fresh { 0 } else { d0.stream().next() };
        let pending0 = if fresh { Seq::<StreamSegment>::empty() } else { d0.stream().pending() };
        let lost0 = if fresh { false } else { d0.stream().data_lost() };
        let off = seq_offset(seg.seq, isn);
        &&& d1.isn() == isn
        &&& d1.state() == (if seg.fin {
            TcpState::FinSeen
        } else if d0.state() == TcpState::FinSeen {
            TcpState::FinSeen
        } else {
            TcpState::Streaming
        })
        &&& if off + seg.data@.len() <= u64::MAX {
            push_outcome(
                next0,
                pending0,
                lost0,
                d0.stream().max_buffered(),
                StreamSegment { offset: off as u64, data: seg.data },
                d1.stream().next(),
                d1.stream().pending(),
                d1.stream().data_lost(),
                r,
            )
        } else {
            r.len() == 0 && d1.stream().next() == next0 && d1.stream().pending()
                == pending0
        }
    })
}

/// Reassembly state of one direction of a TCP stream.
pub struct TcpDirection {
    state: TcpState,
    isn: u32,
    max_buffered: usize,
    stream: StreamBuffer,
}

impl TcpDirection {
    pub closed spec fn state(&self) -> TcpState {
        self.state
    }

    /// Sequence number of stream offset zero.
    pub closed spec fn isn(&self) -> u32 {
        self.isn
    }

    pub closed spec fn stream(&self) -> StreamBuffer {
        self.stream
    }

    pub closed spec fn wf(&self) -> bool {
        &&& self.stream.wf()
        &&& self.stream.max_buffered == self.max_buffered
    }

    /// A direction that has seen nothing.
    pub fn new(max_buffered: usize) -> (r: TcpDirection)
        ensures
            r.wf(),
            r.state() == TcpState::Init,
            r.stream().next() == 0,
            r.stream().pending().len() == 0,
            r.stream().max_buffered() == max_buffered,
    {
        TcpDirection { state: TcpState::Init, isn: 0, max_buffered, stream: StreamBuffer::new(max_buffered) }
    }

    /// Current life-cycle state.
    pub fn current_state(&self) -> (r: TcpState)
        ensures
            r == self.state(),
    {
        self.state
    }

    /// Bytes held out of order.
    pub fn buffered_bytes(&self) -> (r: u128)
        requires
            self.wf(),
        ensures
            r == total_len(self.stream().pending()),
    {
        self.stream.buffered_bytes()
    }

    /// Whether a forced flush has skipped data in this direction.
    pub fn has_lost_data(&self) -> (r: bool)
        ensures
            r == self.stream().data_lost(),
    {
        self.stream.has_lost_data()
    }

    /// Take one segment and return the bytes it makes deliverable, in order.
    ///
    /// After a reset nothing is delivered. A RST closes the direction and
    /// releases its buffer. A SYN starts a fresh stream whose offset zero is
    /// the byte after the SYN. The first segment of a direction whose SYN was
    /// not seen starts the stream at its own sequence number. A FIN moves the
    /// direction to `FinSeen` after its data is taken.
    pub fn accept(&mut self, seg: TcpSegment) -> (r: Vec<u8>)
        requires
            old(self).wf(),
        ensures
            accept_outcome(*old(self), seg, *final(self), r@),
    {
        self.accept_step(seg)
    }

    fn accept_step(&mut self, seg: TcpSegment) -> (r: Vec<u8>)
        requires
            old(self).wf(),
        ensures
            final(self).wf(),
            old(self).state() == TcpState::Closed ==> r@.len() == 0 && *final(self) == *old(self),
            old(self).state() != TcpState::Closed && seg.rst ==> {
                &&& r@.len() == 0
                &&& final(self).state() == TcpState::Closed
                &&& final(self).stream().pending().len() == 0
            },
            old(self).state() != TcpState::Closed && !seg.rst && seg.syn ==> {
                &&& r@.len() == 0
                &&& final(self).state() == TcpState::Streaming
                &&& final(self).isn() as nat == (seg.seq as nat + 1) % 0x1_0000_0000
                &&& final(self).stream().next() == 0
                &&& final(self).stream().pending().len() == 0
            },
            old(self).state() != TcpState::Closed && !seg.rst && !seg.syn ==> {
                let fresh = old(self).state() == TcpState::Init;
                let isn = if fresh { seg.seq } else { old(self).isn() };
                let next0: nat = if fresh { 0 } else { old(self).stream().next() };
                let pending0 = if fresh { Seq::<StreamSegment>::empty() } else { old(self).stream().pending() };
                let lost0 = if fresh { false } else { old(self).stream().data_lost() };
                let off = seq_offset(seg.seq, isn);
                &&& final(self).isn() == isn
                &&& final(self).state() == (if seg.fin {
                    TcpState::FinSeen
                } else if old(self).state() == TcpState::FinSeen {
                    TcpState::FinSeen
                } else {
                    TcpState::Streaming
                })
                &&& if off + seg.data@.len() <= u64::MAX {
                    push_outcome(
                        next0,
                        pending0,
                        lost0,
                        old(self).stream().max_buffered(),
                        StreamSegment { offset: off as u64, data: seg.data },
                        final(self).stream().next(),
                        final(self).stream().pending(),
                        final(self).stream().data_lost(),
                        r@,
                    )
                } else {
                    r@.len() == 0 && final(self).stream().next() == next0 && final(self).stream().pending()
                        == pending0
                }
            },
    {
        if self.state == TcpState::Closed {
            return Vec::new();
        }
        if seg.rst {
            self.state = TcpState::Closed;
            self.stream = StreamBuffer::new(self.max_buffered);
            return Vec::new();
        }
        if seg.syn {
            self.isn = if seg.seq == u32::MAX { 0 } else { seg.seq + 1 };
            self.state = TcpState::Streaming;
            self.stream = StreamBuffer::new(self.max_buffered);
            return Vec::new();
        }
        if self.state == TcpState::Init {
            self.isn = seg.seq;
            self.state = TcpState::Streaming;
            self.stream = StreamBuffer::new(self.max_buffered);
        }
        let off: u64 = if seg.seq >= self.isn {
            (seg.seq - self.isn) as u64
        } else {
            (seg.seq as u64 + 0x1_0000_0000) - self.isn as u64
        };
        let fin = seg.fin;
        let out = if (seg.data.len() as u128) + (off as u128) <= u64::MAX as u128 {
            self.stream.push(StreamSegment { offset: off, data: seg.data })
        } else {
            Vec::new()
        };
        if fin {
            self.state = TcpState::FinSeen;
        }
        out
    }
}

} // verus!
