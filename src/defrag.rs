//! IP defragmentation: fragments of one datagram are written into a buffer
//! until the range from zero to the end of the last fragment is covered.
//!
//! Overlap policy: first writer wins. A byte already received is never
//! overwritten by a later fragment, and the first fragment without the
//! more-fragments flag fixes the datagram length.
use vstd::prelude::*;

use crate::five_tuple::IpAddress;

verus! {

/// One received fragment: its byte offset in the datagram, the
/// more-fragments flag, and its payload.
#[derive(Clone, Debug)]
pub struct Fragment {
    pub offset: usize,
    pub more: bool,
    pub data: Vec<u8>,
}

/// Abstract state of a fragment buffer.
pub struct FragState {
    /// Candidate datagram bytes.
    pub bytes: Seq<u8>,
    /// Which positions have been received.
    pub have: Seq<bool>,
    /// Datagram length, once a last fragment has been seen.
    pub total: Option<nat>,
    /// Number of fragments written.
    pub count: nat,
}

pub open spec fn empty_state() -> FragState {
    FragState { bytes: seq![], have: seq![], total: None, count: 0 }
}

/// One past the last byte of a fragment.
pub open spec fn frag_end(f: Fragment) -> nat {
    (f.offset + f.data@.len()) as nat
}

/// The fragment carries byte `i` of the datagram.
pub open spec fn covers(f: Fragment, i: int) -> bool {
    f.offset <= i < frag_end(f)
}

/// The state after writing `data` at `off` (first writer wins).
pub open spec fn after_write(s: FragState, off: nat, data: Seq<u8>, more: bool) -> FragState {
    let end = off + data.len();
    let len = if end > s.have.len() { end } else { s.have.len() };
    FragState {
        bytes: Seq::new(
            len,
            |i: int|
                if !(i < s.have.len() && s.have[i]) && off <= i < end {
                    data[i - off]
                } else if i < s.have.len() {
                    s.bytes[i]
                } else {
                    0u8
                },
        ),
        have: Seq::new(len, |i: int| (i < s.have.len() && s.have[i]) || (off <= i < end)),
        total: if !more && s.total is None { Some(end) } else { s.total },
        count: s.count + 1,
    }
}

/// Every byte from zero to the datagram length has been received.
pub open spec fn is_complete(s: FragState) -> bool {
    match s.total {
        Some(t) => t <= s.have.len() && forall|i: int| 0 <= i < t ==> #[trigger] s.have[i],
        None => false,
    }
}

/// The reassembled datagram of a complete state.
pub open spec fn assembled(s: FragState) -> Seq<u8> {
    s.bytes.take(s.total.unwrap() as int)
}

/// Accepting one more fragment, ending at `end`, would exceed the ceilings.
pub open spec fn exceeds_ceiling(count: nat, end: nat, max_fragments: nat, max_bytes: nat) -> bool {
    count + 1 > max_fragments || end > max_bytes
}

/// Fragments of one datagram received so far.
pub struct FragBuffer {
    bytes: Vec<u8>,
    have: Vec<bool>,
    total: Option<usize>,
    count: usize,
}

impl View for FragBuffer {
    type V = FragState;

    closed spec fn view(&self) -> FragState {
        FragState {
            bytes: self.bytes@,
            have: self.have@,
            total: match self.total {
                Some(t) => Some(t as nat),
                None => None,
            },
            count: self.count as nat,
        }
    }
}

impl FragBuffer {
    pub closed spec fn wf(&self) -> bool {
        self.bytes.len() == self.have.len()
    }

    /// An empty buffer.
    pub fn new() -> (r: FragBuffer)
        ensures
            r.wf(),
            r@ == empty_state(),
    {
        let r = FragBuffer { bytes: Vec::new(), have: Vec::new(), total: None, count: 0 };
        assert(r@.bytes =~= seq![]);
        assert(r@.have =~= seq![]);
        r
    }

    /// Number of fragments written.
    pub fn count(&self) -> (r: usize)
        ensures
            r == self@.count,
    {
        self.count
    }

    /// Write a fragment's bytes where no earlier fragment wrote.
    pub fn write(&mut self, offset: usize, data: &[u8], more: bool)
        requires
            old(self).wf(),
            offset + data@.len() <= usize::MAX,
            old(self)@.count < usize::MAX,
        ensures
            final(self).wf(),
            final(self)@ == after_write(old(self)@, offset as nat, data@, more),
    {
        let ghost s0 = self@;
        let end = offset + data.len();
        while self.bytes.len() < end
            invariant
                self.wf(),
                s0.have.len() <= self.have.len(),
                self.have.len() <= end || self.have.len() == s0.have.len(),
                forall|i: int| 0 <= i < s0.have.len() ==> self.bytes@[i] == s0.bytes[i] && self.have@[i] == s0.have[i],
                forall|i: int| s0.have.len() <= i < self.have.len() ==> self.bytes@[i] == 0 && !self.have@[i],
                self.total == old(self).total,
                self.count == old(self).count,
            decreases end - self.bytes.len(),
        {
            self.bytes.push(0);
            self.have.push(false);
        }
        let ghost ext = self@;
        let mut i: usize = offset;
        while i < end
            invariant
                self.wf(),
                offset <= i <= end,
                end == offset + data@.len(),
                self.have.len() == ext.have.len(),
                end <= ext.have.len(),
                forall|j: int|
                    0 <= j < ext.have.len() ==> #[trigger] self.have@[j] == (ext.have[j] || (offset <= j < i)),
                forall|j: int|
                    0 <= j < ext.have.len() ==> #[trigger] self.bytes@[j] == (if !ext.have[j] && offset <= j < i {
                        data@[j - offset]
                    } else {
                        ext.bytes[j]
                    }),
                self.total == old(self).total,
                self.count == old(self).count,
            decreases end - i,
        {
            if !self.have[i] {
                self.bytes.set(i, data[i - offset]);
                self.have.set(i, true);
            }
            i += 1;
        }
        if !more && self.total.is_none() {
            self.total = Some(end);
        }
        self.count = self.count + 1;
        let ghost want = after_write(s0, offset as nat, data@, more);
        assert(self@.bytes =~= want.bytes);
        assert(self@.have =~= want.have);
    }

    /// Whether the datagram is complete.
    pub fn is_complete(&self) -> (r: bool)
        requires
            self.wf(),
        ensures
            r == is_complete(self@),
    {
        match self.total {
            None => false,
            Some(t) => {
                if t > self.have.len() {
                    return false;
                }
                let mut i: usize = 0;
                while i < t
                    invariant
                        i <= t <= self.have.len(),
                        self.total == Some(t),
                        forall|j: int| 0 <= j < i ==> #[trigger] self.have@[j],
                    decreases t - i,
                {
                    if !self.have[i] {
                        return false;
                    }
                    i += 1;
                }
                true
            },
        }
    }

    /// The reassembled datagram.
    pub fn assemble(&self) -> (r: Vec<u8>)
        requires
            self.wf(),
            is_complete(self@),
        ensures
            r@ == assembled(self@),
    {
        let t = match self.total {
            Some(t) => t,
            None => 0,
        };
        let mut r: Vec<u8> = Vec::new();
        let mut i: usize = 0;
        while i < t
            invariant
                i <= t <= self.bytes.len(),
                self.total == Some(t),
                r@ == self.bytes@.take(i as int),
            decreases t - i,
        {
            r.push(self.bytes[i]);
            i += 1;
            assert(r@ =~= self.bytes@.take(i as int));
        }
        r
    }
}

/// Whether a fragment ending at `end` may be accepted as the next one after
/// `count` fragments, under the given ceilings.
fn within_ceiling(count: usize, offset: usize, len: usize, max_fragments: usize, max_bytes: usize) -> (r: bool)
    ensures
        r == !exceeds_ceiling(count as nat, (offset + len) as nat, max_fragments as nat, max_bytes as nat),
{
    count < max_fragments && len <= max_bytes && offset <= max_bytes - len
}


/// Result of feeding fragments, in order, into the buffer state `s`: the first
/// datagram completed, or `None` when the ceilings are exceeded or the
/// fragments run out first.
pub open spec fn run_from(s: FragState, fs: Seq<Fragment>, max_fragments: nat, max_bytes: nat) -> Option<
    Seq<u8>,
>
    decreases fs.len(),
{
    if fs.len() == 0 {
        None
    } else {
        let f = fs[0];
        if exceeds_ceiling(s.count, frag_end(f), max_fragments, max_bytes) {
            None
        } else {
            let s2 = after_write(s, f.offset as nat, f.data@, f.more);
            if is_complete(s2) {
                Some(assembled(s2))
            } else {
                run_from(s2, fs.drop_first(), max_fragments, max_bytes)
            }
        }
    }
}

/// The fragment holds exactly the bytes of `d` at its offset.
pub open spec fn is_slice_of(f: Fragment, d: Seq<u8>) -> bool {
    frag_end(f) <= d.len() && f.data@ == d.subrange(f.offset as int, frag_end(f) as int)
}

/// The fragments are pieces of datagram `d` that cover all of it, and those
/// without the more-fragments flag end where `d` ends.
pub open spec fn exactly_covers(fs: Seq<Fragment>, d: Seq<u8>) -> bool {
    &&& forall|j: int| 0 <= j < fs.len() ==> is_slice_of(#[trigger] fs[j], d)
    &&& forall|j: int| 0 <= j < fs.len() && !(#[trigger] fs[j]).more ==> frag_end(fs[j]) == d.len()
    &&& exists|j: int| 0 <= j < fs.len() && !(#[trigger] fs[j]).more
    &&& forall|i: int| 0 <= i < d.len() ==> #[trigger] is_covered(fs, i)
}

/// Some fragment carries byte `i`.
pub open spec fn is_covered(fs: Seq<Fragment>, i: int) -> bool {
    exists|j: int| 0 <= j < fs.len() && #[trigger] covers(fs[j], i)
}

/// What the state records of the first `n` fragments of `fs`: each received
/// byte comes from one of them, each byte they carry is received, and the
/// length comes from one without the more-fragments flag once one was fed.
spec fn records(s: FragState, fs: Seq<Fragment>, n: int) -> bool {
    &&& s.bytes.len() == s.have.len()
    &&& forall|i: int|
        0 <= i < s.have.len() && #[trigger] s.have[i] ==> exists|j: int|
            0 <= j < n && #[trigger] covers(fs[j], i) && s.bytes[i] == fs[j].data@[i - fs[j].offset]
    &&& forall|j: int, i: int| 0 <= j < n && #[trigger] covers(fs[j], i) ==> i < s.have.len() && s.have[i]
    &&& s.total is Some ==> exists|j: int| 0 <= j < n && !fs[j].more && s.total->0 == frag_end(fs[j])
    &&& forall|j: int| 0 <= j < n && !(#[trigger] fs[j]).more ==> s.total is Some
}

proof fn lemma_records_step(s: FragState, fs: Seq<Fragment>, n: int)
    requires
        0 <= n < fs.len(),
        records(s, fs, n),
    ensures
        records(after_write(s, fs[n].offset as nat, fs[n].data@, fs[n].more), fs, n + 1),
{
    let f = fs[n];
    let s2 = after_write(s, f.offset as nat, f.data@, f.more);
    assert forall|i: int| 0 <= i < s2.have.len() && #[trigger] s2.have[i] implies exists|j: int|
        0 <= j < n + 1 && #[trigger] covers(fs[j], i) && s2.bytes[i] == fs[j].data@[i - fs[j].offset] by {
        if i < s.have.len() && s.have[i] {
            let j = choose|j: int|
                0 <= j < n && #[trigger] covers(fs[j], i) && s.bytes[i] == fs[j].data@[i - fs[j].offset];
            assert(covers(fs[j], i));
        } else {
            assert(covers(fs[n], i));
        }
    }
    assert forall|j: int, i: int| 0 <= j < n + 1 && #[trigger] covers(fs[j], i) implies i < s2.have.len()
        && s2.have[i] by {
        if j < n {
            assert(i < s.have.len() && s.have[i]);
        }
    }
}

proof fn lemma_complete_is_datagram(s: FragState, fs: Seq<Fragment>, n: int, d: Seq<u8>)
    requires
        0 <= n <= fs.len(),
        records(s, fs, n),
        exactly_covers(fs, d),
        is_complete(s),
    ensures
        assembled(s) == d,
{
    let j0 = choose|j: int| 0 <= j < n && !fs[j].more && s.total->0 == frag_end(fs[j]);
    assert(!fs[j0].more);
    assert(s.total->0 == d.len());
    assert forall|i: int| 0 <= i < d.len() implies assembled(s)[i] == d[i] by {
        assert(s.have[i]);
        let j = choose|j: int|
            0 <= j < n && #[trigger] covers(fs[j], i) && s.bytes[i] == fs[j].data@[i - fs[j].offset];
        assert(is_slice_of(fs[j], d));
    }
    assert(assembled(s) =~= d);
}

proof fn lemma_all_fed_is_complete(s: FragState, fs: Seq<Fragment>, d: Seq<u8>)
    requires
        records(s, fs, fs.len() as int),
        exactly_covers(fs, d),
    ensures
        is_complete(s),
{
    let j0 = choose|j: int| 0 <= j < fs.len() && !(#[trigger] fs[j]).more;
    assert(s.total is Some);
    let j1 = choose|j: int| 0 <= j < fs.len() && !fs[j].more && s.total->0 == frag_end(fs[j]);
    assert(!fs[j1].more);
    assert(s.total->0 == d.len());
    assert forall|i: int| 0 <= i < s.total->0 implies #[trigger] s.have[i] by {
        assert(is_covered(fs, i));
        let j = choose|j: int| 0 <= j < fs.len() && #[trigger] covers(fs[j], i);
        assert(covers(fs[j], i));
    }
    if d.len() > 0 {
        assert(is_covered(fs, d.len() - 1));
        let j = choose|j: int| 0 <= j < fs.len() && #[trigger] covers(fs[j], d.len() - 1);
        assert(covers(fs[j], d.len() - 1));
    }
}

/// Reassemble one datagram from fragments fed in the given order, dropping
/// everything once more than `max_fragments` fragments or `max_bytes` bytes
/// would be held.
///
/// Whenever the fragments are pieces of a datagram that together cover it,
/// the result is that datagram byte for byte, whatever their arrival order.
pub fn defragment(frags: &Vec<Fragment>, max_fragments: usize, max_bytes: usize) -> (r: Option<
    Vec<u8>,
>)
    ensures
        match r {
            Some(v) => run_from(empty_state(), frags@, max_fragments as nat, max_bytes as nat)
                == Some(v@),
            None => run_from(empty_state(), frags@, max_fragments as nat, max_bytes as nat) is None,
        },
        forall|d: Seq<u8>|
            #![trigger exactly_covers(frags@, d)]
            exactly_covers(frags@, d) && frags.len() <= max_fragments && d.len() <= max_bytes ==> (
            r is Some && r->0@ == d),
{
    let mut buf = FragBuffer::new();
    let ghost fs = frags@;
    let mut j: usize = 0;
    assert(fs.skip(0) == fs);
    while j < frags.len()
        invariant
            j <= frags.len(),
            fs == frags@,
            buf.wf(),
            buf@.count == j,
            records(buf@, fs, j as int),
            run_from(buf@, fs.skip(j as int), max_fragments as nat, max_bytes as nat) == run_from(
                empty_state(),
                fs,
                max_fragments as nat,
                max_bytes as nat,
            ),
            j > 0 ==> !is_complete(buf@),
        decreases frags.len() - j,
    {
        let f = &frags[j];
        assert(fs.skip(j as int)[0] == fs[j as int]);
        assert(fs.skip(j as int).drop_first() == fs.skip(j + 1));
        if !within_ceiling(buf.count(), f.offset, f.data.len(), max_fragments, max_bytes) {
            assert forall|d: Seq<u8>|
                exactly_covers(frags@, d) && frags.len() <= max_fragments && d.len()
                    <= max_bytes implies false by {
                assert(is_slice_of(fs[j as int], d));
            }
            return None;
        }
        let ghost s0 = buf@;
        buf.write(f.offset, f.data.as_slice(), f.more);
        proof {
            lemma_records_step(s0, fs, j as int);
        }
        if buf.is_complete() {
            let v = buf.assemble();
            assert forall|d: Seq<u8>|
                exactly_covers(frags@, d) && frags.len() <= max_fragments && d.len()
                    <= max_bytes implies v@ == d by {
                lemma_complete_is_datagram(buf@, fs, j + 1, d);
            }
            return Some(v);
        }
        j += 1;
    }
    assert forall|d: Seq<u8>|
        exactly_covers(frags@, d) && frags.len() <= max_fragments && d.len()
            <= max_bytes implies false by {
        lemma_all_fed_is_complete(buf@, fs, d);
    }
    None
}


/// Identifies the fragments of one datagram.
#[derive(Clone, Copy, Debug, PartialEq, Eq, Hash, Structural)]
pub struct FragKey {
    pub src: IpAddress,
    pub dst: IpAddress,
    pub proto: u8,
    pub id: u32,
}

/// Why a key's buffer was dropped.
#[derive(Clone, Copy, Debug, PartialEq, Eq, Structural)]
pub enum DropReason {
    /// The fragment count ceiling would be exceeded.
    TooManyFragments,
    /// The byte ceiling would be exceeded.
    TooManyBytes,
}

/// Outcome of accepting one fragment.
#[derive(Debug)]
pub enum DefragResult {
    /// The datagram is complete; its buffer is released.
    Complete(Vec<u8>),
    /// More fragments are needed.
    Pending,
    /// The key's buffer was dropped.
    Dropped(DropReason),
}

struct FragEntry {
    key: FragKey,
    buffer: FragBuffer,
    last_seen: u64,
}

/// Per-key fragment buffers under a fragment-count and a byte ceiling.
pub struct Defragmenter {
    entries: Vec<FragEntry>,
    buffers: Ghost<Map<FragKey, FragState>>,
    seen: Ghost<Map<FragKey, u64>>,
    max_fragments: usize,
    max_bytes: usize,
    overflows: u64,
}

/// The state a key's buffer is in, empty when it holds none.
pub open spec fn state_for(m: Map<FragKey, FragState>, key: FragKey) -> FragState {
    if m.contains_key(key) {
        m[key]
    } else {
        empty_state()
    }
}

impl Defragmenter {
    /// The buffers in flight, by key.
    pub closed spec fn buffers(&self) -> Map<FragKey, FragState> {
        self.buffers@
    }

    /// When each buffer in flight last received a fragment.
    pub closed spec fn last_seen(&self) -> Map<FragKey, u64> {
        self.seen@
    }

    /// Number of buffers dropped for exceeding a ceiling (saturating).
    pub closed spec fn overflows(&self) -> nat {
        self.overflows as nat
    }

    pub closed spec fn max_fragments(&self) -> nat {
        self.max_fragments as nat
    }

    pub closed spec fn max_bytes(&self) -> nat {
        self.max_bytes as nat
    }

    pub closed spec fn wf(&self) -> bool {
        &&& forall|i: int| 0 <= i < self.entries.len() ==> (#[trigger] self.entries[i]).buffer.wf()
        &&& forall|i: int|
            0 <= i < self.entries.len() ==> self.buffers@.contains_key((#[trigger] self.entries[i]).key)
                && self.buffers@[self.entries[i].key] == self.entries[i].buffer@
                && self.seen@[self.entries[i].key] == self.entries[i].last_seen
        &&& self.seen@.dom() == self.buffers@.dom()
        &&& forall|k: FragKey|
            #[trigger] self.buffers@.contains_key(k) ==> exists|i: int|
                0 <= i < self.entries.len() && (#[trigger] self.entries[i]).key == k
        &&& forall|i: int, j: int|
            0 <= i < self.entries.len() && 0 <= j < self.entries.len() && i != j ==> (
            #[trigger] self.entries[i]).key != (#[trigger] self.entries[j]).key
    }

    /// A defragmenter with no buffer in flight.
    pub fn new(max_fragments: usize, max_bytes: usize) -> (r: Defragmenter)
        ensures
            r.wf(),
            r.buffers() == Map::<FragKey, FragState>::empty(),
            r.last_seen() == Map::<FragKey, u64>::empty(),
            r.overflows() == 0,
            r.max_fragments() == max_fragments,
            r.max_bytes() == max_bytes,
    {
        Defragmenter {
            entries: Vec::new(),
            buffers: Ghost(Map::empty()),
            seen: Ghost(Map::empty()),
            max_fragments,
            max_bytes,
            overflows: 0,
        }
    }

    /// Number of buffers dropped for exceeding a ceiling.
    pub fn overflow_count(&self) -> (r: u64)
        ensures
            r == self.overflows(),
    {
        self.overflows
    }

    /// Number of keys with fragments in flight.
    pub fn pending_keys(&self) -> (r: usize)
        requires
            self.wf(),
        ensures
            r == self.buffers().dom().len(),
    {
        proof {
            self.lemma_dom_len();
        }
        self.entries.len()
    }

    proof fn lemma_dom_len(&self)
        requires
            self.wf(),
        ensures
            self.buffers@.dom().len() == self.entries.len(),
        decreases self.entries.len(),
    {
        let keys = Seq::new(self.entries.len() as nat, |i: int| self.entries[i].key);
        assert(keys.no_duplicates());
        keys.unique_seq_to_set();
        assert(keys.to_set() =~= self.buffers@.dom()) by {
            assert forall|k: FragKey| #[trigger] self.buffers@.dom().contains(k) implies keys.contains(k) by {
                let i = choose|i: int| 0 <= i < self.entries.len() && (#[trigger] self.entries[i]).key == k;
                assert(keys[i] == k);
            }
        }
    }

    fn find(&self, key: &FragKey) -> (r: Option<usize>)
        ensures
            match r {
                Some(i) => i < self.entries.len() && self.entries[i as int].key == *key,
                None => forall|i: int| 0 <= i < self.entries.len() ==> (#[trigger] self.entries[i]).key != *key,
            },
    {
        let mut i: usize = 0;
        while i < self.entries.len()
            invariant
                i <= self.entries.len(),
                forall|j: int| 0 <= j < i ==> (#[trigger] self.entries[j]).key != *key,
            decreases self.entries.len() - i,
        {
            if self.entries[i].key == *key {
                return Some(i);
            }
            i += 1;
        }
        None
    }

    /// Remove the entry at position `i`, keeping the order of the others.
    fn remove_at(&mut self, i: usize) -> (e: FragEntry)
        requires
            old(self).wf(),
            i < old(self).entries.len(),
        ensures
            final(self).wf(),
            e == old(self).entries[i as int],
            e.buffer.wf(),
            old(self).buffers().contains_key(e.key),
            old(self).buffers()[e.key] == e.buffer@,
            final(self).buffers() == old(self).buffers().remove(e.key),
            final(self).seen@ == old(self).seen@.remove(e.key),
            final(self).entries.len() == old(self).entries.len() - 1,
            forall|j: int| 0 <= j < i ==> final(self).entries[j] == old(self).entries[j],
            forall|j: int| i <= j < final(self).entries.len() ==> final(self).entries[j] == old(self).entries[j + 1],
            final(self).overflows == old(self).overflows,
            final(self).max_fragments == old(self).max_fragments,
            final(self).max_bytes == old(self).max_bytes,
    {
        let ghost key = self.entries[i as int].key;
        let ghost old_entries = self.entries@;
        let e = self.entries.remove(i);
        self.buffers = Ghost(self.buffers@.remove(key));
        self.seen = Ghost(self.seen@.remove(key));
        assert(self.seen@.dom() =~= self.buffers@.dom());
        assert forall|k: FragKey| #[trigger] self.buffers@.contains_key(k) implies exists|j: int|
            0 <= j < self.entries.len() && (#[trigger] self.entries[j]).key == k by {
            let j = choose|j: int| 0 <= j < old_entries.len() && (#[trigger] old_entries[j]).key == k;
            if j < i {
                assert(self.entries[j].key == k);
            } else {
                assert(self.entries[j - 1].key == k);
            }
        }
        assert forall|a: int| 0 <= a < self.entries.len() implies self.buffers@.contains_key((#[trigger] self.entries[a]).key)
                && self.buffers@[self.entries[a].key] == self.entries[a].buffer@
                && self.seen@[self.entries[a].key] == self.entries[a].last_seen by {
            let b = if a < i { a } else { a + 1 };
            assert(old_entries[b] == self.entries[a]);
            assert(old_entries[b].key != old_entries[i as int].key);
        }
        e
    }

    /// Take the buffer of `key` out of the table, or an empty one.
    fn take_buffer(&mut self, key: &FragKey) -> (r: FragBuffer)
        requires
            old(self).wf(),
        ensures
            final(self).wf(),
            r.wf(),
            r@ == state_for(old(self).buffers(), *key),
            final(self).buffers() == old(self).buffers().remove(*key),
            final(self).seen@ == old(self).seen@.remove(*key),
            final(self).overflows == old(self).overflows,
            final(self).max_fragments == old(self).max_fragments,
            final(self).max_bytes == old(self).max_bytes,
    {
        match self.find(key) {
            Some(i) => {
                let e = self.remove_at(i);
                e.buffer
            },
            None => {
                assert(!self.buffers@.contains_key(*key));
                assert(self.buffers@.remove(*key) =~= self.buffers@);
                assert(self.seen@.remove(*key) =~= self.seen@);
                FragBuffer::new()
            },
        }
    }

    /// Put a buffer back under a key that has none.
    fn put_buffer(&mut self, key: FragKey, buffer: FragBuffer, now: u64)
        requires
            old(self).wf(),
            buffer.wf(),
            !old(self).buffers().contains_key(key),
        ensures
            final(self).wf(),
            final(self).buffers() == old(self).buffers().insert(key, buffer@),
            final(self).seen@ == old(self).seen@.insert(key, now),
            final(self).overflows == old(self).overflows,
            final(self).max_fragments == old(self).max_fragments,
            final(self).max_bytes == old(self).max_bytes,
    {
        let ghost old_entries = self.entries@;
        let ghost st = buffer@;
        self.entries.push(FragEntry { key, buffer, last_seen: now });
        self.buffers = Ghost(self.buffers@.insert(key, st));
        self.seen = Ghost(self.seen@.insert(key, now));
        assert(self.seen@.dom() =~= self.buffers@.dom());
        assert forall|a: int| 0 <= a < self.entries.len() implies self.buffers@.contains_key((#[trigger] self.entries[a]).key)
            && self.buffers@[self.entries[a].key] == self.entries[a].buffer@
            && self.seen@[self.entries[a].key] == self.entries[a].last_seen by {
            if a < old_entries.len() {
                assert(old_entries[a] == self.entries[a]);
                assert(old(self).buffers@.contains_key(old_entries[a].key));
            }
        }
        assert forall|k: FragKey| #[trigger] self.buffers@.contains_key(k) implies exists|j: int|
            0 <= j < self.entries.len() && (#[trigger] self.entries[j]).key == k by {
            if k == key {
                assert(self.entries[old_entries.len() as int].key == k);
            } else {
                let j = choose|j: int| 0 <= j < old_entries.len() && (#[trigger] old_entries[j]).key == k;
                assert(self.entries[j].key == k);
            }
        }
        assert forall|a: int, b: int|
            0 <= a < self.entries.len() && 0 <= b < self.entries.len() && a != b implies (
            #[trigger] self.entries[a]).key != (#[trigger] self.entries[b]).key by {
            if a < old_entries.len() && b < old_entries.len() {
                assert(old_entries[a] == self.entries[a]);
                assert(old_entries[b] == self.entries[b]);
            } else if a < old_entries.len() {
                assert(old_entries[a] == self.entries[a]);
                assert(self.buffers@.contains_key(old_entries[a].key));
            } else {
                assert(old_entries[b] == self.entries[b]);
            }
        }
    }

    /// Accept one fragment of the datagram identified by `key`.
    ///
    /// When holding it would exceed a ceiling, the key's buffer is dropped and
    /// the overflow counted; the buffers of other keys are untouched.
    pub fn accept(&mut self, key: FragKey, frag: &Fragment, now: u64) -> (r: DefragResult)
        requires
            old(self).wf(),
        ensures
            final(self).wf(),
            final(self).last_seen() == (if r is Pending {
                old(self).last_seen().insert(key, now)
            } else {
                old(self).last_seen().remove(key)
            }),
            final(self).max_fragments() == old(self).max_fragments(),
            final(self).max_bytes() == old(self).max_bytes(),
            ({
                let s = state_for(old(self).buffers(), key);
                if exceeds_ceiling(s.count, frag_end(*frag), old(self).max_fragments(), old(self).max_bytes()) {
                    &&& r == DefragResult::Dropped(
                        if s.count + 1 > old(self).max_fragments() {
                            DropReason::TooManyFragments
                        } else {
                            DropReason::TooManyBytes
                        },
                    )
                    &&& final(self).buffers() == old(self).buffers().remove(key)
                    &&& final(self).overflows() == (if old(self).overflows() < u64::MAX {
                        old(self).overflows() + 1
                    } else {
                        old(self).overflows()
                    })
                } else {
                    let s2 = after_write(s, frag.offset as nat, frag.data@, frag.more);
                    &&& final(self).overflows() == old(self).overflows()
                    &&& if is_complete(s2) {
                        &&& r is Complete
                        &&& r->Complete_0@ == assembled(s2)
                        &&& final(self).buffers() == old(self).buffers().remove(key)
                    } else {
                        &&& r is Pending
                        &&& final(self).buffers() == old(self).buffers().insert(key, s2)
                    }
                }
            }),
    {
        let mut buf = self.take_buffer(&key);
        let count = buf.count();
        if !within_ceiling(count, frag.offset, frag.data.len(), self.max_fragments, self.max_bytes) {
            if self.overflows < u64::MAX {
                self.overflows = self.overflows + 1;
            }
            if count >= self.max_fragments {
                return DefragResult::Dropped(DropReason::TooManyFragments);
            } else {
                return DefragResult::Dropped(DropReason::TooManyBytes);
            }
        }
        buf.write(frag.offset, frag.data.as_slice(), frag.more);
        if buf.is_complete() {
            let v = buf.assemble();
            DefragResult::Complete(v)
        } else {
            self.put_buffer(key, buf, now);
            DefragResult::Pending
        }
    }

    /// Drop every buffer that received no fragment for longer than `idle`
    /// at `now`; returns how many were dropped.
    pub fn expire(&mut self, now: u64, idle: u64) -> (r: usize)
        requires
            old(self).wf(),
        ensures
            final(self).wf(),
            final(self).max_fragments() == old(self).max_fragments(),
            final(self).max_bytes() == old(self).max_bytes(),
            final(self).overflows() == old(self).overflows(),
            forall|k: FragKey|
                #[trigger] final(self).buffers().contains_key(k) <==> old(self).buffers().contains_key(k)
                    && !(now > old(self).last_seen()[k] && now - old(self).last_seen()[k] > idle),
            forall|k: FragKey|
                #[trigger] final(self).buffers().contains_key(k) ==> final(self).buffers()[k] == old(
                    self,
                ).buffers()[k] && final(self).last_seen()[k] == old(self).last_seen()[k],
    {
        let ghost b0 = self.buffers@;
        let ghost s0 = self.seen@;
        let mut dropped: usize = 0;
        let mut i: usize = 0;
        while i < self.entries.len()
            invariant
                self.wf(),
                i <= self.entries.len(),
                dropped <= old(self).entries.len() - self.entries.len(),
                self.entries.len() <= old(self).entries.len(),
                self.max_fragments == old(self).max_fragments,
                self.max_bytes == old(self).max_bytes,
                self.overflows == old(self).overflows,
                forall|k: FragKey|
                    #[trigger] self.buffers@.contains_key(k) ==> b0.contains_key(k) && self.buffers@[k] == b0[k]
                        && self.seen@[k] == s0[k],
                forall|k: FragKey|
                    b0.contains_key(k) && !(now > s0[k] && now - s0[k] > idle) ==> #[trigger] self.buffers@.contains_key(k),
                forall|j: int|
                    0 <= j < i ==> !(now > (#[trigger] self.entries[j]).last_seen && now - self.entries[j].last_seen > idle),
            decreases self.entries.len() - i,
        {
            let last = self.entries[i].last_seen;
            if now > last && now - last > idle {
                let ghost before = self.entries@;
                self.remove_at(i);
                proof {
                    assert forall|j: int| 0 <= j < i implies !(now > (#[trigger] self.entries[j]).last_seen && now
                        - self.entries[j].last_seen > idle) by {
                        assert(self.entries[j] == before[j]);
                    }
                }
                dropped = dropped + 1;
            } else {
                i += 1;
            }
        }
        assert forall|k: FragKey| #[trigger] self.buffers@.contains_key(k) implies !(now > s0[k] && now - s0[k] > idle) by {
            let j = choose|j: int| 0 <= j < self.entries.len() && (#[trigger] self.entries[j]).key == k;
            assert(self.seen@[self.entries[j].key] == self.entries[j].last_seen);
        }
        dropped
    }
}

} // verus!
