//! The packet pipeline: decode a frame, find or create its flow, defragment
//! IPv4 fragments, reassemble TCP streams, and report what happened as a
//! sequence of events for the plugins.
//!
//! The analyzer keeps the log of every event it reported. Each flow is
//! bracketed in that log: `FlowNew` comes before any `L3`/`L4` event of the
//! flow and `FlowDel` after the last one, and after `finish` no flow is left
//! open.
use vstd::prelude::*;

use crate::config::{decimal_value, lookup, Config};
use crate::defrag::{
    after_write, assembled, exceeds_ceiling, is_complete, state_for, DefragResult, Defragmenter, FragKey, FragState, Fragment,
};
use crate::five_tuple::{flow_key, flow_key_of, Direction, FiveTuple};
use crate::geneve::be16;
use crate::flow_table::{is_idle, FlowTable, FlowTimes};
use crate::layers::{
    be16_at, by_protocol_exec, decode_frame, decode_from, find_last_ip, five_tuple_of, has_transport, last_ip,
    be_value, by_protocol, ipv4_is_fragment, read_be, Layer, LayerType, MAX_LAYERS,
};
use crate::plugin::Event;
use crate::tcp_reassembly::{accept_outcome, TcpDirection, TcpSegment, TcpState};

verus! {

/// Ceilings and timeout of the pipeline.
#[derive(Clone, Copy, Debug)]
pub struct AnalyzerConfig {
    /// Most fragments held for one datagram.
    pub max_fragments: usize,
    /// Most bytes a datagram being reassembled may reach.
    pub max_fragment_bytes: usize,
    /// Most bytes held out of order per TCP direction.
    pub max_tcp_buffered: usize,
    /// Idle time after which a flow is expired.
    pub flow_timeout: u64,
    /// Idle time after which an incomplete datagram's fragments are dropped.
    pub fragment_timeout: u64,
}

pub const DEFAULT_MAX_FRAGMENTS: usize = 64;
pub const DEFAULT_MAX_FRAGMENT_BYTES: usize = 65535;
pub const DEFAULT_MAX_TCP_BUFFERED: usize = 1048576;
pub const DEFAULT_FLOW_TIMEOUT: usize = 120;
pub const DEFAULT_FRAGMENT_TIMEOUT: usize = 30;

/// Integer setting of `key` in `c`, or `default`.
pub open spec fn setting(c: Seq<(Seq<char>, Seq<char>)>, key: Seq<char>, default: usize) -> usize {
    match lookup(c, key) {
        Some(v) => match decimal_value(v) {
            Some(n) => if n <= usize::MAX { n as usize } else { default },
            None => default,
        },
        None => default,
    }
}

impl AnalyzerConfig {
    /// Read the settings `defrag.max_fragments`, `defrag.max_bytes`,
    /// `tcp.max_buffered`, `flow.timeout` and `defrag.timeout`, with defaults
    /// for missing ones.
    pub fn from_config(config: &Config) -> (r: AnalyzerConfig)
        ensures
            r.max_fragments == setting(config@, "defrag.max_fragments"@, DEFAULT_MAX_FRAGMENTS),
            r.max_fragment_bytes == setting(config@, "defrag.max_bytes"@, DEFAULT_MAX_FRAGMENT_BYTES),
            r.max_tcp_buffered == setting(config@, "tcp.max_buffered"@, DEFAULT_MAX_TCP_BUFFERED),
            r.flow_timeout == setting(config@, "flow.timeout"@, DEFAULT_FLOW_TIMEOUT),
            r.fragment_timeout == setting(config@, "defrag.timeout"@, DEFAULT_FRAGMENT_TIMEOUT),
    {
        AnalyzerConfig {
            max_fragments: config.get_usize("defrag.max_fragments", DEFAULT_MAX_FRAGMENTS),
            max_fragment_bytes: config.get_usize("defrag.max_bytes", DEFAULT_MAX_FRAGMENT_BYTES),
            max_tcp_buffered: config.get_usize("tcp.max_buffered", DEFAULT_MAX_TCP_BUFFERED),
            flow_timeout: config.get_usize("flow.timeout", DEFAULT_FLOW_TIMEOUT) as u64,
            fragment_timeout: config.get_usize("defrag.timeout", DEFAULT_FRAGMENT_TIMEOUT) as u64,
        }
    }
}

/// An event with the bytes it concerns.
#[derive(Debug)]
pub struct Dispatch {
    pub event: Event,
    pub data: Vec<u8>,
}

pub open spec fn events_of(ds: Seq<Dispatch>) -> Seq<Event> {
    ds.map_values(|d: Dispatch| d.event)
}

/// The flow `k` is open after `log`: its last `FlowNew`/`FlowDel` event is a `FlowNew`.
pub open spec fn is_open(log: Seq<Event>, k: FiveTuple) -> bool
    decreases log.len(),
{
    if log.len() == 0 {
        false
    } else {
        match log.last() {
            Event::FlowNew(x) => if x == k {
                true
            } else {
                is_open(log.drop_last(), k)
            },
            Event::FlowDel(x) => if x == k {
                false
            } else {
                is_open(log.drop_last(), k)
            },
            _ => is_open(log.drop_last(), k),
        }
    }
}

/// Event `e` may follow `log`: a flow is created only when it is not open,
/// and dispatched or removed only while it is.
pub open spec fn allowed(log: Seq<Event>, e: Event) -> bool {
    match e {
        Event::L2 => true,
        Event::FlowNew(k) => !is_open(log, k),
        Event::L3(k) => is_open(log, k),
        Event::L4(k) => is_open(log, k),
        Event::FlowDel(k) => is_open(log, k),
    }
}

/// Every event of the log is allowed after the events before it.
pub open spec fn well_bracketed(log: Seq<Event>) -> bool
    decreases log.len(),
{
    log.len() == 0 || (well_bracketed(log.drop_last()) && allowed(log.drop_last(), log.last()))
}

proof fn lemma_open_has_new(s: Seq<Event>, k: FiveTuple)
    requires
        is_open(s, k),
    ensures
        exists|j: int|
            0 <= j < s.len() && s[j] == Event::FlowNew(k) && forall|m: int|
                j < m < s.len() ==> s[m] != Event::FlowDel(k),
    decreases s.len(),
{
    let p = s.drop_last();
    if s.last() == Event::FlowNew(k) {
        assert(s[s.len() - 1] == Event::FlowNew(k));
    } else {
        lemma_open_has_new(p, k);
        let j = choose|j: int|
            0 <= j < p.len() && p[j] == Event::FlowNew(k) && forall|m: int|
                j < m < p.len() ==> p[m] != Event::FlowDel(k);
        assert(s[j] == Event::FlowNew(k));
        assert forall|m: int| j < m < s.len() implies s[m] != Event::FlowDel(k) by {
            if m < p.len() {
                assert(s[m] == p[m]);
            }
        }
    }
}

proof fn lemma_new_without_del_is_open(s: Seq<Event>, j: int, k: FiveTuple)
    requires
        0 <= j < s.len(),
        s[j] == Event::FlowNew(k),
        forall|m: int| j < m < s.len() ==> s[m] != Event::FlowDel(k),
    ensures
        is_open(s, k),
    decreases s.len(),
{
    if j < s.len() - 1 {
        let p = s.drop_last();
        assert forall|m: int| j < m < p.len() implies p[m] != Event::FlowDel(k) by {
            assert(p[m] == s[m]);
        }
        lemma_new_without_del_is_open(p, j, k);
    }
}

proof fn lemma_prefix_bracketed(log: Seq<Event>, n: int)
    requires
        well_bracketed(log),
        0 <= n <= log.len(),
    ensures
        well_bracketed(log.take(n)),
    decreases log.len(),
{
    if n < log.len() {
        assert(log.drop_last().take(n) == log.take(n));
        lemma_prefix_bracketed(log.drop_last(), n);
    } else {
        assert(log.take(n) == log);
    }
}

/// In a well-bracketed log, every `L3`, `L4` or `FlowDel` event of a flow
/// comes after a `FlowNew` of that flow, with no `FlowDel` of it in between.
pub proof fn lemma_dispatch_follows_new(log: Seq<Event>, i: int, k: FiveTuple)
    requires
        well_bracketed(log),
        0 <= i < log.len(),
        log[i] == Event::L3(k) || log[i] == Event::L4(k) || log[i] == Event::FlowDel(k),
    ensures
        exists|j: int|
            0 <= j < i && log[j] == Event::FlowNew(k) && forall|m: int| j < m < i ==> log[m] != Event::FlowDel(k),
{
    lemma_prefix_bracketed(log, i + 1);
    let s = log.take(i + 1);
    assert(s.drop_last() == log.take(i));
    assert(s.last() == log[i]);
    lemma_open_has_new(log.take(i), k);
    let j = choose|j: int|
        0 <= j < i && log.take(i)[j] == Event::FlowNew(k) && forall|m: int|
            j < m < i ==> log.take(i)[m] != Event::FlowDel(k);
    assert(log[j] == Event::FlowNew(k));
    assert forall|m: int| j < m < i implies log[m] != Event::FlowDel(k) by {
        assert(log.take(i)[m] == log[m]);
    }
}

/// In a well-bracketed log, a `FlowNew` is never repeated while its flow is
/// open: between two `FlowNew` events of a flow there is a `FlowDel` of it.
pub proof fn lemma_new_not_repeated(log: Seq<Event>, i: int, j: int, k: FiveTuple)
    requires
        well_bracketed(log),
        0 <= i < j < log.len(),
        log[i] == Event::FlowNew(k),
        log[j] == Event::FlowNew(k),
    ensures
        exists|m: int| i < m < j && log[m] == Event::FlowDel(k),
{
    lemma_prefix_bracketed(log, j + 1);
    let s = log.take(j + 1);
    assert(s.drop_last() == log.take(j));
    assert(s.last() == log[j]);
    if !exists|m: int| i < m < j && log[m] == Event::FlowDel(k) {
        assert forall|m: int| i < m < log.take(j).len() implies log.take(j)[m] != Event::FlowDel(k) by {
            assert(log.take(j)[m] == log[m]);
        }
        lemma_new_without_del_is_open(log.take(j), i, k);
    }
}

/// When no flow is open after a well-bracketed log (as after `finish`),
/// every `FlowNew` of a flow is followed by a `FlowDel` of it.
pub proof fn lemma_new_then_del(log: Seq<Event>, i: int, k: FiveTuple)
    requires
        well_bracketed(log),
        !is_open(log, k),
        0 <= i < log.len(),
        log[i] == Event::FlowNew(k),
    ensures
        exists|m: int| i < m < log.len() && log[m] == Event::FlowDel(k),
{
    if !exists|m: int| i < m < log.len() && log[m] == Event::FlowDel(k) {
        lemma_new_without_del_is_open(log, i, k);
    }
}

/// The frame's transport header is a TCP header with the RST flag set.
pub open spec fn tcp_reset(frame: Seq<u8>, layers: Seq<Layer>) -> bool {
    has_transport(layers) && {
        let j = last_ip(layers)->0;
        let l4 = layers[j + 1];
        l4.kind == LayerType::Tcp && frame[l4.offset + 13] % 8 >= 4
    }
}

/// Where the payload of a UDP header right after the innermost IP header starts.
pub open spec fn udp_payload_start(layers: Seq<Layer>) -> Option<nat> {
    if has_transport(layers) && layers[last_ip(layers)->0 + 1].kind == LayerType::Udp {
        let l4 = layers[last_ip(layers)->0 + 1];
        Some((l4.offset + l4.len) as nat)
    } else {
        None
    }
}

/// End of the payload of the IPv4 fragment whose header is `ip`: the total
/// length field, cut at the frame's end.
pub open spec fn fragment_end(frame: Seq<u8>, ip: Layer) -> int {
    let o = ip.offset as int;
    let total = be16(frame, o + 2) as int;
    if total < ip.len {
        o + ip.len
    } else if total > frame.len() - o {
        frame.len() as int
    } else {
        o + total
    }
}

/// The defragmentation key of the IPv4 fragment whose header is `ip`.
pub open spec fn fragment_key(frame: Seq<u8>, ip: Layer, t: FiveTuple) -> FragKey {
    FragKey { src: t.src, dst: t.dst, proto: t.proto, id: be16(frame, ip.offset + 4) as u32 }
}

/// The buffer of the fragment's datagram completes with this fragment,
/// within the ceilings.
pub open spec fn fragment_completes(
    buffers: Map<FragKey, FragState>,
    max_fragments: nat,
    max_bytes: nat,
    frame: Seq<u8>,
    ip: Layer,
    t: FiveTuple,
) -> bool {
    let o = ip.offset as int;
    let fo = be16(frame, o + 6);
    let off = (fo % 0x2000) * 8;
    let data = frame.subrange(o + ip.len, fragment_end(frame, ip));
    let s = state_for(buffers, fragment_key(frame, ip, t));
    !exceeds_ceiling(s.count, off + data.len(), max_fragments, max_bytes) && is_complete(
        after_write(s, off, data, (fo / 0x2000) % 2 == 1),
    )
}

/// The transport payload that the IPv4 fragment whose header is `ip`
/// completes, if it completes its datagram and the datagram starts with a
/// transport header that decodes.
pub open spec fn fragment_payload(
    buffers: Map<FragKey, FragState>,
    max_fragments: nat,
    max_bytes: nat,
    frame: Seq<u8>,
    ip: Layer,
    t: FiveTuple,
) -> Option<Seq<u8>> {
    if !fragment_completes(buffers, max_fragments, max_bytes, frame, ip, t) {
        None
    } else {
        let o = ip.offset as int;
        let fo = be16(frame, o + 6);
        let data = frame.subrange(o + ip.len, fragment_end(frame, ip));
        let s = state_for(buffers, fragment_key(frame, ip, t));
        let d = assembled(after_write(s, (fo % 0x2000) * 8, data, (fo / 0x2000) % 2 == 1));
        match by_protocol(t.proto) {
            None => None,
            Some(k) => {
                let ls = decode_from(d, k, 0, MAX_LAYERS as nat).0;
                if ls.len() == 0 {
                    None
                } else {
                    Some(d.skip(ls[0].offset + ls[0].len))
                }
            },
        }
    }
}

/// The innermost IP header is an IPv4 fragment.
pub open spec fn is_fragment_packet(frame: Seq<u8>, layers: Seq<Layer>) -> bool {
    last_ip(layers) matches Some(j) && layers[j].kind == LayerType::Ipv4 && ipv4_is_fragment(
        frame,
        layers[j].offset as int,
    )
}

/// Direction of a tuple relative to its flow key.
pub open spec fn direction_of(t: FiveTuple) -> Direction {
    if t.is_canonical() {
        Direction::Forward
    } else {
        Direction::Backward
    }
}

/// The TCP segment whose header is `l4` in `frame` went to direction `d` of
/// flow `key`, which delivered `delivered`: that direction was the flow's
/// (or a fresh one for a new flow) and made one step of `accept_outcome`;
/// when `kept`, the flow holds the direction's new state.
pub open spec fn tcp_taken(
    a0: Analyzer,
    a1: Analyzer,
    frame: Seq<u8>,
    l4: Layer,
    key: FiveTuple,
    d: Direction,
    delivered: Seq<u8>,
    kept: bool,
) -> bool {
    let o = l4.offset as int;
    let flags = frame[o + 13];
    exists|d0: TcpDirection, seg: TcpSegment, d1: TcpDirection|
        #![trigger accept_outcome(d0, seg, d1, delivered)]
        {
            &&& seg.seq == be_value(frame.subrange(o + 4, o + 8)) as u32
            &&& seg.syn == (flags % 4 >= 2)
            &&& seg.fin == (flags % 2 == 1)
            &&& seg.rst == (flags % 8 >= 4)
            &&& seg.data@ == frame.skip(o + l4.len)
            &&& (a0.open_flows().contains(key) ==> d0 == a0.tcp_direction(key, d))
            &&& (!a0.open_flows().contains(key) ==> d0.wf() && d0.state() == TcpState::Init && d0.stream().next()
                == 0 && d0.stream().pending().len() == 0)
            &&& accept_outcome(d0, seg, d1, delivered)
            &&& kept ==> a1.tcp_direction(key, d) == d1
        }
}

/// What one step of the pipeline does on `frame`: the analyzer goes from
/// `a0` to `a1` and reports `r`. The events are `L2` for the frame; for a
/// packet with an IP five-tuple, `FlowNew` when its flow is new, then `L3`,
/// then `L4` when a transport payload is complete, and `FlowDel` after a TCP
/// reset.
pub open spec fn packet_outcome(a0: Analyzer, frame: Seq<u8>, link: LayerType, a1: Analyzer, r: Seq<Dispatch>) -> bool {
    &&& a1.wf()
    &&& well_bracketed(a1.log())
    &&& a1.log() == a0.log() + events_of(r)
    &&& a1.timeout() == a0.timeout()
    &&& r.len() >= 1
    &&& r[0].event == Event::L2
    &&& r[0].data@ == frame
    &&& {
        let layers = decode_from(frame, link, 0, MAX_LAYERS as nat).0;
        match five_tuple_of(frame, layers) {
            None => r.len() == 1 && a1.open_flows() == a0.open_flows(),
            Some(t) => {
                let key = flow_key_of(t);
                let head = if a0.open_flows().contains(key) {
                    seq![Event::L2, Event::L3(key)]
                } else {
                    seq![Event::L2, Event::FlowNew(key), Event::L3(key)]
                };
                let j = last_ip(layers)->0;
                &&& if tcp_reset(frame, layers) {
                    &&& events_of(r) == head.push(Event::L4(key)).push(Event::FlowDel(key))
                    &&& a1.open_flows() == a0.open_flows().remove(key)
                    &&& tcp_taken(a0, a1, frame, layers[j + 1], key, direction_of(t), r[r.len() - 2].data@, false)
                } else {
                    &&& has_transport(layers) && layers[j + 1].kind == LayerType::Tcp ==> tcp_taken(
                        a0,
                        a1,
                        frame,
                        layers[j + 1],
                        key,
                        direction_of(t),
                        r.last().data@,
                        true,
                    )
                    &&& events_of(r) == head || events_of(r) == head.push(Event::L4(key))
                    &&& has_transport(layers) ==> events_of(r) == head.push(Event::L4(key))
                    &&& a1.open_flows() == a0.open_flows().insert(key)
                    &&& udp_payload_start(layers) matches Some(p) ==> r.last().data@ == frame.skip(p as int)
                    &&& !has_transport(layers) ==> if is_fragment_packet(frame, layers) {
                        match fragment_payload(
                            a0.fragment_buffers(),
                            a0.fragment_ceilings().0,
                            a0.fragment_ceilings().1,
                            frame,
                            layers[last_ip(layers)->0],
                            t,
                        ) {
                            Some(p) => events_of(r) == head.push(Event::L4(key)) && r.last().data@ == p,
                            None => events_of(r) == head,
                        }
                    } else {
                        events_of(r) == head
                    }
                }
            },
        }
    }
}

/// The pipeline of one worker.
pub struct Analyzer {
    flows: FlowTable,
    defrag: Defragmenter,
    flow_timeout: u64,
    fragment_timeout: u64,
    log: Ghost<Seq<Event>>,
}

impl Analyzer {
    /// Every event reported so far.
    pub closed spec fn log(&self) -> Seq<Event> {
        self.log@
    }

    /// Keys of the flows alive.
    pub closed spec fn open_flows(&self) -> Set<FiveTuple> {
        self.flows.flows().dom()
    }

    /// Times of the flows alive.
    pub closed spec fn flow_times(&self) -> Map<FiveTuple, FlowTimes> {
        self.flows.flows()
    }

    pub closed spec fn timeout(&self) -> u64 {
        self.flow_timeout
    }

    pub closed spec fn wf(&self) -> bool {
        &&& self.flows.wf()
        &&& self.defrag.wf()
        &&& well_bracketed(self.log@)
        &&& forall|k: FiveTuple| #[trigger] is_open(self.log@, k) == self.flows.flows().contains_key(k)
    }

    /// A pipeline with no flow and an empty log.
    pub fn new(config: &AnalyzerConfig) -> (r: Analyzer)
        ensures
            r.wf(),
            r.log() == Seq::<Event>::empty(),
            r.open_flows() == Set::<FiveTuple>::empty(),
            r.timeout() == config.flow_timeout,
    {
        let r = Analyzer {
            flows: FlowTable::new(config.max_tcp_buffered),
            defrag: Defragmenter::new(config.max_fragments, config.max_fragment_bytes),
            flow_timeout: config.flow_timeout,
            fragment_timeout: config.fragment_timeout,
            log: Ghost(Seq::empty()),
        };
        assert(r.flows.flows().dom() =~= Set::<FiveTuple>::empty());
        r
    }

    /// Number of flows alive.
    pub fn flow_count(&self) -> (r: usize)
        requires
            self.wf(),
        ensures
            r == self.open_flows().len(),
    {
        self.flows.len()
    }

    /// TCP reassembly state of one direction of a flow.
    pub closed spec fn tcp_direction(&self, k: FiveTuple, d: Direction) -> TcpDirection {
        self.flows.direction(k, d)
    }

    /// Fragment buffers in flight, by datagram.
    pub closed spec fn fragment_buffers(&self) -> Map<FragKey, FragState> {
        self.defrag.buffers()
    }

    /// Ceilings of the fragment buffers: (fragments, bytes).
    pub closed spec fn fragment_ceilings(&self) -> (nat, nat) {
        (self.defrag.max_fragments(), self.defrag.max_bytes())
    }

    /// Number of fragment buffers dropped for exceeding a ceiling.
    pub closed spec fn fragment_overflow_count(&self) -> nat {
        self.defrag.overflows()
    }

    /// Number of fragment buffers dropped for exceeding a ceiling.
    pub fn fragment_overflows(&self) -> (r: u64)
        ensures
            r == self.fragment_overflow_count(),
    {
        self.defrag.overflow_count()
    }

    fn emit(&mut self, out: &mut Vec<Dispatch>, event: Event, data: Vec<u8>)
        requires
            well_bracketed(old(self).log@),
            allowed(old(self).log@, event),
        ensures
            final(self).log@ == old(self).log@.push(event),
            well_bracketed(final(self).log@),
            final(self).flows == old(self).flows,
            final(self).defrag == old(self).defrag,
            final(self).flow_timeout == old(self).flow_timeout,
            final(self).fragment_timeout == old(self).fragment_timeout,
            final(out)@ == old(out)@.push(Dispatch { event, data }),
            events_of(final(out)@) == events_of(old(out)@).push(event),
            forall|k: FiveTuple|
                #[trigger] is_open(final(self).log@, k) == (match event {
                    Event::FlowNew(x) => x == k || is_open(old(self).log@, k),
                    Event::FlowDel(x) => x != k && is_open(old(self).log@, k),
                    _ => is_open(old(self).log@, k),
                }),
    {
        let ghost before = self.log@;
        let ghost out0 = out@;
        self.log = Ghost(self.log@.push(event));
        assert(self.log@.drop_last() == before);
        out.push(Dispatch { event, data });
        assert(events_of(out@) =~= events_of(out0).push(event));
    }

    /// Run one frame through the pipeline and return what it reports, in
    /// order: `L2` for the frame; for a packet with an IP five-tuple,
    /// `FlowNew` when its flow is new, then `L3`, then `L4` when a transport
    /// payload is complete (at once for an unfragmented packet, on the last
    /// missing fragment for a fragmented one). A TCP reset tears the flow
    /// down: `FlowDel` follows and the flow is removed.
    pub fn handle_packet(&mut self, frame: &[u8], link: LayerType, ts: u64) -> (r: Vec<Dispatch>)
        requires
            old(self).wf(),
        ensures
            packet_outcome(*old(self), frame@, link, *final(self), r@),
    {
        self.step(frame, link, ts)
    }

    #[verifier::rlimit(100)]
    fn step(&mut self, frame: &[u8], link: LayerType, ts: u64) -> (r: Vec<Dispatch>)
        requires
            old(self).wf(),
        ensures
            final(self).wf(),
            well_bracketed(final(self).log()),
            final(self).log() == old(self).log() + events_of(r@),
            final(self).timeout() == old(self).timeout(),
            r@.len() >= 1,
            r@[0].event == Event::L2,
            r@[0].data@ == frame@,
            ({
                let layers = decode_from(frame@, link, 0, MAX_LAYERS as nat).0;
                match five_tuple_of(frame@, layers) {
                    None => r@.len() == 1 && final(self).open_flows() == old(self).open_flows(),
                    Some(t) => {
                        let key = flow_key_of(t);
                        let head = if old(self).open_flows().contains(key) {
                            seq![Event::L2, Event::L3(key)]
                        } else {
                            seq![Event::L2, Event::FlowNew(key), Event::L3(key)]
                        };
                        let j = last_ip(layers)->0;
                        &&& if tcp_reset(frame@, layers) {
                            &&& events_of(r@) == head.push(Event::L4(key)).push(Event::FlowDel(key))
                            &&& final(self).open_flows() == old(self).open_flows().remove(key)
                            &&& tcp_taken(
                                *old(self),
                                *final(self),
                                frame@,
                                layers[j + 1],
                                key,
                                direction_of(t),
                                r@[r@.len() - 2].data@,
                                false,
                            )
                        } else {
                            &&& has_transport(layers) && layers[j + 1].kind == LayerType::Tcp ==> tcp_taken(
                                *old(self),
                                *final(self),
                                frame@,
                                layers[j + 1],
                                key,
                                direction_of(t),
                                r@.last().data@,
                                true,
                            )
                            &&& events_of(r@) == head || events_of(r@) == head.push(Event::L4(key))
                            &&& has_transport(layers) ==> events_of(r@) == head.push(Event::L4(key))
                            &&& final(self).open_flows() == old(self).open_flows().insert(key)
                            &&& udp_payload_start(layers) matches Some(p) ==> r@.last().data@ == frame@.skip(p as int)
                            &&& !has_transport(layers) ==> if is_fragment_packet(frame@, layers) {
                                match fragment_payload(
                                    old(self).fragment_buffers(),
                                    old(self).fragment_ceilings().0,
                                    old(self).fragment_ceilings().1,
                                    frame@,
                                    layers[last_ip(layers)->0],
                                    t,
                                ) {
                                    Some(p) => events_of(r@) == head.push(Event::L4(key)) && r@.last().data@ == p,
                                    None => events_of(r@) == head,
                                }
                            } else {
                                events_of(r@) == head
                            }
                        }
                    },
                }
            }),
    {
        let ghost log0 = self.log@;
        let mut out: Vec<Dispatch> = Vec::new();
        assert(events_of(out@) =~= Seq::<Event>::empty());
        self.emit(&mut out, Event::L2, vstd::slice::slice_to_vec(frame));
        let info = decode_frame(frame, link);
        let t = match info.five_tuple {
            None => {
                assert(self.log@ =~= log0 + events_of(out@));
                return out;
            },
            Some(t) => t,
        };
        let key = flow_key(&t);
        let ghost m0 = self.flows.flows();
        let is_new = self.flows.lookup_or_create(key, ts);
        if is_new {
            self.emit(&mut out, Event::FlowNew(key), Vec::new());
        }
        assert forall|k: FiveTuple| #[trigger] is_open(self.log@, k) == self.flows.flows().contains_key(k) by {
            if k != key {
                assert(self.flows.flows().contains_key(k) == m0.contains_key(k));
            }
        }
        let j = match find_last_ip(&info.layers) {
            Some(j) => j,
            None => {
                assert(false);
                return out;
            },
        };
        let ip: Layer = info.layers[j];
        assert(info.layers@[j as int] == ip);
        let flen = frame.len();
        assert(ip.offset + ip.len <= flen);
        self.emit(
            &mut out,
            Event::L3(key),
            vstd::slice::slice_to_vec(vstd::slice::slice_subrange(frame, ip.offset, flen)),
        );
        let ghost head = events_of(out@);
        let nl = info.layers.len();
        if j + 1 < nl && (info.layers[j + 1].kind == LayerType::Tcp || info.layers[j + 1].kind
            == LayerType::Udp) {
            let l4: Layer = info.layers[j + 1];
            assert(info.layers@[j + 1] == l4);
            assert(l4.offset + l4.len <= flen);
            let payload = vstd::slice::slice_to_vec(
                vstd::slice::slice_subrange(frame, l4.offset + l4.len, flen),
            );
            let mut reset = false;
            let ghost mut taken_d0: TcpDirection = arbitrary();
            let ghost mut taken_seg: TcpSegment = arbitrary();
            let ghost mut taken_d1: TcpDirection = arbitrary();
            let dir = t.direction();
            let data = if l4.kind == LayerType::Tcp {
                let flags = frame[l4.offset + 13];
                reset = flags % 8 >= 4;
                let seg = TcpSegment {
                    seq: read_be(frame, l4.offset + 4, 4) as u32,
                    syn: flags % 4 >= 2,
                    fin: flags % 2 == 1,
                    rst: flags % 8 >= 4,
                    data: payload,
                };
                proof {
                    taken_d0 = self.flows.direction(key, dir);
                    taken_seg = seg;
                }
                let delivered = self.flows.tcp_accept(&key, dir, seg);
                proof {
                    taken_d1 = self.flows.direction(key, dir);
                    assert(accept_outcome(taken_d0, taken_seg, taken_d1, delivered@));
                }
                delivered
            } else {
                payload
            };
            let ghost data_v = data@;
            self.emit(&mut out, Event::L4(key), data);
            assert(l4.kind == LayerType::Tcp ==> accept_outcome(taken_d0, taken_seg, taken_d1, data_v));
            if reset {
                let ghost m1 = self.flows.flows();
                self.flows.remove(&key);
                self.emit(&mut out, Event::FlowDel(key), Vec::new());
                assert forall|k: FiveTuple| #[trigger] is_open(self.log@, k) == self.flows.flows().contains_key(k) by {
                    if k != key {
                        assert(self.flows.flows().contains_key(k) == m1.contains_key(k));
                    }
                }
                assert(self.log@ =~= log0 + events_of(out@));
                assert(self.flows.flows().dom() =~= m0.dom().remove(key));
                return out;
            }
        } else if ip.kind == LayerType::Ipv4 && be16_at(frame, ip.offset + 6) % 0x4000 != 0 {
            if let Some(data) = self.defragment(frame, ip, &t, ts) {
                self.emit(&mut out, Event::L4(key), data);
            }
        }
        assert(self.log@ =~= log0 + events_of(out@));
        assert(self.flows.flows().dom() =~= m0.dom().insert(key));
        out
    }

    /// Feed the IPv4 fragment whose header is `ip` to the defragmenter; when
    /// it completes its datagram, return the transport payload of that
    /// datagram.
    fn defragment(&mut self, frame: &[u8], ip: Layer, t: &FiveTuple, ts: u64) -> (r: Option<Vec<u8>>)
        requires
            old(self).defrag.wf(),
            ip.offset + ip.len <= frame@.len(),
            ip.len >= 20,
        ensures
            final(self).defrag.wf(),
            final(self).flows == old(self).flows,
            final(self).log == old(self).log,
            final(self).flow_timeout == old(self).flow_timeout,
            final(self).fragment_timeout == old(self).fragment_timeout,
            final(self).defrag.max_fragments() == old(self).defrag.max_fragments(),
            final(self).defrag.max_bytes() == old(self).defrag.max_bytes(),
            match r {
                Some(v) => fragment_payload(
                    old(self).defrag.buffers(),
                    old(self).defrag.max_fragments(),
                    old(self).defrag.max_bytes(),
                    frame@,
                    ip,
                    *t,
                ) == Some(v@),
                None => fragment_payload(
                    old(self).defrag.buffers(),
                    old(self).defrag.max_fragments(),
                    old(self).defrag.max_bytes(),
                    frame@,
                    ip,
                    *t,
                ) is None,
            },
    {
        let o = ip.offset;
        let flen = frame.len();
        let id = be16_at(frame, o + 4);
        let flags_offset = be16_at(frame, o + 6);
        let total = be16_at(frame, o + 2) as usize;
        let start = o + ip.len;
        let end = if total < ip.len {
            start
        } else if total > flen - o {
            flen
        } else {
            o + total
        };
        let frag = Fragment {
            offset: (flags_offset % 0x2000) as usize * 8,
            more: (flags_offset / 0x2000) % 2 == 1,
            data: vstd::slice::slice_to_vec(vstd::slice::slice_subrange(frame, start, end)),
        };
        let fkey = FragKey { src: t.src, dst: t.dst, proto: t.proto, id: id as u32 };
        assert(frag.data@ == frame@.subrange(o + ip.len, fragment_end(frame@, ip)));
        match self.defrag.accept(fkey, &frag, ts) {
            DefragResult::Complete(datagram) => {
                match by_protocol_exec(t.proto) {
                    None => None,
                    Some(kind) => {
                        let (inner, _) = crate::layers::decode_layers(datagram.as_slice(), kind, 0);
                        if inner.len() == 0 {
                            None
                        } else {
                            let first = inner[0];
                            assert(inner@[0] == first);
                            let dl = datagram.len();
                            assert(first.offset + first.len <= dl);
                            Some(
                                vstd::slice::slice_to_vec(
                                    vstd::slice::slice_subrange(
                                        datagram.as_slice(),
                                        first.offset + first.len,
                                        dl,
                                    ),
                                ),
                            )
                        }
                    },
                }
            },
            _ => None,
        }
    }

    /// Remove every flow idle for longer than the timeout at `now`, reporting
    /// `FlowDel` for each, and drop the fragment buffers idle for longer than
    /// the fragment timeout.
    pub fn expire(&mut self, now: u64) -> (r: Vec<Dispatch>)
        requires
            old(self).wf(),
        ensures
            final(self).wf(),
            well_bracketed(final(self).log()),
            final(self).log() == old(self).log() + events_of(r@),
            final(self).timeout() == old(self).timeout(),
            forall|i: int| 0 <= i < r@.len() ==> (#[trigger] r@[i]).event is FlowDel,
            forall|k: FiveTuple|
                events_of(r@).contains(Event::FlowDel(k)) <==> #[trigger] old(self).flow_times().contains_key(k)
                    && is_idle(old(self).flow_times()[k], now, old(self).timeout()),
            forall|k: FiveTuple|
                #[trigger] final(self).open_flows().contains(k) <==> old(self).open_flows().contains(k) && !is_idle(
                    old(self).flow_times()[k],
                    now,
                    old(self).timeout(),
                ),
    {
        let ghost m0 = self.flows.flows();
        self.defrag.expire(now, self.fragment_timeout);
        let keys = self.flows.expire(now, self.flow_timeout);
        let ghost kv = keys@;
        let r = self.close_all(keys, Ghost(m0));
        assert forall|k: FiveTuple|
            events_of(r@).contains(Event::FlowDel(k)) <==> #[trigger] m0.contains_key(k) && is_idle(
                m0[k],
                now,
                self.flow_timeout,
            ) by {
            assert(events_of(r@).contains(Event::FlowDel(k)) <==> kv.contains(k));
        }
        assert forall|k: FiveTuple|
            #[trigger] self.flows.flows().dom().contains(k) <==> m0.dom().contains(k) && !is_idle(
                m0[k],
                now,
                self.flow_timeout,
            ) by {
            assert(self.flows.flows().contains_key(k) <==> m0.contains_key(k) && !kv.contains(k));
        }
        r
    }

    /// Remove every flow, reporting `FlowDel` for each: after this, no flow
    /// is open in the log.
    pub fn finish(&mut self) -> (r: Vec<Dispatch>)
        requires
            old(self).wf(),
        ensures
            final(self).wf(),
            well_bracketed(final(self).log()),
            final(self).log() == old(self).log() + events_of(r@),
            final(self).timeout() == old(self).timeout(),
            forall|i: int| 0 <= i < r@.len() ==> (#[trigger] r@[i]).event is FlowDel,
            forall|k: FiveTuple|
                events_of(r@).contains(Event::FlowDel(k)) <==> #[trigger] old(self).open_flows().contains(k),
            final(self).open_flows() == Set::<FiveTuple>::empty(),
            forall|k: FiveTuple| !#[trigger] is_open(final(self).log(), k),
    {
        let ghost m0 = self.flows.flows();
        let keys = self.flows.drain();
        let ghost kv = keys@;
        let r = self.close_all(keys, Ghost(m0));
        assert forall|k: FiveTuple|
            events_of(r@).contains(Event::FlowDel(k)) <==> #[trigger] m0.dom().contains(k) by {
            assert(events_of(r@).contains(Event::FlowDel(k)) <==> kv.contains(k));
        }
        assert(self.flows.flows().dom() =~= Set::<FiveTuple>::empty());
        r
    }

    /// Report `FlowDel` for keys just removed from the table.
    fn close_all(&mut self, keys: Vec<FiveTuple>, m0: Ghost<Map<FiveTuple, FlowTimes>>) -> (r: Vec<Dispatch>)
        requires
            old(self).flows.wf(),
            old(self).defrag.wf(),
            well_bracketed(old(self).log@),
            forall|k: FiveTuple| #[trigger] is_open(old(self).log@, k) == m0@.contains_key(k),
            keys@.no_duplicates(),
            forall|k: FiveTuple| #[trigger] keys@.contains(k) ==> m0@.contains_key(k),
            forall|k: FiveTuple|
                #[trigger] old(self).flows.flows().contains_key(k) <==> m0@.contains_key(k) && !keys@.contains(k),
        ensures
            final(self).wf(),
            final(self).flows == old(self).flows,
            final(self).flow_timeout == old(self).flow_timeout,
            final(self).fragment_timeout == old(self).fragment_timeout,
            final(self).log@ == old(self).log@ + events_of(r@),
            forall|i: int| 0 <= i < r@.len() ==> (#[trigger] r@[i]).event is FlowDel,
            forall|k: FiveTuple| events_of(r@).contains(Event::FlowDel(k)) <==> #[trigger] keys@.contains(k),
    {
        let ghost log0 = self.log@;
        let mut out: Vec<Dispatch> = Vec::new();
        let mut i: usize = 0;
        assert(events_of(out@) =~= Seq::<Event>::empty());
        while i < keys.len()
            invariant
                i <= keys.len(),
                keys@.no_duplicates(),
                forall|k: FiveTuple| #[trigger] keys@.contains(k) ==> m0@.contains_key(k),
                self.flows == old(self).flows,
                self.defrag == old(self).defrag,
                self.flow_timeout == old(self).flow_timeout,
                self.fragment_timeout == old(self).fragment_timeout,
                well_bracketed(self.log@),
                self.log@ == log0 + events_of(out@),
                log0 == old(self).log@,
                out@.len() == i,
                forall|a: int| 0 <= a < i ==> (#[trigger] out@[a]).event == Event::FlowDel(keys@[a]),
                forall|k: FiveTuple|
                    #[trigger] is_open(self.log@, k) == (m0@.contains_key(k) && !keys@.take(i as int).contains(k)),
            decreases keys.len() - i,
        {
            let k = keys[i];
            proof {
                assert(k == keys@[i as int]);
                if keys@.take(i as int).contains(k) {
                    let a = choose|a: int| 0 <= a < i && #[trigger] keys@.take(i as int)[a] == k;
                    assert(keys@.take(i as int)[a] == keys@[a]);
                    assert(keys@[a] == keys@[i as int]);
                    assert(false);
                }
                assert(keys@.contains(k));
            }
            self.emit(&mut out, Event::FlowDel(k), Vec::new());
            assert forall|x: FiveTuple| #[trigger] is_open(self.log@, x) == (m0@.contains_key(x) && !keys@.take(i + 1).contains(x)) by {
                if keys@.take(i + 1).contains(x) && x != k {
                    let a = choose|a: int| 0 <= a < i + 1 && #[trigger] keys@.take(i + 1)[a] == x;
                    assert(keys@.take(i as int)[a] == x);
                }
                if keys@.take(i as int).contains(x) {
                    let a = choose|a: int| 0 <= a < i && #[trigger] keys@.take(i as int)[a] == x;
                    assert(keys@.take(i + 1)[a] == x);
                }
                assert(keys@.take(i + 1)[i as int] == k);
            }
            i += 1;
        }
        assert(keys@.take(keys.len() as int) == keys@);
        assert forall|k: FiveTuple| events_of(out@).contains(Event::FlowDel(k)) <==> #[trigger] keys@.contains(k) by {
            if events_of(out@).contains(Event::FlowDel(k)) {
                let a = choose|a: int| 0 <= a < out@.len() && events_of(out@)[a] == Event::FlowDel(k);
                assert(out@[a].event == Event::FlowDel(keys@[a]));
            }
            if keys@.contains(k) {
                let a = choose|a: int| 0 <= a < keys@.len() && keys@[a] == k;
                assert(events_of(out@)[a] == Event::FlowDel(k));
            }
        }
        out
    }
}

} // verus!
