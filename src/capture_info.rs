//! Capture metadata: interface descriptions and the statistics gathered
//! while walking the blocks of a capture file (packet and byte counts,
//! first and last timestamps, time order).
use vstd::prelude::*;

verus! {

/// 10 to the power `n`.
pub open spec fn pow10(n: nat) -> nat
    decreases n,
{
    if n == 0 {
        1
    } else {
        10 * pow10((n - 1) as nat)
    }
}

/// Units per second of a pcap-ng `if_tsresol` value: a power of ten up to
/// 10^19; values with the top bit set (powers of two) are refused.
pub open spec fn ts_resolution_of(ts_resol: u8) -> Option<u64> {
    if ts_resol < 128 && ts_resol <= 19 {
        Some(pow10(ts_resol as nat) as u64)
    } else {
        None
    }
}

/// Relies on pcap_parser::build_ts_resolution: for a byte below 128, 10 to
/// that power when it is at most 19; for a byte of 128 or more its check
/// `ts_resol > 63` always holds, so it gives `None`.
#[verifier::external_body]
fn ts_resolution(ts_resol: u8) -> (r: Option<u64>)
    ensures
        r == ts_resolution_of(ts_resol),
{
    pcap_parser::build_ts_resolution(ts_resol)
}

/// Relies on pcap_parser::build_ts: the 64-bit timestamp `ts_high:ts_low`
/// split by `resolution` into seconds (plus `ts_offset`) and a fraction,
/// each cast to `u32`. It divides by `resolution` and adds `ts_offset`
/// unchecked, hence the requirements.
#[verifier::external_body]
fn build_ts(ts_high: u32, ts_low: u32, ts_offset: u64, resolution: u64) -> (r: (u32, u32))
    requires
        resolution > 0,
        ts_offset + (ts_high as nat * 0x1_0000_0000 + ts_low as nat) / (resolution as nat) <= u64::MAX,
    ensures
        r.0 as nat == (ts_offset + (ts_high as nat * 0x1_0000_0000 + ts_low as nat) / (resolution as nat))
            % 0x1_0000_0000,
        r.1 as nat == ((ts_high as nat * 0x1_0000_0000 + ts_low as nat) % (resolution as nat)) % 0x1_0000_0000,
{
    pcap_parser::build_ts(ts_high, ts_low, ts_offset, resolution)
}

/// Option code of the interface time resolution.
pub const OPTION_IF_TSRESOL: u16 = 9;
/// Option code of the interface time offset.
pub const OPTION_IF_TSOFFSET: u16 = 14;

/// Information on a capture interface.
#[derive(Clone, Copy, Debug, PartialEq, Eq, Structural)]
pub struct InterfaceInfo {
    /// Link type of the captured data.
    pub link_type: i32,
    /// Time resolution, as stored (`if_tsresol`).
    pub if_tsresol: u8,
    /// Units per second of the timestamps.
    pub ts_unit: u64,
    /// Seconds added to every timestamp.
    pub if_tsoffset: u64,
    /// Most bytes captured from each packet.
    pub snaplen: u32,
    /// Packets seen on the interface.
    pub num_packets: u64,
    /// Statistics blocks seen for the interface.
    pub num_stats: u64,
}

impl InterfaceInfo {
    /// An interface with every field zero.
    pub fn default() -> (r: InterfaceInfo)
        ensures
            r == (InterfaceInfo {
                link_type: 0,
                if_tsresol: 0,
                ts_unit: 0,
                if_tsoffset: 0,
                snaplen: 0,
                num_packets: 0,
                num_stats: 0,
            }),
    {
        InterfaceInfo {
            link_type: 0,
            if_tsresol: 0,
            ts_unit: 0,
            if_tsoffset: 0,
            snaplen: 0,
            num_packets: 0,
            num_stats: 0,
        }
    }
}

/// Little-endian value of the first eight bytes.
pub open spec fn le_u64_of(s: Seq<u8>) -> nat
    decreases 8nat,
{
    s[0] as nat + 0x100 * (s[1] as nat + 0x100 * (s[2] as nat + 0x100 * (s[3] as nat + 0x100 * (s[4] as nat
        + 0x100 * (s[5] as nat + 0x100 * (s[6] as nat + 0x100 * s[7] as nat))))))
}

fn le_u64(b: &Vec<u8>) -> (r: u64)
    requires
        b@.len() >= 8,
    ensures
        r as nat == le_u64_of(b@),
{
    let mut acc: u64 = b[7] as u64;
    acc = acc * 0x100 + b[6] as u64;
    acc = acc * 0x100 + b[5] as u64;
    acc = acc * 0x100 + b[4] as u64;
    acc = acc * 0x100 + b[3] as u64;
    acc = acc * 0x100 + b[2] as u64;
    acc = acc * 0x100 + b[1] as u64;
    acc = acc * 0x100 + b[0] as u64;
    acc
}

/// One option of an interface description block.
#[derive(Clone, Debug)]
pub struct InterfaceOption {
    pub code: u16,
    pub value: Vec<u8>,
}

/// Settings read from the options, in order: (tsresol, unit, tsoffset).
pub open spec fn interface_settings(opts: Seq<InterfaceOption>) -> (u8, u64, u64)
    decreases opts.len(),
{
    if opts.len() == 0 {
        (6u8, 1_000_000u64, 0u64)
    } else {
        let prev = interface_settings(opts.drop_last());
        let o = opts.last();
        if o.code == OPTION_IF_TSRESOL && o.value@.len() > 0 {
            let r = o.value@[0];
            (r, match ts_resolution_of(r) {
                Some(u) => u,
                None => prev.1,
            }, prev.2)
        } else if o.code == OPTION_IF_TSOFFSET && o.value@.len() >= 8 {
            (prev.0, prev.1, le_u64_of(o.value@) as u64)
        } else {
            prev
        }
    }
}

/// Interface information from an interface description block: its link
/// type and snaplen, with the time resolution (default microseconds) and
/// time offset (default zero) taken from its options, a later option
/// overriding an earlier one.
pub fn pcapng_build_interface(link_type: i32, snaplen: u32, options: &Vec<InterfaceOption>) -> (r: InterfaceInfo)
    ensures
        r.link_type == link_type,
        r.snaplen == snaplen,
        (r.if_tsresol, r.ts_unit, r.if_tsoffset) == interface_settings(options@),
        r.num_packets == 0,
        r.num_stats == 0,
{
    let mut if_tsresol: u8 = 6;
    let mut ts_unit: u64 = 1_000_000;
    let mut if_tsoffset: u64 = 0;
    let mut i: usize = 0;
    while i < options.len()
        invariant
            i <= options.len(),
            (if_tsresol, ts_unit, if_tsoffset) == interface_settings(options@.take(i as int)),
        decreases options.len() - i,
    {
        proof {
            assert(options@.take(i + 1).drop_last() == options@.take(i as int));
            assert(options@.take(i + 1).last() == options@[i as int]);
        }
        let opt = &options[i];
        if opt.code == OPTION_IF_TSRESOL {
            if opt.value.len() > 0 {
                if_tsresol = opt.value[0];
                if let Some(resol) = ts_resolution(if_tsresol) {
                    ts_unit = resol;
                }
            }
        } else if opt.code == OPTION_IF_TSOFFSET {
            if opt.value.len() >= 8 {
                if_tsoffset = le_u64(&opt.value);
            }
        }
        i += 1;
    }
    assert(options@.take(options.len() as int) == options@);
    InterfaceInfo { link_type, if_tsresol, ts_unit, if_tsoffset, snaplen, num_packets: 0, num_stats: 0 }
}

/// Block parsing context.
#[derive(Clone, Copy, Debug, Default)]
pub struct ParseBlockContext {
    /// Index of the current block in the file.
    pub block_index: usize,
}

/// Packet parsing context.
#[derive(Clone, Copy, Debug, Default)]
pub struct ParseContext {
    /// Timestamp (seconds, nanoseconds) of the first packet seen.
    pub first_packet_ts: (i64, i64),
    /// Timestamp of the current packet relative to the first one.
    pub rel_ts: (i64, i64),
    /// Index of the current packet in the file.
    pub pcap_index: usize,
}

/// Kind of capture file.
#[derive(Clone, Copy, Debug, PartialEq, Eq, Structural)]
pub enum FileType {
    Pcap,
    PcapNG,
}

/// Why a block could not be accounted for.
#[derive(Clone, Copy, Debug, PartialEq, Eq, Structural)]
pub enum CaptureError {
    /// The block names an interface that was not described.
    UnknownInterface,
    /// A timestamp fraction is not below one second, or the time unit is zero.
    BadTimestamp,
    /// A timestamp does not fit once its offset is added.
    TimeOverflow,
    /// The captured length exceeds the data of the block.
    BadCaptureLength,
    /// A counter would overflow.
    CounterOverflow,
}

/// Kind of a name resolution record.
#[derive(Clone, Copy, Debug, PartialEq, Eq, Structural)]
pub enum NameRecordKind {
    End,
    Ipv4,
    Ipv6,
    Other(u16),
}

/// Statistics of a capture file.
#[derive(Debug)]
pub struct PcapInfo {
    pub is_pcapng: bool,
    pub version_major: u16,
    pub version_minor: u16,
    pub native_endian: bool,
    pub file_bytes: u64,
    pub data_bytes: u64,
    pub block_index: u64,
    pub packet_index: u64,
    pub first_packet_ts: (i64, i64),
    pub last_packet_ts: (i64, i64),
    pub previous_packet_ts: (i64, i64),
    pub strict_time_order: bool,
    pub num_ipv4_resolved: u64,
    pub num_ipv6_resolved: u64,
    pub num_invalid_records: u64,
    pub num_secrets_blocks: u64,
    pub num_custom_blocks: u64,
    pub interfaces: Vec<InterfaceInfo>,
}

/// Number of records of a kind.
pub open spec fn count_records(records: Seq<NameRecordKind>, kind: spec_fn(NameRecordKind) -> bool) -> nat
    decreases records.len(),
{
    if records.len() == 0 {
        0
    } else {
        count_records(records.drop_last(), kind) + if kind(records.last()) {
            1nat
        } else {
            0nat
        }
    }
}

/// A count, saturated at the largest `u64`.
pub open spec fn saturated(n: int) -> u64 {
    if n <= u64::MAX {
        n as u64
    } else {
        u64::MAX
    }
}

/// Lexicographic order on (seconds, nanoseconds).
pub open spec fn ts_lt(a: (i64, i64), b: (i64, i64)) -> bool {
    a.0 < b.0 || (a.0 == b.0 && a.1 < b.1)
}

fn ts_lt_exec(a: (i64, i64), b: (i64, i64)) -> (r: bool)
    ensures
        r == ts_lt(a, b),
{
    a.0 < b.0 || (a.0 == b.0 && a.1 < b.1)
}

/// Header fields: file type, versions, byte order, sizes and block count.
pub open spec fn header_unchanged(a: PcapInfo, b: PcapInfo) -> bool {
    &&& b.is_pcapng == a.is_pcapng
    &&& b.version_major == a.version_major
    &&& b.version_minor == a.version_minor
    &&& b.native_endian == a.native_endian
    &&& b.file_bytes == a.file_bytes
    &&& b.block_index == a.block_index
}

/// Everything but the packet counts and the times.
pub open spec fn rest_unchanged(a: PcapInfo, b: PcapInfo) -> bool {
    &&& header_unchanged(a, b)
    &&& b.num_ipv4_resolved == a.num_ipv4_resolved
    &&& b.num_ipv6_resolved == a.num_ipv6_resolved
    &&& b.num_invalid_records == a.num_invalid_records
    &&& b.num_secrets_blocks == a.num_secrets_blocks
    &&& b.num_custom_blocks == a.num_custom_blocks
}

/// First, last and previous timestamps and the time order.
pub open spec fn times_unchanged(a: PcapInfo, b: PcapInfo) -> bool {
    &&& b.first_packet_ts == a.first_packet_ts
    &&& b.last_packet_ts == a.last_packet_ts
    &&& b.previous_packet_ts == a.previous_packet_ts
    &&& b.strict_time_order == a.strict_time_order
}

/// Packet count, byte count and interfaces.
pub open spec fn packets_unchanged(a: PcapInfo, b: PcapInfo) -> bool {
    &&& b.packet_index == a.packet_index
    &&& b.data_bytes == a.data_bytes
    &&& b.interfaces@ == a.interfaces@
}

/// The times after recording a packet at `dt`: the first one seen (or any
/// earlier one) is the first timestamp, the latest is the last; a timestamp
/// before the previous or the first one makes the file out of order.
pub open spec fn time_recorded(a: PcapInfo, b: PcapInfo, dt: (i64, i64)) -> bool {
    let first0 = if a.first_packet_ts == (0i64, 0i64) { dt } else { a.first_packet_ts };
    &&& b.strict_time_order == (a.strict_time_order && !ts_lt(dt, a.previous_packet_ts) && !ts_lt(dt, first0))
    &&& b.first_packet_ts == first_after(a.first_packet_ts, dt)
    &&& b.last_packet_ts == last_after(a.last_packet_ts, dt)
    &&& b.previous_packet_ts == dt
}

/// First timestamp after one at `dt`; (0, 0) stands for none yet.
pub open spec fn first_after(first: (i64, i64), dt: (i64, i64)) -> (i64, i64) {
    let first0 = if first == (0i64, 0i64) { dt } else { first };
    if ts_lt(dt, first0) {
        dt
    } else {
        first0
    }
}

/// Last timestamp after one at `dt`.
pub open spec fn last_after(last: (i64, i64), dt: (i64, i64)) -> (i64, i64) {
    if ts_lt(last, dt) {
        dt
    } else {
        last
    }
}

/// First timestamp after recording `ts` in order on fresh statistics.
pub open spec fn first_of(ts: Seq<(i64, i64)>) -> (i64, i64)
    decreases ts.len(),
{
    if ts.len() == 0 {
        (0i64, 0i64)
    } else {
        first_after(first_of(ts.drop_last()), ts.last())
    }
}

/// Last timestamp after recording `ts` in order on fresh statistics.
pub open spec fn last_of(ts: Seq<(i64, i64)>) -> (i64, i64)
    decreases ts.len(),
{
    if ts.len() == 0 {
        (0i64, 0i64)
    } else {
        last_after(last_of(ts.drop_last()), ts.last())
    }
}

/// Two recordings of the same timestamps (all after (0, 0)), in any orders
/// and with any repeats, end with the same first and last timestamps, hence
/// the same capture duration.
pub proof fn lemma_first_last_order_independent(s1: Seq<(i64, i64)>, s2: Seq<(i64, i64)>)
    requires
        s1.len() > 0,
        s1.to_set() == s2.to_set(),
        forall|i: int| 0 <= i < s1.len() ==> ts_lt((0i64, 0i64), #[trigger] s1[i]),
    ensures
        first_of(s1) == first_of(s2),
        last_of(s1) == last_of(s2),
{
    assert(s1.to_set().contains(s1[0]));
    assert(s2.contains(s1[0]));
    assert forall|i: int| 0 <= i < s2.len() implies ts_lt((0i64, 0i64), #[trigger] s2[i]) by {
        assert(s2.to_set().contains(s2[i]));
        assert(s1.contains(s2[i]));
    }
    lemma_first_last_are_min_max(s1);
    lemma_first_last_are_min_max(s2);
    let a = first_of(s1);
    let b = first_of(s2);
    assert(s2.to_set().contains(b));
    let ib = choose|i: int| 0 <= i < s1.len() && s1[i] == b;
    assert(s1.to_set().contains(a));
    let ia = choose|i: int| 0 <= i < s2.len() && s2[i] == a;
    assert(!ts_lt(s1[ib], a) && !ts_lt(s2[ia], b));
    let c = last_of(s1);
    let d = last_of(s2);
    assert(s2.to_set().contains(d));
    let id = choose|i: int| 0 <= i < s1.len() && s1[i] == d;
    assert(s1.to_set().contains(c));
    let ic = choose|i: int| 0 <= i < s2.len() && s2[i] == c;
    assert(!ts_lt(c, s1[id]) && !ts_lt(d, s2[ic]));
}

/// Whatever the order in which packet timestamps (all after (0, 0)) are
/// recorded, and however many are repeated, the first timestamp is the
/// earliest of them and the last timestamp the latest.
pub proof fn lemma_first_last_are_min_max(ts: Seq<(i64, i64)>)
    requires
        ts.len() > 0,
        forall|i: int| 0 <= i < ts.len() ==> ts_lt((0i64, 0i64), #[trigger] ts[i]),
    ensures
        ts.contains(first_of(ts)),
        forall|i: int| 0 <= i < ts.len() ==> !ts_lt(#[trigger] ts[i], first_of(ts)),
        ts.contains(last_of(ts)),
        forall|i: int| 0 <= i < ts.len() ==> !ts_lt(last_of(ts), #[trigger] ts[i]),
    decreases ts.len(),
{
    let p = ts.drop_last();
    let x = ts.last();
    assert(ts[ts.len() - 1] == x);
    if p.len() == 0 {
        assert(first_of(p) == (0i64, 0i64));
        assert(last_of(p) == (0i64, 0i64));
        assert forall|i: int| 0 <= i < ts.len() implies !ts_lt(#[trigger] ts[i], first_of(ts)) && !ts_lt(last_of(ts), ts[i]) by {
            assert(i == 0);
        }
    } else {
        assert forall|i: int| 0 <= i < p.len() implies ts_lt((0i64, 0i64), #[trigger] p[i]) by {
            assert(p[i] == ts[i]);
        }
        lemma_first_last_are_min_max(p);
        let f = first_of(p);
        let l = last_of(p);
        let jf = choose|j: int| 0 <= j < p.len() && p[j] == f;
        assert(ts_lt((0i64, 0i64), p[jf]));
        let jl = choose|j: int| 0 <= j < p.len() && p[j] == l;
        assert(ts_lt((0i64, 0i64), p[jl]));
        assert forall|i: int| 0 <= i < ts.len() implies !ts_lt(#[trigger] ts[i], first_of(ts)) && !ts_lt(last_of(ts), ts[i]) by {
            if i < p.len() {
                assert(ts[i] == p[i]);
            }
        }
        if ts_lt(x, f) {
            assert(ts[ts.len() - 1] == first_of(ts));
        } else {
            assert(ts[jf] == first_of(ts));
        }
        if ts_lt(l, x) {
            assert(ts[ts.len() - 1] == last_of(ts));
        } else {
            assert(ts[jl] == last_of(ts));
        }
    }
}

/// One more packet of `len` bytes on interface `if_id` fits the counters.
pub open spec fn can_count(a: PcapInfo, if_id: int, len: int) -> bool {
    &&& a.interfaces@[if_id].num_packets < u64::MAX
    &&& a.packet_index < u64::MAX
    &&& a.data_bytes + len <= u64::MAX
}

/// One more packet of `len` bytes was counted on interface `if_id`.
pub open spec fn packet_counted(a: PcapInfo, b: PcapInfo, if_id: int, len: int) -> bool {
    &&& b.packet_index == a.packet_index + 1
    &&& b.data_bytes == a.data_bytes + len
    &&& b.interfaces@ == a.interfaces@.update(
        if_id,
        InterfaceInfo { num_packets: (a.interfaces@[if_id].num_packets + 1) as u64, ..a.interfaces@[if_id] },
    )
}

/// Nanoseconds of a legacy packet's fraction.
pub open spec fn legacy_nanos(a: PcapInfo, ts_frac: u32) -> int {
    if a.interfaces@[0].if_tsresol == 6 {
        ts_frac as int * 1000
    } else {
        ts_frac as int
    }
}

/// A legacy packet can be accounted for.
pub open spec fn legacy_ok(a: PcapInfo, ts_sec: u32, ts_frac: u32, caplen: u32, data_len: usize) -> bool {
    let info = a.interfaces@[0];
    &&& caplen <= data_len
    &&& (if info.if_tsresol == 6 { ts_frac < 1_000_000 } else { ts_frac < 1_000_000_000 })
    &&& info.if_tsoffset <= i64::MAX
    &&& ts_sec + info.if_tsoffset <= i64::MAX
    &&& can_count(a, 0, caplen as int)
}

/// The 64-bit timestamp of an enhanced packet block.
pub open spec fn epb_ts(ts_high: u32, ts_low: u32) -> nat {
    ts_high as nat * 0x1_0000_0000 + ts_low as nat
}

/// Seconds of an enhanced packet's timestamp, as split by the time library
/// (offset added, cast to 32 bits).
pub open spec fn epb_seconds(info: InterfaceInfo, ts_high: u32, ts_low: u32) -> nat {
    ((info.if_tsoffset + epb_ts(ts_high, ts_low) / (info.ts_unit as nat)) % 0x1_0000_0000) as nat
}

/// Nanoseconds of an enhanced packet's timestamp.
pub open spec fn epb_nanos(info: InterfaceInfo, ts_high: u32, ts_low: u32) -> nat {
    fraction_nanos((epb_ts(ts_high, ts_low) % (info.ts_unit as nat)) % 0x1_0000_0000, info.ts_unit as nat)
}

/// An enhanced packet block can be accounted for.
pub open spec fn enhanced_ok(a: PcapInfo, if_id: u32, ts_high: u32, ts_low: u32, caplen: u32, data_len: usize) -> bool {
    let info = a.interfaces@[if_id as int];
    &&& if_id < a.interfaces@.len()
    &&& info.ts_unit > 0
    &&& epb_ts(ts_high, ts_low) / (info.ts_unit as nat) <= u64::MAX - info.if_tsoffset
    &&& epb_nanos(info, ts_high, ts_low) < 1_000_000_000
    &&& caplen <= data_len
    &&& info.if_tsoffset <= i64::MAX
    &&& epb_seconds(info, ts_high, ts_low) + info.if_tsoffset <= i64::MAX
    &&& can_count(a, if_id as int, caplen as int)
}

/// Bytes of a simple packet that count: at most the first interface's snaplen.
pub open spec fn simple_len(a: PcapInfo, data_len: usize) -> int {
    if (a.interfaces@[0].snaplen as int) < data_len as int {
        a.interfaces@[0].snaplen as int
    } else {
        data_len as int
    }
}

/// Nanoseconds of a fraction counted in `unit` parts of a second.
pub open spec fn fraction_nanos(frac: nat, unit: nat) -> nat {
    if unit == 1_000_000 {
        frac * 1000
    } else if unit == 1_000_000_000 {
        frac
    } else {
        (frac * 1_000_000_000) / unit
    }
}

impl PcapInfo {
    /// Statistics of a file not yet read.
    pub fn new() -> (r: PcapInfo)
        ensures
            r.interfaces@.len() == 0,
            r.strict_time_order,
            r.packet_index == 0,
            r.first_packet_ts == (0i64, 0i64),
            r.last_packet_ts == (0i64, 0i64),
            r.previous_packet_ts == (0i64, 0i64),
            r.data_bytes == 0,
            r.block_index == 0,
    {
        PcapInfo {
            is_pcapng: false,
            version_major: 0,
            version_minor: 0,
            native_endian: false,
            file_bytes: 0,
            data_bytes: 0,
            block_index: 0,
            packet_index: 0,
            first_packet_ts: (0, 0),
            last_packet_ts: (0, 0),
            previous_packet_ts: (0, 0),
            strict_time_order: true,
            num_ipv4_resolved: 0,
            num_ipv6_resolved: 0,
            num_invalid_records: 0,
            num_secrets_blocks: 0,
            num_custom_blocks: 0,
            interfaces: Vec::new(),
        }
    }

    pub fn file_type(&self) -> (r: FileType)
        ensures
            r == (if self.is_pcapng { FileType::PcapNG } else { FileType::Pcap }),
    {
        if self.is_pcapng {
            FileType::PcapNG
        } else {
            FileType::Pcap
        }
    }

    /// Record a packet timestamp: the first one seen (or any earlier one) is
    /// the first timestamp, the latest is the last; a timestamp before the
    /// previous one makes the file out of order.
    pub fn update_time(&mut self, ts_sec: i64, ts_nanosec: i64)
        ensures
            time_recorded(*old(self), *final(self), (ts_sec, ts_nanosec)),
            packets_unchanged(*old(self), *final(self)),
            rest_unchanged(*old(self), *final(self)),
    {
        let dt = (ts_sec, ts_nanosec);
        if self.first_packet_ts.0 == 0 && self.first_packet_ts.1 == 0 {
            self.first_packet_ts = dt;
        }
        if ts_lt_exec(dt, self.previous_packet_ts) {
            self.strict_time_order = false;
        }
        if ts_lt_exec(dt, self.first_packet_ts) {
            self.strict_time_order = false;
            self.first_packet_ts = dt;
        }
        if ts_lt_exec(self.last_packet_ts, dt) {
            self.last_packet_ts = dt;
        }
        self.previous_packet_ts = dt;
    }

    /// Describe one more interface.
    pub fn add_interface(&mut self, info: InterfaceInfo)
        ensures
            final(self).interfaces@ == old(self).interfaces@.push(info),
            final(self).packet_index == old(self).packet_index,
            final(self).data_bytes == old(self).data_bytes,
            times_unchanged(*old(self), *final(self)),
            rest_unchanged(*old(self), *final(self)),
    {
        self.interfaces.push(info);
    }

    fn count_packet(&mut self, if_id: usize, data_len: u64) -> (r: Result<(), CaptureError>)
        requires
            if_id < old(self).interfaces@.len(),
        ensures
            r is Ok <==> can_count(*old(self), if_id as int, data_len as int),
            r is Ok ==> packet_counted(*old(self), *final(self), if_id as int, data_len as int),
            r is Ok ==> times_unchanged(*old(self), *final(self)) && rest_unchanged(*old(self), *final(self)),
            r is Err ==> r == Err::<(), CaptureError>(CaptureError::CounterOverflow) && *final(self) == *old(self),
    {
        let info = self.interfaces[if_id];
        if info.num_packets == u64::MAX || self.packet_index == u64::MAX || data_len > u64::MAX - self.data_bytes {
            return Err(CaptureError::CounterOverflow);
        }
        self.interfaces.set(if_id, InterfaceInfo { num_packets: info.num_packets + 1, ..info });
        self.packet_index = self.packet_index + 1;
        self.data_bytes = self.data_bytes + data_len;
        Ok(())
    }

    /// Account for a packet of a legacy pcap file, on the interface of the
    /// file header: its timestamp (microseconds unless the resolution is
    /// nanoseconds) shifted by the interface offset, and its captured length.
    pub fn record_legacy_packet(&mut self, ts_sec: u32, ts_frac: u32, caplen: u32, data_len: usize) -> (r: Result<
        (),
        CaptureError,
    >)
        requires
            old(self).interfaces@.len() > 0,
        ensures
            r is Ok <==> legacy_ok(*old(self), ts_sec, ts_frac, caplen, data_len),
            r is Ok ==> packet_counted(*old(self), *final(self), 0, caplen as int),
            r is Ok ==> time_recorded(
                *old(self),
                *final(self),
                ((ts_sec + old(self).interfaces@[0].if_tsoffset) as i64, legacy_nanos(*old(self), ts_frac) as i64),
            ),
            r is Ok ==> rest_unchanged(*old(self), *final(self)),
            r is Err ==> *final(self) == *old(self),
            (caplen as int > data_len as int) ==> r == Err::<(), CaptureError>(CaptureError::BadCaptureLength),
    {
        if caplen as usize > data_len {
            return Err(CaptureError::BadCaptureLength);
        }
        let info = self.interfaces[0];
        let nanos: i64 = if info.if_tsresol == 6 {
            if ts_frac >= 1_000_000 {
                return Err(CaptureError::BadTimestamp);
            }
            ts_frac as i64 * 1000
        } else {
            if ts_frac >= 1_000_000_000 {
                return Err(CaptureError::BadTimestamp);
            }
            ts_frac as i64
        };
        if info.if_tsoffset > i64::MAX as u64 {
            return Err(CaptureError::TimeOverflow);
        }
        let tz = info.if_tsoffset as i64;
        if tz > 0 && tz > i64::MAX - ts_sec as i64 {
            return Err(CaptureError::TimeOverflow);
        }
        let sec = ts_sec as i64 + tz;
        match self.count_packet(0, caplen as u64) {
            Ok(()) => {},
            Err(e) => return Err(e),
        }
        self.update_time(sec, nanos);
        Ok(())
    }

    /// Account for an enhanced packet block of interface `if_id`: its
    /// timestamp in the interface's units, shifted by the interface offset,
    /// and its captured length.
    pub fn record_enhanced_packet(
        &mut self,
        if_id: u32,
        ts_high: u32,
        ts_low: u32,
        caplen: u32,
        data_len: usize,
    ) -> (r: Result<(), CaptureError>)
        ensures
            r is Ok <==> enhanced_ok(*old(self), if_id, ts_high, ts_low, caplen, data_len),
            if_id as int >= old(self).interfaces@.len() ==> r == Err::<(), CaptureError>(
                CaptureError::UnknownInterface,
            ),
            r is Ok ==> packet_counted(*old(self), *final(self), if_id as int, caplen as int),
            r is Ok ==> {
                let info = old(self).interfaces@[if_id as int];
                time_recorded(
                    *old(self),
                    *final(self),
                    (
                        (epb_seconds(info, ts_high, ts_low) + info.if_tsoffset) as i64,
                        epb_nanos(info, ts_high, ts_low) as i64,
                    ),
                )
            },
            r is Ok ==> rest_unchanged(*old(self), *final(self)),
            r is Err ==> *final(self) == *old(self),
    {
        if if_id as usize >= self.interfaces.len() {
            return Err(CaptureError::UnknownInterface);
        }
        let info = self.interfaces[if_id as usize];
        let unit = info.ts_unit;
        if unit == 0 {
            return Err(CaptureError::BadTimestamp);
        }
        let ts: u64 = (ts_high as u64) * 0x1_0000_0000 + ts_low as u64;
        if ts / unit > u64::MAX - info.if_tsoffset {
            return Err(CaptureError::TimeOverflow);
        }
        let (ts_sec, ts_frac) = build_ts(ts_high, ts_low, info.if_tsoffset, unit);
        let frac = ts_frac as u64;
        let nanos: u64 = if unit == 1_000_000 {
            frac * 1000
        } else if unit == 1_000_000_000 {
            frac
        } else {
            (frac * 1_000_000_000) / unit
        };
        if nanos >= 1_000_000_000 {
            return Err(CaptureError::BadTimestamp);
        }
        if caplen as usize > data_len {
            return Err(CaptureError::BadCaptureLength);
        }
        if info.if_tsoffset > i64::MAX as u64 {
            return Err(CaptureError::TimeOverflow);
        }
        let tz = info.if_tsoffset as i64;
        if tz > 0 && tz > i64::MAX - ts_sec as i64 {
            return Err(CaptureError::TimeOverflow);
        }
        let sec = ts_sec as i64 + tz;
        match self.count_packet(if_id as usize, caplen as u64) {
            Ok(()) => {},
            Err(e) => return Err(e),
        }
        self.update_time(sec, nanos as i64);
        Ok(())
    }

    /// Account for a simple packet block, on the first interface: at most
    /// snaplen bytes of its data count.
    pub fn record_simple_packet(&mut self, data_len: usize) -> (r: Result<(), CaptureError>)
        ensures
            r is Ok <==> old(self).interfaces@.len() > 0 && can_count(*old(self), 0, simple_len(*old(self), data_len)),
            old(self).interfaces@.len() == 0 ==> r == Err::<(), CaptureError>(CaptureError::UnknownInterface),
            r is Ok ==> packet_counted(*old(self), *final(self), 0, simple_len(*old(self), data_len)),
            r is Ok ==> times_unchanged(*old(self), *final(self)) && rest_unchanged(*old(self), *final(self)),
            r is Err ==> *final(self) == *old(self),
    {
        if self.interfaces.len() == 0 {
            return Err(CaptureError::UnknownInterface);
        }
        let snaplen = self.interfaces[0].snaplen as usize;
        let counted = if snaplen < data_len {
            snaplen
        } else {
            data_len
        };
        self.count_packet(0, counted as u64)
    }

    /// Account for the records of a name resolution block (counters
    /// saturate at their maximum).
    pub fn record_name_records(&mut self, records: &Vec<NameRecordKind>)
        ensures
            packets_unchanged(*old(self), *final(self)),
            times_unchanged(*old(self), *final(self)),
            header_unchanged(*old(self), *final(self)),
            final(self).num_secrets_blocks == old(self).num_secrets_blocks,
            final(self).num_custom_blocks == old(self).num_custom_blocks,
            final(self).num_ipv4_resolved == saturated(
                old(self).num_ipv4_resolved + count_records(records@, |k: NameRecordKind| k is Ipv4),
            ),
            final(self).num_ipv6_resolved == saturated(
                old(self).num_ipv6_resolved + count_records(records@, |k: NameRecordKind| k is Ipv6),
            ),
            final(self).num_invalid_records == saturated(
                old(self).num_invalid_records + count_records(records@, |k: NameRecordKind| k is Other),
            ),
    {
        let ghost is4 = |k: NameRecordKind| k is Ipv4;
        let ghost is6 = |k: NameRecordKind| k is Ipv6;
        let ghost isother = |k: NameRecordKind| k is Other;
        let mut i: usize = 0;
        while i < records.len()
            invariant
                i <= records.len(),
                packets_unchanged(*old(self), *self),
                times_unchanged(*old(self), *self),
                header_unchanged(*old(self), *self),
                self.num_secrets_blocks == old(self).num_secrets_blocks,
                self.num_custom_blocks == old(self).num_custom_blocks,
                is4 == (|k: NameRecordKind| k is Ipv4),
                is6 == (|k: NameRecordKind| k is Ipv6),
                isother == (|k: NameRecordKind| k is Other),
                self.num_ipv4_resolved == saturated(
                    old(self).num_ipv4_resolved + count_records(records@.take(i as int), is4),
                ),
                self.num_ipv6_resolved == saturated(
                    old(self).num_ipv6_resolved + count_records(records@.take(i as int), is6),
                ),
                self.num_invalid_records == saturated(
                    old(self).num_invalid_records + count_records(records@.take(i as int), isother),
                ),
            decreases records.len() - i,
        {
            proof {
                assert(records@.take(i + 1).drop_last() == records@.take(i as int));
                assert(records@.take(i + 1).last() == records@[i as int]);
            }
            match records[i] {
                NameRecordKind::End => {},
                NameRecordKind::Ipv4 => {
                    if self.num_ipv4_resolved < u64::MAX {
                        self.num_ipv4_resolved = self.num_ipv4_resolved + 1;
                    }
                },
                NameRecordKind::Ipv6 => {
                    if self.num_ipv6_resolved < u64::MAX {
                        self.num_ipv6_resolved = self.num_ipv6_resolved + 1;
                    }
                },
                NameRecordKind::Other(_) => {
                    if self.num_invalid_records < u64::MAX {
                        self.num_invalid_records = self.num_invalid_records + 1;
                    }
                },
            }
            i += 1;
        }
        assert(records@.take(records.len() as int) == records@);
    }

    /// Account for an interface statistics block of interface `if_id`.
    pub fn record_interface_statistics(&mut self, if_id: u32) -> (r: Result<(), CaptureError>)
        ensures
            r is Ok <==> (if_id as int) < old(self).interfaces@.len() && old(self).interfaces@[if_id as int].num_stats
                < u64::MAX,
            if_id as int >= old(self).interfaces@.len() ==> r == Err::<(), CaptureError>(
                CaptureError::UnknownInterface,
            ),
            r is Ok ==> final(self).interfaces@ == old(self).interfaces@.update(
                if_id as int,
                InterfaceInfo {
                    num_stats: (old(self).interfaces@[if_id as int].num_stats + 1) as u64,
                    ..old(self).interfaces@[if_id as int]
                },
            ),
            final(self).packet_index == old(self).packet_index,
            final(self).data_bytes == old(self).data_bytes,
            times_unchanged(*old(self), *final(self)),
            rest_unchanged(*old(self), *final(self)),
            r is Err ==> *final(self) == *old(self),
    {
        if if_id as usize >= self.interfaces.len() {
            return Err(CaptureError::UnknownInterface);
        }
        let info = self.interfaces[if_id as usize];
        if info.num_stats == u64::MAX {
            return Err(CaptureError::CounterOverflow);
        }
        self.interfaces.set(if_id as usize, InterfaceInfo { num_stats: info.num_stats + 1, ..info });
        Ok(())
    }

    /// Account for a decryption secrets block.
    pub fn record_secrets(&mut self)
        ensures
            final(self).num_secrets_blocks == (if old(self).num_secrets_blocks < u64::MAX {
                old(self).num_secrets_blocks + 1
            } else {
                old(self).num_secrets_blocks as int
            }),
            final(self).num_custom_blocks == old(self).num_custom_blocks,
            final(self).num_ipv4_resolved == old(self).num_ipv4_resolved,
            final(self).num_ipv6_resolved == old(self).num_ipv6_resolved,
            final(self).num_invalid_records == old(self).num_invalid_records,
            header_unchanged(*old(self), *final(self)),
            packets_unchanged(*old(self), *final(self)),
            times_unchanged(*old(self), *final(self)),
    {
        if self.num_secrets_blocks < u64::MAX {
            self.num_secrets_blocks = self.num_secrets_blocks + 1;
        }
    }

    /// Account for a custom block.
    pub fn record_custom(&mut self)
        ensures
            final(self).num_custom_blocks == (if old(self).num_custom_blocks < u64::MAX {
                old(self).num_custom_blocks + 1
            } else {
                old(self).num_custom_blocks as int
            }),
            final(self).num_secrets_blocks == old(self).num_secrets_blocks,
            final(self).num_ipv4_resolved == old(self).num_ipv4_resolved,
            final(self).num_ipv6_resolved == old(self).num_ipv6_resolved,
            final(self).num_invalid_records == old(self).num_invalid_records,
            header_unchanged(*old(self), *final(self)),
            packets_unchanged(*old(self), *final(self)),
            times_unchanged(*old(self), *final(self)),
    {
        if self.num_custom_blocks < u64::MAX {
            self.num_custom_blocks = self.num_custom_blocks + 1;
        }
    }

    /// Time from the first to the last packet, in nanoseconds.
    pub fn capture_duration_nanos(&self) -> (r: i128)
        ensures
            r == (self.last_packet_ts.0 as int - self.first_packet_ts.0 as int) * 1_000_000_000
                + (self.last_packet_ts.1 as int - self.first_packet_ts.1 as int),
    {
        let secs = self.last_packet_ts.0 as i128 - self.first_packet_ts.0 as i128;
        let nanos = self.last_packet_ts.1 as i128 - self.first_packet_ts.1 as i128;
        assert(-0x1_0000_0000_0000_0000 <= secs <= 0x1_0000_0000_0000_0000);
        assert(secs * 1_000_000_000 <= 0x1_0000_0000_0000_0000 * 1_000_000_000) by (nonlinear_arith)
            requires
                secs <= 0x1_0000_0000_0000_0000,
        ;
        assert(secs * 1_000_000_000 >= -0x1_0000_0000_0000_0000 * 1_000_000_000) by (nonlinear_arith)
            requires
                secs >= -0x1_0000_0000_0000_0000,
        ;
        secs * 1_000_000_000 + nanos
    }
}

} // verus!
