//! Layer decoding: starting at the link layer, each header names the next
//! one (EtherType, IP protocol, UDP port, tunnel protocol type). Tunnels
//! (VLAN, MPLS label stacks, VXLAN, GENEVE) are stripped and decoding goes on
//! with the inner frame. A header that does not fit stops decoding and marks
//! the packet as truncated; the layers found so far are kept.
use vstd::prelude::*;

use crate::five_tuple::{FiveTuple, IpAddress};
use crate::geneve::{be16, geneve_payload_start, payload_start};

verus! {

/// Most layers decoded from one frame; it also bounds MPLS label stacks.
pub const MAX_LAYERS: usize = 16;

pub const ETHERTYPE_IPV4: u16 = 0x0800;
pub const ETHERTYPE_IPV6: u16 = 0x86DD;
pub const ETHERTYPE_VLAN: u16 = 0x8100;
pub const ETHERTYPE_QINQ: u16 = 0x88A8;
pub const ETHERTYPE_MPLS: u16 = 0x8847;
pub const ETHERTYPE_TEB: u16 = 0x6558;
pub const IPPROTO_TCP: u8 = 6;
pub const IPPROTO_UDP: u8 = 17;
pub const VXLAN_PORT: u16 = 4789;
pub const GENEVE_PORT: u16 = 6081;

#[derive(Clone, Copy, Debug, PartialEq, Eq, Hash, Structural)]
pub enum LayerType {
    Ethernet,
    Vlan,
    Mpls,
    Ipv4,
    Ipv6,
    Udp,
    Tcp,
    Vxlan,
    Geneve,
}

/// A decoded header: its kind, where it starts, and its length.
#[derive(Clone, Copy, Debug, PartialEq, Eq, Structural)]
pub struct Layer {
    pub kind: LayerType,
    pub offset: usize,
    pub len: usize,
}

/// Layer that an EtherType announces.
pub open spec fn by_ethertype(t: nat) -> Option<LayerType> {
    if t == ETHERTYPE_IPV4 {
        Some(LayerType::Ipv4)
    } else if t == ETHERTYPE_IPV6 {
        Some(LayerType::Ipv6)
    } else if t == ETHERTYPE_VLAN || t == ETHERTYPE_QINQ {
        Some(LayerType::Vlan)
    } else if t == ETHERTYPE_MPLS {
        Some(LayerType::Mpls)
    } else {
        None
    }
}

/// Layer that an IP protocol number announces.
pub open spec fn by_protocol(p: u8) -> Option<LayerType> {
    if p == IPPROTO_TCP {
        Some(LayerType::Tcp)
    } else if p == IPPROTO_UDP {
        Some(LayerType::Udp)
    } else {
        None
    }
}

/// Layer that a UDP destination port announces.
pub open spec fn by_udp_port(port: nat) -> Option<LayerType> {
    if port == VXLAN_PORT {
        Some(LayerType::Vxlan)
    } else if port == GENEVE_PORT {
        Some(LayerType::Geneve)
    } else {
        None
    }
}

/// Layer after the bottom MPLS label: IP, by the version nibble.
pub open spec fn by_version(f: Seq<u8>, i: int) -> Option<LayerType> {
    if i < f.len() && f[i] / 16 == 4 {
        Some(LayerType::Ipv4)
    } else if i < f.len() && f[i] / 16 == 6 {
        Some(LayerType::Ipv6)
    } else {
        None
    }
}

/// The IPv4 header at `off` belongs to a fragment (more-fragments flag set or
/// non-zero fragment offset).
pub open spec fn ipv4_is_fragment(f: Seq<u8>, off: int) -> bool {
    be16(f, off + 6) % 0x4000 != 0
}

/// Decoding one header of kind `kind` at `off`: its length and the next
/// layer's kind, or `None` when it does not fit or is malformed.
pub open spec fn step(f: Seq<u8>, kind: LayerType, off: nat) -> Option<(nat, Option<LayerType>)> {
    let rem = f.len() - off;
    let o = off as int;
    match kind {
        LayerType::Ethernet => if rem >= 14 {
            Some((14nat, by_ethertype(be16(f, o + 12))))
        } else {
            None
        },
        LayerType::Vlan => if rem >= 4 {
            Some((4nat, by_ethertype(be16(f, o + 2))))
        } else {
            None
        },
        LayerType::Mpls => if rem >= 4 {
            Some((4nat, if f[o + 2] % 2 == 1 { by_version(f, o + 4) } else { Some(LayerType::Mpls) }))
        } else {
            None
        },
        LayerType::Ipv4 => {
            let ihl = (f[o] % 16) as nat * 4;
            if rem >= 20 && f[o] / 16 == 4 && ihl >= 20 && ihl <= rem {
                Some((ihl, if ipv4_is_fragment(f, o) { None } else { by_protocol(f[o + 9]) }))
            } else {
                None
            }
        },
        LayerType::Ipv6 => if rem >= 40 && f[o] / 16 == 6 {
            Some((40nat, by_protocol(f[o + 6])))
        } else {
            None
        },
        LayerType::Udp => if rem >= 8 {
            Some((8nat, by_udp_port(be16(f, o + 2))))
        } else {
            None
        },
        LayerType::Tcp => {
            let doff = (f[o + 12] / 16) as nat * 4;
            if rem >= 20 && doff >= 20 && doff <= rem {
                Some((doff, None))
            } else {
                None
            }
        },
        LayerType::Vxlan => if rem >= 8 {
            Some((8nat, Some(LayerType::Ethernet)))
        } else {
            None
        },
        LayerType::Geneve => if rem >= 8 {
            let t = be16(f, o + 2);
            Some((
                geneve_payload_start(f.skip(o)),
                if t == ETHERTYPE_TEB { Some(LayerType::Ethernet) } else { by_ethertype(t) },
            ))
        } else {
            None
        },
    }
}

/// Layers decoded from `off` on, starting with a header of kind `kind`, with
/// at most `fuel` layers; the flag tells whether a header did not fit.
pub open spec fn decode_from(f: Seq<u8>, kind: LayerType, off: nat, fuel: nat) -> (Seq<Layer>, bool)
    decreases fuel,
{
    if fuel == 0 || off > f.len() {
        (seq![], false)
    } else {
        match step(f, kind, off) {
            None => (seq![], true),
            Some((len, next)) => {
                let l = Layer { kind, offset: off as usize, len: len as usize };
                match next {
                    None => (seq![l], false),
                    Some(k) => {
                        let rest = decode_from(f, k, off + len, (fuel - 1) as nat);
                        (seq![l] + rest.0, rest.1)
                    },
                }
            },
        }
    }
}

/// Big-endian 16-bit value at `i`.
pub fn be16_at(f: &[u8], i: usize) -> (r: u16)
    requires
        i + 1 < f@.len(),
    ensures
        r == be16(f@, i as int),
{
    (f[i] as u16) * 256 + f[i + 1] as u16
}

fn by_ethertype_exec(t: u16) -> (r: Option<LayerType>)
    ensures
        r == by_ethertype(t as nat),
{
    if t == ETHERTYPE_IPV4 {
        Some(LayerType::Ipv4)
    } else if t == ETHERTYPE_IPV6 {
        Some(LayerType::Ipv6)
    } else if t == ETHERTYPE_VLAN || t == ETHERTYPE_QINQ {
        Some(LayerType::Vlan)
    } else if t == ETHERTYPE_MPLS {
        Some(LayerType::Mpls)
    } else {
        None
    }
}

/// Layer that an IP protocol number announces.
pub fn by_protocol_exec(p: u8) -> (r: Option<LayerType>)
    ensures
        r == by_protocol(p),
{
    if p == IPPROTO_TCP {
        Some(LayerType::Tcp)
    } else if p == IPPROTO_UDP {
        Some(LayerType::Udp)
    } else {
        None
    }
}

fn step_exec(f: &[u8], kind: LayerType, off: usize) -> (r: Option<(usize, Option<LayerType>)>)
    requires
        off <= f@.len(),
    ensures
        match r {
            Some((len, next)) => step(f@, kind, off as nat) == Some((len as nat, next)) && off + len <= f@.len(),
            None => step(f@, kind, off as nat) is None,
        },
{
    let rem = f.len() - off;
    match kind {
        LayerType::Ethernet => if rem >= 14 {
            Some((14, by_ethertype_exec(be16_at(f, off + 12))))
        } else {
            None
        },
        LayerType::Vlan => if rem >= 4 {
            Some((4, by_ethertype_exec(be16_at(f, off + 2))))
        } else {
            None
        },
        LayerType::Mpls => if rem >= 4 {
            let next = if f[off + 2] % 2 == 1 {
                if rem > 4 && f[off + 4] / 16 == 4 {
                    Some(LayerType::Ipv4)
                } else if rem > 4 && f[off + 4] / 16 == 6 {
                    Some(LayerType::Ipv6)
                } else {
                    None
                }
            } else {
                Some(LayerType::Mpls)
            };
            Some((4, next))
        } else {
            None
        },
        LayerType::Ipv4 => {
            if rem < 20 {
                return None;
            }
            let ihl: usize = (f[off] % 16) as usize * 4;
            if f[off] / 16 == 4 && ihl >= 20 && ihl <= rem {
                let next = if be16_at(f, off + 6) % 0x4000 != 0 {
                    None
                } else {
                    by_protocol_exec(f[off + 9])
                };
                Some((ihl, next))
            } else {
                None
            }
        },
        LayerType::Ipv6 => if rem >= 40 && f[off] / 16 == 6 {
            Some((40, by_protocol_exec(f[off + 6])))
        } else {
            None
        },
        LayerType::Udp => if rem >= 8 {
            let port = be16_at(f, off + 2);
            let next = if port == VXLAN_PORT {
                Some(LayerType::Vxlan)
            } else if port == GENEVE_PORT {
                Some(LayerType::Geneve)
            } else {
                None
            };
            Some((8, next))
        } else {
            None
        },
        LayerType::Tcp => {
            if rem < 20 {
                return None;
            }
            let doff: usize = (f[off + 12] / 16) as usize * 4;
            if doff >= 20 && doff <= rem {
                Some((doff, None))
            } else {
                None
            }
        },
        LayerType::Vxlan => if rem >= 8 {
            Some((8, Some(LayerType::Ethernet)))
        } else {
            None
        },
        LayerType::Geneve => if rem >= 8 {
            let inner = vstd::slice::slice_subrange(f, off, f.len());
            assert(inner@ == f@.skip(off as int));
            let t = be16_at(f, off + 2);
            let next = if t == ETHERTYPE_TEB {
                Some(LayerType::Ethernet)
            } else {
                by_ethertype_exec(t)
            };
            Some((payload_start(inner), next))
        } else {
            None
        },
    }
}

/// Decode the layers of `f` from `off` on, starting with a header of kind
/// `kind`, up to `MAX_LAYERS` layers. Returns the layers in encounter order
/// and whether a header did not fit.
pub fn decode_layers(f: &[u8], kind: LayerType, off: usize) -> (r: (Vec<Layer>, bool))
    requires
        off <= f@.len(),
    ensures
        (r.0@, r.1) == decode_from(f@, kind, off as nat, MAX_LAYERS as nat),
        layers_in_frame(f@, r.0@),
{
    let r = decode_walk(f, kind, off);
    proof {
        lemma_decode_in_frame(f@, kind, off as nat, MAX_LAYERS as nat);
        assert(r.0@ == decode_from(f@, kind, off as nat, MAX_LAYERS as nat).0);
    }
    r
}

fn decode_walk(f: &[u8], kind: LayerType, off: usize) -> (r: (Vec<Layer>, bool))
    requires
        off <= f@.len(),
    ensures
        (r.0@, r.1) == decode_from(f@, kind, off as nat, MAX_LAYERS as nat),
{
    let mut layers: Vec<Layer> = Vec::new();
    let mut cur = kind;
    let mut pos = off;
    let mut fuel: usize = MAX_LAYERS;
    let flen = f.len();
    loop
        invariant
            flen == f@.len(),
            pos <= f@.len(),
            ({
                let rest = decode_from(f@, cur, pos as nat, fuel as nat);
                (layers@ + rest.0, rest.1) == decode_from(f@, kind, off as nat, MAX_LAYERS as nat)
            }),
        decreases fuel,
    {
        if fuel == 0 {
            assert(layers@ + seq![] =~= layers@);
            return (layers, false);
        }
        match step_exec(f, cur, pos) {
            None => {
                assert(layers@ + seq![] =~= layers@);
                return (layers, true);
            },
            Some((len, next)) => {
                let l = Layer { kind: cur, offset: pos, len };
                let ghost before = layers@;
                layers.push(l);
                match next {
                    None => {
                        assert(before + seq![l] =~= layers@);
                        return (layers, false);
                    },
                    Some(k) => {
                        let ghost rest = decode_from(f@, k, (pos + len) as nat, (fuel - 1) as nat);
                        assert(before + (seq![l] + rest.0) =~= layers@ + rest.0);
                        cur = k;
                        pos = pos + len;
                        fuel = fuel - 1;
                    },
                }
            },
        }
    }
}


/// Unsigned big-endian value of a byte string.
pub open spec fn be_value(s: Seq<u8>) -> nat
    decreases s.len(),
{
    if s.len() == 0 {
        0
    } else {
        be_value(s.drop_last()) * 256 + s.last() as nat
    }
}

pub open spec fn pow256(n: nat) -> nat
    decreases n,
{
    if n == 0 {
        1
    } else {
        pow256((n - 1) as nat) * 256
    }
}

proof fn lemma_pow256_mono(a: nat, b: nat)
    requires
        a <= b,
    ensures
        pow256(a) <= pow256(b),
    decreases b - a,
{
    if a < b {
        lemma_pow256_mono(a, (b - 1) as nat);
    }
}

/// Big-endian value of `n` bytes at `i` (at most sixteen).
pub fn read_be(f: &[u8], i: usize, n: usize) -> (r: u128)
    requires
        n <= 16,
        i + n <= f@.len(),
    ensures
        r == be_value(f@.subrange(i as int, i + n)),
{
    let mut acc: u128 = 0;
    let mut k: usize = 0;
    let flen = f.len();
    proof {
        reveal_with_fuel(pow256, 17);
        assert(pow256(16) == 0x1_0000_0000_0000_0000_0000_0000_0000_0000);
    }
    while k < n
        invariant
            k <= n <= 16,
            flen == f@.len(),
            i + n <= f@.len(),
            acc == be_value(f@.subrange(i as int, i + k)),
            acc < pow256(k as nat),
            pow256(16) == 0x1_0000_0000_0000_0000_0000_0000_0000_0000,
        decreases n - k,
    {
        proof {
            lemma_pow256_mono((k + 1) as nat, 16);
            assert(f@.subrange(i as int, i + k + 1).drop_last() == f@.subrange(i as int, i + k));
        }
        acc = acc * 256 + f[i + k] as u128;
        k += 1;
    }
    acc
}

/// Position, in `layers`, of the innermost IP layer.
pub open spec fn last_ip(layers: Seq<Layer>) -> Option<int>
    decreases layers.len(),
{
    if layers.len() == 0 {
        None
    } else if layers.last().kind == LayerType::Ipv4 || layers.last().kind == LayerType::Ipv6 {
        Some(layers.len() - 1)
    } else {
        last_ip(layers.drop_last())
    }
}

/// The five-tuple of a decoded packet: addresses and protocol of the
/// innermost IP header, ports of the transport header right after it (zero
/// when there is none).
pub open spec fn five_tuple_of(f: Seq<u8>, layers: Seq<Layer>) -> Option<FiveTuple> {
    match last_ip(layers) {
        None => None,
        Some(j) => {
            let ip = layers[j];
            let o = ip.offset as int;
            let has_ports = j + 1 < layers.len() && (layers[j + 1].kind == LayerType::Tcp
                || layers[j + 1].kind == LayerType::Udp);
            let t = layers[j + 1].offset as int;
            Some(
                FiveTuple {
                    src: if ip.kind == LayerType::Ipv4 {
                        IpAddress::V4(be_value(f.subrange(o + 12, o + 16)) as u32)
                    } else {
                        IpAddress::V6(be_value(f.subrange(o + 8, o + 24)) as u128)
                    },
                    dst: if ip.kind == LayerType::Ipv4 {
                        IpAddress::V4(be_value(f.subrange(o + 16, o + 20)) as u32)
                    } else {
                        IpAddress::V6(be_value(f.subrange(o + 24, o + 40)) as u128)
                    },
                    proto: if ip.kind == LayerType::Ipv4 { f[o + 9] } else { f[o + 6] },
                    src_port: if has_ports { be16(f, t) as u16 } else { 0 },
                    dst_port: if has_ports { be16(f, t + 2) as u16 } else { 0 },
                },
            )
        },
    }
}

/// Every layer lies inside the frame and is at least as long as the fixed
/// part that was read from it.
pub open spec fn layers_in_frame(f: Seq<u8>, layers: Seq<Layer>) -> bool {
    forall|i: int|
        0 <= i < layers.len() ==> {
            let l = #[trigger] layers[i];
            &&& l.offset + l.len <= f.len()
            &&& (l.kind == LayerType::Ipv4 ==> l.len >= 20)
            &&& (l.kind == LayerType::Ipv6 ==> l.len >= 40)
            &&& (l.kind == LayerType::Tcp ==> l.len >= 20)
            &&& (l.kind == LayerType::Udp ==> l.len >= 8)
        }
}

proof fn lemma_decode_in_frame(f: Seq<u8>, kind: LayerType, off: nat, fuel: nat)
    ensures
        layers_in_frame(f, decode_from(f, kind, off, fuel).0),
    decreases fuel,
{
    if fuel > 0 && off <= f.len() {
        match step(f, kind, off) {
            None => {},
            Some((len, next)) => {
                if off + len <= f.len() {
                }
                match next {
                    None => {},
                    Some(k) => {
                        lemma_decode_in_frame(f, k, off + len, (fuel - 1) as nat);
                        let l = Layer { kind, offset: off as usize, len: len as usize };
                        let rest = decode_from(f, k, off + len, (fuel - 1) as nat).0;
                        assert forall|i: int| 0 <= i < 1 + rest.len() implies {
                            let m = #[trigger] (seq![l] + rest)[i];
                            &&& m.offset + m.len <= f.len()
                            &&& (m.kind == LayerType::Ipv4 ==> m.len >= 20)
                            &&& (m.kind == LayerType::Ipv6 ==> m.len >= 40)
                            &&& (m.kind == LayerType::Tcp ==> m.len >= 20)
                            &&& (m.kind == LayerType::Udp ==> m.len >= 8)
                        } by {
                            if i > 0 {
                                assert((seq![l] + rest)[i] == rest[i - 1]);
                            }
                        }
                    },
                }
            },
        }
    }
}

/// The innermost IP header is followed by a TCP or UDP header.
pub open spec fn has_transport(layers: Seq<Layer>) -> bool {
    match last_ip(layers) {
        Some(j) => j + 1 < layers.len() && (layers[j + 1].kind == LayerType::Tcp || layers[j + 1].kind
            == LayerType::Udp),
        None => false,
    }
}

/// Decoded view of one frame.
#[derive(Debug)]
pub struct PacketInfo {
    /// Headers in encounter order.
    pub layers: Vec<Layer>,
    /// A header did not fit: the packet is only partly decoded.
    pub truncated: bool,
    /// Five-tuple of the innermost IP header, when there is one.
    pub five_tuple: Option<FiveTuple>,
    /// Where the innermost payload starts.
    pub payload_offset: usize,
}

/// Where the payload after the layers starts: the end of the last one.
pub open spec fn payload_offset_of(layers: Seq<Layer>, start: nat) -> nat {
    if layers.len() == 0 {
        start
    } else {
        (layers.last().offset + layers.last().len) as nat
    }
}

/// Position of the innermost IP layer.
pub fn find_last_ip(layers: &Vec<Layer>) -> (r: Option<usize>)
    ensures
        match r {
            Some(j) => last_ip(layers@) == Some(j as int) && j < layers.len() && (layers@[j as int].kind
                == LayerType::Ipv4 || layers@[j as int].kind == LayerType::Ipv6),
            None => last_ip(layers@) is None,
        },
{
    let mut j: usize = layers.len();
    assert(layers@.take(j as int) == layers@);
    while j > 0
        invariant
            j <= layers.len(),
            last_ip(layers@) == last_ip(layers@.take(j as int)),
        ensures
            j > 0 ==> (layers@[j - 1].kind == LayerType::Ipv4 || layers@[j - 1].kind == LayerType::Ipv6),
            last_ip(layers@) == last_ip(layers@.take(j as int)),
        decreases j,
    {
        let k = layers[j - 1].kind;
        if k == LayerType::Ipv4 || k == LayerType::Ipv6 {
            break;
        }
        assert(layers@.take(j as int).drop_last() == layers@.take(j - 1));
        j -= 1;
    }
    if j == 0 {
        assert(layers@.take(0) == Seq::<Layer>::empty());
        return None;
    }
    assert(layers@.take(j as int).last() == layers@[j - 1]);
    Some(j - 1)
}

fn five_tuple_exec(f: &[u8], layers: &Vec<Layer>) -> (r: Option<FiveTuple>)
    requires
        layers_in_frame(f@, layers@),
    ensures
        r == five_tuple_of(f@, layers@),
{
    let j = match find_last_ip(layers) {
        None => {
            return None;
        },
        Some(j) => j + 1,
    };
    let ip = layers[j - 1];
    assert(layers_in_frame(f@, layers@) ==> layers@[j - 1].offset + layers@[j - 1].len <= f@.len());
    assert(layers@[j - 1] == ip);
    let o = ip.offset;
    let flen = f.len();
    assert(o + ip.len <= flen);
    let v4 = ip.kind == LayerType::Ipv4;
    proof {
        if v4 {
            assert(be_value(f@.subrange(o + 12, o + 16)) < 0x1_0000_0000) by {
                lemma_be_value_bound(f@.subrange(o + 12, o + 16));
                reveal_with_fuel(pow256, 5);
            }
            assert(be_value(f@.subrange(o + 16, o + 20)) < 0x1_0000_0000) by {
                lemma_be_value_bound(f@.subrange(o + 16, o + 20));
                reveal_with_fuel(pow256, 5);
            }
        }
    }
    let src = if v4 {
        IpAddress::V4(read_be(f, o + 12, 4) as u32)
    } else {
        IpAddress::V6(read_be(f, o + 8, 16))
    };
    let dst = if v4 {
        IpAddress::V4(read_be(f, o + 16, 4) as u32)
    } else {
        IpAddress::V6(read_be(f, o + 24, 16))
    };
    let proto = if v4 {
        f[o + 9]
    } else {
        f[o + 6]
    };
    let mut src_port: u16 = 0;
    let mut dst_port: u16 = 0;
    if j < layers.len() && (layers[j].kind == LayerType::Tcp || layers[j].kind == LayerType::Udp) {
        let t = layers[j].offset;
        assert(layers@[j as int].offset + layers@[j as int].len <= f@.len());
        src_port = be16_at(f, t);
        dst_port = be16_at(f, t + 2);
    }
    Some(FiveTuple { src, dst, proto, src_port, dst_port })
}

proof fn lemma_be_value_bound(s: Seq<u8>)
    ensures
        be_value(s) < pow256(s.len()),
    decreases s.len(),
{
    if s.len() > 0 {
        lemma_be_value_bound(s.drop_last());
    }
}

/// Decode a frame whose first header is of kind `link`.
pub fn decode_frame(f: &[u8], link: LayerType) -> (r: PacketInfo)
    ensures
        (r.layers@, r.truncated) == decode_from(f@, link, 0, MAX_LAYERS as nat),
        layers_in_frame(f@, r.layers@),
        r.five_tuple == five_tuple_of(f@, r.layers@),
        r.payload_offset == payload_offset_of(r.layers@, 0),
{
    let (layers, truncated) = decode_layers(f, link, 0);
    let five_tuple = five_tuple_exec(f, &layers);
    let payload_offset = if layers.len() == 0 {
        0
    } else {
        let last = layers[layers.len() - 1];
        assert(layers@[layers.len() - 1] == last);
        assert(last.offset + last.len <= f@.len());
        assert(f@.len() == f.len());
        last.offset + last.len
    };
    PacketInfo { layers, truncated, five_tuple, payload_offset }
}

} // verus!
