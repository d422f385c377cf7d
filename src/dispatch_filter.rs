//! Packet filter for traffic rewriting: the five-tuple of each packet is
//! projected onto a filtering key and looked up in a set of keys; the packet
//! is kept or dropped depending on membership and the filtering action.
use vstd::prelude::*;

use crate::five_tuple::{FiveTuple, IpAddress};
use crate::layers::{decode_frame, decode_from, five_tuple_of, LayerType, MAX_LAYERS};

verus! {

/// What part of the five-tuple is looked up.
#[derive(Clone, Copy, Debug, PartialEq, Eq, Structural)]
pub enum FilteringKey {
    SrcIpaddr,
    DstIpaddr,
    SrcDstIpaddr,
    SrcIpaddrProtoDstPort,
    SrcDstIpaddrProtoSrcDstPort,
}

/// Whether matching packets are kept or dropped.
#[derive(Clone, Copy, Debug, PartialEq, Eq, Structural)]
pub enum FilteringAction {
    Keep,
    Drop,
}

/// One entry of the key set.
#[derive(Clone, Copy, Debug, PartialEq, Eq, Structural)]
pub enum FilterKey {
    Addr(IpAddress),
    AddrProtoPort(IpAddress, u8, u16),
    Tuple(FiveTuple),
}

/// Packet bytes as a capture hands them over.
#[derive(Clone, Copy, Debug)]
pub enum PacketData<'a> {
    /// A link-layer (Ethernet) frame.
    L2(&'a [u8]),
    /// A network-layer datagram with its EtherType.
    L3(u16, &'a [u8]),
    /// A transport-layer segment with its IP protocol.
    L4(u8, &'a [u8]),
    Unsupported(&'a [u8]),
}

/// The filter's decision.
#[derive(Clone, Copy, Debug)]
pub enum Verdict<'a> {
    Accept(PacketData<'a>),
    Drop,
}

/// Why a packet could not be filtered.
#[derive(Clone, Copy, Debug, PartialEq, Eq, Structural)]
pub enum FilterError {
    /// An L2 frame shorter than an Ethernet header.
    L2TooSmall,
    /// An L3 datagram of an EtherType other than IPv4 or IPv6.
    UnsupportedEthertype(u16),
    /// Transport-layer or unknown data, which carries no addresses.
    UnsupportedData,
    /// No IP header could be decoded.
    NoIpLayer,
    /// A key of the set does not have the shape the filtering key needs.
    KeyShape,
}

/// Whether a key has the shape a filtering key looks up.
pub open spec fn key_fits(fk: FilteringKey, k: FilterKey) -> bool {
    match fk {
        FilteringKey::SrcIpaddr | FilteringKey::DstIpaddr | FilteringKey::SrcDstIpaddr => k is Addr,
        FilteringKey::SrcIpaddrProtoDstPort => k is AddrProtoPort,
        FilteringKey::SrcDstIpaddrProtoSrcDstPort => k is Tuple,
    }
}

/// The packet matches the key set.
pub open spec fn matches_keys(keys: Seq<FilterKey>, fk: FilteringKey, t: FiveTuple) -> bool {
    match fk {
        FilteringKey::SrcIpaddr => keys.contains(FilterKey::Addr(t.src)),
        FilteringKey::DstIpaddr => keys.contains(FilterKey::Addr(t.dst)),
        FilteringKey::SrcDstIpaddr => keys.contains(FilterKey::Addr(t.src)) || keys.contains(
            FilterKey::Addr(t.dst),
        ),
        FilteringKey::SrcIpaddrProtoDstPort => keys.contains(
            FilterKey::AddrProtoPort(t.src, t.proto, t.dst_port),
        ),
        FilteringKey::SrcDstIpaddrProtoSrcDstPort => keys.contains(FilterKey::Tuple(t)),
    }
}

/// The packet with five-tuple `t` is kept.
pub open spec fn kept(keys: Seq<FilterKey>, fk: FilteringKey, action: FilteringAction, t: FiveTuple) -> bool {
    match action {
        FilteringAction::Keep => matches_keys(keys, fk, t),
        FilteringAction::Drop => !matches_keys(keys, fk, t),
    }
}

/// The five-tuple the filter reads from packet data, or why there is none.
pub open spec fn tuple_of_data(p: PacketData) -> Result<FiveTuple, FilterError> {
    match p {
        PacketData::L2(d) => if d@.len() < 14 {
            Err(FilterError::L2TooSmall)
        } else {
            match five_tuple_of(d@, decode_from(d@, LayerType::Ethernet, 0, MAX_LAYERS as nat).0) {
                Some(t) => Ok(t),
                None => Err(FilterError::NoIpLayer),
            }
        },
        PacketData::L3(ethertype, d) => if ethertype == 0x0800 {
            match five_tuple_of(d@, decode_from(d@, LayerType::Ipv4, 0, MAX_LAYERS as nat).0) {
                Some(t) => Ok(t),
                None => Err(FilterError::NoIpLayer),
            }
        } else if ethertype == 0x86DD {
            match five_tuple_of(d@, decode_from(d@, LayerType::Ipv6, 0, MAX_LAYERS as nat).0) {
                Some(t) => Ok(t),
                None => Err(FilterError::NoIpLayer),
            }
        } else {
            Err(FilterError::UnsupportedEthertype(ethertype))
        },
        _ => Err(FilterError::UnsupportedData),
    }
}

fn contains_key(keys: &Vec<FilterKey>, k: FilterKey) -> (r: bool)
    ensures
        r == keys@.contains(k),
{
    let mut i: usize = 0;
    while i < keys.len()
        invariant
            i <= keys.len(),
            forall|j: int| 0 <= j < i ==> keys@[j] != k,
        decreases keys.len() - i,
    {
        if keys[i] == k {
            return true;
        }
        i += 1;
    }
    false
}

/// A filter over a set of keys.
#[derive(Debug)]
pub struct DispatchFilter {
    key_container: Vec<FilterKey>,
    filtering_key: FilteringKey,
    action: FilteringAction,
}

impl DispatchFilter {
    pub closed spec fn keys(&self) -> Seq<FilterKey> {
        self.key_container@
    }

    pub closed spec fn filtering_key(&self) -> FilteringKey {
        self.filtering_key
    }

    pub closed spec fn action(&self) -> FilteringAction {
        self.action
    }

    pub fn new(key_container: Vec<FilterKey>, filtering_key: FilteringKey, action: FilteringAction) -> (r: Self)
        ensures
            r.keys() == key_container@,
            r.filtering_key() == filtering_key,
            r.action() == action,
    {
        DispatchFilter { key_container, filtering_key, action }
    }

    fn matches(&self, t: &FiveTuple) -> (r: bool)
        ensures
            r == matches_keys(self.keys(), self.filtering_key(), *t),
    {
        match self.filtering_key {
            FilteringKey::SrcIpaddr => contains_key(&self.key_container, FilterKey::Addr(t.src)),
            FilteringKey::DstIpaddr => contains_key(&self.key_container, FilterKey::Addr(t.dst)),
            FilteringKey::SrcDstIpaddr => contains_key(&self.key_container, FilterKey::Addr(t.src))
                || contains_key(&self.key_container, FilterKey::Addr(t.dst)),
            FilteringKey::SrcIpaddrProtoDstPort => contains_key(
                &self.key_container,
                FilterKey::AddrProtoPort(t.src, t.proto, t.dst_port),
            ),
            FilteringKey::SrcDstIpaddrProtoSrcDstPort => contains_key(&self.key_container, FilterKey::Tuple(*t)),
        }
    }

    /// Decide on one packet: accept it (handing it back) or drop it.
    pub fn keep<'j>(&self, packet_data: PacketData<'j>) -> (r: Result<Verdict<'j>, FilterError>)
        ensures
            match tuple_of_data(packet_data) {
                Err(e) => r == Err::<Verdict<'j>, FilterError>(e),
                Ok(t) => if kept(self.keys(), self.filtering_key(), self.action(), t) {
                    r matches Ok(Verdict::Accept(p)) && p == packet_data
                } else {
                    r matches Ok(Verdict::Drop)
                },
            },
    {
        let t = match packet_data {
            PacketData::L2(data) => {
                if data.len() < 14 {
                    return Err(FilterError::L2TooSmall);
                }
                decode_frame(data, LayerType::Ethernet).five_tuple
            },
            PacketData::L3(ethertype, data) => {
                if ethertype == 0x0800 {
                    decode_frame(data, LayerType::Ipv4).five_tuple
                } else if ethertype == 0x86DD {
                    decode_frame(data, LayerType::Ipv6).five_tuple
                } else {
                    return Err(FilterError::UnsupportedEthertype(ethertype));
                }
            },
            _ => {
                return Err(FilterError::UnsupportedData);
            },
        };
        let t = match t {
            Some(t) => t,
            None => {
                return Err(FilterError::NoIpLayer);
            },
        };
        let m = self.matches(&t);
        let keep = match self.action {
            FilteringAction::Keep => m,
            FilteringAction::Drop => !m,
        };
        if keep {
            Ok(Verdict::Accept(packet_data))
        } else {
            Ok(Verdict::Drop)
        }
    }

    /// Same as `keep`.
    pub fn filter<'i>(&self, i: PacketData<'i>) -> (r: Result<Verdict<'i>, FilterError>)
        ensures
            match tuple_of_data(i) {
                Err(e) => r == Err::<Verdict<'i>, FilterError>(e),
                Ok(t) => if kept(self.keys(), self.filtering_key(), self.action(), t) {
                    r matches Ok(Verdict::Accept(p)) && p == i
                } else {
                    r matches Ok(Verdict::Drop)
                },
            },
    {
        self.keep(i)
    }
}

/// Builds a dispatch filter from command-line choices and a loaded key set.
pub struct DispatchFilterBuilder;

impl DispatchFilterBuilder {
    /// A filter over `keys`, or `KeyShape` when some key does not have the
    /// shape that `filtering_key` looks up.
    pub fn from_args(
        filtering_key: FilteringKey,
        filtering_action: FilteringAction,
        keys: Vec<FilterKey>,
    ) -> (r: Result<DispatchFilter, FilterError>)
        ensures
            (forall|i: int| 0 <= i < keys@.len() ==> key_fits(filtering_key, #[trigger] keys@[i])) <==> r is Ok,
            r is Err ==> r == Err::<DispatchFilter, FilterError>(FilterError::KeyShape),
            r matches Ok(f) ==> f.keys() == keys@ && f.filtering_key() == filtering_key && f.action()
                == filtering_action,
    {
        let mut i: usize = 0;
        while i < keys.len()
            invariant
                i <= keys.len(),
                forall|j: int| 0 <= j < i ==> key_fits(filtering_key, #[trigger] keys@[j]),
            decreases keys.len() - i,
        {
            let fits = match filtering_key {
                FilteringKey::SrcIpaddr | FilteringKey::DstIpaddr | FilteringKey::SrcDstIpaddr => {
                    matches!(keys[i], FilterKey::Addr(_))
                },
                FilteringKey::SrcIpaddrProtoDstPort => matches!(keys[i], FilterKey::AddrProtoPort(..)),
                FilteringKey::SrcDstIpaddrProtoSrcDstPort => matches!(keys[i], FilterKey::Tuple(_)),
            };
            if !fits {
                return Err(FilterError::KeyShape);
            }
            i += 1;
        }
        Ok(DispatchFilter::new(keys, filtering_key, filtering_action))
    }
}

} // verus!
