use pako_core::dispatch_filter::{
    DispatchFilter, DispatchFilterBuilder, FilterError, FilterKey, FilteringAction, FilteringKey, PacketData, Verdict,
};
use pako_core::five_tuple::{FiveTuple, IpAddress};

fn ipv4_udp(src: [u8; 4], sp: u16, dst: [u8; 4], dp: u16) -> Vec<u8> {
    let mut v = vec![0x45, 0, 0, 28, 0, 1, 0, 0, 64, 17, 0, 0];
    v.extend_from_slice(&src);
    v.extend_from_slice(&dst);
    v.extend_from_slice(&sp.to_be_bytes());
    v.extend_from_slice(&dp.to_be_bytes());
    v.extend_from_slice(&[0, 8, 0, 0]);
    v
}

fn ethernet(payload: &[u8]) -> Vec<u8> {
    let mut v = vec![2, 0, 0, 0, 0, 1, 2, 0, 0, 0, 0, 2, 0x08, 0x00];
    v.extend_from_slice(payload);
    v
}

fn addr(a: [u8; 4]) -> IpAddress {
    IpAddress::V4(u32::from_be_bytes(a))
}

fn accepted(r: Result<Verdict, FilterError>) -> bool {
    match r {
        Ok(Verdict::Accept(_)) => true,
        Ok(Verdict::Drop) => false,
        Err(e) => panic!("unexpected {:?}", e),
    }
}

#[test]
fn keep_by_source_address() {
    let f = DispatchFilter::new(vec![FilterKey::Addr(addr([10, 0, 0, 1]))], FilteringKey::SrcIpaddr, FilteringAction::Keep);
    let a = ethernet(&ipv4_udp([10, 0, 0, 1], 1, [10, 0, 0, 9], 2));
    let b = ethernet(&ipv4_udp([10, 0, 0, 9], 1, [10, 0, 0, 1], 2));
    assert!(accepted(f.keep(PacketData::L2(&a))));
    assert!(!accepted(f.keep(PacketData::L2(&b))));
    match f.keep(PacketData::L2(&a)) {
        Ok(Verdict::Accept(PacketData::L2(d))) => assert_eq!(d, &a[..]),
        other => panic!("unexpected {:?}", other),
    }
}

#[test]
fn drop_by_either_address() {
    let f = DispatchFilter::new(vec![FilterKey::Addr(addr([10, 0, 0, 1]))], FilteringKey::SrcDstIpaddr, FilteringAction::Drop);
    let a = ipv4_udp([10, 0, 0, 9], 1, [10, 0, 0, 1], 2);
    let b = ipv4_udp([10, 0, 0, 8], 1, [10, 0, 0, 9], 2);
    assert!(!accepted(f.filter(PacketData::L3(0x0800, &a))));
    assert!(accepted(f.filter(PacketData::L3(0x0800, &b))));
}

#[test]
fn keep_by_address_protocol_port_and_five_tuple() {
    let f = DispatchFilter::new(
        vec![FilterKey::AddrProtoPort(addr([10, 0, 0, 1]), 17, 53)],
        FilteringKey::SrcIpaddrProtoDstPort,
        FilteringAction::Keep,
    );
    assert!(accepted(f.keep(PacketData::L3(0x0800, &ipv4_udp([10, 0, 0, 1], 999, [8, 8, 8, 8], 53)))));
    assert!(!accepted(f.keep(PacketData::L3(0x0800, &ipv4_udp([10, 0, 0, 1], 999, [8, 8, 8, 8], 54)))));
    let t = FiveTuple { src: addr([1, 2, 3, 4]), dst: addr([5, 6, 7, 8]), proto: 17, src_port: 10, dst_port: 20 };
    let g = DispatchFilter::new(vec![FilterKey::Tuple(t)], FilteringKey::SrcDstIpaddrProtoSrcDstPort, FilteringAction::Keep);
    assert!(accepted(g.keep(PacketData::L3(0x0800, &ipv4_udp([1, 2, 3, 4], 10, [5, 6, 7, 8], 20)))));
    assert!(!accepted(g.keep(PacketData::L3(0x0800, &ipv4_udp([5, 6, 7, 8], 20, [1, 2, 3, 4], 10)))));
}

#[test]
fn filter_errors() {
    let f = DispatchFilter::new(vec![], FilteringKey::DstIpaddr, FilteringAction::Keep);
    assert_eq!(f.keep(PacketData::L2(&[0u8; 13])).err(), Some(FilterError::L2TooSmall));
    assert_eq!(f.keep(PacketData::L3(0x0806, &[0u8; 28])).err(), Some(FilterError::UnsupportedEthertype(0x0806)));
    assert_eq!(f.keep(PacketData::L4(17, &[0u8; 8])).err(), Some(FilterError::UnsupportedData));
    assert_eq!(f.keep(PacketData::Unsupported(&[])).err(), Some(FilterError::UnsupportedData));
    let mut arp = ethernet(&[0u8; 28]);
    arp[12] = 0x08;
    arp[13] = 0x06;
    assert_eq!(f.keep(PacketData::L2(&arp)).err(), Some(FilterError::NoIpLayer));
}

#[test]
fn builder_checks_key_shapes() {
    let ok = DispatchFilterBuilder::from_args(
        FilteringKey::SrcIpaddr,
        FilteringAction::Keep,
        vec![FilterKey::Addr(addr([1, 1, 1, 1])), FilterKey::Addr(addr([2, 2, 2, 2]))],
    );
    let f = ok.unwrap();
    assert!(accepted(f.keep(PacketData::L3(0x0800, &ipv4_udp([2, 2, 2, 2], 1, [3, 3, 3, 3], 2)))));
    let bad = DispatchFilterBuilder::from_args(
        FilteringKey::SrcIpaddrProtoDstPort,
        FilteringAction::Drop,
        vec![FilterKey::Addr(addr([1, 1, 1, 1]))],
    );
    assert_eq!(bad.err().map(|_| ()), Some(()));
    assert!(matches!(
        DispatchFilterBuilder::from_args(FilteringKey::DstIpaddr, FilteringAction::Keep, vec![FilterKey::Tuple(FiveTuple {
            src: addr([1, 1, 1, 1]),
            dst: addr([2, 2, 2, 2]),
            proto: 6,
            src_port: 1,
            dst_port: 2
        })]),
        Err(FilterError::KeyShape)
    ));
}
