use pako_core::analyzer::{Analyzer, AnalyzerConfig, Dispatch};
use pako_core::five_tuple::{flow_key, FiveTuple, IpAddress};
use pako_core::geneve::{parse_options, GENEVEOptionPacket, GENEVEPacket};
use pako_core::layers::{decode_frame, LayerType};
use pako_core::plugin::Event;
use pako_core::sharding::{route, ShardedAnalyzer};

fn ethernet(ethertype: u16) -> Vec<u8> {
    let mut v = vec![0x02, 0, 0, 0, 0, 1, 0x02, 0, 0, 0, 0, 2];
    v.extend_from_slice(&ethertype.to_be_bytes());
    v
}

fn ipv4(src: [u8; 4], dst: [u8; 4], proto: u8, payload_len: usize, id: u16, flags_offset: u16) -> Vec<u8> {
    let mut v = vec![0x45, 0];
    v.extend_from_slice(&((20 + payload_len) as u16).to_be_bytes());
    v.extend_from_slice(&id.to_be_bytes());
    v.extend_from_slice(&flags_offset.to_be_bytes());
    v.extend_from_slice(&[64, proto, 0, 0]);
    v.extend_from_slice(&src);
    v.extend_from_slice(&dst);
    v
}

fn udp(sp: u16, dp: u16, payload_len: usize) -> Vec<u8> {
    let mut v = Vec::new();
    v.extend_from_slice(&sp.to_be_bytes());
    v.extend_from_slice(&dp.to_be_bytes());
    v.extend_from_slice(&((8 + payload_len) as u16).to_be_bytes());
    v.extend_from_slice(&[0, 0]);
    v
}

fn udp_frame(src: [u8; 4], sp: u16, dst: [u8; 4], dp: u16, payload: &[u8]) -> Vec<u8> {
    let mut f = ethernet(0x0800);
    f.extend(ipv4(src, dst, 17, 8 + payload.len(), 1, 0));
    f.extend(udp(sp, dp, payload.len()));
    f.extend_from_slice(payload);
    f
}

fn config() -> AnalyzerConfig {
    AnalyzerConfig {
        max_fragments: 64,
        max_fragment_bytes: 65535,
        max_tcp_buffered: 1 << 20,
        flow_timeout: 60,
        fragment_timeout: 30,
    }
}

fn events(ds: &[Dispatch]) -> Vec<Event> {
    ds.iter().map(|d| d.event).collect()
}

fn key(src: [u8; 4], sp: u16, dst: [u8; 4], dp: u16, proto: u8) -> FiveTuple {
    flow_key(&FiveTuple {
        src: IpAddress::V4(u32::from_be_bytes(src)),
        dst: IpAddress::V4(u32::from_be_bytes(dst)),
        proto,
        src_port: sp,
        dst_port: dp,
    })
}

fn geneve_frame(option_len_words: u8) -> Vec<u8> {
    let mut inner = udp_frame([192, 168, 0, 1], 5000, [192, 168, 0, 2], 6000, b"inner");
    let mut g = vec![0x01, 0x00, 0x65, 0x58, 0x00, 0x00, 0x2A, 0x00];
    g.extend_from_slice(&[0x01, 0x02, 0x03, 0x80 | option_len_words]);
    g.append(&mut inner);
    let mut f = ethernet(0x0800);
    f.extend(ipv4([10, 0, 0, 1], [10, 0, 0, 2], 17, 8 + g.len(), 9, 0));
    f.extend(udp(40000, 6081, g.len()));
    f.extend(g);
    f
}

#[test]
fn geneve_option_length_past_buffer_is_truncated() {
    let f = geneve_frame(31);
    let info = decode_frame(&f, LayerType::Ethernet);
    let kinds: Vec<LayerType> = info.layers.iter().map(|l| l.kind).collect();
    assert_eq!(
        kinds,
        vec![
            LayerType::Ethernet,
            LayerType::Ipv4,
            LayerType::Udp,
            LayerType::Geneve,
            LayerType::Ethernet,
            LayerType::Ipv4,
            LayerType::Udp
        ]
    );
    assert_eq!(info.layers[3].offset, 42);
    assert_eq!(info.layers[3].len, 12);
    assert_eq!(info.layers[4].offset, 54);
    assert!(!info.truncated);
    assert_eq!(info.five_tuple, Some(FiveTuple {
        src: IpAddress::V4(0xC0A80001),
        dst: IpAddress::V4(0xC0A80002),
        proto: 17,
        src_port: 5000,
        dst_port: 6000,
    }));
    assert_eq!(info.payload_offset, f.len() - 5);

    let g = GENEVEPacket::new(&f[42..]).unwrap();
    assert_eq!(g.get_option_length(), 1);
    assert_eq!(g.get_protocol_type(), 0x6558);
    assert_eq!(g.get_virtual_network_identifier(), 0x2A);
    let opts = g.get_options();
    assert_eq!(opts.len(), 1);
    assert_eq!(opts[0].option_class(), 0x0102);
    assert_eq!(opts[0].option_type(), 3);
    assert_eq!(opts[0].option_length(), 31);
    assert!(opts[0].option_data().is_empty());
    assert_eq!(g.payload(), &f[54..]);
}

#[test]
fn geneve_header_fields() {
    let bytes = [0x83u8, 0xC5, 0x08, 0x00, 0x12, 0x34, 0x56, 0x77, 0xAA, 0xBB];
    let g = GENEVEPacket::new(&bytes).unwrap();
    assert_eq!(g.get_stack_size(), 2);
    assert_eq!(g.get_option_length(), 3);
    assert_eq!(g.get_control(), 1);
    assert_eq!(g.get_critical(), 1);
    assert_eq!(g.get_reserved(), 5);
    assert_eq!(g.get_protocol_type(), 0x0800);
    assert_eq!(g.get_virtual_network_identifier(), 0x123456);
    assert_eq!(g.get_reserved2(), 0x77);
    assert_eq!(g.get_options_raw(), &[0xAA, 0xBB]);
    assert!(g.payload().is_empty());
    assert!(GENEVEPacket::new(&bytes[..7]).is_none());
    assert_eq!(GENEVEPacket::minimum_packet_size(), 8);
}

#[test]
fn geneve_options_walk() {
    let raw = [0x00, 0x01, 0x05, 0x01, 1, 2, 3, 4, 0x00, 0x02, 0x06, 0x00, 0x09];
    let opts = parse_options(&raw);
    assert_eq!(opts.len(), 2);
    assert_eq!(opts[0].option_data(), &[1, 2, 3, 4]);
    assert_eq!(opts[1].option_class(), 2);
    assert!(opts[1].option_data().is_empty());
    let p = GENEVEOptionPacket::new(&raw).unwrap();
    assert_eq!(p.packet_size(), 8);
    assert_eq!(p.payload(), &raw[8..]);
    assert_eq!(p.from_packet().option_type(), 5);
    assert!(GENEVEOptionPacket::new(&raw[..3]).is_none());
}

#[test]
fn truncated_header_stops_decoding() {
    let f = udp_frame([1, 2, 3, 4], 1, [5, 6, 7, 8], 2, b"");
    let info = decode_frame(&f[..30], LayerType::Ethernet);
    assert_eq!(info.layers.len(), 1);
    assert!(info.truncated);
    assert_eq!(info.five_tuple, None);
}

#[test]
fn vxlan_and_mpls_are_unwrapped() {
    let inner = udp_frame([172, 16, 0, 1], 1111, [172, 16, 0, 2], 2222, b"x");
    let mut vx = vec![0x08, 0, 0, 0, 0, 0, 0x01, 0];
    vx.extend(inner);
    let mut f = ethernet(0x0800);
    f.extend(ipv4([10, 0, 0, 1], [10, 0, 0, 2], 17, 8 + vx.len(), 3, 0));
    f.extend(udp(1234, 4789, vx.len()));
    f.extend(vx);
    let info = decode_frame(&f, LayerType::Ethernet);
    assert_eq!(info.layers[3].kind, LayerType::Vxlan);
    assert_eq!(info.five_tuple.unwrap().src_port, 1111);

    let mut m = ethernet(0x8847);
    m.extend_from_slice(&[0, 0, 0x10, 64, 0, 0, 0x21, 64]);
    m.extend(ipv4([1, 1, 1, 1], [2, 2, 2, 2], 17, 8, 0, 0));
    m.extend(udp(7, 8, 0));
    let info = decode_frame(&m, LayerType::Ethernet);
    let kinds: Vec<LayerType> = info.layers.iter().map(|l| l.kind).collect();
    assert_eq!(kinds, vec![LayerType::Ethernet, LayerType::Mpls, LayerType::Mpls, LayerType::Ipv4, LayerType::Udp]);
}

#[test]
fn single_udp_packet_events() {
    let mut a = Analyzer::new(&config());
    let f = udp_frame([10, 0, 0, 1], 1000, [10, 0, 0, 2], 53, b"query");
    let out = a.handle_packet(&f, LayerType::Ethernet, 100);
    let k = key([10, 0, 0, 1], 1000, [10, 0, 0, 2], 53, 17);
    assert_eq!(events(&out), vec![Event::L2, Event::FlowNew(k), Event::L3(k), Event::L4(k)]);
    assert_eq!(out[3].data, b"query".to_vec());
    assert_eq!(out[0].data, f);
    assert_eq!(a.flow_count(), 1);
    assert!(a.expire(150).is_empty());
    let del = a.expire(161);
    assert_eq!(events(&del), vec![Event::FlowDel(k)]);
    assert_eq!(a.flow_count(), 0);
}

#[test]
fn fragments_out_of_order_dispatch_l4_once() {
    let payload: Vec<u8> = (0..32u8).collect();
    let mut datagram = udp(7000, 8000, payload.len());
    datagram.extend_from_slice(&payload);
    let src = [10, 0, 0, 1];
    let dst = [10, 0, 0, 2];
    let frag = |start: usize, end: usize, more: bool| {
        let mut f = ethernet(0x0800);
        let fo = (start / 8) as u16 | if more { 0x2000 } else { 0 };
        f.extend(ipv4(src, dst, 17, end - start, 77, fo));
        f.extend_from_slice(&datagram[start..end]);
        f
    };
    let f0 = frag(0, 16, true);
    let f1 = frag(16, 32, true);
    let f2 = frag(32, 40, false);
    let k = key(src, 0, dst, 0, 17);
    let mut a = Analyzer::new(&config());
    let e2 = a.handle_packet(&f2, LayerType::Ethernet, 1);
    assert_eq!(events(&e2), vec![Event::L2, Event::FlowNew(k), Event::L3(k)]);
    let e0 = a.handle_packet(&f0, LayerType::Ethernet, 2);
    assert_eq!(events(&e0), vec![Event::L2, Event::L3(k)]);
    let e1 = a.handle_packet(&f1, LayerType::Ethernet, 3);
    assert_eq!(events(&e1), vec![Event::L2, Event::L3(k), Event::L4(k)]);
    assert_eq!(e1[2].data, payload);
    assert_eq!(a.fragment_overflows(), 0);
}

#[test]
fn every_flow_opens_once_and_closes_once() {
    let mut a = Analyzer::new(&config());
    let f1 = udp_frame([10, 0, 0, 1], 1000, [10, 0, 0, 2], 53, b"a");
    let f2 = udp_frame([10, 0, 0, 2], 53, [10, 0, 0, 1], 1000, b"b");
    let f3 = udp_frame([10, 0, 0, 3], 999, [10, 0, 0, 4], 80, b"c");
    let mut log: Vec<Event> = Vec::new();
    for (f, ts) in [(&f1, 1u64), (&f2, 2), (&f3, 3), (&f1, 4)] {
        log.extend(events(&a.handle_packet(f, LayerType::Ethernet, ts)));
    }
    log.extend(events(&a.finish()));
    let k1 = key([10, 0, 0, 1], 1000, [10, 0, 0, 2], 53, 17);
    let k3 = key([10, 0, 0, 3], 999, [10, 0, 0, 4], 80, 17);
    for k in [k1, k3] {
        let new_at: Vec<usize> = log.iter().enumerate().filter(|(_, e)| **e == Event::FlowNew(k)).map(|(i, _)| i).collect();
        let del_at: Vec<usize> = log.iter().enumerate().filter(|(_, e)| **e == Event::FlowDel(k)).map(|(i, _)| i).collect();
        let used: Vec<usize> = log
            .iter()
            .enumerate()
            .filter(|(_, e)| **e == Event::L3(k) || **e == Event::L4(k))
            .map(|(i, _)| i)
            .collect();
        assert_eq!(new_at.len(), 1);
        assert_eq!(del_at.len(), 1);
        assert!(used.iter().all(|&i| new_at[0] < i && i < del_at[0]));
    }
    assert_eq!(a.flow_count(), 0);
}

#[test]
fn tcp_payload_is_reassembled_per_direction() {
    let tcp_frame = |seq: u32, flags: u8, data: &[u8]| {
        let mut f = ethernet(0x0800);
        f.extend(ipv4([10, 0, 0, 1], [10, 0, 0, 2], 6, 20 + data.len(), 5, 0));
        f.extend_from_slice(&4444u16.to_be_bytes());
        f.extend_from_slice(&80u16.to_be_bytes());
        f.extend_from_slice(&seq.to_be_bytes());
        f.extend_from_slice(&[0, 0, 0, 0, 0x50, flags, 0xFF, 0xFF, 0, 0, 0, 0]);
        f.extend_from_slice(data);
        f
    };
    let mut a = Analyzer::new(&config());
    let syn = a.handle_packet(&tcp_frame(99, 0x02, b""), LayerType::Ethernet, 1);
    assert_eq!(syn.last().unwrap().data, Vec::<u8>::new());
    let late = a.handle_packet(&tcp_frame(103, 0x10, b"def"), LayerType::Ethernet, 2);
    assert!(late.last().unwrap().data.is_empty());
    let first = a.handle_packet(&tcp_frame(100, 0x10, b"abc"), LayerType::Ethernet, 3);
    assert_eq!(first.last().unwrap().data, b"abcdef".to_vec());
    let dup = a.handle_packet(&tcp_frame(100, 0x10, b"abc"), LayerType::Ethernet, 4);
    assert!(dup.last().unwrap().data.is_empty());
    assert_eq!(a.flow_count(), 1);
    let rst = a.handle_packet(&tcp_frame(106, 0x04, b""), LayerType::Ethernet, 5);
    let k = key([10, 0, 0, 1], 4444, [10, 0, 0, 2], 80, 6);
    assert_eq!(events(&rst), vec![Event::L2, Event::L3(k), Event::L4(k), Event::FlowDel(k)]);
    assert_eq!(a.flow_count(), 0);
}

fn flow_events(log: &[(usize, Event)], k: FiveTuple) -> Vec<(usize, Event)> {
    log.iter()
        .filter(|(_, e)| match e {
            Event::FlowNew(x) | Event::L3(x) | Event::L4(x) | Event::FlowDel(x) => *x == k,
            Event::L2 => false,
        })
        .cloned()
        .collect()
}

#[test]
fn per_flow_events_same_for_any_worker_count() {
    let hosts = [([10, 0, 0, 1], 1000u16), ([10, 0, 0, 2], 53u16), ([10, 0, 0, 3], 2000), ([10, 0, 0, 4], 443)];
    let mut frames = Vec::new();
    for i in 0..24usize {
        let (a, pa) = hosts[i % 4];
        let (b, pb) = hosts[(i / 4) % 4];
        if a != b {
            frames.push(udp_frame(a, pa, b, pb, &[i as u8]));
        }
    }
    let keys: Vec<FiveTuple> = frames
        .iter()
        .filter_map(|f| decode_frame(f, LayerType::Ethernet).five_tuple)
        .map(|t| flow_key(&t))
        .collect();
    let mut reference: Option<Vec<Vec<(usize, Event)>>> = None;
    for n in [1usize, 2, 8] {
        let mut s = ShardedAnalyzer::new(&config(), n);
        assert_eq!(s.worker_count(), n);
        let mut per_worker: Vec<Vec<(usize, Event)>> = vec![Vec::new(); n];
        for (i, f) in frames.iter().enumerate() {
            let (w, out) = s.handle_packet(f, LayerType::Ethernet, i as u64);
            assert_eq!(w, route(f, LayerType::Ethernet, n));
            per_worker[w].extend(out.iter().map(|d| (i, d.event)));
        }
        for (w, out) in s.finish().into_iter().enumerate() {
            per_worker[w].extend(out.iter().map(|d| (usize::MAX, d.event)));
        }
        let all: Vec<(usize, Event)> = per_worker.concat();
        let per_flow: Vec<Vec<(usize, Event)>> = keys.iter().map(|k| flow_events(&all, *k)).collect();
        for (k, evs) in keys.iter().zip(per_flow.iter()) {
            assert_eq!(evs.first().map(|e| e.1), Some(Event::FlowNew(*k)));
            assert_eq!(evs.last().map(|e| e.1), Some(Event::FlowDel(*k)));
        }
        match &reference {
            None => reference = Some(per_flow),
            Some(r) => assert_eq!(r, &per_flow),
        }
    }
}
