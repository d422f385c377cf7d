use pako_core::five_tuple::{
    assign_workers, flow_hash, flow_key, worker_index, Direction, FiveTuple, IpAddress,
};

fn v4(a: [u8; 4]) -> IpAddress {
    IpAddress::V4(u32::from_be_bytes(a))
}

fn tuple(src: [u8; 4], sp: u16, dst: [u8; 4], dp: u16, proto: u8) -> FiveTuple {
    FiveTuple { src: v4(src), dst: v4(dst), proto, src_port: sp, dst_port: dp }
}

#[test]
fn flow_key_is_symmetric() {
    let cases = [
        tuple([10, 0, 0, 1], 1234, [10, 0, 0, 2], 80, 6),
        tuple([192, 168, 1, 9], 53, [8, 8, 8, 8], 53, 17),
        tuple([1, 1, 1, 1], 9, [1, 1, 1, 1], 7, 17),
        FiveTuple { src: IpAddress::V6(1), dst: v4([9, 9, 9, 9]), proto: 6, src_port: 1, dst_port: 2 },
    ];
    for t in cases {
        let r = t.reverse();
        assert_eq!(flow_key(&t), flow_key(&r));
        assert_eq!(flow_hash(&t), flow_hash(&r));
        assert_ne!(t.direction(), r.direction());
    }
}

#[test]
fn flow_key_orders_endpoints() {
    let t = tuple([10, 0, 0, 2], 80, [10, 0, 0, 1], 1234, 6);
    let k = flow_key(&t);
    assert_eq!(k.src, v4([10, 0, 0, 1]));
    assert_eq!(k.src_port, 1234);
    assert_eq!(t.direction(), Direction::Backward);
    let same_addr = tuple([10, 0, 0, 1], 9, [10, 0, 0, 1], 7, 17);
    assert_eq!(flow_key(&same_addr).src_port, 7);
    let v6 = FiveTuple { src: IpAddress::V6(0), dst: v4([255, 255, 255, 255]), proto: 6, src_port: 1, dst_port: 2 };
    assert_eq!(flow_key(&v6).src, v4([255, 255, 255, 255]));
}

#[test]
fn flow_hash_exact_value() {
    let t = tuple([0, 0, 0, 1], 3, [0, 0, 0, 2], 4, 6);
    // ((1 * 31 + 2) * 65599) + 6 * 2^32 + 3 * 2^16 + 4
    assert_eq!(flow_hash(&t), 33 * 65599 + 6 * 0x1_0000_0000 + 3 * 0x1_0000 + 4);
}

#[test]
fn worker_index_in_range_and_symmetric() {
    let t = tuple([10, 1, 2, 3], 4000, [10, 3, 2, 1], 443, 6);
    for n in [1usize, 2, 3, 8] {
        let w = worker_index(&t, n);
        assert!(w < n);
        assert_eq!(w, worker_index(&t.reverse(), n));
    }
    assert_eq!(worker_index(&t, 1), 0);
}

fn per_flow_order(tuples: &[FiveTuple], n: usize) -> Vec<(FiveTuple, Vec<usize>)> {
    let queues = assign_workers(&tuples.to_vec(), n);
    assert_eq!(queues.len(), n);
    let mut out: Vec<(FiveTuple, Vec<usize>)> = Vec::new();
    for q in &queues {
        for &i in q {
            let k = flow_key(&tuples[i]);
            match out.iter_mut().find(|(key, _)| *key == k) {
                Some((_, v)) => v.push(i),
                None => out.push((k, vec![i])),
            }
        }
    }
    out.sort_by_key(|(_, v)| v[0]);
    out
}

#[test]
fn per_flow_order_same_for_1_2_8_workers() {
    let a = tuple([10, 0, 0, 1], 1000, [10, 0, 0, 2], 80, 6);
    let b = tuple([10, 0, 0, 3], 2000, [10, 0, 0, 4], 53, 17);
    let c = tuple([10, 0, 0, 5], 3000, [10, 0, 0, 6], 443, 6);
    let seq = vec![a, b, a.reverse(), c, b.reverse(), a, c.reverse(), c, b, a.reverse()];
    let one = per_flow_order(&seq, 1);
    assert_eq!(one, per_flow_order(&seq, 2));
    assert_eq!(one, per_flow_order(&seq, 8));
    assert_eq!(one.len(), 3);
    assert_eq!(one[0].1, vec![0, 2, 5, 9]);
}

#[test]
fn queues_hold_every_packet_once_in_order() {
    let seq: Vec<FiveTuple> = (0..20u8).map(|i| tuple([10, 0, 0, i], 1000 + i as u16, [10, 0, 1, i], 80, 6)).collect();
    let queues = assign_workers(&seq, 4);
    let mut all: Vec<usize> = queues.iter().flatten().copied().collect();
    for q in &queues {
        assert!(q.windows(2).all(|w| w[0] < w[1]));
    }
    all.sort();
    assert_eq!(all, (0..20).collect::<Vec<usize>>());
}
