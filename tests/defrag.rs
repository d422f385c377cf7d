use pako_core::defrag::{defragment, DefragResult, Defragmenter, DropReason, FragKey, Fragment};
use pako_core::five_tuple::IpAddress;

fn datagram(n: usize) -> Vec<u8> {
    (0..n).map(|i| (i * 7 + 3) as u8).collect()
}

fn pieces(d: &[u8], cuts: &[usize]) -> Vec<Fragment> {
    let mut out = Vec::new();
    let mut start = 0;
    for (i, &end) in cuts.iter().enumerate() {
        out.push(Fragment { offset: start, more: i + 1 < cuts.len(), data: d[start..end].to_vec() });
        start = end;
    }
    out
}

fn key(id: u32) -> FragKey {
    FragKey { src: IpAddress::V4(0x0A000001), dst: IpAddress::V4(0x0A000002), proto: 17, id }
}

#[test]
fn defragment_in_order() {
    let d = datagram(40);
    let frags = pieces(&d, &[16, 32, 40]);
    assert_eq!(defragment(&frags, 64, 65535), Some(d));
}

#[test]
fn defragment_every_permutation() {
    let d = datagram(40);
    let frags = pieces(&d, &[8, 16, 32, 40]);
    let orders = [[0, 1, 2, 3], [3, 2, 1, 0], [2, 0, 3, 1], [1, 3, 0, 2], [3, 0, 1, 2], [0, 3, 2, 1]];
    for order in orders {
        let permuted: Vec<Fragment> = order.iter().map(|&i| frags[i].clone()).collect();
        assert_eq!(defragment(&permuted, 64, 65535), Some(d.clone()));
    }
}

#[test]
fn defragment_with_overlap_keeps_first_writer() {
    let d = datagram(24);
    let mut frags = pieces(&d, &[16, 24]);
    frags.insert(1, Fragment { offset: 8, more: true, data: vec![0xFF; 8] });
    let got = defragment(&frags, 64, 65535).unwrap();
    assert_eq!(got, d);
}

#[test]
fn defragment_incomplete_is_none() {
    let d = datagram(40);
    let frags = pieces(&d, &[16, 32, 40]);
    let missing = vec![frags[0].clone(), frags[2].clone()];
    assert_eq!(defragment(&missing, 64, 65535), None);
}

#[test]
fn defragment_over_ceiling_is_none() {
    let d = datagram(40);
    let frags = pieces(&d, &[16, 32, 40]);
    assert_eq!(defragment(&frags, 2, 65535), None);
    assert_eq!(defragment(&frags, 64, 39), None);
    assert_eq!(defragment(&frags, 3, 40), Some(d));
}

#[test]
fn three_fragments_out_of_order_complete_on_last() {
    let d = datagram(40);
    let frags = pieces(&d, &[16, 32, 40]);
    let mut df = Defragmenter::new(64, 65535);
    assert!(matches!(df.accept(key(7), &frags[2], 0), DefragResult::Pending));
    assert!(matches!(df.accept(key(7), &frags[0], 0), DefragResult::Pending));
    assert_eq!(df.pending_keys(), 1);
    match df.accept(key(7), &frags[1], 0) {
        DefragResult::Complete(v) => assert_eq!(v, d),
        other => panic!("unexpected {:?}", other),
    }
    assert_eq!(df.pending_keys(), 0);
}

#[test]
fn overflow_drops_only_that_key() {
    let d = datagram(40);
    let frags = pieces(&d, &[8, 16, 24, 32, 40]);
    let mut df = Defragmenter::new(3, 65535);
    assert!(matches!(df.accept(key(1), &frags[0], 0), DefragResult::Pending));
    assert!(matches!(df.accept(key(2), &frags[0], 0), DefragResult::Pending));
    assert!(matches!(df.accept(key(1), &frags[1], 0), DefragResult::Pending));
    assert!(matches!(df.accept(key(1), &frags[2], 0), DefragResult::Pending));
    assert!(matches!(
        df.accept(key(1), &frags[3], 0),
        DefragResult::Dropped(DropReason::TooManyFragments)
    ));
    assert_eq!(df.overflow_count(), 1);
    assert_eq!(df.pending_keys(), 1);
    // key 2 still assembles
    let small = pieces(&d[..16], &[8, 16]);
    let mut df2 = Defragmenter::new(3, 65535);
    assert!(matches!(df2.accept(key(2), &small[0], 0), DefragResult::Pending));
    assert!(matches!(df2.accept(key(9), &frags[0], 0), DefragResult::Pending));
    assert!(matches!(
        df2.accept(key(9), &Fragment { offset: 70000, more: true, data: vec![1] }, 0),
        DefragResult::Dropped(DropReason::TooManyBytes)
    ));
    match df2.accept(key(2), &small[1], 0) {
        DefragResult::Complete(v) => assert_eq!(v, d[..16].to_vec()),
        other => panic!("unexpected {:?}", other),
    }
}

#[test]
fn idle_buffers_expire() {
    let d = datagram(24);
    let frags = pieces(&d, &[8, 16, 24]);
    let mut df = Defragmenter::new(64, 65535);
    assert!(matches!(df.accept(key(1), &frags[0], 10), DefragResult::Pending));
    assert!(matches!(df.accept(key(2), &frags[0], 50), DefragResult::Pending));
    assert_eq!(df.expire(35, 30), 0);
    assert_eq!(df.expire(45, 30), 1);
    assert_eq!(df.pending_keys(), 1);
    assert!(matches!(df.accept(key(1), &frags[1], 60), DefragResult::Pending));
    assert!(matches!(df.accept(key(2), &frags[1], 60), DefragResult::Pending));
    match df.accept(key(2), &frags[2], 61) {
        DefragResult::Complete(v) => assert_eq!(v, d),
        other => panic!("unexpected {:?}", other),
    }
}
