use pako_core::tcp_reassembly::{reassemble, StreamBuffer, StreamSegment, TcpDirection, TcpSegment, TcpState};

fn stream(n: usize) -> Vec<u8> {
    (0..n).map(|i| (i * 13 + 1) as u8).collect()
}

fn seg(s: &[u8], a: usize, b: usize) -> StreamSegment {
    StreamSegment { offset: a as u64, data: s[a..b].to_vec() }
}

#[test]
fn reassemble_reordered_with_duplicates() {
    let s = stream(50);
    let segs = vec![
        seg(&s, 20, 30),
        seg(&s, 0, 10),
        seg(&s, 40, 50),
        seg(&s, 0, 10),
        seg(&s, 10, 20),
        seg(&s, 20, 30),
        seg(&s, 30, 40),
        seg(&s, 15, 25),
    ];
    assert_eq!(reassemble(segs, 1000), s);
}

#[test]
fn reassemble_with_gap_is_prefix() {
    let s = stream(30);
    let segs = vec![seg(&s, 0, 10), seg(&s, 20, 30)];
    assert_eq!(reassemble(segs, 1000), s[..10].to_vec());
}

#[test]
fn push_delivers_in_order_and_drops_retransmissions() {
    let s = stream(30);
    let mut b = StreamBuffer::new(100);
    assert!(b.push(seg(&s, 10, 20)).is_empty());
    assert_eq!(b.buffered_bytes(), 10);
    assert_eq!(b.push(seg(&s, 0, 10)), s[..20].to_vec());
    assert_eq!(b.next_offset(), 20);
    assert_eq!(b.buffered_bytes(), 0);
    assert!(b.push(seg(&s, 5, 15)).is_empty());
    assert_eq!(b.push(seg(&s, 15, 30)), s[20..30].to_vec());
    assert!(!b.has_lost_data());
}

#[test]
fn forced_flush_skips_gap_and_records_loss() {
    let s = stream(40);
    let mut b = StreamBuffer::new(10);
    assert!(b.push(seg(&s, 10, 18)).is_empty());
    let out = b.push(seg(&s, 30, 40));
    assert!(b.has_lost_data());
    assert_eq!(out, s[10..18].to_vec());
    assert!(b.buffered_bytes() <= 10);
}

fn tcp(seq: u32, flags: &str, data: &[u8]) -> TcpSegment {
    TcpSegment {
        seq,
        syn: flags.contains('S'),
        fin: flags.contains('F'),
        rst: flags.contains('R'),
        data: data.to_vec(),
    }
}

#[test]
fn direction_state_machine() {
    let mut d = TcpDirection::new(1000);
    assert_eq!(d.current_state(), TcpState::Init);
    assert!(d.accept(tcp(u32::MAX, "S", &[])).is_empty());
    assert_eq!(d.current_state(), TcpState::Streaming);
    assert!(d.accept(tcp(5, "", b"world")).is_empty());
    assert_eq!(d.accept(tcp(0, "", b"hel")), b"hel".to_vec());
    assert_eq!(d.accept(tcp(3, "", b"lo")), b"loworld".to_vec());
    assert_eq!(d.accept(tcp(10, "F", b"!")), b"!".to_vec());
    assert_eq!(d.current_state(), TcpState::FinSeen);
    assert!(d.accept(tcp(11, "R", b"x")).is_empty());
    assert_eq!(d.current_state(), TcpState::Closed);
    assert!(d.accept(tcp(9, "", b"late")).is_empty());
}

#[test]
fn direction_without_syn_starts_at_first_segment() {
    let mut d = TcpDirection::new(1000);
    assert_eq!(d.accept(tcp(500, "", b"abc")), b"abc".to_vec());
    assert_eq!(d.accept(tcp(503, "", b"def")), b"def".to_vec());
    assert_eq!(d.buffered_bytes(), 0);
}
