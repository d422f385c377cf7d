use pako_core::capture_info::{
    pcapng_build_interface, CaptureError, FileType, InterfaceInfo, InterfaceOption, NameRecordKind, PcapInfo,
    OPTION_IF_TSOFFSET, OPTION_IF_TSRESOL,
};

#[test]
fn interface_defaults_to_microseconds() {
    let info = pcapng_build_interface(1, 65535, &Vec::new());
    assert_eq!(info.link_type, 1);
    assert_eq!(info.snaplen, 65535);
    assert_eq!(info.if_tsresol, 6);
    assert_eq!(info.ts_unit, 1_000_000);
    assert_eq!(info.if_tsoffset, 0);
}

#[test]
fn interface_options_set_resolution_and_offset() {
    let opts = vec![
        InterfaceOption { code: OPTION_IF_TSRESOL, value: vec![9] },
        InterfaceOption { code: OPTION_IF_TSOFFSET, value: vec![0x10, 0x02, 0, 0, 0, 0, 0, 0] },
        InterfaceOption { code: 2, value: vec![1, 2, 3] },
    ];
    let info = pcapng_build_interface(228, 0, &opts);
    assert_eq!(info.if_tsresol, 9);
    assert_eq!(info.ts_unit, 1_000_000_000);
    assert_eq!(info.if_tsoffset, 0x0210);
}

#[test]
fn interface_power_of_two_resolution_keeps_unit() {
    let opts = vec![InterfaceOption { code: OPTION_IF_TSRESOL, value: vec![0x8A] }];
    let info = pcapng_build_interface(1, 0, &opts);
    assert_eq!(info.if_tsresol, 0x8A);
    assert_eq!(info.ts_unit, 1_000_000);
    let opts = vec![InterfaceOption { code: OPTION_IF_TSRESOL, value: vec![3] }];
    assert_eq!(pcapng_build_interface(1, 0, &opts).ts_unit, 1000);
    let opts = vec![InterfaceOption { code: OPTION_IF_TSRESOL, value: vec![20] }];
    assert_eq!(pcapng_build_interface(1, 0, &opts).ts_unit, 1_000_000);
}

fn with_interface(unit: u64, resol: u8) -> PcapInfo {
    let mut p = PcapInfo::new();
    p.is_pcapng = true;
    p.add_interface(InterfaceInfo { ts_unit: unit, if_tsresol: resol, snaplen: 100, ..InterfaceInfo::default() });
    p
}

#[test]
fn enhanced_packets_update_times_and_counts() {
    let mut p = with_interface(1_000_000, 6);
    assert_eq!(p.file_type(), FileType::PcapNG);
    let ts: u64 = 1_700_000_000 * 1_000_000 + 250_000;
    p.record_enhanced_packet(0, (ts >> 32) as u32, ts as u32, 60, 64).unwrap();
    assert_eq!(p.first_packet_ts, (1_700_000_000, 250_000_000));
    let ts2 = ts + 1_500_000;
    p.record_enhanced_packet(0, (ts2 >> 32) as u32, ts2 as u32, 40, 40).unwrap();
    assert_eq!(p.last_packet_ts, (1_700_000_001, 750_000_000));
    assert_eq!(p.packet_index, 2);
    assert_eq!(p.data_bytes, 100);
    assert_eq!(p.interfaces[0].num_packets, 2);
    assert!(p.strict_time_order);
    assert_eq!(p.capture_duration_nanos(), 1_500_000_000);
    p.record_enhanced_packet(0, (ts >> 32) as u32, ts as u32, 1, 1).unwrap();
    assert!(!p.strict_time_order);
    assert_eq!(p.record_enhanced_packet(3, 0, 0, 1, 1), Err(CaptureError::UnknownInterface));
    assert_eq!(p.record_enhanced_packet(0, 0, 0, 10, 5), Err(CaptureError::BadCaptureLength));
}

#[test]
fn legacy_and_simple_packets() {
    let mut p = with_interface(1_000_000, 6);
    assert_eq!(p.file_type(), FileType::PcapNG);
    p.record_legacy_packet(10, 999_999, 20, 20).unwrap();
    assert_eq!(p.previous_packet_ts, (10, 999_999_000));
    assert_eq!(p.record_legacy_packet(10, 1_000_000, 20, 20), Err(CaptureError::BadTimestamp));
    p.record_simple_packet(500).unwrap();
    assert_eq!(p.data_bytes, 120);
    assert_eq!(PcapInfo::new().record_simple_packet(5), Err(CaptureError::UnknownInterface));
}

#[test]
fn other_blocks_are_counted() {
    let mut p = with_interface(1_000_000, 6);
    p.record_name_records(&vec![NameRecordKind::Ipv4, NameRecordKind::Ipv6, NameRecordKind::Ipv4, NameRecordKind::Other(7), NameRecordKind::End]);
    assert_eq!(p.num_ipv4_resolved, 2);
    assert_eq!(p.num_ipv6_resolved, 1);
    assert_eq!(p.num_invalid_records, 1);
    p.record_interface_statistics(0).unwrap();
    assert_eq!(p.interfaces[0].num_stats, 1);
    assert_eq!(p.record_interface_statistics(1), Err(CaptureError::UnknownInterface));
    p.record_secrets();
    p.record_custom();
    p.record_custom();
    assert_eq!(p.num_secrets_blocks, 1);
    assert_eq!(p.num_custom_blocks, 2);
}

#[test]
fn update_time_tracks_order() {
    let mut p = PcapInfo::new();
    p.update_time(5, 0);
    p.update_time(7, 0);
    p.update_time(6, 0);
    assert_eq!(p.first_packet_ts, (5, 0));
    assert_eq!(p.last_packet_ts, (7, 0));
    assert!(!p.strict_time_order);
    p.update_time(4, 0);
    assert_eq!(p.first_packet_ts, (4, 0));
}

#[test]
fn failed_records_leave_statistics_unchanged() {
    let mut p = with_interface(1_000_000, 6);
    p.record_legacy_packet(10, 0, 20, 20).unwrap();
    let before = (p.packet_index, p.data_bytes, p.first_packet_ts, p.last_packet_ts, p.interfaces[0]);
    assert_eq!(p.record_enhanced_packet(0, 0, 0, 30, 10), Err(CaptureError::BadCaptureLength));
    assert_eq!(p.record_legacy_packet(11, 2_000_000, 1, 1), Err(CaptureError::BadTimestamp));
    assert_eq!(p.record_interface_statistics(7), Err(CaptureError::UnknownInterface));
    assert_eq!((p.packet_index, p.data_bytes, p.first_packet_ts, p.last_packet_ts, p.interfaces[0]), before);
}

#[test]
fn simple_packet_over_snaplen_counts_snaplen() {
    let mut p = with_interface(1_000_000, 6);
    p.record_simple_packet(150).unwrap();
    assert_eq!(p.data_bytes, 100);
    assert_eq!(p.packet_index, 1);
    assert_eq!(p.interfaces[0].num_packets, 1);
    assert_eq!(p.first_packet_ts, (0, 0));
}

#[test]
fn first_and_last_do_not_depend_on_order() {
    let stamps = [(5i64, 1i64), (3, 9), (7, 0), (3, 9), (5, 1)];
    let mut a = PcapInfo::new();
    for &(s, n) in stamps.iter() {
        a.update_time(s, n);
    }
    let mut b = PcapInfo::new();
    for &(s, n) in stamps.iter().rev() {
        b.update_time(s, n);
    }
    assert_eq!(a.first_packet_ts, (3, 9));
    assert_eq!(a.last_packet_ts, (7, 0));
    assert_eq!((a.first_packet_ts, a.last_packet_ts), (b.first_packet_ts, b.last_packet_ts));
    assert_eq!(a.capture_duration_nanos(), b.capture_duration_nanos());
}
