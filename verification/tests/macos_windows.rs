use network_utils::macos::{
    pcb_fallback_path, pcb_lookup_result, pcb_record_size, pcblist_payload, pidfd_socket_is, process_filter_uid,
    scan_pcblist,
    struct_size_for_release, PcbScan,
};
use network_utils::model::{IpAddress, NetWorkTuple, Network, ProcessError};
use network_utils::windows::{
    get_address_family, ppid_from_snapshot, process_path_from_module_name, process_path_precheck,
    search_table_for, search_tcp_v4_pid, search_tcp_v6_pid, search_udp_v4_pid, search_udp_v6_pid,
    table_data_query_outcome, table_size_query_outcome, AF_INET, AF_INET6,
};

struct Rec {
    port: u16,
    flag: u8,
    v4: [u8; 4],
    v6: [u8; 16],
    pid: u32,
}

fn pcblist(size: usize, recs: &[Rec]) -> Vec<u8> {
    let mut b = vec![0xeeu8; 24];
    for r in recs {
        let mut rec = vec![0u8; size];
        rec[18..20].copy_from_slice(&r.port.to_be_bytes());
        rec[44] = r.flag;
        rec[64..80].copy_from_slice(&r.v6);
        if r.flag & 1 != 0 {
            rec[76..80].copy_from_slice(&r.v4);
        }
        rec[172..176].copy_from_slice(&r.pid.to_le_bytes());
        b.extend_from_slice(&rec);
    }
    b
}

fn udp(ip: IpAddress, port: u16) -> NetWorkTuple {
    NetWorkTuple { network: Network::Udp, src_ip: ip, src_port: port, dst_ip: ip, dst_port: 0 }
}

#[test]
fn record_sizes_follow_release() {
    assert_eq!(struct_size_for_release("22.1.0"), 408);
    assert_eq!(struct_size_for_release("23"), 408);
    assert_eq!(struct_size_for_release("21.6.0"), 384);
    assert_eq!(struct_size_for_release("abc.1"), 384);
    assert_eq!(struct_size_for_release(""), 384);
    assert_eq!(struct_size_for_release("-30.0"), 384);
    assert_eq!(pcb_record_size(Network::Tcp, "22.1.0"), 616);
    assert_eq!(pcb_record_size(Network::Tcp, "20.1.0"), 592);
    assert_eq!(pcb_record_size(Network::Udp, "24.0.0"), 408);
}

#[test]
fn pcblist_payload_needs_struct_data() {
    assert_eq!(pcblist_payload(Some(vec![1, 2])).unwrap(), vec![1, 2]);
    for v in [None, Some(vec![])] {
        match pcblist_payload(v) {
            Err(ProcessError::InvalidData(m)) => assert_eq!(m, "Expected struct data from sysctl"),
            other => panic!("unexpected {:?}", other),
        }
    }
}

#[test]
fn scan_finds_first_matching_tcp_record() {
    let t = NetWorkTuple::new(IpAddress::V4([192, 168, 1, 5]), 8080);
    let buf = pcblist(592, &[
        Rec { port: 8080, flag: 1, v4: [192, 168, 1, 6], v6: [0; 16], pid: 10 },
        Rec { port: 80, flag: 1, v4: [192, 168, 1, 5], v6: [0; 16], pid: 11 },
        Rec { port: 8080, flag: 2, v4: [0; 4], v6: [0; 16], pid: 12 },
        Rec { port: 8080, flag: 1, v4: [192, 168, 1, 5], v6: [0; 16], pid: 13 },
        Rec { port: 8080, flag: 1, v4: [192, 168, 1, 5], v6: [0; 16], pid: 14 },
    ]);
    let scan = scan_pcblist(&buf, &t, 592);
    assert_eq!(scan.owner, Some(13));
    assert!(scan.wildcard_pids.is_empty());
    assert_eq!(pcb_lookup_result(&t, &scan, &vec![]).unwrap(), 13);
}

#[test]
fn scan_ignores_a_record_cut_short() {
    let t = NetWorkTuple::new(IpAddress::V4([1, 1, 1, 1]), 53);
    let mut buf = pcblist(592, &[Rec { port: 53, flag: 1, v4: [1, 1, 1, 1], v6: [0; 16], pid: 7 }]);
    buf.truncate(24 + 591);
    let scan = scan_pcblist(&buf, &t, 592);
    assert_eq!(scan.owner, None);
    assert!(matches!(pcb_lookup_result(&t, &scan, &vec![]), Err(ProcessError::NotFound)));
}

#[test]
fn scan_matches_ipv6() {
    let mut v6 = [0u8; 16];
    v6[0] = 0xfe;
    v6[15] = 9;
    let t = NetWorkTuple::new(IpAddress::V6(v6), 443);
    let buf = pcblist(616, &[
        Rec { port: 443, flag: 1, v4: [0, 0, 0, 9], v6, pid: 1 },
        Rec { port: 443, flag: 3, v4: [0, 0, 0, 9], v6, pid: 2 },
    ]);
    // The first record has only the IPv4 flag, so it is not read as IPv6.
    assert_eq!(scan_pcblist(&buf, &t, 616).owner, Some(2));
}

#[test]
fn udp_wildcard_fallback() {
    let t = udp(IpAddress::V4([10, 0, 0, 7]), 5353);
    let buf = pcblist(408, &[
        Rec { port: 5353, flag: 1, v4: [0, 0, 0, 0], v6: [0; 16], pid: 300 },
        Rec { port: 5353, flag: 1, v4: [10, 0, 0, 8], v6: [0; 16], pid: 301 },
        Rec { port: 5353, flag: 1, v4: [0, 0, 0, 0], v6: [0; 16], pid: 302 },
    ]);
    let scan = scan_pcblist(&buf, &t, 408);
    assert_eq!(scan.owner, None);
    assert_eq!(scan.wildcard_pids, vec![300, 302]);
    let paths = vec![Some("/usr/sbin/mDNSResponder".to_string()), None];
    assert_eq!(pcb_lookup_result(&t, &scan, &paths).unwrap(), 0);
    assert_eq!(pcb_fallback_path(&t, &scan, &paths), Some("/usr/sbin/mDNSResponder".to_string()));
    assert_eq!(pcb_fallback_path(&t, &scan, &vec![None, None]), None);
    assert!(matches!(pcb_lookup_result(&t, &scan, &vec![None, None]), Err(ProcessError::NotFound)));
    assert!(matches!(
        pcb_lookup_result(&t, &scan, &vec![Some("/a".to_string()), Some(String::new())]),
        Err(ProcessError::NotFound)
    ));
}

#[test]
fn exact_udp_match_wins_over_wildcard() {
    let t = udp(IpAddress::V4([10, 0, 0, 7]), 5353);
    let buf = pcblist(408, &[
        Rec { port: 5353, flag: 1, v4: [0, 0, 0, 0], v6: [0; 16], pid: 300 },
        Rec { port: 5353, flag: 1, v4: [10, 0, 0, 7], v6: [0; 16], pid: 301 },
    ]);
    let scan = scan_pcblist(&buf, &t, 408);
    assert_eq!(scan.owner, Some(301));
    assert_eq!(scan.wildcard_pids, vec![300]);
    assert_eq!(pcb_lookup_result(&t, &scan, &vec![Some("/x".to_string())]).unwrap(), 301);
}

#[test]
fn tcp_collects_no_wildcards() {
    let t = NetWorkTuple::new(IpAddress::V4([10, 0, 0, 7]), 80);
    let buf = pcblist(592, &[Rec { port: 80, flag: 1, v4: [0, 0, 0, 0], v6: [0; 16], pid: 5 }]);
    let scan = scan_pcblist(&buf, &t, 592);
    assert_eq!(scan.owner, None);
    assert!(scan.wildcard_pids.is_empty());
    let forced = PcbScan { owner: None, wildcard_pids: vec![5] };
    assert!(matches!(pcb_lookup_result(&t, &forced, &vec![Some("/bin/x".to_string())]), Err(ProcessError::NotFound)));
}

#[test]
fn pidfd_socket_matching() {
    // Port 8080 (0x1f90) stored in network order reads as 0x901f on a
    // little-endian machine; 127.0.0.1 stored in network order reads as
    // 0x0100007f.
    assert!(pidfd_socket_is(0x901f, 1, 0x0100_007f, [0; 16], &IpAddress::V4([127, 0, 0, 1]), 8080));
    assert!(!pidfd_socket_is(0x1f90, 1, 0x0100_007f, [0; 16], &IpAddress::V4([127, 0, 0, 1]), 8080));
    assert!(!pidfd_socket_is(0x901f, 0, 0x0100_007f, [0; 16], &IpAddress::V4([127, 0, 0, 1]), 8080));
    let v6 = [3u8; 16];
    assert!(pidfd_socket_is(0x901f, 2, 0, v6, &IpAddress::V6(v6), 8080));
    assert!(!pidfd_socket_is(0x901f, 2, 0, v6, &IpAddress::V4([3, 3, 3, 3]), 8080));
}

fn table(row_size: usize, rows: &[(usize, &[u8], usize, u16, usize, u32)], count: u32) -> Vec<u8> {
    let mut b = count.to_le_bytes().to_vec();
    for (addr_off, addr, port_off, port, pid_off, pid) in rows {
        let mut r = vec![0u8; row_size];
        r[*addr_off..*addr_off + addr.len()].copy_from_slice(addr);
        r[*port_off..*port_off + 2].copy_from_slice(&port.to_be_bytes());
        r[*pid_off..*pid_off + 4].copy_from_slice(&pid.to_le_bytes());
        b.extend_from_slice(&r);
    }
    b
}

#[test]
fn windows_address_family() {
    assert_eq!(get_address_family(&NetWorkTuple::new(IpAddress::V4([1, 2, 3, 4]), 1)), AF_INET);
    assert_eq!(get_address_family(&NetWorkTuple::new(IpAddress::V6([0; 16]), 1)), AF_INET6);
    assert_eq!(AF_INET, 2);
    assert_eq!(AF_INET6, 23);
}

#[test]
fn windows_table_query_outcomes() {
    assert!(table_size_query_outcome(0).is_ok());
    assert!(table_size_query_outcome(122).is_ok());
    assert!(matches!(table_size_query_outcome(87), Err(ProcessError::NotFound)));
    assert_eq!(table_data_query_outcome(0, vec![1, 2, 3]).unwrap(), vec![1, 2, 3]);
    assert!(matches!(table_data_query_outcome(122, vec![1]), Err(ProcessError::NotFound)));
}

#[test]
fn windows_tcp_v4_search() {
    let a: &[u8] = &[127, 0, 0, 1];
    let b: &[u8] = &[127, 0, 0, 2];
    let t = table(24, &[(4, b, 8, 80, 20, 1), (4, a, 8, 81, 20, 2), (4, a, 8, 80, 20, 3), (4, a, 8, 80, 20, 4)], 4);
    assert_eq!(search_tcp_v4_pid(&t, [127, 0, 0, 1], 80).unwrap(), 3);
    assert!(matches!(search_tcp_v4_pid(&t, [127, 0, 0, 9], 80), Err(ProcessError::NotFound)));
    // Rows past the entry count are not read.
    let t2 = table(24, &[(4, b, 8, 80, 20, 1), (4, a, 8, 80, 20, 3)], 1);
    assert!(matches!(search_tcp_v4_pid(&t2, [127, 0, 0, 1], 80), Err(ProcessError::NotFound)));
    // A count beyond the buffer stops at the last whole row.
    let t3 = table(24, &[(4, a, 8, 80, 20, 3)], 1000);
    assert_eq!(search_tcp_v4_pid(&t3, [127, 0, 0, 1], 80).unwrap(), 3);
    assert!(matches!(search_tcp_v4_pid(&[1, 0], [127, 0, 0, 1], 80), Err(ProcessError::NotFound)));
}

#[test]
fn windows_other_table_searches() {
    let v6 = [9u8; 16];
    let t6 = table(56, &[(0, &v6, 20, 443, 52, 77)], 1);
    assert_eq!(search_tcp_v6_pid(&t6, v6, 443).unwrap(), 77);
    assert!(matches!(search_tcp_v6_pid(&t6, v6, 444), Err(ProcessError::NotFound)));
    let u4 = table(12, &[(0, &[8, 8, 8, 8], 4, 53, 8, 88)], 1);
    assert_eq!(search_udp_v4_pid(&u4, [8, 8, 8, 8], 53).unwrap(), 88);
    let u6 = table(28, &[(0, &v6, 20, 5353, 24, 99)], 1);
    assert_eq!(search_udp_v6_pid(&u6, v6, 5353).unwrap(), 99);
    assert!(matches!(search_udp_v6_pid(&u6, [0; 16], 5353), Err(ProcessError::NotFound)));
}

#[test]
fn windows_parent_from_snapshot() {
    let entries = vec![(4, 0), (100, 4), (200, 100), (100, 7)];
    assert_eq!(ppid_from_snapshot(&entries, 200).unwrap(), 100);
    assert_eq!(ppid_from_snapshot(&entries, 100).unwrap(), 4);
    assert!(matches!(ppid_from_snapshot(&entries, 300), Err(ProcessError::NotFound)));
    assert!(matches!(ppid_from_snapshot(&vec![], 1), Err(ProcessError::NotFound)));
}

#[test]
fn windows_process_path() {
    assert!(process_path_precheck(4).is_ok());
    match process_path_precheck(0) {
        Err(ProcessError::NameReadError(m)) => assert_eq!(m, "Invalid or current process PID: 0"),
        other => panic!("unexpected {:?}", other),
    }
    let mut name = [0u16; 1024];
    let path: Vec<u16> = "C:\\Windows\\explorer.exe 漢😀".encode_utf16().collect();
    name[..path.len()].copy_from_slice(&path);
    assert_eq!(
        process_path_from_module_name(1234, &name, path.len() as u32).unwrap(),
        "C:\\Windows\\explorer.exe 漢😀"
    );
    match process_path_from_module_name(1234, &name, 0) {
        Err(ProcessError::NameReadError(m)) => assert_eq!(m, "Failed to read process name for PID 1234"),
        other => panic!("unexpected {:?}", other),
    }
    assert_eq!(
        String::from_utf16(&[0xd800, 0x41]).unwrap_err().to_string(),
        "invalid utf-16: lone surrogate found"
    );
    name[0] = 0xd800;
    name[1] = 0x41;
    match process_path_from_module_name(56, &name, 2) {
        Err(ProcessError::NameReadError(m)) => {
            assert_eq!(m, "UTF-16 conversion failed for PID 56: invalid utf-16: lone surrogate found")
        }
        other => panic!("unexpected {:?}", other),
    }
}

#[test]
fn irrelevant_records_do_not_change_the_scan() {
    let t = udp(IpAddress::V4([10, 0, 0, 7]), 5353);
    let base = [
        Rec { port: 5353, flag: 1, v4: [0, 0, 0, 0], v6: [0; 16], pid: 300 },
        Rec { port: 9, flag: 1, v4: [10, 0, 0, 7], v6: [0; 16], pid: 1 },
        Rec { port: 5353, flag: 1, v4: [10, 0, 0, 7], v6: [0; 16], pid: 301 },
    ];
    let a = pcblist(408, &base);
    let mut b = a.clone();
    // Change the second record (another port) everywhere but its port.
    for i in 24 + 408..24 + 2 * 408 {
        if i != 24 + 408 + 18 && i != 24 + 408 + 19 {
            b[i] = 0x5a;
        }
    }
    let (sa, sb) = (scan_pcblist(&a, &t, 408), scan_pcblist(&b, &t, 408));
    assert_eq!(sa.owner, sb.owner);
    assert_eq!(sa.wildcard_pids, sb.wildcard_pids);
    // A record lacking the IPv4 bit is skipped whatever else it holds.
    let c = pcblist(408, &[Rec { port: 5353, flag: 2, v4: [10, 0, 0, 7], v6: [0; 16], pid: 5 }]);
    assert_eq!(scan_pcblist(&c, &t, 408).owner, None);
}

#[test]
fn process_filter_choice() {
    assert_eq!(process_filter_uid(0), None);
    assert_eq!(process_filter_uid(501), Some(501));
}

#[test]
fn windows_search_by_protocol_and_family() {
    let v6 = [9u8; 16];
    let t4 = table(24, &[(4, &[1, 2, 3, 4], 8, 80, 20, 11)], 1);
    let u4 = table(12, &[(0, &[1, 2, 3, 4], 4, 80, 8, 12)], 1);
    let t6 = table(56, &[(0, &v6, 20, 80, 52, 13)], 1);
    let u6 = table(28, &[(0, &v6, 20, 80, 24, 14)], 1);
    let tcp4 = NetWorkTuple::new(IpAddress::V4([1, 2, 3, 4]), 80);
    let tcp6 = NetWorkTuple::new(IpAddress::V6(v6), 80);
    assert_eq!(search_table_for(&tcp4, &t4).unwrap(), 11);
    assert_eq!(search_table_for(&udp(IpAddress::V4([1, 2, 3, 4]), 80), &u4).unwrap(), 12);
    assert_eq!(search_table_for(&tcp6, &t6).unwrap(), 13);
    assert_eq!(search_table_for(&udp(IpAddress::V6(v6), 80), &u6).unwrap(), 14);
    // A UDP table is not read with the TCP layout.
    assert!(matches!(search_table_for(&tcp4, &u4), Err(ProcessError::NotFound)));
}
