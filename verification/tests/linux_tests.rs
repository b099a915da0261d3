use netlink_packet_core::{DoneMessage, NetlinkHeader, NetlinkMessage, NetlinkPayload};
use netlink_packet_sock_diag::inet::{InetResponse, InetResponseHeader, SocketId};
use netlink_packet_sock_diag::SockDiagMessage;
use network_utils::linux::{
    address_field_of, is_candidate_proc_entry, is_valid_pid, netlink_request, netlink_step,
    owner_answer, pid_for_socket_link, ppid_from_stat, socket_link_target, NetlinkStep, IPPROTO_TCP, IPPROTO_UDP,
};
use network_utils::linux::{DUMP_REQUEST_FLAGS, EXTENSION_INFO, FAMILY_INET, FAMILY_INET6, STATE_ESTABLISHED};
use network_utils::model::{IpAddress, NetWorkTuple, Network, ProcessError};

fn reply(family: u8, port: u16, addr: [u8; 16], inode: u32, uid: u32) -> Vec<u8> {
    let mut socket_id = if family == 2 { SocketId::new_v4() } else { SocketId::new_v6() };
    socket_id.source_port = port;
    socket_id.source_address = if family == 2 {
        [addr[0], addr[1], addr[2], addr[3]].into()
    } else {
        addr.into()
    };
    let header = InetResponseHeader {
        family,
        state: 1,
        timer: None,
        socket_id,
        recv_queue: 0,
        send_queue: 0,
        uid,
        inode,
    };
    let response = InetResponse { header, nlas: Default::default() };
    let mut packet = NetlinkMessage::new(
        NetlinkHeader::default(),
        NetlinkPayload::InnerMessage(SockDiagMessage::InetResponse(Box::new(response))),
    );
    packet.finalize();
    let mut buf = vec![0u8; packet.header.length as usize];
    packet.serialize(&mut buf[..]);
    buf
}

fn done_message() -> Vec<u8> {
    let mut packet = NetlinkMessage::<SockDiagMessage>::new(
        NetlinkHeader::default(),
        NetlinkPayload::Done(DoneMessage::default()),
    );
    packet.finalize();
    let mut buf = vec![0u8; packet.header.length as usize];
    packet.serialize(&mut buf[..]);
    buf
}

fn v4_field(a: [u8; 4]) -> [u8; 16] {
    let mut f = [0u8; 16];
    f[..4].copy_from_slice(&a);
    f
}

#[test]
fn valid_pid_names() {
    assert!(is_valid_pid(b"1"));
    assert!(is_valid_pid(b"0"));
    assert!(is_valid_pid(b"4294967295"));
    assert!(is_valid_pid(b"1234567890"));
    assert!(!is_valid_pid(b""));
    assert!(!is_valid_pid(b"01"));
    assert!(!is_valid_pid(b"12345678901"));
    assert!(!is_valid_pid(b"self"));
    assert!(!is_valid_pid(b"12a"));
}

#[test]
fn kernel_pid_names_are_accepted() {
    for pid in [0u32, 1, 10, 300, 99999, u32::MAX] {
        assert!(is_valid_pid(pid.to_string().as_bytes()));
    }
}

#[test]
fn candidate_entries() {
    assert!(is_candidate_proc_entry(b"42", true, Some(1000), 1000));
    assert!(!is_candidate_proc_entry(b"42", false, Some(1000), 1000));
    assert!(!is_candidate_proc_entry(b"42", true, Some(0), 1000));
    assert!(!is_candidate_proc_entry(b"42", true, None, 1000));
    assert!(!is_candidate_proc_entry(b"net", true, Some(1000), 1000));
}

#[test]
fn socket_link_targets() {
    assert_eq!(socket_link_target(12345), b"socket:[12345]".to_vec());
    assert_eq!(socket_link_target(0), b"socket:[0]".to_vec());
    assert_eq!(socket_link_target(u32::MAX), b"socket:[4294967295]".to_vec());
    assert_ne!(socket_link_target(12), socket_link_target(123));
}

#[test]
fn socket_link_gives_directory_pid() {
    assert_eq!(pid_for_socket_link("4321", b"socket:[777]", 777), Some(4321));
    assert_eq!(pid_for_socket_link("4321", b"socket:[778]", 777), None);
    assert_eq!(pid_for_socket_link("4321", b"pipe:[777]", 777), None);
    assert_eq!(pid_for_socket_link("9999999999", b"socket:[777]", 777), None);
}

#[test]
fn ppid_from_stat_reads_fourth_field() {
    let r = ppid_from_stat("1234 (bash) S 1000 1234 1234 34816 0 4194560\n");
    assert_eq!(r.unwrap(), 1000);
    assert_eq!(ppid_from_stat("1 (systemd) S 0 1 1").unwrap(), 0);
}

#[test]
fn ppid_from_short_stat_is_not_found() {
    assert!(matches!(ppid_from_stat("1234 (bash) S"), Err(ProcessError::NotFound)));
    assert!(matches!(ppid_from_stat(""), Err(ProcessError::NotFound)));
}

#[test]
fn ppid_from_stat_skips_the_process_name() {
    assert_eq!(ppid_from_stat("42 (a b 9 c) S 7 42 42 0 -1").unwrap(), 7);
    assert_eq!(ppid_from_stat("5 (x) y) S 9 5").unwrap(), 9);
    assert_eq!(ppid_from_stat("1234 (my prog) S 1000").unwrap(), 1000);
    assert_eq!(ppid_from_stat("7 (tab\tname) R\t3\n").unwrap(), 3);
}

#[test]
fn ppid_without_name_reads_fourth_field() {
    assert_eq!(ppid_from_stat("1 2 3 4").unwrap(), 4);
    assert_eq!(ppid_from_stat("1 2 3 4 5").unwrap(), 4);
    assert!(matches!(ppid_from_stat("1 2 3"), Err(ProcessError::NotFound)));
    match ppid_from_stat("1 2 3 x") {
        Err(ProcessError::InvalidData(m)) => assert_eq!(m, "Failed to parse PPID"),
        other => panic!("unexpected {:?}", other),
    }
    // Fewer than two fields after the name: the fourth field of the text.
    assert!(matches!(ppid_from_stat("1 (x) S"), Err(ProcessError::NotFound)));
    assert!(matches!(ppid_from_stat("1 (x y) S"), Err(ProcessError::InvalidData(_))));
}

#[test]
fn owner_answers() {
    assert_eq!(owner_answer(5, Some(77)).unwrap(), 77);
    assert!(matches!(owner_answer(5, None), Err(ProcessError::NotFound)));
    assert!(matches!(owner_answer(0, Some(77)), Err(ProcessError::NotFound)));
}

#[test]
fn ppid_from_bad_field_is_invalid_data() {
    match ppid_from_stat("1234 (x) S abc 1") {
        Err(ProcessError::InvalidData(m)) => assert_eq!(m, "Failed to parse PPID"),
        other => panic!("unexpected {:?}", other),
    }
}

#[test]
fn address_fields() {
    assert_eq!(address_field_of(&IpAddress::V4([1, 2, 3, 4])), v4_field([1, 2, 3, 4]));
    let v6 = [7u8; 16];
    assert_eq!(address_field_of(&IpAddress::V6(v6)), v6);
}

#[test]
fn netlink_request_names_the_socket() {
    for (network, protocol) in [(Network::Tcp, IPPROTO_TCP), (Network::Udp, IPPROTO_UDP)] {
        let t = NetWorkTuple {
            network,
            src_ip: IpAddress::V4([127, 0, 0, 1]),
            src_port: 8080,
            dst_ip: IpAddress::V4([10, 0, 0, 1]),
            dst_port: 443,
        };
        let bytes = netlink_request(&t);
        assert_eq!(bytes.len(), 72);
        assert_eq!(u32::from_ne_bytes([bytes[0], bytes[1], bytes[2], bytes[3]]) as usize, bytes.len());
        assert_eq!(u16::from_ne_bytes([bytes[4], bytes[5]]), netlink_packet_sock_diag::SOCK_DIAG_BY_FAMILY);
        assert_eq!(
            u16::from_ne_bytes([bytes[6], bytes[7]]),
            netlink_packet_core::NLM_F_REQUEST | netlink_packet_core::NLM_F_DUMP
        );
        // The request payload: family, protocol, extensions, pad, states, socket id.
        let payload = &bytes[16..];
        assert_eq!(payload[0], 2);
        assert_eq!(payload[1], protocol);
        assert_eq!(payload[2], 2);
        assert_eq!(u32::from_ne_bytes([payload[4], payload[5], payload[6], payload[7]]), 2);
        assert_eq!(&payload[44..56], &[0u8; 12]);
        assert_eq!(&payload[8..10], &8080u16.to_be_bytes());
        assert_eq!(&payload[10..12], &443u16.to_be_bytes());
        assert_eq!(&payload[12..28], &v4_field([127, 0, 0, 1]));
        assert_eq!(&payload[28..44], &v4_field([10, 0, 0, 1]));
    }
}

fn buffer_of(parts: &[Vec<u8>], total: usize) -> (Vec<u8>, usize) {
    let mut buf = Vec::new();
    for p in parts {
        buf.extend_from_slice(p);
    }
    let size = buf.len();
    buf.resize(total, 0);
    (buf, size)
}

#[test]
fn netlink_step_finds_matching_reply() {
    let ip = IpAddress::V4([127, 0, 0, 1]);
    let (buf, size) = buffer_of(
        &[
            reply(2, 9000, v4_field([127, 0, 0, 1]), 11, 5),
            reply(2, 8080, v4_field([127, 0, 0, 2]), 12, 6),
            reply(2, 8080, v4_field([127, 0, 0, 1]), 13, 7),
        ],
        4096,
    );
    match netlink_step(&buf, size, 0, 8080, &ip) {
        Ok(NetlinkStep::Finished { inode, uid }) => {
            assert_eq!(inode, 13);
            assert_eq!(uid, 7);
        }
        other => panic!("unexpected {:?}", other),
    }
}

#[test]
fn netlink_step_matches_ipv6() {
    let mut v6 = [0u8; 16];
    v6[15] = 1;
    let (buf, size) = buffer_of(&[reply(10, 22, v6, 99, 0)], 4096);
    assert!(matches!(
        netlink_step(&buf, size, 0, 22, &IpAddress::V6(v6)),
        Ok(NetlinkStep::Finished { inode: 99, uid: 0 })
    ));
    // The same octets as an IPv4 address do not match an IPv6 reply.
    let (buf4, size4) = buffer_of(&[reply(10, 22, v4_field([1, 2, 3, 4]), 99, 0)], 4096);
    assert!(matches!(
        netlink_step(&buf4, size4, 0, 22, &IpAddress::V4([1, 2, 3, 4])),
        Ok(NetlinkStep::Receive { offset: 0 })
    ));
}

#[test]
fn netlink_step_asks_for_more_when_batch_ends() {
    let ip = IpAddress::V4([127, 0, 0, 1]);
    let (buf, size) = buffer_of(&[reply(2, 1, v4_field([127, 0, 0, 1]), 11, 5)], 4096);
    assert!(matches!(netlink_step(&buf, size, 0, 8080, &ip), Ok(NetlinkStep::Receive { offset: 0 })));
}

#[test]
fn netlink_step_rereads_match_with_zero_inode() {
    let ip = IpAddress::V4([127, 0, 0, 1]);
    let first = reply(2, 1, v4_field([127, 0, 0, 1]), 11, 5);
    let skip = first.len();
    let (buf, size) = buffer_of(&[first, reply(2, 8080, v4_field([127, 0, 0, 1]), 0, 5)], 4096);
    match netlink_step(&buf, size, 0, 8080, &ip) {
        Ok(NetlinkStep::Receive { offset }) => assert_eq!(offset, skip),
        other => panic!("unexpected {:?}", other),
    }
}

#[test]
fn netlink_step_reports_undecodable_reply() {
    let ip = IpAddress::V4([127, 0, 0, 1]);
    let buf = vec![0u8; 8];
    match netlink_step(&buf, 8, 0, 8080, &ip) {
        Err(ProcessError::IoError(e)) => assert_eq!(e.kind(), std::io::ErrorKind::InvalidData),
        other => panic!("unexpected {:?}", other),
    }
}

#[test]
fn netlink_step_reports_not_found_at_end_of_dump() {
    let ip = IpAddress::V4([127, 0, 0, 1]);
    let (buf, size) = buffer_of(&[reply(2, 1, v4_field([127, 0, 0, 1]), 11, 5), done_message()], 4096);
    assert!(matches!(netlink_step(&buf, size, 0, 8080, &ip), Ok(NetlinkStep::NotFound)));
    let (only_done, n) = buffer_of(&[done_message()], 4096);
    assert!(matches!(netlink_step(&only_done, n, 0, 8080, &ip), Ok(NetlinkStep::NotFound)));
    // A match before the end of the dump is still found.
    let (buf2, size2) = buffer_of(&[reply(2, 8080, v4_field([127, 0, 0, 1]), 11, 5), done_message()], 4096);
    assert!(matches!(netlink_step(&buf2, size2, 0, 8080, &ip), Ok(NetlinkStep::Finished { inode: 11, uid: 5 })));
}

#[test]
fn request_constants_are_the_crate_flags() {
    assert_eq!(DUMP_REQUEST_FLAGS, netlink_packet_core::NLM_F_REQUEST | netlink_packet_core::NLM_F_DUMP);
    assert_eq!(EXTENSION_INFO, netlink_packet_sock_diag::inet::ExtensionFlags::INFO.bits());
    assert_eq!(STATE_ESTABLISHED, netlink_packet_sock_diag::inet::StateFlags::ESTABLISHED.bits());
    assert_eq!(FAMILY_INET, netlink_packet_sock_diag::AF_INET);
    assert_eq!(FAMILY_INET6, netlink_packet_sock_diag::AF_INET6);
}

#[test]
fn netlink_request_asks_for_the_source_family() {
    let mut v6 = [0u8; 16];
    v6[15] = 1;
    let t = NetWorkTuple::new_tcp(IpAddress::V6(v6), 22, IpAddress::V6(v6), 0);
    let bytes = netlink_request(&t);
    assert_eq!(bytes[16], 10);
    assert_eq!(&bytes[16 + 12..16 + 28], &v6);
    let t4 = NetWorkTuple::new(IpAddress::V4([1, 2, 3, 4]), 22);
    assert_eq!(netlink_request(&t4)[16], 2);
}
