//! macOS: the owner of a socket is found in the kernel's protocol control
//! block list (`net.inet.tcp.pcblist_n` / `net.inet.udp.pcblist_n`), a
//! buffer of fixed-size records whose size depends on the OS release.
//!
//! `app/` reads the sysctl values and looks up executable paths; this module
//! decodes the buffer and decides the answer.

use vstd::prelude::*;

use crate::model::{IpAddress, NetWorkTuple, Network, ProcessError};
use crate::text::{parse_i64, parse_i64_spec, str_chars};

verus! {

/// Bytes before the first record: the list's `xinpgen` header.
pub const PCB_LIST_HEADER: usize = 24;

/// Offset of the `xsocket_n` part within a record.
pub const PCB_SOCKET_OFFSET: usize = 104;

/// The smallest record size whose fields this decoder reads.
pub const PCB_MIN_RECORD: usize = 176;

/// Extra bytes that a TCP record carries (`xtcpcb_n`).
pub const PCB_TCP_EXTRA: usize = 208;

/// The characters of `s` before its first `.`, or all of them.
pub open spec fn before_first_dot(s: Seq<char>) -> Seq<char>
    decreases s.len(),
{
    if s.len() == 0 {
        s
    } else if s[0] == '.' {
        seq![]
    } else {
        seq![s[0]] + before_first_dot(s.drop_first())
    }
}

/// The base record size for an OS release string: 408 bytes from Darwin 22
/// on (its major version, the part before the first `.`, read as an `i64`),
/// 384 before, and when the major version cannot be read.
pub open spec fn base_record_size(release: Seq<char>) -> usize {
    match parse_i64_spec(before_first_dot(release)) {
        Some(major) => if major >= 22 {
            408
        } else {
            384
        },
        None => 384,
    }
}

/// The record size of the list for `network` on OS release `release`.
pub open spec fn record_size(network: Network, release: Seq<char>) -> usize {
    match network {
        Network::Tcp => (base_record_size(release) + PCB_TCP_EXTRA) as usize,
        Network::Udp => base_record_size(release),
    }
}

/// The part of `s` before its first `.`.
fn major_part(s: &Vec<char>) -> (r: Vec<char>)
    ensures
        r@ == before_first_dot(s@),
{
    let mut r: Vec<char> = Vec::new();
    let mut i: usize = 0;
    assert(s@.skip(0) =~= s@);
    while i < s.len() && s[i] != '.'
        invariant
            i <= s@.len(),
            forall|j: int| 0 <= j < i ==> s@[j] != '.',
            r@ == s@.take(i as int),
            before_first_dot(s@) == r@ + before_first_dot(s@.skip(i as int)),
        decreases s@.len() - i,
    {
        r.push(s[i]);
        assert(s@.skip(i as int).drop_first() =~= s@.skip(i + 1));
        assert(s@.take(i + 1) =~= s@.take(i as int).push(s@[i as int]));
        i = i + 1;
    }
    proof {
        if i < s@.len() {
            assert(s@.skip(i as int)[0] == '.');
        }
        assert(before_first_dot(s@.skip(i as int)) =~= seq![]) by {
            if i == s@.len() {
                assert(s@.skip(i as int).len() == 0);
            }
        }
        assert(r@ + seq![] =~= r@);
    }
    r
}

/// The base record size for the OS release string `release`.
pub fn struct_size_for_release(release: &str) -> (size: usize)
    ensures
        size == base_record_size(release@),
{
    let chars = str_chars(release);
    let major = major_part(&chars);
    match parse_i64(&major) {
        Some(v) => if v >= 22 {
            408
        } else {
            384
        },
        None => 384,
    }
}

/// The record size of the pcblist for `network` on OS release `release`.
pub fn pcb_record_size(network: Network, release: &str) -> (size: usize)
    ensures
        size == record_size(network, release@),
{
    let base = struct_size_for_release(release);
    match network {
        Network::Tcp => base + PCB_TCP_EXTRA,
        Network::Udp => base,
    }
}

/// The pcblist payload of a sysctl value: the bytes of a non-empty struct
/// value (`None` stands for a value of another kind).
pub fn pcblist_payload(value: Option<Vec<u8>>) -> (r: Result<Vec<u8>, ProcessError>)
    ensures
        match value {
            Some(data) if data@.len() > 0 => r matches Ok(d) && d@ == data@,
            _ => r matches Err(ProcessError::InvalidData(m)) && m@
                == "Expected struct data from sysctl"@,
        },
{
    match value {
        Some(data) => {
            if data.len() > 0 {
                return Ok(data);
            }
        },
        None => {},
    }
    Err(ProcessError::InvalidData(String::from_str("Expected struct data from sysctl")))
}


/// The big-endian 16-bit number at `at`.
pub open spec fn be_u16_at(b: Seq<u8>, at: int) -> int {
    b[at] * 256 + b[at + 1]
}

/// The little-endian 32-bit number at `at` (every macOS target is
/// little-endian, so this is the native order there).
pub open spec fn le_u32_at(b: Seq<u8>, at: int) -> int {
    b[at] + b[at + 1] * 256 + b[at + 2] * 65536 + b[at + 3] * 16777216
}

/// The local port of the record at `off` (`xinpcb_n.inp_lport`).
pub open spec fn record_port(b: Seq<u8>, off: int) -> int {
    be_u16_at(b, off + 18)
}

/// The local address of the record at `off`, read as the family the caller
/// looks for: IPv4 when the record's `inp_vflag` has bit 0 and an IPv4
/// address is sought, IPv6 when it has bit 1 and an IPv6 address is sought,
/// else none.
pub open spec fn record_address(b: Seq<u8>, off: int, want_v4: bool) -> Option<Seq<u8>> {
    let flag = b[off + 44];
    if flag & 1u8 > 0 && want_v4 {
        Some(b.subrange(off + 76, off + 80))
    } else if flag & 2u8 > 0 && !want_v4 {
        Some(b.subrange(off + 64, off + 80))
    } else {
        None
    }
}

/// The process id of the record at `off` (`xsocket_n.so_last_pid`).
pub open spec fn record_pid(b: Seq<u8>, off: int) -> u32 {
    le_u32_at(b, off + PCB_SOCKET_OFFSET + 68) as u32
}

/// Whether an address is the unspecified address (all zero).
pub open spec fn is_unspecified(a: Seq<u8>) -> bool {
    forall|i: int| 0 <= i < a.len() ==> a[i] == 0u8
}

/// Whether the record at `off` is the socket of `t`: same local port and
/// same local address.
pub open spec fn record_is_socket(b: Seq<u8>, off: int, t: NetWorkTuple) -> bool {
    &&& record_port(b, off) == t.src_port
    &&& record_address(b, off, t.src_ip is V4) == Some(t.src_ip.octets())
}

/// Whether the record at `off` is a UDP socket bound to the unspecified
/// address on `t`'s port, which stands in when no exact match is found.
pub open spec fn record_is_udp_wildcard(b: Seq<u8>, off: int, t: NetWorkTuple) -> bool {
    &&& t.network is Udp
    &&& record_port(b, off) == t.src_port
    &&& record_address(b, off, t.src_ip is V4) matches Some(a) && is_unspecified(a)
}

/// What a scan of the pcblist finds: the process id of the matching socket,
/// if any, and the process ids of the UDP wildcard sockets met before it.
pub struct PcbScan {
    pub owner: Option<u32>,
    pub wildcard_pids: Vec<u32>,
}

/// The scan of the records from offset `off` on, each `size` bytes, up to the
/// last record that fits in `b`: it stops at the first record that is the
/// socket, and collects the wildcard records before it.
pub open spec fn pcb_scan(b: Seq<u8>, t: NetWorkTuple, size: int, off: int) -> (Option<u32>, Seq<u32>)
    decreases b.len() - off,
{
    if size <= 0 || off < 0 || off + size > b.len() {
        (None, seq![])
    } else if record_is_socket(b, off, t) {
        (Some(record_pid(b, off)), seq![])
    } else {
        let rest = pcb_scan(b, t, size, off + size);
        if record_is_udp_wildcard(b, off, t) {
            (rest.0, seq![record_pid(b, off)] + rest.1)
        } else {
            rest
        }
    }
}

/// Whether `b[start..start + expected.len()]` is `expected`.
fn bytes_at(b: &[u8], start: usize, expected: &[u8]) -> (r: bool)
    requires
        start + expected@.len() <= b@.len(),
    ensures
        r == (b@.subrange(start as int, start + expected@.len()) == expected@),
{
    let n = expected.len();
    assert(n == expected@.len());
    let total = b.len();
    assert(total == b@.len());
    crate::model::bytes_equal(&b[start..start + n], expected)
}

/// Whether `b[start..end]` is all zero.
fn zeros_at(b: &[u8], start: usize, end: usize) -> (r: bool)
    requires
        start <= end <= b@.len(),
    ensures
        r == is_unspecified(b@.subrange(start as int, end as int)),
{
    let mut i = start;
    while i < end
        invariant
            start <= i <= end <= b@.len(),
            forall|j: int| start <= j < i ==> b@[j] == 0u8,
        decreases end - i,
    {
        if b[i] != 0 {
            assert(b@.subrange(start as int, end as int)[i - start] == b@[i as int]);
            return false;
        }
        i = i + 1;
    }
    assert forall|j: int| 0 <= j < end - start implies b@.subrange(start as int, end as int)[j]
        == 0u8 by {
        assert(b@.subrange(start as int, end as int)[j] == b@[start + j]);
    }
    true
}

/// The little-endian 32-bit number at `at`.
fn read_le_u32(b: &[u8], at: usize) -> (v: u32)
    requires
        at + 4 <= b@.len(),
    ensures
        v == le_u32_at(b@, at as int),
{
    b[at] as u32 + b[at + 1] as u32 * 256 + b[at + 2] as u32 * 65536 + b[at + 3] as u32 * 16777216
}

/// Scans the pcblist `buf`, whose records are `size` bytes, for the socket
/// of `tuple`.
pub fn scan_pcblist(buf: &[u8], tuple: &NetWorkTuple, size: usize) -> (r: PcbScan)
    requires
        size >= PCB_MIN_RECORD,
    ensures
        (r.owner, r.wildcard_pids@) == pcb_scan(buf@, *tuple, size as int, PCB_LIST_HEADER as int),
{
    let want_v4 = tuple.is_v4();
    let wanted = tuple.src_ip.octets_slice();
    let is_udp = match tuple.network {
        Network::Udp => true,
        Network::Tcp => false,
    };
    let mut wildcards: Vec<u32> = Vec::new();
    let mut i: usize = PCB_LIST_HEADER;
    while i <= buf.len() && size <= buf.len() - i
        invariant
            size >= PCB_MIN_RECORD,
            want_v4 == (tuple.src_ip is V4),
            wanted@ == tuple.src_ip.octets(),
            is_udp == (tuple.network is Udp),
            i >= PCB_LIST_HEADER,
            ({
                let whole = pcb_scan(buf@, *tuple, size as int, PCB_LIST_HEADER as int);
                let rest = pcb_scan(buf@, *tuple, size as int, i as int);
                whole == (rest.0, wildcards@ + rest.1)
            }),
        decreases buf@.len() - i,
    {
        let ghost b = buf@;
        let port = buf[i + 18] as u16 * 256 + buf[i + 19] as u16;
        if port == tuple.src_port {
            let flag = buf[i + 44];
            let mut found = false;
            let mut start: usize = 0;
            let mut end: usize = 0;
            if flag & 1u8 > 0 && want_v4 {
                found = true;
                start = i + 76;
                end = i + 80;
            } else if flag & 2u8 > 0 && !want_v4 {
                found = true;
                start = i + 64;
                end = i + 80;
            }
            proof {
                let ra = record_address(b, i as int, want_v4);
                assert(found == ra is Some);
                assert(found ==> ra == Some(b.subrange(start as int, end as int)));
            }
            if found {
                let pid = read_le_u32(buf, i + PCB_SOCKET_OFFSET + 68);
                if end - start == wanted.len() && bytes_at(buf, start, wanted) {
                    assert(record_is_socket(b, i as int, *tuple));
                    proof {
                        assert(wildcards@ + seq![] =~= wildcards@);
                    }
                    return PcbScan { owner: Some(pid), wildcard_pids: wildcards };
                }
                assert(!record_is_socket(b, i as int, *tuple));
                if is_udp && zeros_at(buf, start, end) {
                    let ghost before = wildcards@;
                    wildcards.push(pid);
                    proof {
                        let rest = pcb_scan(b, *tuple, size as int, (i + size) as int);
                        assert(before + (seq![pid] + rest.1) =~= wildcards@ + rest.1);
                    }
                }
            }
        }
        i = i + size;
    }
    proof {
        assert(wildcards@ + seq![] =~= wildcards@);
    }
    PcbScan { owner: None, wildcard_pids: wildcards }
}


/// The path given by the last path lookup that succeeded, among `paths`
/// (in scan order, `None` for a failed lookup).
pub open spec fn last_found_path(paths: Seq<Option<String>>) -> Option<Seq<char>>
    decreases paths.len(),
{
    if paths.len() == 0 {
        None
    } else {
        match paths.last() {
            Some(p) => Some(p@),
            None => last_found_path(paths.drop_last()),
        }
    }
}

/// The executable path that stands in for a UDP lookup: when the scan found
/// no owner, the lookup is UDP, and the last wildcard socket whose path
/// could be read (`paths` holds those lookups, one per wildcard process id,
/// in order) has a non-empty path, that path.
pub open spec fn fallback_path(
    tuple: NetWorkTuple,
    owner: Option<u32>,
    paths: Seq<Option<String>>,
) -> Option<Seq<char>> {
    match last_found_path(paths) {
        Some(p) => if owner is None && tuple.network is Udp && p.len() > 0 {
            Some(p)
        } else {
            None
        },
        None => None,
    }
}

/// The fallback path of a pcblist lookup (see `fallback_path`).
pub fn pcb_fallback_path(tuple: &NetWorkTuple, scan: &PcbScan, paths: &Vec<Option<String>>) -> (r:
    Option<String>)
    ensures
        match r {
            Some(p) => fallback_path(*tuple, scan.owner, paths@) == Some(p@),
            None => fallback_path(*tuple, scan.owner, paths@) is None,
        },
{
    if scan.owner.is_some() {
        return None;
    }
    let is_udp = match tuple.network {
        Network::Udp => true,
        Network::Tcp => false,
    };
    if !is_udp {
        return None;
    }
    let mut i = paths.len();
    assert(paths@.take(i as int) =~= paths@);
    while i > 0 && paths[i - 1].is_none()
        invariant
            i <= paths@.len(),
            last_found_path(paths@) == last_found_path(paths@.take(i as int)),
        decreases i,
    {
        let ghost pre = paths@.take(i as int);
        assert(pre.drop_last() =~= paths@.take(i - 1));
        assert(pre.last() == paths@[i - 1]);
        i = i - 1;
    }
    if i == 0 {
        assert(paths@.take(0) =~= Seq::<Option<String>>::empty());
        return None;
    }
    let ghost pre = paths@.take(i as int);
    assert(pre.last() == paths@[i - 1]);
    match &paths[i - 1] {
        Some(p) => {
            if p.as_str().is_empty() {
                None
            } else {
                Some(p.clone())
            }
        },
        None => None,
    }
}

/// The answer of a pcblist lookup for `tuple`: the owner's process id when
/// the scan found the socket; process id 0 when a fallback path stands in
/// for a UDP lookup (see `fallback_path`; the path is what
/// `pcb_fallback_path` gives); otherwise not found.
pub fn pcb_lookup_result(tuple: &NetWorkTuple, scan: &PcbScan, paths: &Vec<Option<String>>) -> (r:
    Result<u32, ProcessError>)
    ensures
        match scan.owner {
            Some(pid) => r == Ok::<u32, ProcessError>(pid),
            None => if fallback_path(*tuple, scan.owner, paths@) is Some {
                r == Ok::<u32, ProcessError>(0)
            } else {
                r matches Err(ProcessError::NotFound)
            },
        },
{
    if let Some(pid) = scan.owner {
        return Ok(pid);
    }
    match pcb_fallback_path(tuple, scan, paths) {
        Some(_) => Ok(0),
        None => Err(ProcessError::NotFound),
    }
}

/// Which processes the descriptor walk looks at: every process for root
/// (`None`), else the processes whose real uid is the caller's.
pub fn process_filter_uid(current_uid: u32) -> (r: Option<u32>)
    ensures
        r == if current_uid == 0 {
            None::<u32>
        } else {
            Some(current_uid)
        },
{
    if current_uid == 0 {
        None
    } else {
        Some(current_uid)
    }
}

/// Whether a TCP socket described by `proc_pidfdinfo` is the socket with
/// `source_ip` and `source_port`. `raw_port` is the low 16 bits of
/// `insi_lport` as stored (network order), `vflag` is `insi_vflag`,
/// `addr4` is the stored `s_addr` of the IPv4 address and `addr6` the IPv6
/// address bytes. The port and the IPv4 address are in network order in
/// memory, which on macOS's little-endian targets makes their numeric
/// values byte-swapped.
pub open spec fn pidfd_socket_matches(
    raw_port: u16,
    vflag: u8,
    addr4: u32,
    addr6: Seq<u8>,
    source_ip: IpAddress,
    source_port: u16,
) -> bool {
    let port = (raw_port % 256) * 256 + raw_port / 256;
    &&& port == source_port
    &&& if vflag & 1u8 > 0 {
        source_ip is V4 && source_ip.octets() == seq![
            (addr4 % 256) as u8,
            (addr4 / 256 % 256) as u8,
            (addr4 / 65536 % 256) as u8,
            (addr4 / 16777216) as u8,
        ]
    } else if vflag & 2u8 > 0 {
        source_ip is V6 && source_ip.octets() == addr6
    } else {
        false
    }
}

/// Decides `pidfd_socket_matches`.
pub fn pidfd_socket_is(
    raw_port: u16,
    vflag: u8,
    addr4: u32,
    addr6: [u8; 16],
    source_ip: &IpAddress,
    source_port: u16,
) -> (r: bool)
    ensures
        r == pidfd_socket_matches(raw_port, vflag, addr4, addr6@, *source_ip, source_port),
{
    let port = (raw_port % 256) * 256 + raw_port / 256;
    if port != source_port {
        return false;
    }
    if vflag & 1u8 > 0 {
        let octets = [
            (addr4 % 256) as u8,
            (addr4 / 256 % 256) as u8,
            (addr4 / 65536 % 256) as u8,
            (addr4 / 16777216) as u8,
        ];
        let r = source_ip.same_as(&IpAddress::V4(octets));
        assert(IpAddress::V4(octets).octets() =~= seq![
            (addr4 % 256) as u8,
            (addr4 / 256 % 256) as u8,
            (addr4 / 65536 % 256) as u8,
            (addr4 / 16777216) as u8,
        ]);
        proof {
            if source_ip is V4 && source_ip.octets() == IpAddress::V4(octets).octets() {
                crate::model::lemma_arrays_equal(source_ip->V4_0, octets);
            }
        }
        r
    } else if vflag & 2u8 > 0 {
        let r = source_ip.same_as(&IpAddress::V6(addr6));
        proof {
            if source_ip is V6 && source_ip.octets() == addr6@ {
                crate::model::lemma_arrays_equal(source_ip->V6_0, addr6);
            }
        }
        r
    } else {
        false
    }
}


/// The offset of the `k`-th record after the one at `off`.
pub open spec fn nth_record(off: int, size: int, k: nat) -> int {
    off + k * size
}

/// A record offset reached by the scan from `off`: `off` plus a whole number
/// of records, with the record inside `b`.
pub open spec fn record_at(b: Seq<u8>, size: int, off: int, o: int) -> bool {
    &&& exists|k: nat| o == #[trigger] nth_record(off, size, k)
    &&& off <= o
    &&& o + size <= b.len()
}

proof fn lemma_record_at_next(b: Seq<u8>, size: int, off: int, o: int)
    requires
        size > 0,
        record_at(b, size, off + size, o),
    ensures
        record_at(b, size, off, o),
{
    let k = choose|k: nat| o == #[trigger] nth_record(off + size, size, k);
    assert(o == nth_record(off, size, k + 1)) by (nonlinear_arith)
        requires
            o == off + size + k * size,
    ;
}

proof fn lemma_record_at_first(b: Seq<u8>, size: int, off: int)
    requires
        off + size <= b.len(),
    ensures
        record_at(b, size, off, off),
{
    assert(off == nth_record(off, size, 0));
}

/// The owner a pcblist scan reports is the process id of a record that is
/// the socket.
pub proof fn lemma_pcb_owner_sound(b: Seq<u8>, t: NetWorkTuple, size: int, off: int)
    requires
        size > 0,
        pcb_scan(b, t, size, off).0 is Some,
    ensures
        exists|o: int|
            record_at(b, size, off, o) && record_is_socket(b, o, t) && record_pid(b, o) == pcb_scan(
                b,
                t,
                size,
                off,
            ).0->0,
    decreases b.len() - off,
{
    if record_is_socket(b, off, t) {
        lemma_record_at_first(b, size, off);
    } else {
        lemma_pcb_owner_sound(b, t, size, off + size);
        let o = choose|o: int|
            record_at(b, size, off + size, o) && record_is_socket(b, o, t) && record_pid(b, o)
                == pcb_scan(b, t, size, off + size).0->0;
        lemma_record_at_next(b, size, off, o);
    }
}

/// Each wildcard process id a pcblist scan collects is that of a UDP
/// wildcard record on the socket's port.
pub proof fn lemma_pcb_wildcard_sound(b: Seq<u8>, t: NetWorkTuple, size: int, off: int, i: int)
    requires
        size > 0,
        0 <= i < pcb_scan(b, t, size, off).1.len(),
    ensures
        exists|o: int|
            record_at(b, size, off, o) && record_is_udp_wildcard(b, o, t) && record_pid(b, o)
                == pcb_scan(b, t, size, off).1[i],
    decreases b.len() - off,
{
    let rest = pcb_scan(b, t, size, off + size);
    if record_is_udp_wildcard(b, off, t) && i == 0 {
        lemma_record_at_first(b, size, off);
    } else {
        let j = if record_is_udp_wildcard(b, off, t) {
            i - 1
        } else {
            i
        };
        assert(pcb_scan(b, t, size, off).1[i] == rest.1[j]);
        lemma_pcb_wildcard_sound(b, t, size, off + size, j);
        let o = choose|o: int|
            record_at(b, size, off + size, o) && record_is_udp_wildcard(b, o, t) && record_pid(b, o)
                == rest.1[j];
        lemma_record_at_next(b, size, off, o);
    }
}

/// A pcblist scan stops at the first record that is the socket: no record
/// before the reported one is the socket, and when none is reported, no
/// record of the list is.
pub proof fn lemma_pcb_scan_first(b: Seq<u8>, t: NetWorkTuple, size: int, off: int, o: int)
    requires
        size > 0,
        off >= 0,
        record_at(b, size, off, o),
        record_is_socket(b, o, t),
    ensures
        pcb_scan(b, t, size, off).0 is Some,
    decreases b.len() - off,
{
    let k = choose|k: nat| o == #[trigger] nth_record(off, size, k);
    if o == off {
        assert(pcb_scan(b, t, size, off).0 is Some);
    } else {
        assert(k >= 1) by (nonlinear_arith)
            requires
                o == off + k * size,
                o != off,
        ;
        assert(o == nth_record(off + size, size, (k - 1) as nat)) by (nonlinear_arith)
            requires
                o == off + k * size,
                k >= 1,
        ;
        assert(record_at(b, size, off + size, o));
        if !record_is_socket(b, off, t) {
            lemma_pcb_scan_first(b, t, size, off + size, o);
        }
    }
}

/// A TCP lookup never stands in a wildcard socket: its scan collects none,
/// so it answers either the socket's owner or not found.
pub proof fn lemma_tcp_scan_has_no_wildcards(b: Seq<u8>, t: NetWorkTuple, size: int, off: int)
    requires
        t.network is Tcp,
    ensures
        pcb_scan(b, t, size, off).1.len() == 0,
    decreases b.len() - off,
{
    if size > 0 && off >= 0 && off + size <= b.len() && !record_is_socket(b, off, t) {
        lemma_tcp_scan_has_no_wildcards(b, t, size, off + size);
    }
}


/// Whether the record at `off` can play no part in the lookup of `t`: it is
/// on another port, or lacks the family bit that the lookup reads.
pub open spec fn record_irrelevant(b: Seq<u8>, off: int, t: NetWorkTuple) -> bool {
    record_port(b, off) != t.src_port || record_address(b, off, t.src_ip is V4) is None
}

/// Whether two buffers of the same length agree everywhere outside the
/// `size` bytes at `k`.
pub open spec fn agree_outside(b: Seq<u8>, b2: Seq<u8>, k: int, size: int) -> bool {
    &&& b.len() == b2.len()
    &&& forall|i: int| 0 <= i < b.len() && !(k <= i < k + size) ==> b[i] == b2[i]
}

proof fn lemma_record_same(b: Seq<u8>, b2: Seq<u8>, o: int, size: int, t: NetWorkTuple)
    requires
        size >= PCB_MIN_RECORD,
        0 <= o,
        o + size <= b.len(),
        b.len() == b2.len(),
        forall|i: int| o <= i < o + size ==> b[i] == b2[i],
    ensures
        record_is_socket(b, o, t) == record_is_socket(b2, o, t),
        record_is_udp_wildcard(b, o, t) == record_is_udp_wildcard(b2, o, t),
        record_pid(b, o) == record_pid(b2, o),
{
    assert(b[o + 18] == b2[o + 18]);
    assert(b[o + 19] == b2[o + 19]);
    assert(b[o + 44] == b2[o + 44]);
    assert(b.subrange(o + 76, o + 80) =~= b2.subrange(o + 76, o + 80));
    assert(b.subrange(o + 64, o + 80) =~= b2.subrange(o + 64, o + 80));
    assert(b[o + 172] == b2[o + 172]);
    assert(b[o + 173] == b2[o + 173]);
    assert(b[o + 174] == b2[o + 174]);
    assert(b[o + 175] == b2[o + 175]);
}

/// Records on another port, or without the family bit the lookup reads,
/// never change the answer: two pcblists that differ only inside one such
/// record (irrelevant in both) scan alike.
pub proof fn lemma_pcb_scan_frame(
    b: Seq<u8>,
    b2: Seq<u8>,
    t: NetWorkTuple,
    size: int,
    off: int,
    k: int,
)
    requires
        size >= PCB_MIN_RECORD,
        off >= 0,
        agree_outside(b, b2, k, size),
        0 <= k,
        k + size <= b.len(),
        record_irrelevant(b, k, t),
        record_irrelevant(b2, k, t),
        k + size <= off || record_at(b, size, off, k),
    ensures
        pcb_scan(b, t, size, off) == pcb_scan(b2, t, size, off),
    decreases b.len() - off,
{
    if off + size > b.len() {
    } else if off == k {
        lemma_pcb_scan_frame(b, b2, t, size, off + size, k);
    } else {
        if k + size > off {
            let j = choose|j: nat| k == #[trigger] nth_record(off, size, j);
            assert(j >= 1) by (nonlinear_arith)
                requires
                    k == off + j * size,
                    k != off,
            ;
            assert(k == nth_record(off + size, size, (j - 1) as nat)) by (nonlinear_arith)
                requires
                    k == off + j * size,
                    j >= 1,
            ;
            assert(record_at(b, size, off + size, k));
        }
        lemma_record_same(b, b2, off, size, t);
        lemma_pcb_scan_frame(b, b2, t, size, off + size, k);
    }
}

/// A UDP lookup with no owner misses no wildcard socket, whichever family
/// it looks for: every record on the socket's port that carries the
/// lookup's family bit (bit 0 of `inp_vflag` for IPv4, bit 1 for IPv6) and
/// whose address in that family (bytes 76 to 80, or 64 to 80) is all zero
/// has its pid (`so_last_pid`, little-endian at byte 172) collected.
pub proof fn lemma_pcb_wildcards_complete(b: Seq<u8>, t: NetWorkTuple, size: int, off: int, o: int)
    requires
        size >= PCB_MIN_RECORD,
        off >= 0,
        t.network is Udp,
        pcb_scan(b, t, size, off).0 is None,
        record_at(b, size, off, o),
        b[o + 18] * 256 + b[o + 19] == t.src_port,
        if t.src_ip is V4 {
            b[o + 44] & 1u8 > 0 && forall|i: int| o + 76 <= i < o + 80 ==> b[i] == 0u8
        } else {
            b[o + 44] & 2u8 > 0 && forall|i: int| o + 64 <= i < o + 80 ==> b[i] == 0u8
        },
    ensures
        pcb_scan(b, t, size, off).1.contains(
            (b[o + 172] + b[o + 173] * 256 + b[o + 174] * 65536 + b[o + 175] * 16777216) as u32,
        ),
    decreases b.len() - off,
{
    let k = choose|k: nat| o == #[trigger] nth_record(off, size, k);
    if !record_is_socket(b, off, t) {
        let rest = pcb_scan(b, t, size, off + size);
        let whole = pcb_scan(b, t, size, off);
        if o == off {
            let ra = record_address(b, o, t.src_ip is V4);
            if t.src_ip is V4 {
                assert(ra == Some(b.subrange(o + 76, o + 80)));
            } else {
                assert(ra == Some(b.subrange(o + 64, o + 80)));
            }
            assert(is_unspecified(ra->0));
            assert(record_is_udp_wildcard(b, off, t));
            assert(whole.1[0] == record_pid(b, o));
        } else {
            assert(k >= 1) by (nonlinear_arith)
                requires
                    o == off + k * size,
                    o != off,
            ;
            assert(o == nth_record(off + size, size, (k - 1) as nat)) by (nonlinear_arith)
                requires
                    o == off + k * size,
                    k >= 1,
            ;
            lemma_pcb_wildcards_complete(b, t, size, off + size, o);
            let p = (b[o + 172] + b[o + 173] * 256 + b[o + 174] * 65536 + b[o + 175] * 16777216) as u32;
            let idx = choose|idx: int| 0 <= idx < rest.1.len() && rest.1[idx] == p;
            if record_is_udp_wildcard(b, off, t) {
                assert(whole.1[idx + 1] == p);
            } else {
                assert(whole.1[idx] == p);
            }
        }
    }
}

/// The record size follows the OS release the same way for both protocols:
/// a UDP record is 408 bytes when the major version (the text before the
/// first `.`) reads as an integer of at least 22, else 384; a TCP record is
/// 208 bytes longer than the UDP record of the same release.
pub proof fn lemma_record_size_by_release(release: Seq<char>)
    ensures
        record_size(Network::Udp, release) == if parse_i64_spec(before_first_dot(release)) matches Some(
            major,
        ) && major >= 22 {
            408usize
        } else {
            384usize
        },
        record_size(Network::Tcp, release) == record_size(Network::Udp, release) + 208,
{
}

/// Whether the record at `o` is, byte for byte, the socket of `t`: its
/// port (bytes 18 and 19, network order) is `t`'s, and it carries `t`'s
/// family bit (bit 0 of `inp_vflag` for IPv4, bit 1 for IPv6) with `t`'s
/// address in that family (bytes 76 to 80 for IPv4, 64 to 80 for IPv6).
pub open spec fn record_exactly(b: Seq<u8>, o: int, t: NetWorkTuple) -> bool {
    &&& b[o + 18] * 256 + b[o + 19] == t.src_port
    &&& if t.src_ip is V4 {
        &&& b[o + 44] & 1u8 > 0
        &&& forall|i: int| 0 <= i < 4 ==> #[trigger] b[o + 76 + i] == t.src_ip.octets()[i]
    } else {
        &&& b[o + 44] & 2u8 > 0
        &&& forall|i: int| 0 <= i < 16 ==> #[trigger] b[o + 64 + i] == t.src_ip.octets()[i]
    }
}

proof fn lemma_record_exactly_is_socket(b: Seq<u8>, o: int, t: NetWorkTuple)
    requires
        0 <= o,
        o + PCB_MIN_RECORD <= b.len(),
    ensures
        record_exactly(b, o, t) <==> record_is_socket(b, o, t),
{
    match t.src_ip {
        IpAddress::V4(a) => {
            assert(a@.len() == 4);
            let sub = b.subrange(o + 76, o + 80);
            if record_exactly(b, o, t) {
                assert(sub =~= a@) by {
                    assert forall|i: int| 0 <= i < 4 implies sub[i] == a@[i] by {
                        assert(b[o + 76 + i] == t.src_ip.octets()[i]);
                    }
                }
            }
            if record_is_socket(b, o, t) {
                assert forall|i: int| 0 <= i < 4 implies #[trigger] b[o + 76 + i]
                    == t.src_ip.octets()[i] by {
                    assert(sub[i] == b[o + 76 + i]);
                }
            }
        },
        IpAddress::V6(a) => {
            assert(a@.len() == 16);
            let sub = b.subrange(o + 64, o + 80);
            if record_exactly(b, o, t) {
                assert(sub =~= a@) by {
                    assert forall|i: int| 0 <= i < 16 implies sub[i] == a@[i] by {
                        assert(b[o + 64 + i] == t.src_ip.octets()[i]);
                    }
                }
            }
            if record_is_socket(b, o, t) {
                assert forall|i: int| 0 <= i < 16 implies #[trigger] b[o + 64 + i]
                    == t.src_ip.octets()[i] by {
                    assert(sub[i] == b[o + 64 + i]);
                }
            }
        },
    }
}

/// The owner a pcblist scan reports is the pid (`so_last_pid`,
/// little-endian at byte 172) of a record of the list that is byte for
/// byte the socket.
pub proof fn lemma_pcb_owner_exact(b: Seq<u8>, t: NetWorkTuple, size: int, off: int, pid: u32)
    requires
        size >= PCB_MIN_RECORD,
        off >= 0,
        pcb_scan(b, t, size, off).0 == Some(pid),
    ensures
        exists|o: int|
            #[trigger] record_at(b, size, off, o) && record_exactly(b, o, t) && pid == (b[o + 172]
                + b[o + 173] * 256 + b[o + 174] * 65536 + b[o + 175] * 16777216) as u32,
{
    lemma_pcb_owner_sound(b, t, size, off);
    let o = choose|o: int|
        record_at(b, size, off, o) && record_is_socket(b, o, t) && record_pid(b, o) == pcb_scan(
            b,
            t,
            size,
            off,
        ).0->0;
    lemma_record_exactly_is_socket(b, o, t);
}

/// A pcblist scan misses no socket: when some record of the list is byte
/// for byte the socket, the scan reports an owner.
pub proof fn lemma_pcb_owner_complete(b: Seq<u8>, t: NetWorkTuple, size: int, off: int, o: int)
    requires
        size >= PCB_MIN_RECORD,
        off >= 0,
        record_at(b, size, off, o),
        record_exactly(b, o, t),
    ensures
        pcb_scan(b, t, size, off).0 is Some,
{
    lemma_record_exactly_is_socket(b, o, t);
    lemma_pcb_scan_first(b, t, size, off, o);
}

} // verus!
