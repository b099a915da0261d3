//! Linux: the owner of a socket is found by asking the kernel's
//! `sock_diag` netlink interface for the socket's inode, then finding the
//! `/proc/<pid>/fd` link that points at `socket:[<inode>]`; the parent of a
//! process is the second field after the process name in
//! `/proc/<pid>/stat` (the fourth field when the text has no name).
//!
//! The socket and file reads happen in `app/`; this module builds the
//! netlink request, walks the netlink replies, and makes every decision
//! about `/proc` entries and `stat` text.

use vstd::prelude::*;

use crate::model::{IpAddress, NetWorkTuple, Network, ProcessError};
use crate::text::{
    decimal_bytes, find_last, last_index_of, lemma_decimal_bytes_injective,
    lemma_decimal_bytes_well_formed, lemma_last_index_at, lemma_parse_decimal_roundtrip,
    lemma_whitespace_fields_concat, lemma_whitespace_fields_word, lemma_whitespace_fields_word_space,
    lemma_decimal_chars_no_whitespace, lemma_decimal_chars_digits, is_whitespace, decimal_chars, parse_u32, parse_u32_spec, push_decimal_bytes, split_whitespace, str_chars,
    whitespace_fields,
};

use netlink_packet_core::{NetlinkHeader, NetlinkMessage, NetlinkPayload};
use netlink_packet_sock_diag::inet::{ExtensionFlags, InetRequest, SocketId, StateFlags};
use netlink_packet_core::Emitable;
use netlink_packet_sock_diag::SockDiagMessage;

verus! {

/// `IPPROTO_TCP`.
pub const IPPROTO_TCP: u8 = 6;

/// `IPPROTO_UDP`.
pub const IPPROTO_UDP: u8 = 17;

/// Whether a `/proc` entry name can be a process id: one to ten ASCII
/// digits, with no leading zero unless the name is "0".
pub open spec fn valid_pid_name(name: Seq<u8>) -> bool {
    &&& 0 < name.len() <= 10
    &&& !(name[0] == 48u8 && name.len() > 1)
    &&& forall|i: int| 0 <= i < name.len() ==> 48u8 <= #[trigger] name[i] <= 57u8
}

/// Whether `name` is a plausible process id directory name.
pub fn is_valid_pid(name: &[u8]) -> (r: bool)
    ensures
        r == valid_pid_name(name@),
{
    if name.len() == 0 || name.len() > 10 {
        return false;
    }
    if name[0] == 48u8 && name.len() > 1 {
        return false;
    }
    let mut i: usize = 0;
    while i < name.len()
        invariant
            i <= name@.len(),
            forall|j: int| 0 <= j < i ==> 48u8 <= #[trigger] name@[j] <= 57u8,
        decreases name@.len() - i,
    {
        if !(48u8 <= name[i] && name[i] <= 57u8) {
            return false;
        }
        i = i + 1;
    }
    true
}

/// Whether a `/proc` entry is searched for the socket: it is a directory,
/// its name is a process id, and its owner (`None` when the metadata could
/// not be read) is the socket's owner `uid`.
pub fn is_candidate_proc_entry(name: &[u8], is_dir: bool, owner_uid: Option<u32>, uid: u32) -> (r:
    bool)
    ensures
        r == (is_dir && valid_pid_name(name@) && owner_uid == Some(uid)),
{
    is_dir && is_valid_pid(name) && match owner_uid {
        Some(o) => o == uid,
        None => false,
    }
}

/// The target that a file-descriptor link to socket `inode` has:
/// `socket:[<inode>]`.
pub open spec fn socket_link(inode: u32) -> Seq<u8> {
    seq![115u8, 111u8, 99u8, 107u8, 101u8, 116u8, 58u8, 91u8] + decimal_bytes(inode as nat) + seq![
        93u8,
    ]
}

/// Builds the link target `socket:[<inode>]`.
pub fn socket_link_target(inode: u32) -> (r: Vec<u8>)
    ensures
        r@ == socket_link(inode),
{
    let mut v: Vec<u8> = vec![115u8, 111u8, 99u8, 107u8, 101u8, 116u8, 58u8, 91u8];
    push_decimal_bytes(&mut v, inode);
    v.push(93u8);
    v
}

/// What one file descriptor of process directory `dir_name` says: when its
/// link target `link` is socket `inode`'s, the process id that the directory
/// name reads as.
pub fn pid_for_socket_link(dir_name: &str, link: &[u8], inode: u32) -> (r: Option<u32>)
    ensures
        r == if link@ == socket_link(inode) {
            parse_u32_spec(dir_name@)
        } else {
            None
        },
{
    let target = socket_link_target(inode);
    if crate::model::bytes_equal(link, target.as_slice()) {
        let chars = str_chars(dir_name);
        parse_u32(&chars)
    } else {
        None
    }
}

/// The fields of a `/proc/<pid>/stat` text that follow the process name:
/// the name is written in parentheses and may itself hold spaces and
/// parentheses, so the fields are those after the last `)`. `None` when the
/// text has no `)`.
pub open spec fn stat_fields_after_name(content: Seq<char>) -> Option<Seq<Seq<char>>> {
    let p = last_index_of(content, ')', content.len() as int);
    if p < 0 {
        None
    } else {
        Some(whitespace_fields(content.skip(p + 1)))
    }
}

/// The field of a `/proc/<pid>/stat` text that holds the parent pid: the
/// second field after the process name (the first is the state) when the
/// text has a `)` with at least two fields after it; otherwise the fourth
/// whitespace-separated field of the whole text. `None` when there is no
/// such field.
pub open spec fn stat_parent_field(content: Seq<char>) -> Option<Seq<char>> {
    match stat_fields_after_name(content) {
        Some(fields) if fields.len() >= 2 => Some(fields[1]),
        _ => {
            let all = whitespace_fields(content);
            if all.len() >= 4 {
                Some(all[3])
            } else {
                None
            }
        },
    }
}

/// The parent process id in the text of `/proc/<pid>/stat` (see
/// `stat_parent_field`): not found when there is no parent field, invalid
/// data when it is not a `u32`.
pub fn ppid_from_stat(content: &str) -> (r: Result<u32, ProcessError>)
    ensures
        match stat_parent_field(content@) {
            None => r matches Err(ProcessError::NotFound),
            Some(field) => match parse_u32_spec(field) {
                Some(v) => r == Ok::<u32, ProcessError>(v),
                None => r matches Err(ProcessError::InvalidData(m)) && m@ == "Failed to parse PPID"@,
            },
        },
{
    let chars = str_chars(content);
    let start = find_last(chars.as_slice(), ')');
    let mut after: Vec<Vec<char>> = Vec::new();
    if start > 0 {
        let rest = &chars.as_slice()[start..chars.len()];
        assert(rest@ =~= content@.skip(start as int));
        after = split_whitespace(rest);
    }
    let field: &Vec<char>;
    let all: Vec<Vec<char>>;
    if start > 0 && after.len() >= 2 {
        field = &after[1];
    } else {
        all = split_whitespace(chars.as_slice());
        if all.len() < 4 {
            return Err(ProcessError::NotFound);
        }
        field = &all[3];
    }
    match parse_u32(field) {
        Some(v) => Ok(v),
        None => Err(ProcessError::InvalidData(String::from_str("Failed to parse PPID"))),
    }
}

/// The answer of a Linux lookup: not found when the socket's inode is 0
/// (the dump ended without it) or no process holds a descriptor for it,
/// else the process that does.
pub fn owner_answer(inode: u32, found: Option<u32>) -> (r: Result<u32, ProcessError>)
    ensures
        inode == 0 || found is None ==> r matches Err(ProcessError::NotFound),
        inode != 0 && found is Some ==> r == Ok::<u32, ProcessError>(found->0),
{
    if inode == 0 {
        return Err(ProcessError::NotFound);
    }
    match found {
        Some(pid) => Ok(pid),
        None => Err(ProcessError::NotFound),
    }
}

/// The text of a `/proc/<pid>/stat` line: the pid and process name in
/// parentheses (`head`, ending just before the closing `)`), then the state,
/// the parent pid and the remaining fields.
pub open spec fn stat_line(head: Seq<char>, state: Seq<char>, ppid: u32, tail: Seq<char>) -> Seq<char> {
    head + seq![')', ' '] + state + seq![' '] + decimal_chars(ppid as nat) + tail
}

/// `/proc/<pid>/stat` gives the parent pid whatever the process name holds
/// (spaces, digits, parentheses): for a line whose state is one word and
/// whose remaining fields hold no `)`, the parent pid is read back.
pub proof fn lemma_stat_gives_parent(head: Seq<char>, state: Seq<char>, ppid: u32, tail: Seq<char>)
    requires
        state.len() > 0,
        forall|j: int| 0 <= j < state.len() ==> !is_whitespace(#[trigger] state[j]) && state[j] != ')',
        forall|j: int| 0 <= j < tail.len() ==> #[trigger] tail[j] != ')',
        tail.len() == 0 || is_whitespace(tail[0]),
    ensures
        stat_fields_after_name(stat_line(head, state, ppid, tail)) matches Some(f) && f.len() >= 2
            && parse_u32_spec(f[1]) == Some(ppid),
        stat_parent_field(stat_line(head, state, ppid, tail)) == Some(decimal_chars(ppid as nat)),
{
    let dec = decimal_chars(ppid as nat);
    let content = stat_line(head, state, ppid, tail);
    let k = head.len() as int;
    let after = seq![' '] + state + seq![' '] + dec + tail;
    assert(content =~= head + seq![')'] + after);
    lemma_decimal_chars_digits(ppid as nat);
    assert forall|j: int| k < j < content.len() implies content[j] != ')' by {
        let a = j - k - 1;
        assert(content[j] == after[a]);
        if 1 <= a < 1 + state.len() {
            assert(after[a] == state[a - 1]);
        } else if 2 + state.len() <= a < 2 + state.len() + dec.len() {
            assert(after[a] == dec[a - 2 - state.len()]);
            assert('0' <= dec[a - 2 - state.len()] <= '9');
        } else if a >= 2 + state.len() + dec.len() {
            assert(after[a] == tail[a - 2 - state.len() - dec.len()]);
        }
    }
    lemma_last_index_at(content, ')', content.len() as int, k);
    assert(content.skip(k + 1) =~= after);
    let x = seq![' '] + state + seq![' '];
    let y = dec + tail;
    assert(after =~= x + y);
    lemma_whitespace_fields_concat(x, y);
    assert(x =~= seq![' '] + state.push(' '));
    lemma_whitespace_fields_concat(seq![' '], state.push(' '));
    assert(seq![' '].drop_last() =~= Seq::<char>::empty());
    assert((' ' as u32) == 0x20);
    assert(is_whitespace(seq![' '].last()));
    assert(whitespace_fields(Seq::<char>::empty()) =~= Seq::<Seq<char>>::empty());
    assert(whitespace_fields(seq![' ']) =~= Seq::<Seq<char>>::empty());
    lemma_whitespace_fields_word_space(state, ' ');
    lemma_decimal_chars_no_whitespace(ppid as nat);
    if tail.len() == 0 {
        assert(y =~= dec);
        lemma_whitespace_fields_word(dec);
    } else {
        assert(y =~= dec.push(tail[0]) + tail.drop_first());
        lemma_whitespace_fields_concat(dec.push(tail[0]), tail.drop_first());
        lemma_whitespace_fields_word_space(dec, tail[0]);
    }
    let f = whitespace_fields(after);
    assert(f[0] == state);
    assert(f[1] == dec);
    lemma_parse_decimal_roundtrip(ppid);
}

/// The transport protocol number that a request for `network` names.
pub open spec fn protocol_number(network: Network) -> u8 {
    match network {
        Network::Tcp => IPPROTO_TCP,
        Network::Udp => IPPROTO_UDP,
    }
}

/// The 16-byte address field of an `inet_diag` socket id: an IPv6 address
/// fills it, an IPv4 address takes its first four bytes and the rest are 0.
pub open spec fn address_field(ip: IpAddress) -> Seq<u8> {
    match ip {
        IpAddress::V4(a) => a@ + Seq::new(12, |i: int| 0u8),
        IpAddress::V6(a) => a@,
    }
}

/// Builds the 16-byte address field for `ip`.
pub fn address_field_of(ip: &IpAddress) -> (f: [u8; 16])
    ensures
        f@ == address_field(*ip),
{
    match ip {
        IpAddress::V4(a) => {
            let f = [a[0], a[1], a[2], a[3], 0u8, 0u8, 0u8, 0u8, 0u8, 0u8, 0u8, 0u8, 0u8, 0u8, 0u8, 0u8];
            assert(f@ =~= address_field(*ip));
            f
        },
        IpAddress::V6(a) => *a,
    }
}

/// `NLM_F_REQUEST | NLM_F_DUMP`: a request that dumps every matching
/// socket.
pub const DUMP_REQUEST_FLAGS: u16 = 0x301;

/// `INET_DIAG_INFO` as an extension bit: ask for `tcp_info`.
pub const EXTENSION_INFO: u8 = 2;

/// The `TCP_ESTABLISHED` state bit: only established sockets are dumped.
pub const STATE_ESTABLISHED: u32 = 2;

/// `AF_INET`, the address family of IPv4 sockets.
pub const FAMILY_INET: u8 = 2;

/// `AF_INET6`, the address family of IPv6 sockets.
pub const FAMILY_INET6: u8 = 10;

/// The address family whose sockets a lookup for source `ip` asks for.
pub open spec fn request_family(ip: IpAddress) -> u8 {
    match ip {
        IpAddress::V4(_) => FAMILY_INET,
        IpAddress::V6(_) => FAMILY_INET6,
    }
}

/// The bytes of the netlink `sock_diag` message that the outside crates
/// write for an `InetRequest` with these fields.
pub uninterp spec fn sock_diag_request_bytes(
    flags: u16,
    family: u8,
    protocol: u8,
    extensions: u8,
    states: u32,
    src_port: u16,
    dst_port: u16,
    src_field: Seq<u8>,
    dst_field: Seq<u8>,
    interface_id: u32,
    cookie: Seq<u8>,
) -> Seq<u8>;

/// Writes, with `NetlinkMessage::finalize` and `NetlinkMessage::serialize`
/// of `netlink_packet_core`, a message whose header has the given flags
/// (`finalize` sets its length and its type, `SOCK_DIAG_BY_FAMILY`) and
/// whose payload is a `netlink_packet_sock_diag` `InetRequest` with the given
/// family, protocol, extension bits, state bits and socket id (ports,
/// 16-byte address fields emitted as given, interface, cookie). The
/// contract names the bytes: the header's numbers are written in the
/// machine's byte order, so no one layout holds on every machine.
#[verifier::external_body]
fn serialize_sock_diag_request(
    flags: u16,
    family: u8,
    protocol: u8,
    extensions: u8,
    states: u32,
    src_port: u16,
    dst_port: u16,
    src_field: [u8; 16],
    dst_field: [u8; 16],
    interface_id: u32,
    cookie: [u8; 8],
) -> (bytes: Vec<u8>)
    ensures
        bytes@ == sock_diag_request_bytes(
            flags,
            family,
            protocol,
            extensions,
            states,
            src_port,
            dst_port,
            src_field@,
            dst_field@,
            interface_id,
            cookie@,
        ),
{
    let mut header = NetlinkHeader::default();
    header.flags = flags;
    let socket_id = SocketId { source_port: src_port, destination_port: dst_port,
        source_address: src_field.into(), destination_address: dst_field.into(), interface_id, cookie };
    let request = InetRequest { family, protocol, extensions: ExtensionFlags::from_bits_retain(extensions),
        states: StateFlags::from_bits_retain(states), socket_id };
    let mut packet = NetlinkMessage::new(header, SockDiagMessage::InetRequest(request).into());
    packet.finalize();
    let mut bytes = vec![0; packet.header.length as usize];
    packet.serialize(&mut bytes[..]);
    bytes
}

/// The netlink request that asks the kernel for the sockets of `tuple`: a
/// dump request (`DUMP_REQUEST_FLAGS`) for the address family of `tuple`'s
/// source address, for `tuple`'s protocol, with the `INFO` extension, for established
/// sockets only, naming `tuple`'s ports and address fields, interface 0 and
/// a zero cookie.
pub fn netlink_request(tuple: &NetWorkTuple) -> (bytes: Vec<u8>)
    ensures
        bytes@ == sock_diag_request_bytes(
            DUMP_REQUEST_FLAGS,
            request_family(tuple.src_ip),
            protocol_number(tuple.network),
            EXTENSION_INFO,
            STATE_ESTABLISHED,
            tuple.src_port,
            tuple.dst_port,
            address_field(tuple.src_ip),
            address_field(tuple.dst_ip),
            0,
            Seq::new(8, |i: int| 0u8),
        ),
{
    let protocol = match tuple.network {
        Network::Tcp => IPPROTO_TCP,
        Network::Udp => IPPROTO_UDP,
    };
    let src_field = address_field_of(&tuple.src_ip);
    let dst_field = address_field_of(&tuple.dst_ip);
    let family = if tuple.src_ip.is_ipv4() {
        FAMILY_INET
    } else {
        FAMILY_INET6
    };
    let cookie = [0u8; 8];
    assert(cookie@ =~= Seq::new(8, |i: int| 0u8));
    serialize_sock_diag_request(
        DUMP_REQUEST_FLAGS,
        family,
        protocol,
        EXTENSION_INFO,
        STATE_ESTABLISHED,
        tuple.src_port,
        tuple.dst_port,
        src_field,
        dst_field,
        0,
        cookie,
    )
}

/// What an `inet_diag` reply says of one socket: its address family, source
/// port, the 48 bytes of its socket id as the crate writes them back out
/// (ports, then the 16-byte source and destination address fields, the
/// interface and the cookie), its inode and its owner.
#[derive(Clone, Copy, Debug)]
pub struct InetRecord {
    pub family: u8,
    pub source_port: u16,
    pub socket_id: [u8; 48],
    pub inode: u32,
    pub uid: u32,
}

/// A netlink message decoded from the front of a buffer: the length its
/// header gives, whether it is the `NLMSG_DONE` message that ends a dump,
/// and the socket it describes when it is an `inet_diag` reply.
#[derive(Clone, Copy, Debug)]
pub struct NetlinkRecord {
    pub length: u32,
    pub done: bool,
    pub inet: Option<InetRecord>,
}

/// The message that `NetlinkMessage::<SockDiagMessage>::deserialize` reads
/// from the front of `bytes`, or `None` when it fails.
pub uninterp spec fn netlink_decoding(bytes: Seq<u8>) -> Option<NetlinkRecord>;

/// Reads a netlink message from the front of `bytes` with
/// `NetlinkMessage::<SockDiagMessage>::deserialize`; a decoding error becomes
/// an `io::Error` of kind `InvalidData`. The record holds the header's
/// length, whether the payload is `NetlinkPayload::Done`, and, for an
/// `InetResponse` payload, its header's family, source port, socket id
/// (written back to bytes with `Emitable::emit`), inode and uid. The
/// contract names the decoded record and does not spell out the wire
/// format.
#[verifier::external_body]
fn deserialize_netlink(bytes: &[u8]) -> (r: Result<NetlinkRecord, std::io::Error>)
    ensures
        match r {
            Ok(record) => netlink_decoding(bytes@) == Some(record),
            Err(_) => netlink_decoding(bytes@) is None,
        },
{
    match NetlinkMessage::<SockDiagMessage>::deserialize(bytes) {
        Err(e) => Err(std::io::Error::new(std::io::ErrorKind::InvalidData, e)),
        Ok(message) => Ok(NetlinkRecord { length: message.header.length,
            done: matches!(message.payload, NetlinkPayload::Done(_)), inet: match message.payload {
            NetlinkPayload::InnerMessage(SockDiagMessage::InetResponse(r)) => {
                let mut socket_id = [0u8; 48];
                r.header.socket_id.emit(&mut socket_id);
                Some(InetRecord { family: r.header.family, source_port: r.header.socket_id.source_port,
                    socket_id, inode: r.header.inode, uid: r.header.uid })
            },
            _ => None } }),
    }
}

/// Whether a socket record has source address `ip`: its family is `ip`'s
/// (`AF_INET` or `AF_INET6`), and the source address field (bytes 4 to 20 of
/// the socket id) is `ip`'s field.
pub open spec fn record_has_address(r: InetRecord, ip: IpAddress) -> bool {
    &&& r.family == request_family(ip)
    &&& r.socket_id@.subrange(4, 20) == address_field(ip)
}

/// Whether a record has source address `ip`.
pub fn record_address_is(r: &InetRecord, ip: &IpAddress) -> (b: bool)
    ensures
        b == record_has_address(*r, *ip),
{
    let family = if ip.is_ipv4() {
        FAMILY_INET
    } else {
        FAMILY_INET6
    };
    if r.family != family {
        return false;
    }
    let field = address_field_of(ip);
    let b = crate::model::bytes_equal(&r.socket_id[4..20], field.as_slice());
    b
}

/// What to do after reading one batch of netlink replies.
#[derive(Clone, Copy, Debug)]
pub enum NetlinkStep {
    /// The socket was found: its inode and owner.
    Finished { inode: u32, uid: u32 },
    /// Receive the next batch and read it from `offset`.
    Receive { offset: usize },
    /// The dump ended without the socket.
    NotFound,
}

/// Whether a decoded message describes the socket with this source port and
/// address.
pub open spec fn describes_socket(record: NetlinkRecord, port: u16, ip: IpAddress) -> bool {
    record.inet matches Some(r) && r.source_port == port && record_has_address(r, ip)
}

/// Walks the replies in `buf` from `offset`: each message is decoded from
/// `offset` to the end of the buffer; the first that describes the socket
/// ends the walk (found with a non-zero inode, or to be read again from the
/// same offset after the next receive when its inode is 0); the message that
/// ends the dump ends it with the socket not found; otherwise the walk moves
/// on by the message's length, and starts the next batch from 0 once it
/// reaches `size` or meets a message of length 0. `None` when a message
/// cannot be decoded.
pub open spec fn netlink_batch(buf: Seq<u8>, size: int, offset: int, port: u16, ip: IpAddress) -> Option<
    NetlinkStep,
>
    decreases size - offset,
{
    if offset < 0 || offset > buf.len() {
        None
    } else {
        match netlink_decoding(buf.subrange(offset, buf.len() as int)) {
            None => None,
            Some(record) => if describes_socket(record, port, ip) {
                let r = record.inet->0;
                if r.inode != 0 {
                    Some(NetlinkStep::Finished { inode: r.inode, uid: r.uid })
                } else {
                    Some(NetlinkStep::Receive { offset: offset as usize })
                }
            } else if record.done {
                Some(NetlinkStep::NotFound)
            } else {
                let next = offset + record.length;
                if next >= size || record.length == 0 {
                    Some(NetlinkStep::Receive { offset: 0 })
                } else {
                    netlink_batch(buf, size, next, port, ip)
                }
            },
        }
    }
}

/// Reads one batch of `size` received bytes (the rest of `buffer` holds
/// whatever earlier batches left), starting at `offset`, looking for the
/// socket with source `port` and address `ip`.
pub fn netlink_step(buffer: &[u8], size: usize, offset: usize, port: u16, ip: &IpAddress) -> (r:
    Result<NetlinkStep, ProcessError>)
    requires
        size <= buffer@.len(),
        offset <= buffer@.len(),
    ensures
        match r {
            Ok(step) => netlink_batch(buffer@, size as int, offset as int, port, *ip) == Some(step),
            Err(e) => netlink_batch(buffer@, size as int, offset as int, port, *ip) is None
                && e is IoError,
        },
{
    let mut at = offset;
    loop
        invariant
            at <= buffer@.len(),
            size <= buffer@.len(),
            netlink_batch(buffer@, size as int, offset as int, port, *ip) == netlink_batch(
                buffer@,
                size as int,
                at as int,
                port,
                *ip,
            ),
        decreases buffer@.len() - at,
    {
        let record = match deserialize_netlink(&buffer[at..buffer.len()]) {
            Ok(record) => record,
            Err(e) => {
                return Err(ProcessError::IoError(e));
            },
        };
        match record.inet {
            Some(r) => {
                if r.source_port == port && record_address_is(&r, ip) {
                    if r.inode != 0 {
                        return Ok(NetlinkStep::Finished { inode: r.inode, uid: r.uid });
                    } else {
                        return Ok(NetlinkStep::Receive { offset: at });
                    }
                }
            },
            None => {},
        }
        if record.done {
            return Ok(NetlinkStep::NotFound);
        }
        let length = record.length as usize;
        if length == 0 || at >= size || length >= size - at {
            return Ok(NetlinkStep::Receive { offset: 0 });
        }
        at = at + length;
    }
}

/// Every process id directory the kernel creates (the decimal numeral of a
/// `u32`) passes the process-id name filter.
pub proof fn lemma_pid_names_accepted(pid: u32)
    ensures
        valid_pid_name(decimal_bytes(pid as nat)),
{
    lemma_decimal_bytes_well_formed(pid as nat);
}

/// A file-descriptor link target names exactly one socket inode: two
/// inodes with the same link target are the same inode.
pub proof fn lemma_socket_link_identifies_inode(a: u32, b: u32)
    requires
        socket_link(a) == socket_link(b),
    ensures
        a == b,
{
    let la = socket_link(a);
    let lb = socket_link(b);
    let da = decimal_bytes(a as nat);
    let db = decimal_bytes(b as nat);
    assert(la.len() == 8 + da.len() + 1);
    assert(lb.len() == 8 + db.len() + 1);
    assert(la.subrange(8, la.len() - 1) =~= da);
    assert(lb.subrange(8, lb.len() - 1) =~= db);
    lemma_decimal_bytes_injective(a as nat, b as nat);
}

/// Whether the message decoded at `o` describes the socket, with a non-zero
/// inode, and `step` finishes with its inode and owner.
pub open spec fn finishes_at(buf: Seq<u8>, o: int, port: u16, ip: IpAddress, step: Option<NetlinkStep>) -> bool {
    match netlink_decoding(buf.subrange(o, buf.len() as int)) {
        Some(record) => {
            &&& describes_socket(record, port, ip)
            &&& record.inet->0.inode != 0
            &&& step == Some(
                NetlinkStep::Finished { inode: record.inet->0.inode, uid: record.inet->0.uid },
            )
        },
        None => false,
    }
}

/// A batch only finishes on a reply that describes the socket: the inode
/// and owner it reports come from a message, decoded at or after the
/// starting offset, whose port and address are the socket's, and the inode
/// is not 0.
pub proof fn lemma_netlink_finish_sound(buf: Seq<u8>, size: int, offset: int, port: u16, ip: IpAddress)
    requires
        netlink_batch(buf, size, offset, port, ip) matches Some(NetlinkStep::Finished { .. }),
    ensures
        exists|o: int|
            offset <= o <= buf.len() && #[trigger] finishes_at(
                buf,
                o,
                port,
                ip,
                netlink_batch(buf, size, offset, port, ip),
            ),
    decreases size - offset,
{
    let record = netlink_decoding(buf.subrange(offset, buf.len() as int))->0;
    if !describes_socket(record, port, ip) && !record.done {
        let next = offset + record.length;
        lemma_netlink_finish_sound(buf, size, next, port, ip);
        let o = choose|o: int|
            next <= o <= buf.len() && #[trigger] finishes_at(
                buf,
                o,
                port,
                ip,
                netlink_batch(buf, size, next, port, ip),
            );
        assert(offset <= o);
    } else {
        assert(finishes_at(buf, offset, port, ip, netlink_batch(buf, size, offset, port, ip)));
    }
}

/// Whether the message decoded at `o` ends the dump.
pub open spec fn dump_ends_at(buf: Seq<u8>, o: int) -> bool {
    netlink_decoding(buf.subrange(o, buf.len() as int)) matches Some(record) && record.done
}

/// A batch reports the socket not found only when the walk reached the
/// message that ends the dump, with no message before it in the walk
/// describing the socket.
pub proof fn lemma_netlink_not_found_sound(buf: Seq<u8>, size: int, offset: int, port: u16, ip: IpAddress)
    requires
        netlink_batch(buf, size, offset, port, ip) == Some(NetlinkStep::NotFound),
    ensures
        exists|o: int| offset <= o <= buf.len() && #[trigger] dump_ends_at(buf, o),
        !(netlink_decoding(buf.subrange(offset, buf.len() as int)) matches Some(record)
            && describes_socket(record, port, ip)),
    decreases size - offset,
{
    let record = netlink_decoding(buf.subrange(offset, buf.len() as int))->0;
    if !record.done {
        let next = offset + record.length;
        lemma_netlink_not_found_sound(buf, size, next, port, ip);
        let o = choose|o: int| next <= o <= buf.len() && #[trigger] dump_ends_at(buf, o);
        assert(offset <= o);
    } else {
        assert(dump_ends_at(buf, offset));
    }
}

/// A batch that reaches the end of the dump before any message describing
/// the socket answers not found: the lookup ends.
pub proof fn lemma_netlink_dump_end_not_found(buf: Seq<u8>, size: int, offset: int, port: u16, ip: IpAddress)
    requires
        0 <= offset <= buf.len(),
        netlink_decoding(buf.subrange(offset, buf.len() as int)) matches Some(record) && record.done
            && !describes_socket(record, port, ip),
    ensures
        netlink_batch(buf, size, offset, port, ip) == Some(NetlinkStep::NotFound),
{
}

/// A batch finishes only on a reply for exactly the looked-up address: a
/// reply decoded at or after the starting offset, on the socket's port,
/// whose family is `AF_INET` for an IPv4 address and `AF_INET6` for an IPv6
/// one, and whose whole 16-byte source-address field (bytes 4 to 20 of the
/// socket id) holds the address's octets followed by zeros; the inode and
/// owner reported are that reply's.
pub proof fn lemma_netlink_finish_exact_address(
    buf: Seq<u8>,
    size: int,
    offset: int,
    port: u16,
    ip: IpAddress,
    inode: u32,
    uid: u32,
)
    requires
        netlink_batch(buf, size, offset, port, ip) == Some(NetlinkStep::Finished { inode, uid }),
    ensures
        exists|o: int|
            offset <= o <= buf.len() && #[trigger] netlink_decoding(buf.subrange(o, buf.len() as int))
                is Some && ({
                let r = netlink_decoding(buf.subrange(o, buf.len() as int))->0.inet->0;
                &&& netlink_decoding(buf.subrange(o, buf.len() as int))->0.inet is Some
                &&& r.source_port == port
                &&& r.inode == inode
                &&& r.uid == uid
                &&& inode != 0
                &&& (r.family == 2) == (ip is V4)
                &&& (r.family == 10) == (ip is V6)
                &&& forall|j: int|
                    0 <= j < 16 ==> #[trigger] r.socket_id@[4 + j] == if j < ip.octets().len() {
                        ip.octets()[j]
                    } else {
                        0u8
                    }
            }),
{
    lemma_netlink_finish_sound(buf, size, offset, port, ip);
    let o = choose|o: int|
        offset <= o <= buf.len() && #[trigger] finishes_at(
            buf,
            o,
            port,
            ip,
            netlink_batch(buf, size, offset, port, ip),
        );
    let rec = netlink_decoding(buf.subrange(o, buf.len() as int))->0;
    let r = rec.inet->0;
    assert(record_has_address(r, ip));
    let field = r.socket_id@.subrange(4, 20);
    assert(field == address_field(ip));
    assert forall|j: int| 0 <= j < 16 implies #[trigger] r.socket_id@[4 + j] == if j < ip.octets().len() {
        ip.octets()[j]
    } else {
        0u8
    } by {
        assert(field[j] == r.socket_id@[4 + j]);
        match ip {
            IpAddress::V4(a) => {
                assert(a@.len() == 4);
                if j < 4 {
                    assert(address_field(ip)[j] == a@[j]);
                } else {
                    assert(address_field(ip)[j] == 0u8);
                }
            },
            IpAddress::V6(a) => {
                assert(a@.len() == 16);
            },
        }
    }
    assert(netlink_decoding(buf.subrange(o, buf.len() as int)) is Some);
    assert(rec.inet is Some);
    assert(r.family == request_family(ip));
}

/// Whether reply `r` is, byte for byte, a reply for the socket with source
/// `port` and address `ip`: same port, the family of `ip` (`AF_INET` 2 or
/// `AF_INET6` 10), and a source-address field (socket-id bytes 4 to 20)
/// holding `ip`'s octets followed by zeros.
pub open spec fn reply_is_exactly(r: InetRecord, port: u16, ip: IpAddress) -> bool {
    &&& r.source_port == port
    &&& r.family == if ip is V4 {
        2u8
    } else {
        10u8
    }
    &&& forall|j: int|
        0 <= j < 16 ==> #[trigger] r.socket_id@[4 + j] == if j < ip.octets().len() {
            ip.octets()[j]
        } else {
            0u8
        }
}

proof fn lemma_reply_exact_describes(record: NetlinkRecord, port: u16, ip: IpAddress)
    requires
        record.inet matches Some(r) && reply_is_exactly(r, port, ip),
    ensures
        describes_socket(record, port, ip),
{
    let r = record.inet->0;
    assert(r.socket_id@.subrange(4, 20) =~= address_field(ip)) by {
        match ip {
            IpAddress::V4(a) => {
                assert(a@.len() == 4);
                assert forall|j: int| 0 <= j < 16 implies r.socket_id@.subrange(4, 20)[j]
                    == address_field(ip)[j] by {
                    assert(r.socket_id@[4 + j] == r.socket_id@.subrange(4, 20)[j]);
                }
            },
            IpAddress::V6(a) => {
                assert(a@.len() == 16);
                assert forall|j: int| 0 <= j < 16 implies r.socket_id@.subrange(4, 20)[j]
                    == address_field(ip)[j] by {
                    assert(r.socket_id@[4 + j] == r.socket_id@.subrange(4, 20)[j]);
                }
            },
        }
    }
}

/// The walk stops at a reply for exactly the socket: when the message
/// decoded at `offset` is such a reply with a non-zero inode, the batch
/// finishes there with that reply's inode and owner.
pub proof fn lemma_netlink_exact_reply_finishes(
    buf: Seq<u8>,
    size: int,
    offset: int,
    port: u16,
    ip: IpAddress,
)
    requires
        0 <= offset <= buf.len(),
        netlink_decoding(buf.subrange(offset, buf.len() as int)) matches Some(record) && record.inet
            matches Some(r) && reply_is_exactly(r, port, ip) && r.inode != 0,
    ensures
        netlink_batch(buf, size, offset, port, ip) == Some(
            NetlinkStep::Finished {
                inode: netlink_decoding(buf.subrange(offset, buf.len() as int))->0.inet->0.inode,
                uid: netlink_decoding(buf.subrange(offset, buf.len() as int))->0.inet->0.uid,
            },
        ),
{
    lemma_reply_exact_describes(netlink_decoding(buf.subrange(offset, buf.len() as int))->0, port, ip);
}

/// The walk passes over a message that is not a reply for the socket and
/// does not end the dump: reading from `offset` gives what reading from the
/// next message gives, while that message is inside the batch.
pub proof fn lemma_netlink_skips_other_replies(
    buf: Seq<u8>,
    size: int,
    offset: int,
    port: u16,
    ip: IpAddress,
)
    requires
        0 <= offset <= buf.len(),
        netlink_decoding(buf.subrange(offset, buf.len() as int)) matches Some(record) && !record.done
            && record.length > 0 && offset + record.length < size && (record.inet matches Some(r)
            ==> r.source_port != port || r.family != (if ip is V4 {
            2u8
        } else {
            10u8
        }) || exists|j: int|
            0 <= j < 16 && #[trigger] r.socket_id@[4 + j] != if j < ip.octets().len() {
                ip.octets()[j]
            } else {
                0u8
            }),
    ensures
        netlink_batch(buf, size, offset, port, ip) == netlink_batch(
            buf,
            size,
            offset + netlink_decoding(buf.subrange(offset, buf.len() as int))->0.length,
            port,
            ip,
        ),
{
    let record = netlink_decoding(buf.subrange(offset, buf.len() as int))->0;
    if describes_socket(record, port, ip) {
        let r = record.inet->0;
        lemma_describes_exact(r, port, ip);
    }
}

proof fn lemma_describes_exact(r: InetRecord, port: u16, ip: IpAddress)
    requires
        r.source_port == port,
        record_has_address(r, ip),
    ensures
        reply_is_exactly(r, port, ip),
{
    let field = r.socket_id@.subrange(4, 20);
    assert forall|j: int| 0 <= j < 16 implies #[trigger] r.socket_id@[4 + j] == if j < ip.octets().len() {
        ip.octets()[j]
    } else {
        0u8
    } by {
        assert(field[j] == r.socket_id@[4 + j]);
        match ip {
            IpAddress::V4(a) => {
                assert(a@.len() == 4);
                if j < 4 {
                    assert(address_field(ip)[j] == a@[j]);
                } else {
                    assert(address_field(ip)[j] == 0u8);
                }
            },
            IpAddress::V6(a) => {
                assert(a@.len() == 16);
            },
        }
    }
}

} // verus!
