//! Windows: the owner of a socket is found in the tables that
//! `GetExtendedTcpTable` / `GetExtendedUdpTable` fill (`*_OWNER_PID`
//! layouts), the parent of a process in a Toolhelp process snapshot, and a
//! process's path from `GetModuleFileNameExW`.
//!
//! `app/` makes the system calls; this module reads the returned tables and
//! decides every answer. A table is read as bytes: a little-endian entry
//! count, then fixed-size rows from byte 4.

use vstd::prelude::*;

use crate::model::{IpAddress, NetWorkTuple, Network, ProcessError};
use crate::text::{decimal_chars, push_decimal_str};

verus! {

/// `AF_INET` on Windows.
pub const AF_INET: u32 = 2;

/// `AF_INET6` on Windows.
pub const AF_INET6: u32 = 23;

/// `ERROR_INSUFFICIENT_BUFFER`.
pub const ERROR_INSUFFICIENT_BUFFER: u32 = 122;

/// The address family to ask the tables for: that of the source address.
pub fn get_address_family(tuple: &NetWorkTuple) -> (family: u32)
    ensures
        family == if tuple.src_ip is V4 {
            AF_INET
        } else {
            AF_INET6
        },
{
    if tuple.is_v4() {
        AF_INET
    } else {
        AF_INET6
    }
}

/// What the sizing call of `GetExtended*Table` (no buffer) returned: going
/// on needs `NO_ERROR` or `ERROR_INSUFFICIENT_BUFFER`; anything else is
/// reported as not found.
pub fn table_size_query_outcome(result: u32) -> (r: Result<(), ProcessError>)
    ensures
        (result == 0 || result == ERROR_INSUFFICIENT_BUFFER) <==> r is Ok,
        r is Err ==> r matches Err(ProcessError::NotFound),
{
    if result != 0 && result != ERROR_INSUFFICIENT_BUFFER {
        Err(ProcessError::NotFound)
    } else {
        Ok(())
    }
}

/// What the filling call of `GetExtended*Table` returned: the table when it
/// returned `NO_ERROR`, else not found.
pub fn table_data_query_outcome(result: u32, table: Vec<u8>) -> (r: Result<Vec<u8>, ProcessError>)
    ensures
        result == 0 ==> (r matches Ok(t) && t@ == table@),
        result != 0 ==> r matches Err(ProcessError::NotFound),
{
    if result != 0 {
        Err(ProcessError::NotFound)
    } else {
        Ok(table)
    }
}

/// Where the fields this lookup reads sit in a row of an owner-pid table.
pub struct RowLayout {
    pub row_size: usize,
    pub addr_offset: usize,
    pub port_offset: usize,
    pub pid_offset: usize,
}

/// A layout whose fields (an address of `addr_len` bytes, a 4-byte port and
/// a 4-byte pid) lie inside its rows.
pub open spec fn layout_fits(l: RowLayout, addr_len: int) -> bool {
    &&& l.row_size > 0
    &&& l.addr_offset + addr_len <= l.row_size
    &&& l.port_offset + 4 <= l.row_size
    &&& l.pid_offset + 4 <= l.row_size
    &&& l.row_size <= 1024
}

/// `MIB_TCPROW_OWNER_PID`: state, local address, local port, remote
/// address, remote port, owning pid.
pub open spec fn tcp_v4_layout() -> RowLayout {
    RowLayout { row_size: 24, addr_offset: 4, port_offset: 8, pid_offset: 20 }
}

/// `MIB_TCP6ROW_OWNER_PID`: local address (16 bytes), local scope, local
/// port, remote address (16 bytes), remote scope, remote port, state,
/// owning pid.
pub open spec fn tcp_v6_layout() -> RowLayout {
    RowLayout { row_size: 56, addr_offset: 0, port_offset: 20, pid_offset: 52 }
}

/// `MIB_UDPROW_OWNER_PID`: local address, local port, owning pid.
pub open spec fn udp_v4_layout() -> RowLayout {
    RowLayout { row_size: 12, addr_offset: 0, port_offset: 4, pid_offset: 8 }
}

/// `MIB_UDP6ROW_OWNER_PID`: local address (16 bytes), local scope, local
/// port, owning pid.
pub open spec fn udp_v6_layout() -> RowLayout {
    RowLayout { row_size: 28, addr_offset: 0, port_offset: 20, pid_offset: 24 }
}

/// The little-endian 32-bit number at `at` (Windows targets are
/// little-endian, so this is a `u32` field's value).
pub open spec fn le_u32_at(b: Seq<u8>, at: int) -> int {
    b[at] + b[at + 1] * 256 + b[at + 2] * 65536 + b[at + 3] * 16777216
}

/// The port that a row's port field holds: the field keeps the port in
/// network order in its first two bytes.
pub open spec fn row_port(b: Seq<u8>, at: int) -> int {
    b[at] * 256 + b[at + 1]
}

/// The owner of the first of `remaining` rows, from the row at `off` on,
/// whose local port is `port` and local address is `addr`; rows that do not
/// lie wholly inside `b` end the table.
pub open spec fn table_search(
    b: Seq<u8>,
    l: RowLayout,
    addr: Seq<u8>,
    port: u16,
    off: int,
    remaining: int,
) -> Option<u32>
    decreases remaining,
{
    if remaining <= 0 || off < 0 || off + l.row_size > b.len() {
        None
    } else if row_port(b, off + l.port_offset) == port && b.subrange(
        off + l.addr_offset,
        off + l.addr_offset + addr.len(),
    ) == addr {
        Some(le_u32_at(b, off + l.pid_offset) as u32)
    } else {
        table_search(b, l, addr, port, off + l.row_size, remaining - 1)
    }
}

/// The owning process of the socket with local `addr` and `port` in a table
/// of layout `l`: the table starts with its entry count.
pub open spec fn table_owner(b: Seq<u8>, l: RowLayout, addr: Seq<u8>, port: u16) -> Option<u32> {
    if b.len() < 4 {
        None
    } else {
        table_search(b, l, addr, port, 4, le_u32_at(b, 0))
    }
}

/// What a table search answers: the owner, or not found.
pub open spec fn search_answer(owner: Option<u32>, r: Result<u32, ProcessError>) -> bool {
    match owner {
        Some(pid) => r == Ok::<u32, ProcessError>(pid),
        None => r matches Err(ProcessError::NotFound),
    }
}

fn read_le_u32(b: &[u8], at: usize) -> (v: u32)
    requires
        at + 4 <= b@.len(),
    ensures
        v == le_u32_at(b@, at as int),
{
    b[at] as u32 + b[at + 1] as u32 * 256 + b[at + 2] as u32 * 65536 + b[at + 3] as u32 * 16777216
}

/// Searches a table of layout `layout` for the socket with local `addr` and
/// `port`.
fn search_table(buffer: &[u8], layout: RowLayout, addr: &[u8], port: u16) -> (r: Result<
    u32,
    ProcessError,
>)
    requires
        layout_fits(layout, addr@.len() as int),
    ensures
        search_answer(table_owner(buffer@, layout, addr@, port), r),
{
    let total = buffer.len();
    if total < 4 {
        return Err(ProcessError::NotFound);
    }
    let count = read_le_u32(buffer, 0);
    let mut remaining: u32 = count;
    let mut off: usize = 4;
    let alen = addr.len();
    while remaining > 0 && off <= total && layout.row_size <= total - off
        invariant
            total == buffer@.len(),
            alen == addr@.len(),
            layout_fits(layout, addr@.len() as int),
            total >= 4,
            table_owner(buffer@, layout, addr@, port) == table_search(
                buffer@,
                layout,
                addr@,
                port,
                off as int,
                remaining as int,
            ),
        decreases remaining,
    {
        let p = off + layout.port_offset;
        let row_port = buffer[p] as u16 * 256 + buffer[p + 1] as u16;
        let a = off + layout.addr_offset;
        if row_port == port && crate::model::bytes_equal(&buffer[a..a + alen], addr) {
            return Ok(read_le_u32(buffer, off + layout.pid_offset));
        }
        off = off + layout.row_size;
        remaining = remaining - 1;
    }
    Err(ProcessError::NotFound)
}

/// The owner of the IPv4 TCP socket with local `src_ip` and `src_port` in a
/// `MIB_TCPTABLE_OWNER_PID`.
pub fn search_tcp_v4_pid(buffer: &[u8], src_ip: [u8; 4], src_port: u16) -> (r: Result<
    u32,
    ProcessError,
>)
    ensures
        search_answer(table_owner(buffer@, tcp_v4_layout(), src_ip@, src_port), r),
{
    let layout = RowLayout { row_size: 24, addr_offset: 4, port_offset: 8, pid_offset: 20 };
    search_table(buffer, layout, src_ip.as_slice(), src_port)
}

/// The owner of the IPv6 TCP socket with local `src_ip` and `src_port` in a
/// `MIB_TCP6TABLE_OWNER_PID`.
pub fn search_tcp_v6_pid(buffer: &[u8], src_ip: [u8; 16], src_port: u16) -> (r: Result<
    u32,
    ProcessError,
>)
    ensures
        search_answer(table_owner(buffer@, tcp_v6_layout(), src_ip@, src_port), r),
{
    let layout = RowLayout { row_size: 56, addr_offset: 0, port_offset: 20, pid_offset: 52 };
    search_table(buffer, layout, src_ip.as_slice(), src_port)
}

/// The owner of the IPv4 UDP socket with local `src_ip` and `src_port` in a
/// `MIB_UDPTABLE_OWNER_PID`.
pub fn search_udp_v4_pid(buffer: &[u8], src_ip: [u8; 4], src_port: u16) -> (r: Result<
    u32,
    ProcessError,
>)
    ensures
        search_answer(table_owner(buffer@, udp_v4_layout(), src_ip@, src_port), r),
{
    let layout = RowLayout { row_size: 12, addr_offset: 0, port_offset: 4, pid_offset: 8 };
    search_table(buffer, layout, src_ip.as_slice(), src_port)
}

/// The owner of the IPv6 UDP socket with local `src_ip` and `src_port` in a
/// `MIB_UDP6TABLE_OWNER_PID`.
pub fn search_udp_v6_pid(buffer: &[u8], src_ip: [u8; 16], src_port: u16) -> (r: Result<
    u32,
    ProcessError,
>)
    ensures
        search_answer(table_owner(buffer@, udp_v6_layout(), src_ip@, src_port), r),
{
    let layout = RowLayout { row_size: 28, addr_offset: 0, port_offset: 20, pid_offset: 24 };
    search_table(buffer, layout, src_ip.as_slice(), src_port)
}


/// The table layout that a lookup of `network` for an address of this
/// family reads.
pub open spec fn table_layout(network: Network, v4: bool) -> RowLayout {
    match (network, v4) {
        (Network::Tcp, true) => tcp_v4_layout(),
        (Network::Tcp, false) => tcp_v6_layout(),
        (Network::Udp, true) => udp_v4_layout(),
        (Network::Udp, false) => udp_v6_layout(),
    }
}

/// The owner of `tuple`'s socket in the table that `GetExtended*Table`
/// returned for its protocol and address family.
pub fn search_table_for(tuple: &NetWorkTuple, buffer: &[u8]) -> (r: Result<u32, ProcessError>)
    ensures
        search_answer(
            table_owner(
                buffer@,
                table_layout(tuple.network, tuple.src_ip is V4),
                tuple.src_ip.octets(),
                tuple.src_port,
            ),
            r,
        ),
{
    match (tuple.network, tuple.src_ip) {
        (Network::Tcp, IpAddress::V4(ip)) => search_tcp_v4_pid(buffer, ip, tuple.src_port),
        (Network::Tcp, IpAddress::V6(ip)) => search_tcp_v6_pid(buffer, ip, tuple.src_port),
        (Network::Udp, IpAddress::V4(ip)) => search_udp_v4_pid(buffer, ip, tuple.src_port),
        (Network::Udp, IpAddress::V6(ip)) => search_udp_v6_pid(buffer, ip, tuple.src_port),
    }
}

/// The parent recorded for `pid` by the first snapshot entry
/// (`th32ProcessID`, `th32ParentProcessID`) that names it.
pub open spec fn first_parent(entries: Seq<(u32, u32)>, pid: u32) -> Option<u32>
    decreases entries.len(),
{
    if entries.len() == 0 {
        None
    } else if entries[0].0 == pid {
        Some(entries[0].1)
    } else {
        first_parent(entries.drop_first(), pid)
    }
}

/// The parent of `pid` in a process snapshot, given as its entries in the
/// order `Process32FirstW` / `Process32NextW` return them (none when the
/// snapshot could not be walked).
pub fn ppid_from_snapshot(entries: &Vec<(u32, u32)>, pid: u32) -> (r: Result<u32, ProcessError>)
    ensures
        search_answer(first_parent(entries@, pid), r),
{
    let mut i: usize = 0;
    assert(entries@.skip(0) =~= entries@);
    while i < entries.len()
        invariant
            i <= entries@.len(),
            first_parent(entries@, pid) == first_parent(entries@.skip(i as int), pid),
        decreases entries@.len() - i,
    {
        assert(entries@.skip(i as int).drop_first() =~= entries@.skip(i + 1));
        let (p, parent) = entries[i];
        if p == pid {
            return Ok(parent);
        }
        i = i + 1;
    }
    assert(entries@.skip(i as int).len() == 0);
    Err(ProcessError::NotFound)
}

/// UTF-16 decoding as `String::from_utf16` does it: a unit outside
/// 0xD800..=0xDFFF is a character by itself, a high surrogate followed by a
/// low surrogate is one character, and any other surrogate makes the input
/// invalid.
pub open spec fn utf16_decode(u: Seq<u16>) -> Option<Seq<char>>
    decreases u.len(),
{
    if u.len() == 0 {
        Some(seq![])
    } else if u[0] < 0xd800 || u[0] > 0xdfff {
        match utf16_decode(u.drop_first()) {
            Some(rest) => Some(seq![(u[0] as u32) as char] + rest),
            None => None,
        }
    } else if u[0] <= 0xdbff && u.len() >= 2 && 0xdc00 <= u[1] <= 0xdfff {
        match utf16_decode(u.skip(2)) {
            Some(rest) => Some(seq![
                ((0x10000 + (u[0] - 0xd800) * 1024 + (u[1] - 0xdc00)) as u32) as char,
            ] + rest),
            None => None,
        }
    } else {
        None
    }
}

/// Decodes UTF-16 with `String::from_utf16`; `None` when it reports an
/// error (a lone surrogate). The contract states the decoding as
/// `utf16_decode`.
#[verifier::external_body]
fn string_from_utf16(units: &[u16]) -> (r: Option<String>)
    ensures
        match r {
            Some(s) => utf16_decode(units@) == Some(s@),
            None => utf16_decode(units@) is None,
        },
{
    String::from_utf16(units).ok()
}

/// The message for a process id that cannot be looked up.
pub open spec fn invalid_pid_message(pid: u32) -> Seq<char> {
    "Invalid or current process PID: "@ + decimal_chars(pid as nat)
}

/// The message for a process whose module name could not be read.
pub open spec fn unreadable_name_message(pid: u32) -> Seq<char> {
    "Failed to read process name for PID "@ + decimal_chars(pid as nat)
}

/// The message for a module name that is not valid UTF-16.
pub open spec fn bad_utf16_message(pid: u32) -> Seq<char> {
    "UTF-16 conversion failed for PID "@ + decimal_chars(pid as nat)
        + ": invalid utf-16: lone surrogate found"@
}

/// `prefix` followed by the decimal numeral of `n`.
fn message_with_number(prefix: &str, n: u32) -> (s: String)
    ensures
        s@ == prefix@ + decimal_chars(n as nat),
{
    let mut s = String::from_str(prefix);
    push_decimal_str(&mut s, n);
    s
}

/// Whether a process's path may be looked up: process id 0 (the idle
/// process) may not.
pub fn process_path_precheck(pid: u32) -> (r: Result<(), ProcessError>)
    ensures
        pid != 0 ==> r is Ok,
        pid == 0 ==> (r matches Err(ProcessError::NameReadError(m)) && m@ == invalid_pid_message(
            pid,
        )),
{
    if pid == 0 {
        return Err(ProcessError::NameReadError(message_with_number("Invalid or current process PID: ", pid)));
    }
    Ok(())
}

/// The path of process `pid` from what `GetModuleFileNameExW` wrote: the
/// first `len` units of `name`; `len` 0 means the call failed.
pub fn process_path_from_module_name(pid: u32, name: &[u16], len: u32) -> (r: Result<
    String,
    ProcessError,
>)
    requires
        len <= name@.len(),
    ensures
        len == 0 ==> (r matches Err(ProcessError::NameReadError(m)) && m@
            == unreadable_name_message(pid)),
        len > 0 ==> match utf16_decode(name@.take(len as int)) {
            Some(path) => r matches Ok(s) && s@ == path,
            None => r matches Err(ProcessError::NameReadError(m)) && m@ == bad_utf16_message(pid),
        },
{
    if len == 0 {
        return Err(ProcessError::NameReadError(message_with_number("Failed to read process name for PID ", pid)));
    }
    let units = &name[0..len as usize];
    assert(units@ == name@.take(len as int));
    match string_from_utf16(units) {
        Some(path) => Ok(path),
        None => {
            let mut m = message_with_number("UTF-16 conversion failed for PID ", pid);
            m.append(": invalid utf-16: lone surrogate found");
            Err(ProcessError::NameReadError(m))
        },
    }
}


/// Whether the row at `off` of a table of layout `l` is the socket with
/// local `addr` and `port`.
pub open spec fn row_is_socket(b: Seq<u8>, l: RowLayout, addr: Seq<u8>, port: u16, off: int) -> bool {
    &&& row_port(b, off + l.port_offset) == port
    &&& b.subrange(off + l.addr_offset, off + l.addr_offset + addr.len()) == addr
}

/// The offset of row `k` of a table whose rows start at byte 4.
pub open spec fn row_offset(l: RowLayout, k: nat) -> int {
    4 + k * l.row_size
}

proof fn lemma_table_search_sound(
    b: Seq<u8>,
    l: RowLayout,
    addr: Seq<u8>,
    port: u16,
    k: nat,
    remaining: int,
)
    requires
        l.row_size > 0,
        table_search(b, l, addr, port, row_offset(l, k), remaining) is Some,
    ensures
        exists|j: nat|
            k <= j < k + remaining && row_offset(l, j) + l.row_size <= b.len() && row_is_socket(
                b,
                l,
                addr,
                port,
                #[trigger] row_offset(l, j),
            ) && le_u32_at(b, row_offset(l, j) + l.pid_offset) as u32 == table_search(
                b,
                l,
                addr,
                port,
                row_offset(l, k),
                remaining,
            )->0,
    decreases remaining,
{
    let off = row_offset(l, k);
    if row_port(b, off + l.port_offset) == port && b.subrange(
        off + l.addr_offset,
        off + l.addr_offset + addr.len(),
    ) == addr {
        assert(row_is_socket(b, l, addr, port, row_offset(l, k)));
    } else {
        assert(off + l.row_size == row_offset(l, k + 1)) by (nonlinear_arith)
            requires
                off == 4 + k * l.row_size,
        ;
        lemma_table_search_sound(b, l, addr, port, k + 1, remaining - 1);
    }
}

/// The owner a table search reports is the owning pid of a row, among the
/// table's entries, whose local port and address are the socket's.
pub proof fn lemma_table_owner_sound(b: Seq<u8>, l: RowLayout, addr: Seq<u8>, port: u16)
    requires
        l.row_size > 0,
        table_owner(b, l, addr, port) is Some,
    ensures
        exists|j: nat|
            j < le_u32_at(b, 0) && row_offset(l, j) + l.row_size <= b.len() && row_is_socket(
                b,
                l,
                addr,
                port,
                #[trigger] row_offset(l, j),
            ) && le_u32_at(b, row_offset(l, j) + l.pid_offset) as u32 == table_owner(
                b,
                l,
                addr,
                port,
            )->0,
{
    assert(row_offset(l, 0) == 4);
    lemma_table_search_sound(b, l, addr, port, 0, le_u32_at(b, 0));
}

proof fn lemma_table_search_complete(
    b: Seq<u8>,
    l: RowLayout,
    addr: Seq<u8>,
    port: u16,
    k: nat,
    remaining: int,
    j: nat,
)
    requires
        l.row_size > 0,
        k <= j < k + remaining,
        row_offset(l, j) + l.row_size <= b.len(),
        row_is_socket(b, l, addr, port, row_offset(l, j)),
    ensures
        table_search(b, l, addr, port, row_offset(l, k), remaining) is Some,
    decreases remaining,
{
    let off = row_offset(l, k);
    assert(off <= row_offset(l, j)) by (nonlinear_arith)
        requires
            off == 4 + k * l.row_size,
            row_offset(l, j) == 4 + j * l.row_size,
            k <= j,
            l.row_size > 0,
    ;
    if !(row_port(b, off + l.port_offset) == port && b.subrange(
        off + l.addr_offset,
        off + l.addr_offset + addr.len(),
    ) == addr) {
        assert(k != j);
        assert(off + l.row_size == row_offset(l, k + 1)) by (nonlinear_arith)
            requires
                off == 4 + k * l.row_size,
        ;
        lemma_table_search_complete(b, l, addr, port, k + 1, remaining - 1, j);
    }
}

/// A table search misses no socket: when some row among the table's
/// entries, wholly inside the buffer, has the socket's local port and
/// address, the search reports an owner.
pub proof fn lemma_table_owner_complete(b: Seq<u8>, l: RowLayout, addr: Seq<u8>, port: u16, j: nat)
    requires
        l.row_size > 0,
        b.len() >= 4,
        j < le_u32_at(b, 0),
        row_offset(l, j) + l.row_size <= b.len(),
        row_is_socket(b, l, addr, port, row_offset(l, j)),
    ensures
        table_owner(b, l, addr, port) is Some,
{
    assert(row_offset(l, 0) == 4);
    lemma_table_search_complete(b, l, addr, port, 0, le_u32_at(b, 0), j);
}

/// The parent a snapshot gives for `pid` is the one its first entry for
/// `pid` records.
pub proof fn lemma_first_parent_sound(entries: Seq<(u32, u32)>, pid: u32)
    requires
        first_parent(entries, pid) is Some,
    ensures
        exists|i: int|
            0 <= i < entries.len() && #[trigger] entries[i] == (pid, first_parent(entries, pid)->0)
                && forall|j: int| 0 <= j < i ==> (#[trigger] entries[j]).0 != pid,
    decreases entries.len(),
{
    if entries[0].0 != pid {
        let rest = entries.drop_first();
        lemma_first_parent_sound(rest, pid);
        let i = choose|i: int|
            0 <= i < rest.len() && #[trigger] rest[i] == (pid, first_parent(rest, pid)->0)
                && forall|j: int| 0 <= j < i ==> (#[trigger] rest[j]).0 != pid;
        assert(entries[i + 1] == rest[i]);
        assert forall|j: int| 0 <= j < i + 1 implies (#[trigger] entries[j]).0 != pid by {
            if j > 0 {
                assert(entries[j] == rest[j - 1]);
            }
        }
    } else {
        assert(entries[0] == (pid, first_parent(entries, pid)->0));
    }
}

/// A table search reports only a row of exactly the socket: one of the
/// table's first `dwNumEntries` rows, wholly inside the buffer, whose port
/// field's first two bytes are the port in network order, whose every
/// local-address byte equals the looked-up address's, and whose owning-pid
/// field (little-endian) is the reported owner.
pub proof fn lemma_table_owner_exact(b: Seq<u8>, l: RowLayout, addr: Seq<u8>, port: u16, pid: u32)
    requires
        layout_fits(l, addr.len() as int),
        table_owner(b, l, addr, port) == Some(pid),
    ensures
        exists|j: nat|
            {
                let o = #[trigger] row_offset(l, j);
                &&& b.len() >= 4
                &&& j < b[0] + b[1] * 256 + b[2] * 65536 + b[3] * 16777216
                &&& o + l.row_size <= b.len()
                &&& b[o + l.port_offset] * 256 + b[o + l.port_offset + 1] == port
                &&& forall|k: int|
                    0 <= k < addr.len() ==> #[trigger] b[o + l.addr_offset + k] == addr[k]
                &&& pid == (b[o + l.pid_offset] + b[o + l.pid_offset + 1] * 256 + b[o + l.pid_offset
                    + 2] * 65536 + b[o + l.pid_offset + 3] * 16777216) as u32
            },
{
    lemma_table_owner_sound(b, l, addr, port);
    let j = choose|j: nat|
        j < le_u32_at(b, 0) && row_offset(l, j) + l.row_size <= b.len() && row_is_socket(
            b,
            l,
            addr,
            port,
            #[trigger] row_offset(l, j),
        ) && le_u32_at(b, row_offset(l, j) + l.pid_offset) as u32 == table_owner(
            b,
            l,
            addr,
            port,
        )->0;
    let o = row_offset(l, j);
    assert(o >= 4) by (nonlinear_arith)
        requires
            o == 4 + j * l.row_size,
            l.row_size > 0,
    ;
    let sub = b.subrange(o + l.addr_offset, o + l.addr_offset + addr.len());
    assert forall|k: int| 0 <= k < addr.len() implies #[trigger] b[o + l.addr_offset + k] == addr[k] by {
        assert(sub[k] == b[o + l.addr_offset + k]);
    }
}

/// A snapshot lookup misses no entry: when some entry names `pid`, the
/// lookup finds a parent, the one its first entry for `pid` records; it
/// answers none only when no entry names `pid`.
pub proof fn lemma_first_parent_complete(entries: Seq<(u32, u32)>, pid: u32, i: int)
    requires
        0 <= i < entries.len(),
        entries[i].0 == pid,
    ensures
        first_parent(entries, pid) is Some,
        exists|k: int|
            0 <= k <= i && #[trigger] entries[k].0 == pid && first_parent(entries, pid) == Some(
                entries[k].1,
            ) && forall|m: int| 0 <= m < k ==> (#[trigger] entries[m]).0 != pid,
    decreases entries.len(),
{
    if entries[0].0 != pid {
        let rest = entries.drop_first();
        assert(rest[i - 1] == entries[i]);
        lemma_first_parent_complete(rest, pid, i - 1);
        let k = choose|k: int|
            0 <= k <= i - 1 && #[trigger] rest[k].0 == pid && first_parent(rest, pid) == Some(
                rest[k].1,
            ) && forall|m: int| 0 <= m < k ==> (#[trigger] rest[m]).0 != pid;
        assert(entries[k + 1] == rest[k]);
        assert forall|m: int| 0 <= m < k + 1 implies (#[trigger] entries[m]).0 != pid by {
            if m > 0 {
                assert(entries[m] == rest[m - 1]);
            }
        }
    } else {
        assert(entries[0].0 == pid);
    }
}

/// The four owner-pid table layouts hold their fields inside their rows, so
/// the table laws apply to each search.
pub proof fn lemma_owner_layouts_fit()
    ensures
        layout_fits(tcp_v4_layout(), 4),
        layout_fits(tcp_v6_layout(), 16),
        layout_fits(udp_v4_layout(), 4),
        layout_fits(udp_v6_layout(), 16),
{
}

} // verus!
