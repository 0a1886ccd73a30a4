//! Total orders on the data model, used by the update aggregator to bring a
//! host's collections into one canonical form: protocol first, then socket
//! addresses and ports, then the owning process.
//!
//! Each order is proved a total ordering, which is what makes the aggregated
//! result independent of the order in which snapshots arrive.

use vstd::prelude::*;
use vstd::relations::total_ordering;
use vstd::utf8::char_u32_cast;

use crate::host::{ConnectionV, ListeningSocketV, Process, ProcessV, SocketType};
use crate::net::{IpAddr, SocketAddr};
use crate::text::str_eq;

verus! {

/// Lexicographic comparison of two character sequences from position `k` on:
/// the shorter sequence comes first, otherwise the first differing character
/// decides by code point.
pub open spec fn le_from(a: Seq<char>, b: Seq<char>, k: int) -> bool
    decreases a.len() - k,
{
    if k >= a.len() {
        true
    } else if k >= b.len() {
        false
    } else if a[k] != b[k] {
        (a[k] as u32) < (b[k] as u32)
    } else {
        le_from(a, b, k + 1)
    }
}

/// Lexicographic order on character sequences.
pub open spec fn str_le(a: Seq<char>, b: Seq<char>) -> bool {
    le_from(a, b, 0)
}

pub open spec fn str_lt(a: Seq<char>, b: Seq<char>) -> bool {
    str_le(a, b) && a != b
}

proof fn lemma_le_from_refl(a: Seq<char>, k: int)
    ensures
        le_from(a, a, k),
    decreases a.len() - k,
{
    if k < a.len() {
        lemma_le_from_refl(a, k + 1);
    }
}

proof fn lemma_le_from_total(a: Seq<char>, b: Seq<char>, k: int)
    requires
        0 <= k,
    ensures
        le_from(a, b, k) || le_from(b, a, k),
    decreases a.len() - k,
{
    if k < a.len() && k < b.len() {
        if a[k] == b[k] {
            lemma_le_from_total(a, b, k + 1);
        } else {
            char_u32_cast(a[k], a[k] as u32);
            char_u32_cast(b[k], b[k] as u32);
            assert((a[k] as u32) != (b[k] as u32));
        }
    }
}

proof fn lemma_le_from_antisym(a: Seq<char>, b: Seq<char>, k: int)
    requires
        0 <= k <= a.len(),
        0 <= k <= b.len(),
        le_from(a, b, k),
        le_from(b, a, k),
    ensures
        a.len() == b.len(),
        forall|j: int| k <= j < a.len() ==> a[j] == b[j],
    decreases a.len() - k,
{
    if k >= a.len() {
        assert(k >= b.len());
    } else {
        assert(k < b.len());
        assert(a[k] == b[k]);
        lemma_le_from_antisym(a, b, k + 1);
    }
}

proof fn lemma_le_from_trans(a: Seq<char>, b: Seq<char>, c: Seq<char>, k: int)
    requires
        0 <= k,
        le_from(a, b, k),
        le_from(b, c, k),
    ensures
        le_from(a, c, k),
    decreases a.len() - k,
{
    if k < a.len() {
        assert(k < b.len());
        assert(k < c.len());
        if a[k] == b[k] && b[k] == c[k] {
            lemma_le_from_trans(a, b, c, k + 1);
        }
    }
}

/// The string order is total and antisymmetric.
pub proof fn lemma_str_le_props(a: Seq<char>, b: Seq<char>)
    ensures
        str_le(a, b) || str_le(b, a),
        str_le(a, a),
        (str_le(a, b) && str_le(b, a)) ==> a == b,
{
    lemma_le_from_total(a, b, 0);
    lemma_le_from_refl(a, 0);
    if str_le(a, b) && str_le(b, a) {
        lemma_le_from_antisym(a, b, 0);
        assert(a =~= b);
    }
}

/// The string order is transitive.
pub proof fn lemma_str_le_trans(a: Seq<char>, b: Seq<char>, c: Seq<char>)
    requires
        str_le(a, b),
        str_le(b, c),
    ensures
        str_le(a, c),
{
    lemma_le_from_trans(a, b, c, 0);
}

/// Protocol rank: TCP, then UDP, then UNIX.
pub open spec fn type_rank(t: SocketType) -> int {
    match t {
        SocketType::TCP => 0,
        SocketType::UDP => 1,
        SocketType::UNIX => 2,
    }
}

/// Flag rank: absent, then dual-stack, then IPv6-only.
pub open spec fn opt_bool_rank(o: Option<bool>) -> int {
    match o {
        None => 0,
        Some(false) => 1,
        Some(true) => 2,
    }
}

/// Address order: every IPv4 address before every IPv6 address, then by
/// numeric value.
pub open spec fn ip_le(a: IpAddr, b: IpAddr) -> bool {
    match (a, b) {
        (IpAddr::V4(m), IpAddr::V4(n)) => m <= n,
        (IpAddr::V4(_), IpAddr::V6(_)) => true,
        (IpAddr::V6(_), IpAddr::V4(_)) => false,
        (IpAddr::V6(m), IpAddr::V6(n)) => m <= n,
    }
}

pub open spec fn ip_lt(a: IpAddr, b: IpAddr) -> bool {
    ip_le(a, b) && a != b
}

/// Socket order: by address, then by port.
pub open spec fn sock_le(a: SocketAddr, b: SocketAddr) -> bool {
    ip_lt(a.ip, b.ip) || (a.ip == b.ip && a.port <= b.port)
}

pub open spec fn sock_lt(a: SocketAddr, b: SocketAddr) -> bool {
    sock_le(a, b) && a != b
}

/// Process order: by name, then pid, then node identifier.
pub open spec fn process_le(a: ProcessV, b: ProcessV) -> bool {
    ||| str_lt(a.name, b.name)
    ||| (a.name == b.name && a.pid < b.pid)
    ||| (a.name == b.name && a.pid == b.pid && str_le(a.node_id, b.node_id))
}

pub open spec fn process_lt(a: ProcessV, b: ProcessV) -> bool {
    process_le(a, b) && a != b
}

/// Connection order: protocol, then local socket, then peer socket, then
/// owning process.
pub open spec fn conn_le(a: ConnectionV, b: ConnectionV) -> bool {
    ||| type_rank(a.socket_type) < type_rank(b.socket_type)
    ||| (a.socket_type == b.socket_type && sock_lt(a.local_socket, b.local_socket))
    ||| (a.socket_type == b.socket_type && a.local_socket == b.local_socket && sock_lt(
        a.peer_socket,
        b.peer_socket,
    ))
    ||| (a.socket_type == b.socket_type && a.local_socket == b.local_socket && a.peer_socket
        == b.peer_socket && process_le(a.process, b.process))
}

/// Listening-socket order: socket, then protocol, then process, then labels,
/// then the IPv6-only flag.
pub open spec fn listen_le(a: ListeningSocketV, b: ListeningSocketV) -> bool {
    ||| sock_lt(a.socket, b.socket)
    ||| (a.socket == b.socket && type_rank(a.socket_type) < type_rank(b.socket_type))
    ||| (a.socket == b.socket && a.socket_type == b.socket_type && process_lt(a.process, b.process))
    ||| (a.socket == b.socket && a.socket_type == b.socket_type && a.process == b.process
        && str_lt(a.node_name, b.node_name))
    ||| (a.socket == b.socket && a.socket_type == b.socket_type && a.process == b.process
        && a.node_name == b.node_name && str_lt(a.node_id, b.node_id))
    ||| (a.socket == b.socket && a.socket_type == b.socket_type && a.process == b.process
        && a.node_name == b.node_name && a.node_id == b.node_id && opt_bool_rank(a.ipv6_only)
        <= opt_bool_rank(b.ipv6_only))
}

/// The process order is total, reflexive, antisymmetric and transitive.
pub proof fn lemma_process_le_props(a: ProcessV, b: ProcessV)
    ensures
        process_le(a, b) || process_le(b, a),
        process_le(a, a),
        (process_le(a, b) && process_le(b, a)) ==> a == b,
{
    lemma_str_le_props(a.name, b.name);
    lemma_str_le_props(a.node_id, b.node_id);
    lemma_str_le_props(a.name, a.name);
    lemma_str_le_props(a.node_id, a.node_id);
    if process_le(a, b) && process_le(b, a) {
        assert(a.name == b.name);
        assert(a.pid == b.pid);
        assert(a.node_id == b.node_id);
        assert(a =~= b);
    }
}

pub proof fn lemma_process_le_trans(a: ProcessV, b: ProcessV, c: ProcessV)
    requires
        process_le(a, b),
        process_le(b, c),
    ensures
        process_le(a, c),
{
    lemma_str_le_props(a.name, b.name);
    lemma_str_le_props(b.name, c.name);
    lemma_str_le_props(a.name, c.name);
    if str_le(a.name, b.name) && str_le(b.name, c.name) {
        lemma_str_le_trans(a.name, b.name, c.name);
    }
    if str_le(a.node_id, b.node_id) && str_le(b.node_id, c.node_id) {
        lemma_str_le_trans(a.node_id, b.node_id, c.node_id);
    }
}

/// The connection order as a relation value.
pub open spec fn conn_leq() -> spec_fn(ConnectionV, ConnectionV) -> bool {
    |a: ConnectionV, b: ConnectionV| conn_le(a, b)
}

/// The listening-socket order as a relation value.
pub open spec fn listen_leq() -> spec_fn(ListeningSocketV, ListeningSocketV) -> bool {
    |a: ListeningSocketV, b: ListeningSocketV| listen_le(a, b)
}

/// The connection order is a total ordering.
pub proof fn lemma_conn_le_total_ordering()
    ensures
        total_ordering(conn_leq()),
{
    let leq = conn_leq();
    assert forall|a: ConnectionV| #[trigger] leq(a, a) by {
        lemma_process_le_props(a.process, a.process);
    }
    assert forall|a: ConnectionV, b: ConnectionV| #[trigger] leq(a, b) || #[trigger] leq(b, a) by {
        lemma_process_le_props(a.process, b.process);
    }
    assert forall|a: ConnectionV, b: ConnectionV|
        #[trigger] leq(a, b) && #[trigger] leq(b, a) implies a == b by {
        lemma_process_le_props(a.process, b.process);
        assert(a =~= b);
    }
    assert forall|a: ConnectionV, b: ConnectionV, c: ConnectionV|
        #[trigger] leq(a, b) && #[trigger] leq(b, c) implies leq(a, c) by {
        lemma_process_le_props(a.process, b.process);
        lemma_process_le_props(b.process, c.process);
        lemma_process_le_props(a.process, c.process);
        if process_le(a.process, b.process) && process_le(b.process, c.process) {
            lemma_process_le_trans(a.process, b.process, c.process);
        }
    }
}

/// The listening-socket order is a total ordering.
pub proof fn lemma_listen_le_total_ordering()
    ensures
        total_ordering(listen_leq()),
{
    let leq = listen_leq();
    assert forall|a: ListeningSocketV| #[trigger] leq(a, a) by {
        lemma_process_le_props(a.process, a.process);
        lemma_str_le_props(a.node_name, a.node_name);
        lemma_str_le_props(a.node_id, a.node_id);
    }
    assert forall|a: ListeningSocketV, b: ListeningSocketV|
        #[trigger] leq(a, b) || #[trigger] leq(b, a) by {
        lemma_process_le_props(a.process, b.process);
        lemma_str_le_props(a.node_name, b.node_name);
        lemma_str_le_props(a.node_id, b.node_id);
    }
    assert forall|a: ListeningSocketV, b: ListeningSocketV|
        #[trigger] leq(a, b) && #[trigger] leq(b, a) implies a == b by {
        lemma_process_le_props(a.process, b.process);
        lemma_str_le_props(a.node_name, b.node_name);
        lemma_str_le_props(a.node_id, b.node_id);
        assert(a =~= b);
    }
    assert forall|a: ListeningSocketV, b: ListeningSocketV, c: ListeningSocketV|
        #[trigger] leq(a, b) && #[trigger] leq(b, c) implies leq(a, c) by {
        lemma_process_le_props(a.process, b.process);
        lemma_process_le_props(b.process, c.process);
        lemma_process_le_props(a.process, c.process);
        if process_le(a.process, b.process) && process_le(b.process, c.process) {
            lemma_process_le_trans(a.process, b.process, c.process);
        }
        lemma_str_le_props(a.node_name, b.node_name);
        lemma_str_le_props(b.node_name, c.node_name);
        lemma_str_le_props(a.node_name, c.node_name);
        if str_le(a.node_name, b.node_name) && str_le(b.node_name, c.node_name) {
            lemma_str_le_trans(a.node_name, b.node_name, c.node_name);
        }
        lemma_str_le_props(a.node_id, b.node_id);
        lemma_str_le_props(b.node_id, c.node_id);
        lemma_str_le_props(a.node_id, c.node_id);
        if str_le(a.node_id, b.node_id) && str_le(b.node_id, c.node_id) {
            lemma_str_le_trans(a.node_id, b.node_id, c.node_id);
        }
    }
}

/// Lexicographic comparison of two strings.
pub fn str_le_exec(a: &str, b: &str) -> (r: bool)
    ensures
        r == str_le(a@, b@),
{
    let alen = a.unicode_len();
    let blen = b.unicode_len();
    let mut i: usize = 0;
    while i < alen && i < blen
        invariant
            0 <= i <= alen,
            i <= blen,
            alen == a@.len(),
            blen == b@.len(),
            le_from(a@, b@, 0) == le_from(a@, b@, i as int),
        decreases alen - i,
    {
        let ca = a.get_char(i);
        let cb = b.get_char(i);
        if ca != cb {
            return (ca as u32) < (cb as u32);
        }
        i += 1;
    }
    alen <= blen
}

/// The process comparison on concrete values.
fn process_le_exec(a: &Process, b: &Process) -> (r: bool)
    ensures
        r == process_le(a@, b@),
{
    if str_le_exec(a.name(), b.name()) && !str_eq(a.name(), b.name()) {
        return true;
    }
    if str_eq(a.name(), b.name()) {
        if *a.pid() < *b.pid() {
            return true;
        }
        if *a.pid() == *b.pid() {
            return str_le_exec(a.node_id(), b.node_id());
        }
    }
    false
}

/// The address comparison on concrete values.
fn ip_le_exec(a: &IpAddr, b: &IpAddr) -> (r: bool)
    ensures
        r == ip_le(*a, *b),
{
    match (a, b) {
        (IpAddr::V4(m), IpAddr::V4(n)) => *m <= *n,
        (IpAddr::V4(_), IpAddr::V6(_)) => true,
        (IpAddr::V6(_), IpAddr::V4(_)) => false,
        (IpAddr::V6(m), IpAddr::V6(n)) => *m <= *n,
    }
}

/// The socket comparison on concrete values.
fn sock_le_exec(a: &SocketAddr, b: &SocketAddr) -> (r: bool)
    ensures
        r == sock_le(*a, *b),
{
    (ip_le_exec(&a.ip, &b.ip) && a.ip != b.ip) || (a.ip == b.ip && a.port <= b.port)
}

/// The connection comparison on concrete values.
pub fn conn_le_exec(a: &crate::host::Connection, b: &crate::host::Connection) -> (r: bool)
    ensures
        r == conn_le(a@, b@),
{
    let ra = type_rank_exec(a.socket_type());
    let rb = type_rank_exec(b.socket_type());
    if ra < rb {
        return true;
    }
    if ra != rb {
        return false;
    }
    assert(a@.socket_type == b@.socket_type);
    let al = a.local_socket();
    let bl = b.local_socket();
    if sock_le_exec(al, bl) && !(*al == *bl) {
        return true;
    }
    if !(*al == *bl) {
        return false;
    }
    let ap = a.peer_socket();
    let bp = b.peer_socket();
    if sock_le_exec(ap, bp) && !(*ap == *bp) {
        return true;
    }
    if !(*ap == *bp) {
        return false;
    }
    process_le_exec(a.process(), b.process())
}

/// The listening-socket comparison on concrete values.
pub fn listen_le_exec(
    a: &crate::host::ListeningSocket,
    b: &crate::host::ListeningSocket,
) -> (r: bool)
    ensures
        r == listen_le(a@, b@),
{
    let asock = a.socket();
    let bsock = b.socket();
    if sock_le_exec(asock, bsock) && !(*asock == *bsock) {
        return true;
    }
    if !(*asock == *bsock) {
        return false;
    }
    let ra = type_rank_exec(a.socket_type());
    let rb = type_rank_exec(b.socket_type());
    if ra < rb {
        return true;
    }
    if ra != rb {
        return false;
    }
    assert(a@.socket_type == b@.socket_type);
    if process_le_exec(a.process(), b.process()) && !process_eq_exec(a.process(), b.process()) {
        return true;
    }
    if !process_eq_exec(a.process(), b.process()) {
        proof {
            lemma_process_le_props(a@.process, b@.process);
        }
        return false;
    }
    if str_le_exec(a.node_name(), b.node_name()) && !str_eq(a.node_name(), b.node_name()) {
        return true;
    }
    if !str_eq(a.node_name(), b.node_name()) {
        return false;
    }
    if str_le_exec(a.node_id(), b.node_id()) && !str_eq(a.node_id(), b.node_id()) {
        return true;
    }
    if !str_eq(a.node_id(), b.node_id()) {
        return false;
    }
    let rfa = opt_bool_rank_exec(a.ipv6_only());
    let rfb = opt_bool_rank_exec(b.ipv6_only());
    rfa <= rfb
}

/// Equality of two processes, by value.
pub fn process_eq_exec(a: &Process, b: &Process) -> (r: bool)
    ensures
        r == (a@ == b@),
{
    let r = str_eq(a.name(), b.name()) && *a.pid() == *b.pid() && str_eq(a.node_id(), b.node_id());
    proof {
        if r {
            assert(a@ =~= b@);
        }
    }
    r
}

/// Equality of two connections, by value.
pub fn conn_eq_exec(a: &crate::host::Connection, b: &crate::host::Connection) -> (r: bool)
    ensures
        r == (a@ == b@),
{
    let r = *a.socket_type() == *b.socket_type() && *a.local_socket() == *b.local_socket()
        && *a.peer_socket() == *b.peer_socket() && process_eq_exec(a.process(), b.process());
    proof {
        if r {
            assert(a@ =~= b@);
        }
    }
    r
}

/// Equality of two listening sockets, by value.
pub fn listen_eq_exec(
    a: &crate::host::ListeningSocket,
    b: &crate::host::ListeningSocket,
) -> (r: bool)
    ensures
        r == (a@ == b@),
{
    let flag_eq = match (a.ipv6_only(), b.ipv6_only()) {
        (None, None) => true,
        (Some(x), Some(y)) => *x == *y,
        _ => false,
    };
    let r = *a.socket() == *b.socket() && *a.socket_type() == *b.socket_type() && process_eq_exec(
        a.process(),
        b.process(),
    ) && str_eq(a.node_name(), b.node_name()) && str_eq(a.node_id(), b.node_id()) && flag_eq;
    proof {
        if r {
            assert(a@ =~= b@);
        }
    }
    r
}

/// The protocol rank on concrete values.
fn type_rank_exec(t: &SocketType) -> (r: u8)
    ensures
        r as int == type_rank(*t),
{
    match t {
        SocketType::TCP => 0,
        SocketType::UDP => 1,
        SocketType::UNIX => 2,
    }
}

/// The flag rank on concrete values.
fn opt_bool_rank_exec(o: Option<&bool>) -> (r: u8)
    ensures
        (match o {
            None => r == 0,
            Some(b) => (*b ==> r == 2) && (!*b ==> r == 1),
        }),
{
    match o {
        None => 0,
        Some(b) => if *b {
            2
        } else {
            1
        },
    }
}

} // verus!
