//! The connection matcher: correlates every established connection with the
//! listening socket it reaches, across the whole set of observed hosts.
//!
//! The matcher is a pure function.  Its full output is pinned down by
//! [`edges_spec`]: first the loopback edges (skipped when asked to), then the
//! cross-host direct edges, then the indirect (handed-off socket) edges, each
//! in the iteration order of the inputs.  Duplicate edges between the direct
//! and the indirect pass are possible and are deliberately kept; callers that
//! need a simple graph deduplicate downstream.

use vstd::prelude::*;

use crate::host::{ConnectionV, Host, HostV, ListeningSocket, ListeningSocketV};
use crate::net::contains_ip;
use crate::text::str_eq;

verus! {

/// A directed edge of the communication graph: the connection
/// `connected_connection` of host `connected_host` reaches the listening
/// socket `listening_connection` of host `listening_host`.  The four fields
/// are indices into the host list the matcher was given and into that host's
/// `listening_sockets` / `connections`.
#[derive(Clone, Copy, PartialEq, Eq, Structural, Debug)]
pub struct Connection {
    pub listening_host: usize,
    pub connected_host: usize,
    pub listening_connection: usize,
    pub connected_connection: usize,
}

impl Connection {
    pub fn new(
        listening_host: usize,
        connected_host: usize,
        listening_connection: usize,
        connected_connection: usize,
    ) -> (r: Self)
        ensures
            r == (Connection {
                listening_host,
                connected_host,
                listening_connection,
                connected_connection,
            }),
    {
        Connection { listening_host, connected_host, listening_connection, connected_connection }
    }

    /// The index of the edge's listening host.
    pub fn listening_host(&self) -> (r: usize)
        ensures
            r == self.listening_host,
    {
        self.listening_host
    }

    /// The index of the edge's connected host.
    pub fn connected_host(&self) -> (r: usize)
        ensures
            r == self.connected_host,
    {
        self.connected_host
    }

    /// The index of the established connection on the connected host.
    pub fn connected_connection(&self) -> (r: usize)
        ensures
            r == self.connected_connection,
    {
        self.connected_connection
    }

    /// The index of the listening socket on the listening host.
    pub fn listening_connection(&self) -> (r: usize)
        ensures
            r == self.listening_connection,
    {
        self.listening_connection
    }
}

/// Address-family compatibility of the loopback pass: an IPv4 peer needs a
/// dual-stack listener or an IPv4 listener; an IPv6 peer needs an IPv6
/// listener.
pub open spec fn family_ok_loopback(c: ConnectionV, l: ListeningSocketV) -> bool {
    ||| (c.peer_socket.ip is V4 && l.ipv6_only == Some(false))
    ||| (c.peer_socket.ip is V6 && l.socket.ip is V6)
    ||| (c.peer_socket.ip is V4 && l.socket.ip is V4)
}

/// One loopback-pass match: same protocol, peer port equal to the listening
/// port, peer address among the host's own addresses, compatible families.
pub open spec fn loopback_match(h: HostV, c: ConnectionV, l: ListeningSocketV) -> bool {
    &&& c.socket_type == l.socket_type
    &&& c.peer_socket.port == l.socket.port
    &&& h.ips.contains(c.peer_socket.ip)
    &&& family_ok_loopback(c, l)
}

/// Address-family compatibility of the direct pass: an IPv4 peer must not
/// face an IPv6-only listener; otherwise the families must agree.
pub open spec fn family_ok_direct(c: ConnectionV, l: ListeningSocketV) -> bool {
    ||| (c.peer_socket.ip is V4 && l.ipv6_only != Some(true))
    ||| (l.socket.ip is V4 && c.peer_socket.ip is V4)
    ||| (l.socket.ip is V6 && c.peer_socket.ip is V6)
}

/// One direct-pass match between a connection of one host and a listening
/// socket of another: same protocol, the peer address is one of the
/// listener's host addresses, ports agree, families are compatible, and the
/// listening socket is not loopback-bound (unreachable from another host).
pub open spec fn direct_match(peer: HostV, l: ListeningSocketV, c: ConnectionV) -> bool {
    &&& c.socket_type == l.socket_type
    &&& peer.ips.contains(c.peer_socket.ip)
    &&& l.socket.port == c.peer_socket.port
    &&& family_ok_direct(c, l)
    &&& !l.socket.ip.is_loopback_spec()
}

/// Address-family compatibility of the indirect pass, between the two
/// connections' peer addresses.
pub open spec fn family_ok_indirect(pc: ConnectionV, c: ConnectionV) -> bool {
    ||| (pc.peer_socket.ip is V4 && c.peer_socket.ip is V4)
    ||| (pc.peer_socket.ip is V6 && c.peer_socket.ip is V6)
}

/// One indirect-pass match: the connection `c` of one host points at the
/// local socket of a handed-off connection `pc` on the peer host.
pub open spec fn indirect_match(peer: HostV, pc: ConnectionV, c: ConnectionV) -> bool {
    &&& c.socket_type == pc.socket_type
    &&& peer.ips.contains(c.peer_socket.ip)
    &&& !c.local_socket.ip.is_loopback_spec()
    &&& c.peer_socket.port == pc.local_socket.port
    &&& c.peer_socket.ip == pc.local_socket.ip
    &&& family_ok_indirect(pc, c)
}

/// The last listening socket among the first `upto` whose port is `port`,
/// the one the indirect pass traces a handed-off connection back to.
pub open spec fn find_listening(ls: Seq<ListeningSocketV>, upto: int, port: u16) -> Option<int>
    decreases upto,
{
    if upto <= 0 {
        None
    } else if ls[upto - 1].socket.port == port {
        Some(upto - 1)
    } else {
        find_listening(ls, upto - 1, port)
    }
}

/// Loopback edges of connection `ci` of host `hi` against the first `upto`
/// listening sockets of the same host.
pub open spec fn loopback_edges_conn(h: HostV, hi: int, ci: int, upto: int) -> Seq<Connection>
    decreases upto,
{
    if upto <= 0 {
        Seq::empty()
    } else {
        loopback_edges_conn(h, hi, ci, upto - 1) + if loopback_match(
            h,
            h.connections[ci],
            h.listening_sockets[upto - 1],
        ) {
            seq![
                Connection {
                    listening_host: hi as usize,
                    connected_host: hi as usize,
                    listening_connection: (upto - 1) as usize,
                    connected_connection: ci as usize,
                },
            ]
        } else {
            Seq::empty()
        }
    }
}

/// Loopback edges of the first `upto` connections of host `hi`.
pub open spec fn loopback_edges_host(h: HostV, hi: int, upto: int) -> Seq<Connection>
    decreases upto,
{
    if upto <= 0 {
        Seq::empty()
    } else {
        loopback_edges_host(h, hi, upto - 1) + loopback_edges_conn(
            h,
            hi,
            upto - 1,
            h.listening_sockets.len() as int,
        )
    }
}

/// Loopback edges of the first `upto` hosts.
pub open spec fn loopback_edges(hosts: Seq<HostV>, upto: int) -> Seq<Connection>
    decreases upto,
{
    if upto <= 0 {
        Seq::empty()
    } else {
        loopback_edges(hosts, upto - 1) + loopback_edges_host(
            hosts[upto - 1],
            upto - 1,
            hosts[upto - 1].connections.len() as int,
        )
    }
}

/// Direct edges of listening socket `li` of peer `pi` against the first
/// `upto` connections of host `hi`.
pub open spec fn direct_edges_sock(
    host: HostV,
    hi: int,
    peer: HostV,
    pi: int,
    li: int,
    upto: int,
) -> Seq<Connection>
    decreases upto,
{
    if upto <= 0 {
        Seq::empty()
    } else {
        direct_edges_sock(host, hi, peer, pi, li, upto - 1) + if direct_match(
            peer,
            peer.listening_sockets[li],
            host.connections[upto - 1],
        ) {
            seq![
                Connection {
                    listening_host: pi as usize,
                    connected_host: hi as usize,
                    listening_connection: li as usize,
                    connected_connection: (upto - 1) as usize,
                },
            ]
        } else {
            Seq::empty()
        }
    }
}

/// Direct edges between host `hi` and the first `upto` listening sockets of
/// peer `pi`.
pub open spec fn direct_edges_pair(host: HostV, hi: int, peer: HostV, pi: int, upto: int) -> Seq<
    Connection,
>
    decreases upto,
{
    if upto <= 0 {
        Seq::empty()
    } else {
        direct_edges_pair(host, hi, peer, pi, upto - 1) + direct_edges_sock(
            host,
            hi,
            peer,
            pi,
            upto - 1,
            host.connections.len() as int,
        )
    }
}

/// Direct edges of host `hi` against the first `upto` peers; a peer with the
/// same name is the host itself and is skipped.
pub open spec fn direct_edges_host(hosts: Seq<HostV>, hi: int, upto: int) -> Seq<Connection>
    decreases upto,
{
    if upto <= 0 {
        Seq::empty()
    } else {
        direct_edges_host(hosts, hi, upto - 1) + if hosts[hi].name == hosts[upto - 1].name {
            Seq::empty()
        } else {
            direct_edges_pair(
                hosts[hi],
                hi,
                hosts[upto - 1],
                upto - 1,
                hosts[upto - 1].listening_sockets.len() as int,
            )
        }
    }
}

/// Direct edges of the first `upto` hosts.
pub open spec fn direct_edges(hosts: Seq<HostV>, upto: int) -> Seq<Connection>
    decreases upto,
{
    if upto <= 0 {
        Seq::empty()
    } else {
        direct_edges(hosts, upto - 1) + direct_edges_host(hosts, upto - 1, hosts.len() as int)
    }
}

/// Indirect edges of handed-off connection `pci` of peer `pi` against the
/// first `upto` connections of host `hi`.
pub open spec fn indirect_edges_conn(
    host: HostV,
    hi: int,
    peer: HostV,
    pi: int,
    pci: int,
    upto: int,
) -> Seq<Connection>
    decreases upto,
{
    if upto <= 0 {
        Seq::empty()
    } else {
        indirect_edges_conn(host, hi, peer, pi, pci, upto - 1) + if indirect_match(
            peer,
            peer.connections[pci],
            host.connections[upto - 1],
        ) {
            match find_listening(
                peer.listening_sockets,
                peer.listening_sockets.len() as int,
                peer.connections[pci].local_socket.port,
            ) {
                Some(li) => seq![
                    Connection {
                        listening_host: pi as usize,
                        connected_host: hi as usize,
                        listening_connection: li as usize,
                        connected_connection: (upto - 1) as usize,
                    },
                ],
                None => Seq::empty(),
            }
        } else {
            Seq::empty()
        }
    }
}

/// Indirect edges between host `hi` and the first `upto` connections of peer
/// `pi`.
pub open spec fn indirect_edges_pair(host: HostV, hi: int, peer: HostV, pi: int, upto: int) -> Seq<
    Connection,
>
    decreases upto,
{
    if upto <= 0 {
        Seq::empty()
    } else {
        indirect_edges_pair(host, hi, peer, pi, upto - 1) + indirect_edges_conn(
            host,
            hi,
            peer,
            pi,
            upto - 1,
            host.connections.len() as int,
        )
    }
}

/// Indirect edges of host `hi` against the first `upto` peers, same-name
/// peers skipped.
pub open spec fn indirect_edges_host(hosts: Seq<HostV>, hi: int, upto: int) -> Seq<Connection>
    decreases upto,
{
    if upto <= 0 {
        Seq::empty()
    } else {
        indirect_edges_host(hosts, hi, upto - 1) + if hosts[hi].name == hosts[upto - 1].name {
            Seq::empty()
        } else {
            indirect_edges_pair(
                hosts[hi],
                hi,
                hosts[upto - 1],
                upto - 1,
                hosts[upto - 1].connections.len() as int,
            )
        }
    }
}

/// Indirect edges of the first `upto` hosts.
pub open spec fn indirect_edges(hosts: Seq<HostV>, upto: int) -> Seq<Connection>
    decreases upto,
{
    if upto <= 0 {
        Seq::empty()
    } else {
        indirect_edges(hosts, upto - 1) + indirect_edges_host(hosts, upto - 1, hosts.len() as int)
    }
}

/// Everything the matcher returns, in order: the loopback edges (unless
/// excluded), then the direct edges, then the indirect edges.
pub open spec fn edges_spec(hosts: Seq<HostV>, no_loopback: bool) -> Seq<Connection> {
    (if no_loopback {
        Seq::<Connection>::empty()
    } else {
        loopback_edges(hosts, hosts.len() as int)
    }) + direct_edges(hosts, hosts.len() as int) + indirect_edges(hosts, hosts.len() as int)
}

/// The loopback-pass predicate on concrete values.
fn loopback_match_exec(h: &Host, c: &crate::host::Connection, l: &ListeningSocket) -> (r: bool)
    ensures
        r == loopback_match(h@, c@, l@),
{
    let type_ok = *c.socket_type() == *l.socket_type();
    let port_ok = c.peer_socket().port() == l.port();
    let ip_ok = contains_ip(h.ips(), &c.peer_socket().ip());
    let dual = match l.ipv6_only() {
        Some(b) => !*b,
        None => false,
    };
    let family_ok = (c.peer_socket().is_ipv4() && dual) || (c.peer_socket().is_ipv6()
        && l.ip_addr().is_ipv6()) || (c.peer_socket().is_ipv4() && l.ip_addr().is_ipv4());
    type_ok && port_ok && ip_ok && family_ok
}

/// The direct-pass predicate on concrete values.
fn direct_match_exec(peer: &Host, l: &ListeningSocket, c: &crate::host::Connection) -> (r: bool)
    ensures
        r == direct_match(peer@, l@, c@),
{
    let type_ok = *c.socket_type() == *l.socket_type();
    let ip_ok = contains_ip(peer.ips(), &c.peer_socket().ip());
    let port_ok = l.port() == c.peer_socket().port();
    let not_v6_only = match l.ipv6_only() {
        Some(b) => !*b,
        None => true,
    };
    let family_ok = (c.peer_socket().is_ipv4() && not_v6_only) || (l.ip_addr().is_ipv4()
        && c.peer_socket().is_ipv4()) || (l.ip_addr().is_ipv6() && c.peer_socket().is_ipv6());
    type_ok && ip_ok && port_ok && family_ok && !l.is_loopback()
}

/// The indirect-pass predicate on concrete values.
fn indirect_match_exec(
    peer: &Host,
    pc: &crate::host::Connection,
    c: &crate::host::Connection,
) -> (r: bool)
    ensures
        r == indirect_match(peer@, pc@, c@),
{
    let type_ok = *c.socket_type() == *pc.socket_type();
    let ip_ok = contains_ip(peer.ips(), &c.peer_socket().ip());
    let local_ok = !c.local_socket().ip().is_loopback();
    let port_ok = c.peer_socket().port() == pc.local_socket().port();
    let addr_ok = c.peer_socket().ip() == pc.local_socket().ip();
    let family_ok = (pc.peer_socket().is_ipv4() && c.peer_socket().is_ipv4()) || (
    pc.peer_socket().is_ipv6() && c.peer_socket().is_ipv6());
    type_ok && ip_ok && local_ok && port_ok && addr_ok && family_ok
}

/// The loopback pass: connections of a host against its own listening
/// sockets.
#[verifier::loop_isolation(false)]
fn loopback_pass(hosts: &Vec<Host>, edges: &mut Vec<Connection>)
    ensures
        final(edges)@ == old(edges)@ + loopback_edges(hosts.deep_view(), hosts.deep_view().len() as int),
{
    let ghost hv = hosts.deep_view();
    let ghost base = edges@;
    let n = hosts.len();
    proof {
        assert(hv.len() == n);
        assert(edges@ =~= base + loopback_edges(hv, 0));
    }
    {
        let mut i: usize = 0;
        while i < n
            invariant
                0 <= i <= n,
                edges@ == base + loopback_edges(hv, i as int),
            decreases n - i,
        {
            let host = &hosts[i];
            proof {
                assert(host@ == hv[i as int]);
            }
            let mut j: usize = 0;
            while j < host.connections().len()
                invariant
                    0 <= j <= hv[i as int].connections.len(),
                    edges@ == base + loopback_edges(hv, i as int) + loopback_edges_host(
                        hv[i as int],
                        i as int,
                        j as int,
                    ),
                decreases hv[i as int].connections.len() - j,
            {
                let mut k: usize = 0;
                while k < host.listening_sockets().len()
                    invariant
                        0 <= j < hv[i as int].connections.len(),
                        0 <= k <= hv[i as int].listening_sockets.len(),
                        edges@ == base + loopback_edges(hv, i as int) + loopback_edges_host(
                            hv[i as int],
                            i as int,
                            j as int,
                        ) + loopback_edges_conn(hv[i as int], i as int, j as int, k as int),
                    decreases hv[i as int].listening_sockets.len() - k,
                {
                    let c = &host.connections()[j];
                    let l = &host.listening_sockets()[k];
                    proof {
                        assert(c@ == hv[i as int].connections[j as int]);
                        assert(l@ == hv[i as int].listening_sockets[k as int]);
                    }
                    if loopback_match_exec(host, c, l) {
                        edges.push(Connection::new(i, i, k, j));
                    }
                    k += 1;
                    proof {
                        assert(edges@ =~= base + loopback_edges(hv, i as int) + loopback_edges_host(
                            hv[i as int],
                            i as int,
                            j as int,
                        ) + loopback_edges_conn(hv[i as int], i as int, j as int, k as int));
                    }
                }
                j += 1;
                proof {
                    assert(edges@ =~= base + loopback_edges(hv, i as int) + loopback_edges_host(
                        hv[i as int],
                        i as int,
                        j as int,
                    ));
                }
            }
            i += 1;
            proof {
                assert(edges@ =~= base + loopback_edges(hv, i as int));
            }
        }
    }
}

/// The direct pass: connections of one host against the listening sockets of
/// every other host.
#[verifier::loop_isolation(false)]
fn direct_pass(hosts: &Vec<Host>, edges: &mut Vec<Connection>)
    ensures
        final(edges)@ == old(edges)@ + direct_edges(hosts.deep_view(), hosts.deep_view().len() as int),
{
    let ghost hv = hosts.deep_view();
    let ghost base_a = edges@;
    let n = hosts.len();
    proof {
        assert(hv.len() == n);
        assert(edges@ =~= base_a + direct_edges(hv, 0));
    }
    let mut i: usize = 0;
    while i < n
        invariant
            0 <= i <= n,
            edges@ == base_a + direct_edges(hv, i as int),
        decreases n - i,
    {
        proof {
            assert(edges@ =~= base_a + direct_edges(hv, i as int) + direct_edges_host(
                hv,
                i as int,
                0,
            ));
        }
        let host = &hosts[i];
        proof {
            assert(host@ == hv[i as int]);
        }
        let mut p: usize = 0;
        while p < n
            invariant
                0 <= p <= n,
                i < n,
                edges@ == base_a + direct_edges(hv, i as int) + direct_edges_host(
                    hv,
                    i as int,
                    p as int,
                ),
            decreases n - p,
        {
            let peer = &hosts[p];
            proof {
                assert(peer@ == hv[p as int]);
            }
            if !str_eq(host.name(), peer.name()) {
                let mut k: usize = 0;
                while k < peer.listening_sockets().len()
                    invariant
                        0 <= k <= hv[p as int].listening_sockets.len(),
                        p < n,
                        i < n,
                        hv[i as int].name != hv[p as int].name,
                        edges@ == base_a + direct_edges(hv, i as int) + direct_edges_host(
                            hv,
                            i as int,
                            p as int,
                        ) + direct_edges_pair(hv[i as int], i as int, hv[p as int], p as int, k as int),
                    decreases hv[p as int].listening_sockets.len() - k,
                {
                    let mut j: usize = 0;
                    while j < host.connections().len()
                        invariant
                            0 <= j <= hv[i as int].connections.len(),
                            0 <= k < hv[p as int].listening_sockets.len(),
                            p < n,
                            i < n,
                            hv[i as int].name != hv[p as int].name,
                            edges@ == base_a + direct_edges(hv, i as int) + direct_edges_host(
                                hv,
                                i as int,
                                p as int,
                            ) + direct_edges_pair(
                                hv[i as int],
                                i as int,
                                hv[p as int],
                                p as int,
                                k as int,
                            ) + direct_edges_sock(
                                hv[i as int],
                                i as int,
                                hv[p as int],
                                p as int,
                                k as int,
                                j as int,
                            ),
                        decreases hv[i as int].connections.len() - j,
                    {
                        let l = &peer.listening_sockets()[k];
                        let c = &host.connections()[j];
                        proof {
                            assert(l@ == hv[p as int].listening_sockets[k as int]);
                            assert(c@ == hv[i as int].connections[j as int]);
                        }
                        if direct_match_exec(peer, l, c) {
                            edges.push(Connection::new(p, i, k, j));
                        }
                        j += 1;
                        proof {
                            assert(edges@ =~= base_a + direct_edges(hv, i as int)
                                + direct_edges_host(hv, i as int, p as int) + direct_edges_pair(
                                hv[i as int],
                                i as int,
                                hv[p as int],
                                p as int,
                                k as int,
                            ) + direct_edges_sock(
                                hv[i as int],
                                i as int,
                                hv[p as int],
                                p as int,
                                k as int,
                                j as int,
                            ));
                        }
                    }
                    k += 1;
                    proof {
                        assert(edges@ =~= base_a + direct_edges(hv, i as int) + direct_edges_host(
                            hv,
                            i as int,
                            p as int,
                        ) + direct_edges_pair(
                            hv[i as int],
                            i as int,
                            hv[p as int],
                            p as int,
                            k as int,
                        ));
                    }
                }
            }
            p += 1;
            proof {
                assert(edges@ =~= base_a + direct_edges(hv, i as int) + direct_edges_host(
                    hv,
                    i as int,
                    p as int,
                ));
            }
        }
        i += 1;
        proof {
            assert(edges@ =~= base_a + direct_edges(hv, i as int));
        }
    }
}

/// The indirect pass: connections of one host against the handed-off
/// connections of every other host, traced back to a listening socket.
#[verifier::loop_isolation(false)]
fn indirect_pass(hosts: &Vec<Host>, edges: &mut Vec<Connection>)
    ensures
        final(edges)@ == old(edges)@ + indirect_edges(hosts.deep_view(), hosts.deep_view().len() as int),
{
    let ghost hv = hosts.deep_view();
    let ghost base_b = edges@;
    let n = hosts.len();
    proof {
        assert(hv.len() == n);
        assert(edges@ =~= base_b + indirect_edges(hv, 0));
    }
    let mut i: usize = 0;
    while i < n
        invariant
            0 <= i <= n,
            edges@ == base_b + indirect_edges(hv, i as int),
        decreases n - i,
    {
        proof {
            assert(edges@ =~= base_b + indirect_edges(hv, i as int) + indirect_edges_host(
                hv,
                i as int,
                0,
            ));
        }
        let host = &hosts[i];
        proof {
            assert(host@ == hv[i as int]);
        }
        let mut p: usize = 0;
        while p < n
            invariant
                0 <= p <= n,
                i < n,
                edges@ == base_b + indirect_edges(hv, i as int) + indirect_edges_host(
                    hv,
                    i as int,
                    p as int,
                ),
            decreases n - p,
        {
            let peer = &hosts[p];
            proof {
                assert(peer@ == hv[p as int]);
            }
            if !str_eq(host.name(), peer.name()) {
                let mut q: usize = 0;
                while q < peer.connections().len()
                    invariant
                        0 <= q <= hv[p as int].connections.len(),
                        p < n,
                        i < n,
                        hv[i as int].name != hv[p as int].name,
                        edges@ == base_b + indirect_edges(hv, i as int) + indirect_edges_host(
                            hv,
                            i as int,
                            p as int,
                        ) + indirect_edges_pair(
                            hv[i as int],
                            i as int,
                            hv[p as int],
                            p as int,
                            q as int,
                        ),
                    decreases hv[p as int].connections.len() - q,
                {
                    let mut j: usize = 0;
                    while j < host.connections().len()
                        invariant
                            0 <= j <= hv[i as int].connections.len(),
                            0 <= q < hv[p as int].connections.len(),
                            p < n,
                            i < n,
                            hv[i as int].name != hv[p as int].name,
                            edges@ == base_b + indirect_edges(hv, i as int) + indirect_edges_host(
                                hv,
                                i as int,
                                p as int,
                            ) + indirect_edges_pair(
                                hv[i as int],
                                i as int,
                                hv[p as int],
                                p as int,
                                q as int,
                            ) + indirect_edges_conn(
                                hv[i as int],
                                i as int,
                                hv[p as int],
                                p as int,
                                q as int,
                                j as int,
                            ),
                        decreases hv[i as int].connections.len() - j,
                    {
                        let pc = &peer.connections()[q];
                        let c = &host.connections()[j];
                        proof {
                            assert(pc@ == hv[p as int].connections[q as int]);
                            assert(c@ == hv[i as int].connections[j as int]);
                        }
                        if indirect_match_exec(peer, pc, c) {
                            // Trace the handed-off connection back to the
                            // listening socket that accepted it; the last
                            // socket on the port wins.
                            let mut found: Option<usize> = None;
                            let mut k: usize = 0;
                            let target_port = pc.local_socket().port();
                            while k < peer.listening_sockets().len()
                                invariant
                                    0 <= k <= hv[p as int].listening_sockets.len(),
                                    p < n,
                                    q < hv[p as int].connections.len(),
                                    target_port == hv[p as int].connections[q as int].local_socket.port,
                                    match found {
                                        Some(f) => find_listening(
                                            hv[p as int].listening_sockets,
                                            k as int,
                                            target_port,
                                        ) == Some(f as int),
                                        None => find_listening(
                                            hv[p as int].listening_sockets,
                                            k as int,
                                            target_port,
                                        ) is None,
                                    },
                                decreases hv[p as int].listening_sockets.len() - k,
                            {
                                let l = &peer.listening_sockets()[k];
                                proof {
                                    assert(l@ == hv[p as int].listening_sockets[k as int]);
                                }
                                if target_port == l.port() {
                                    found = Some(k);
                                }
                                k += 1;
                            }
                            if let Some(li) = found {
                                edges.push(Connection::new(p, i, li, j));
                            }
                        }
                        j += 1;
                        proof {
                            assert(edges@ =~= base_b + indirect_edges(hv, i as int)
                                + indirect_edges_host(hv, i as int, p as int)
                                + indirect_edges_pair(
                                hv[i as int],
                                i as int,
                                hv[p as int],
                                p as int,
                                q as int,
                            ) + indirect_edges_conn(
                                hv[i as int],
                                i as int,
                                hv[p as int],
                                p as int,
                                q as int,
                                j as int,
                            ));
                        }
                    }
                    q += 1;
                    proof {
                        assert(edges@ =~= base_b + indirect_edges(hv, i as int)
                            + indirect_edges_host(hv, i as int, p as int) + indirect_edges_pair(
                            hv[i as int],
                            i as int,
                            hv[p as int],
                            p as int,
                            q as int,
                        ));
                    }
                }
            }
            p += 1;
            proof {
                assert(edges@ =~= base_b + indirect_edges(hv, i as int) + indirect_edges_host(
                    hv,
                    i as int,
                    p as int,
                ));
            }
        }
        i += 1;
        proof {
            assert(edges@ =~= base_b + indirect_edges(hv, i as int));
        }
    }
}

/// Build the list of edges between hosts.
///
/// The result is exactly [`edges_spec`] of the hosts' views: the loopback
/// pass (when `no_loopback` is false), then the direct pass, then the
/// indirect pass, in input order.  A connection with no resolvable peer
/// produces no edge; the matcher never fails.
pub fn build_connections_list(hosts: &Vec<Host>, no_loopback: bool) -> (r: Vec<Connection>)
    ensures
        r@ == edges_spec(hosts.deep_view(), no_loopback),
{
    let ghost hv = hosts.deep_view();
    let mut edges: Vec<Connection> = Vec::new();
    if !no_loopback {
        loopback_pass(hosts, &mut edges);
    }
    let ghost base_a = edges@;
    proof {
        if no_loopback {
            assert(base_a =~= Seq::<Connection>::empty());
        } else {
            assert(Seq::<Connection>::empty() + loopback_edges(hv, hv.len() as int)
                =~= loopback_edges(hv, hv.len() as int));
        }
    }
    direct_pass(hosts, &mut edges);
    indirect_pass(hosts, &mut edges);
    proof {
        assert(edges@ =~= edges_spec(hv, no_loopback));
    }
    edges
}

} // verus!
// The laws of the matcher.  Each pass is characterized first: every edge a
// pass emits points at an in-range host, connection and listening socket
// that satisfy the pass's predicate.  The public proof functions below state
// the library's guarantees over those characterizations.

verus! {

/// What holds of every loopback-pass edge.
pub open spec fn loopback_edge_wf(hosts: Seq<HostV>, e: Connection) -> bool {
    &&& 0 <= e.listening_host < hosts.len()
    &&& e.connected_host == e.listening_host
    &&& 0 <= e.connected_connection < hosts[e.listening_host as int].connections.len()
    &&& 0 <= e.listening_connection < hosts[e.listening_host as int].listening_sockets.len()
    &&& loopback_match(
        hosts[e.listening_host as int],
        hosts[e.connected_host as int].connections[e.connected_connection as int],
        hosts[e.listening_host as int].listening_sockets[e.listening_connection as int],
    )
}

/// What holds of every direct-pass edge.
pub open spec fn direct_edge_wf(hosts: Seq<HostV>, e: Connection) -> bool {
    &&& 0 <= e.listening_host < hosts.len()
    &&& 0 <= e.connected_host < hosts.len()
    &&& hosts[e.listening_host as int].name != hosts[e.connected_host as int].name
    &&& 0 <= e.connected_connection < hosts[e.connected_host as int].connections.len()
    &&& 0 <= e.listening_connection < hosts[e.listening_host as int].listening_sockets.len()
    &&& direct_match(
        hosts[e.listening_host as int],
        hosts[e.listening_host as int].listening_sockets[e.listening_connection as int],
        hosts[e.connected_host as int].connections[e.connected_connection as int],
    )
}

/// What holds of every indirect-pass edge: some handed-off connection of the
/// listening host matches, and the edge's listening socket is the one found
/// on that connection's local port.
pub open spec fn indirect_edge_wf(hosts: Seq<HostV>, e: Connection) -> bool {
    &&& 0 <= e.listening_host < hosts.len()
    &&& 0 <= e.connected_host < hosts.len()
    &&& hosts[e.listening_host as int].name != hosts[e.connected_host as int].name
    &&& 0 <= e.connected_connection < hosts[e.connected_host as int].connections.len()
    &&& 0 <= e.listening_connection < hosts[e.listening_host as int].listening_sockets.len()
    &&& exists|pci: int| indirect_edge_witness(hosts, e, pci)
}

/// The handed-off connection `pci` of the listening host that one indirect
/// edge arose from.
pub open spec fn indirect_edge_witness(hosts: Seq<HostV>, e: Connection, pci: int) -> bool {
    &&& 0 <= e.listening_host < hosts.len()
    &&& 0 <= e.connected_host < hosts.len()
    &&& 0 <= e.connected_connection < hosts[e.connected_host as int].connections.len()
    &&& 0 <= pci < hosts[e.listening_host as int].connections.len()
    &&& indirect_match(
        hosts[e.listening_host as int],
        hosts[e.listening_host as int].connections[pci],
        hosts[e.connected_host as int].connections[e.connected_connection as int],
    )
    &&& find_listening(
        hosts[e.listening_host as int].listening_sockets,
        hosts[e.listening_host as int].listening_sockets.len() as int,
        hosts[e.listening_host as int].connections[pci].local_socket.port,
    ) == Some(e.listening_connection as int)
}

/// Machine-size bound on a host set: what the view of any real host vector
/// satisfies.  Edge indices are machine words, so the laws are stated of
/// bounded host sets.
pub open spec fn hosts_bounded(hosts: Seq<HostV>) -> bool {
    &&& hosts.len() <= usize::MAX
    &&& forall|i: int|
        0 <= i < hosts.len() ==> (#[trigger] hosts[i]).connections.len() <= usize::MAX && hosts[
            i
        ].listening_sockets.len() <= usize::MAX
}

/// A found listening socket is in range and sits on the searched port.
pub proof fn lemma_find_listening(ls: Seq<ListeningSocketV>, upto: int, port: u16)
    requires
        upto <= ls.len(),
    ensures
        match find_listening(ls, upto, port) {
            Some(li) => 0 <= li < upto && ls[li].socket.port == port,
            None => true,
        },
    decreases upto,
{
    if upto > 0 && ls[upto - 1].socket.port != port {
        lemma_find_listening(ls, upto - 1, port);
    }
}

proof fn lemma_loopback_conn_wf(hosts: Seq<HostV>, hi: int, ci: int, upto: int)
    requires
        hosts_bounded(hosts),
        0 <= hi < hosts.len(),
        0 <= ci < hosts[hi].connections.len(),
        0 <= upto <= hosts[hi].listening_sockets.len(),
    ensures
        forall|t: int|
            0 <= t < loopback_edges_conn(hosts[hi], hi, ci, upto).len() ==> loopback_edge_wf(
                hosts,
                #[trigger] loopback_edges_conn(hosts[hi], hi, ci, upto)[t],
            ),
    decreases upto,
{
    if upto > 0 {
        lemma_loopback_conn_wf(hosts, hi, ci, upto - 1);
        let h = hosts[hi];
        let s = loopback_edges_conn(h, hi, ci, upto);
        let prev = loopback_edges_conn(h, hi, ci, upto - 1);
        assert forall|t: int| 0 <= t < s.len() implies loopback_edge_wf(hosts, s[t]) by {
            if t < prev.len() {
                assert(s[t] == prev[t]);
            } else {
                assert(loopback_match(h, h.connections[ci], h.listening_sockets[upto - 1]));
            }
        }
    }
}

proof fn lemma_loopback_host_wf(hosts: Seq<HostV>, hi: int, upto: int)
    requires
        hosts_bounded(hosts),
        0 <= hi < hosts.len(),
        0 <= upto <= hosts[hi].connections.len(),
    ensures
        forall|t: int|
            0 <= t < loopback_edges_host(hosts[hi], hi, upto).len() ==> loopback_edge_wf(
                hosts,
                #[trigger] loopback_edges_host(hosts[hi], hi, upto)[t],
            ),
    decreases upto,
{
    if upto > 0 {
        lemma_loopback_host_wf(hosts, hi, upto - 1);
        lemma_loopback_conn_wf(hosts, hi, upto - 1, hosts[hi].listening_sockets.len() as int);
        let h = hosts[hi];
        let s = loopback_edges_host(h, hi, upto);
        let prev = loopback_edges_host(h, hi, upto - 1);
        let tail = loopback_edges_conn(h, hi, upto - 1, h.listening_sockets.len() as int);
        assert forall|t: int| 0 <= t < s.len() implies loopback_edge_wf(hosts, s[t]) by {
            if t < prev.len() {
                assert(s[t] == prev[t]);
            } else {
                assert(s[t] == tail[t - prev.len()]);
            }
        }
    }
}

proof fn lemma_loopback_wf(hosts: Seq<HostV>, upto: int)
    requires
        hosts_bounded(hosts),
        0 <= upto <= hosts.len(),
    ensures
        forall|t: int|
            0 <= t < loopback_edges(hosts, upto).len() ==> loopback_edge_wf(
                hosts,
                #[trigger] loopback_edges(hosts, upto)[t],
            ),
    decreases upto,
{
    if upto > 0 {
        lemma_loopback_wf(hosts, upto - 1);
        lemma_loopback_host_wf(hosts, upto - 1, hosts[upto - 1].connections.len() as int);
        let s = loopback_edges(hosts, upto);
        let prev = loopback_edges(hosts, upto - 1);
        let tail = loopback_edges_host(
            hosts[upto - 1],
            upto - 1,
            hosts[upto - 1].connections.len() as int,
        );
        assert forall|t: int| 0 <= t < s.len() implies loopback_edge_wf(hosts, s[t]) by {
            if t < prev.len() {
                assert(s[t] == prev[t]);
            } else {
                assert(s[t] == tail[t - prev.len()]);
            }
        }
    }
}

proof fn lemma_direct_sock_wf(hosts: Seq<HostV>, hi: int, pi: int, li: int, upto: int)
    requires
        hosts_bounded(hosts),
        0 <= hi < hosts.len(),
        0 <= pi < hosts.len(),
        hosts[hi].name != hosts[pi].name,
        0 <= li < hosts[pi].listening_sockets.len(),
        0 <= upto <= hosts[hi].connections.len(),
    ensures
        forall|t: int|
            0 <= t < direct_edges_sock(hosts[hi], hi, hosts[pi], pi, li, upto).len()
                ==> direct_edge_wf(
                hosts,
                #[trigger] direct_edges_sock(hosts[hi], hi, hosts[pi], pi, li, upto)[t],
            ),
    decreases upto,
{
    if upto > 0 {
        lemma_direct_sock_wf(hosts, hi, pi, li, upto - 1);
        let s = direct_edges_sock(hosts[hi], hi, hosts[pi], pi, li, upto);
        let prev = direct_edges_sock(hosts[hi], hi, hosts[pi], pi, li, upto - 1);
        assert forall|t: int| 0 <= t < s.len() implies direct_edge_wf(hosts, s[t]) by {
            if t < prev.len() {
                assert(s[t] == prev[t]);
            } else {
                assert(direct_match(
                    hosts[pi],
                    hosts[pi].listening_sockets[li],
                    hosts[hi].connections[upto - 1],
                ));
            }
        }
    }
}

proof fn lemma_direct_pair_wf(hosts: Seq<HostV>, hi: int, pi: int, upto: int)
    requires
        hosts_bounded(hosts),
        0 <= hi < hosts.len(),
        0 <= pi < hosts.len(),
        hosts[hi].name != hosts[pi].name,
        0 <= upto <= hosts[pi].listening_sockets.len(),
    ensures
        forall|t: int|
            0 <= t < direct_edges_pair(hosts[hi], hi, hosts[pi], pi, upto).len()
                ==> direct_edge_wf(
                hosts,
                #[trigger] direct_edges_pair(hosts[hi], hi, hosts[pi], pi, upto)[t],
            ),
    decreases upto,
{
    if upto > 0 {
        lemma_direct_pair_wf(hosts, hi, pi, upto - 1);
        lemma_direct_sock_wf(hosts, hi, pi, upto - 1, hosts[hi].connections.len() as int);
        let s = direct_edges_pair(hosts[hi], hi, hosts[pi], pi, upto);
        let prev = direct_edges_pair(hosts[hi], hi, hosts[pi], pi, upto - 1);
        let tail = direct_edges_sock(
            hosts[hi],
            hi,
            hosts[pi],
            pi,
            upto - 1,
            hosts[hi].connections.len() as int,
        );
        assert forall|t: int| 0 <= t < s.len() implies direct_edge_wf(hosts, s[t]) by {
            if t < prev.len() {
                assert(s[t] == prev[t]);
            } else {
                assert(s[t] == tail[t - prev.len()]);
            }
        }
    }
}

proof fn lemma_direct_host_wf(hosts: Seq<HostV>, hi: int, upto: int)
    requires
        hosts_bounded(hosts),
        0 <= hi < hosts.len(),
        0 <= upto <= hosts.len(),
    ensures
        forall|t: int|
            0 <= t < direct_edges_host(hosts, hi, upto).len() ==> direct_edge_wf(
                hosts,
                #[trigger] direct_edges_host(hosts, hi, upto)[t],
            ),
    decreases upto,
{
    if upto > 0 {
        lemma_direct_host_wf(hosts, hi, upto - 1);
        let s = direct_edges_host(hosts, hi, upto);
        let prev = direct_edges_host(hosts, hi, upto - 1);
        if hosts[hi].name != hosts[upto - 1].name {
            lemma_direct_pair_wf(
                hosts,
                hi,
                upto - 1,
                hosts[upto - 1].listening_sockets.len() as int,
            );
            let tail = direct_edges_pair(
                hosts[hi],
                hi,
                hosts[upto - 1],
                upto - 1,
                hosts[upto - 1].listening_sockets.len() as int,
            );
            assert forall|t: int| 0 <= t < s.len() implies direct_edge_wf(hosts, s[t]) by {
                if t < prev.len() {
                    assert(s[t] == prev[t]);
                } else {
                    assert(s[t] == tail[t - prev.len()]);
                }
            }
        } else {
            assert(s =~= prev);
        }
    }
}

proof fn lemma_direct_wf(hosts: Seq<HostV>, upto: int)
    requires
        hosts_bounded(hosts),
        0 <= upto <= hosts.len(),
    ensures
        forall|t: int|
            0 <= t < direct_edges(hosts, upto).len() ==> direct_edge_wf(
                hosts,
                #[trigger] direct_edges(hosts, upto)[t],
            ),
    decreases upto,
{
    if upto > 0 {
        lemma_direct_wf(hosts, upto - 1);
        lemma_direct_host_wf(hosts, upto - 1, hosts.len() as int);
        let s = direct_edges(hosts, upto);
        let prev = direct_edges(hosts, upto - 1);
        let tail = direct_edges_host(hosts, upto - 1, hosts.len() as int);
        assert forall|t: int| 0 <= t < s.len() implies direct_edge_wf(hosts, s[t]) by {
            if t < prev.len() {
                assert(s[t] == prev[t]);
            } else {
                assert(s[t] == tail[t - prev.len()]);
            }
        }
    }
}

proof fn lemma_indirect_conn_wf(hosts: Seq<HostV>, hi: int, pi: int, pci: int, upto: int)
    requires
        hosts_bounded(hosts),
        0 <= hi < hosts.len(),
        0 <= pi < hosts.len(),
        hosts[hi].name != hosts[pi].name,
        0 <= pci < hosts[pi].connections.len(),
        0 <= upto <= hosts[hi].connections.len(),
    ensures
        forall|t: int|
            0 <= t < indirect_edges_conn(hosts[hi], hi, hosts[pi], pi, pci, upto).len()
                ==> indirect_edge_wf(
                hosts,
                #[trigger] indirect_edges_conn(hosts[hi], hi, hosts[pi], pi, pci, upto)[t],
            ),
    decreases upto,
{
    if upto > 0 {
        lemma_indirect_conn_wf(hosts, hi, pi, pci, upto - 1);
        let peer = hosts[pi];
        let c = hosts[hi].connections[upto - 1];
        let s = indirect_edges_conn(hosts[hi], hi, peer, pi, pci, upto);
        let prev = indirect_edges_conn(hosts[hi], hi, peer, pi, pci, upto - 1);
        if indirect_match(peer, peer.connections[pci], c) {
            lemma_find_listening(
                peer.listening_sockets,
                peer.listening_sockets.len() as int,
                peer.connections[pci].local_socket.port,
            );
        }
        assert forall|t: int| 0 <= t < s.len() implies indirect_edge_wf(hosts, s[t]) by {
            if t < prev.len() {
                assert(s[t] == prev[t]);
            } else {
                let li = find_listening(
                    peer.listening_sockets,
                    peer.listening_sockets.len() as int,
                    peer.connections[pci].local_socket.port,
                )->0;
                assert(indirect_edge_witness(hosts, s[t], pci));
            }
        }
    }
}

proof fn lemma_indirect_pair_wf(hosts: Seq<HostV>, hi: int, pi: int, upto: int)
    requires
        hosts_bounded(hosts),
        0 <= hi < hosts.len(),
        0 <= pi < hosts.len(),
        hosts[hi].name != hosts[pi].name,
        0 <= upto <= hosts[pi].connections.len(),
    ensures
        forall|t: int|
            0 <= t < indirect_edges_pair(hosts[hi], hi, hosts[pi], pi, upto).len()
                ==> indirect_edge_wf(
                hosts,
                #[trigger] indirect_edges_pair(hosts[hi], hi, hosts[pi], pi, upto)[t],
            ),
    decreases upto,
{
    if upto > 0 {
        lemma_indirect_pair_wf(hosts, hi, pi, upto - 1);
        lemma_indirect_conn_wf(hosts, hi, pi, upto - 1, hosts[hi].connections.len() as int);
        let s = indirect_edges_pair(hosts[hi], hi, hosts[pi], pi, upto);
        let prev = indirect_edges_pair(hosts[hi], hi, hosts[pi], pi, upto - 1);
        let tail = indirect_edges_conn(
            hosts[hi],
            hi,
            hosts[pi],
            pi,
            upto - 1,
            hosts[hi].connections.len() as int,
        );
        assert forall|t: int| 0 <= t < s.len() implies indirect_edge_wf(hosts, s[t]) by {
            if t < prev.len() {
                assert(s[t] == prev[t]);
            } else {
                assert(s[t] == tail[t - prev.len()]);
            }
        }
    }
}

proof fn lemma_indirect_host_wf(hosts: Seq<HostV>, hi: int, upto: int)
    requires
        hosts_bounded(hosts),
        0 <= hi < hosts.len(),
        0 <= upto <= hosts.len(),
    ensures
        forall|t: int|
            0 <= t < indirect_edges_host(hosts, hi, upto).len() ==> indirect_edge_wf(
                hosts,
                #[trigger] indirect_edges_host(hosts, hi, upto)[t],
            ),
    decreases upto,
{
    if upto > 0 {
        lemma_indirect_host_wf(hosts, hi, upto - 1);
        let s = indirect_edges_host(hosts, hi, upto);
        let prev = indirect_edges_host(hosts, hi, upto - 1);
        if hosts[hi].name != hosts[upto - 1].name {
            lemma_indirect_pair_wf(hosts, hi, upto - 1, hosts[upto - 1].connections.len() as int);
            let tail = indirect_edges_pair(
                hosts[hi],
                hi,
                hosts[upto - 1],
                upto - 1,
                hosts[upto - 1].connections.len() as int,
            );
            assert forall|t: int| 0 <= t < s.len() implies indirect_edge_wf(hosts, s[t]) by {
                if t < prev.len() {
                    assert(s[t] == prev[t]);
                } else {
                    assert(s[t] == tail[t - prev.len()]);
                }
            }
        } else {
            assert(s =~= prev);
        }
    }
}

proof fn lemma_indirect_wf(hosts: Seq<HostV>, upto: int)
    requires
        hosts_bounded(hosts),
        0 <= upto <= hosts.len(),
    ensures
        forall|t: int|
            0 <= t < indirect_edges(hosts, upto).len() ==> indirect_edge_wf(
                hosts,
                #[trigger] indirect_edges(hosts, upto)[t],
            ),
    decreases upto,
{
    if upto > 0 {
        lemma_indirect_wf(hosts, upto - 1);
        lemma_indirect_host_wf(hosts, upto - 1, hosts.len() as int);
        let s = indirect_edges(hosts, upto);
        let prev = indirect_edges(hosts, upto - 1);
        let tail = indirect_edges_host(hosts, upto - 1, hosts.len() as int);
        assert forall|t: int| 0 <= t < s.len() implies indirect_edge_wf(hosts, s[t]) by {
            if t < prev.len() {
                assert(s[t] == prev[t]);
            } else {
                assert(s[t] == tail[t - prev.len()]);
            }
        }
    }
}

proof fn seq_filter_all_true<A>(s: Seq<A>, p: spec_fn(A) -> bool)
    requires
        forall|t: int| 0 <= t < s.len() ==> p(#[trigger] s[t]),
    ensures
        s.filter(p) == s,
    decreases s.len(),
{
    reveal_with_fuel(Seq::filter, 2);
    if s.len() > 0 {
        seq_filter_all_true(s.drop_last(), p);
        assert(s.filter(p) =~= s);
    } else {
        assert(s.filter(p) =~= s);
    }
}

proof fn seq_filter_all_false<A>(s: Seq<A>, p: spec_fn(A) -> bool)
    requires
        forall|t: int| 0 <= t < s.len() ==> !p(#[trigger] s[t]),
    ensures
        s.filter(p) == Seq::<A>::empty(),
    decreases s.len(),
{
    reveal_with_fuel(Seq::filter, 2);
    if s.len() > 0 {
        seq_filter_all_false(s.drop_last(), p);
        assert(s.filter(p) =~= Seq::<A>::empty());
    } else {
        assert(s.filter(p) =~= Seq::<A>::empty());
    }
}

/// Idempotence law: the matcher is a pure function of its inputs, so two
/// runs over the same hosts with the same flag return the same edge
/// sequence.
pub proof fn lemma_match_idempotent(
    hosts: Seq<HostV>,
    no_loopback: bool,
    r1: Seq<Connection>,
    r2: Seq<Connection>,
)
    requires
        r1 == edges_spec(hosts, no_loopback),
        r2 == edges_spec(hosts, no_loopback),
    ensures
        r1 == r2,
{
}

/// Loopback-toggle law: excluding loopback yields exactly the edges of the
/// full run with every self-host edge removed, and no others.
pub proof fn lemma_loopback_toggle(hosts: Seq<HostV>)
    requires
        hosts_bounded(hosts),
    ensures
        edges_spec(hosts, true) == edges_spec(hosts, false).filter(
            |e: Connection| e.listening_host != e.connected_host,
        ),
{
    let n = hosts.len() as int;
    let la = loopback_edges(hosts, n);
    let db = direct_edges(hosts, n);
    let ic = indirect_edges(hosts, n);
    let p = |e: Connection| e.listening_host != e.connected_host;
    lemma_loopback_wf(hosts, n);
    lemma_direct_wf(hosts, n);
    lemma_indirect_wf(hosts, n);
    assert(forall|t: int| 0 <= t < la.len() ==> !p(#[trigger] la[t]));
    assert forall|t: int| 0 <= t < db.len() implies p(#[trigger] db[t]) by {
        let e = db[t];
        if e.listening_host == e.connected_host {
            assert(hosts[e.listening_host as int].name == hosts[e.connected_host as int].name);
        }
    }
    assert forall|t: int| 0 <= t < ic.len() implies p(#[trigger] ic[t]) by {
        let e = ic[t];
        if e.listening_host == e.connected_host {
            assert(hosts[e.listening_host as int].name == hosts[e.connected_host as int].name);
        }
    }
    seq_filter_all_false(la, p);
    seq_filter_all_true(db, p);
    seq_filter_all_true(ic, p);
    Seq::filter_distributes_over_add(la + db, ic, p);
    Seq::filter_distributes_over_add(la, db, p);
    assert(edges_spec(hosts, false) == la + db + ic);
    assert((la + db + ic).filter(p) =~= la.filter(p) + db.filter(p) + ic.filter(p));
    assert(edges_spec(hosts, true) =~= (la + db + ic).filter(p));
}

/// Listener well-formedness: an IPv4 listening socket carries no IPv6-only
/// flag.  Collectors produce sockets in this shape; the flag exists only on
/// IPv6 sockets.
pub open spec fn listeners_wf(hosts: Seq<HostV>) -> bool {
    forall|hi: int, k: int|
        0 <= hi < hosts.len() && 0 <= k < hosts[hi].listening_sockets.len() ==> ((#[trigger] hosts[
            hi
        ].listening_sockets[k]).socket.ip is V4 ==> hosts[hi].listening_sockets[k].ipv6_only
            is None)
}

/// Address-family exclusion law, for the loopback and direct passes: a
/// connection whose peer address is IPv4 never matches a listening socket
/// with `ipv6_only == Some(true)`.  The indirect pass matches connections
/// against handed-off connections and never consults the flag, so the law is
/// stated of these two passes.
pub proof fn lemma_family_exclusion(hosts: Seq<HostV>, e: Connection)
    requires
        hosts_bounded(hosts),
        listeners_wf(hosts),
        (loopback_edges(hosts, hosts.len() as int) + direct_edges(
            hosts,
            hosts.len() as int,
        )).contains(e),
    ensures
        0 <= e.listening_host < hosts.len(),
        0 <= e.connected_host < hosts.len(),
        0 <= e.connected_connection < hosts[e.connected_host as int].connections.len(),
        0 <= e.listening_connection < hosts[e.listening_host as int].listening_sockets.len(),
        hosts[e.connected_host as int].connections[e.connected_connection as int].peer_socket.ip
            is V4 ==> hosts[e.listening_host as int].listening_sockets[e.listening_connection as int].ipv6_only
            != Some(true),
{
    let n = hosts.len() as int;
    let la = loopback_edges(hosts, n);
    let db = direct_edges(hosts, n);
    lemma_loopback_wf(hosts, n);
    lemma_direct_wf(hosts, n);
    let t = choose|t: int| 0 <= t < (la + db).len() && (la + db)[t] == e;
    if t < la.len() {
        assert(loopback_edge_wf(hosts, e));
    } else {
        assert(direct_edge_wf(hosts, e));
    }
}

/// Handoff-resolution law: every edge the matcher emits, from any pass,
/// references a real listening socket of the listening host, and that
/// socket's port is exactly the port the connection's peer endpoint names.
/// A handed-off connection is thus always traced back to the accepting
/// listening socket, never presented as an edge onto the ephemeral socket.
pub proof fn lemma_handoff_resolution(hosts: Seq<HostV>, no_loopback: bool, e: Connection)
    requires
        hosts_bounded(hosts),
        edges_spec(hosts, no_loopback).contains(e),
    ensures
        0 <= e.listening_host < hosts.len(),
        0 <= e.connected_host < hosts.len(),
        0 <= e.connected_connection < hosts[e.connected_host as int].connections.len(),
        0 <= e.listening_connection < hosts[e.listening_host as int].listening_sockets.len(),
        hosts[e.listening_host as int].listening_sockets[e.listening_connection as int].socket.port
            == hosts[e.connected_host as int].connections[
            e.connected_connection as int
        ].peer_socket.port,
{
    let n = hosts.len() as int;
    let la = if no_loopback {
        Seq::<Connection>::empty()
    } else {
        loopback_edges(hosts, n)
    };
    let db = direct_edges(hosts, n);
    let ic = indirect_edges(hosts, n);
    if !no_loopback {
        lemma_loopback_wf(hosts, n);
    }
    lemma_direct_wf(hosts, n);
    lemma_indirect_wf(hosts, n);
    let t = choose|t: int| 0 <= t < (la + db + ic).len() && (la + db + ic)[t] == e;
    if t < la.len() {
        assert(loopback_edge_wf(hosts, e));
    } else if t < la.len() + db.len() {
        assert(direct_edge_wf(hosts, e));
    } else {
        assert(indirect_edge_wf(hosts, e));
        let peer = hosts[e.listening_host as int];
        let pci = choose|pci: int| indirect_edge_witness(hosts, e, pci);
        lemma_find_listening(
            peer.listening_sockets,
            peer.listening_sockets.len() as int,
            peer.connections[pci].local_socket.port,
        );
    }
}

} // verus!
