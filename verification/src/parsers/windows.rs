//! Parsing of the Windows socket-table commands' output.

pub mod file_parser;

use vstd::prelude::*;

verus! {

/// Everything collected on one Windows host: its name, the network-state
/// capture, the task list, and its addresses.
#[derive(Debug, Clone)]
pub struct WindowsHostRawData {
    pub hostname: String,
    pub network_output: String,
    pub tasklist_output: String,
    pub ips: Vec<crate::net::IpAddr>,
}

impl WindowsHostRawData {
    pub fn new(
        hostname: String,
        network_output: String,
        tasklist_output: String,
        ips: Vec<crate::net::IpAddr>,
    ) -> (r: Self)
        ensures
            r.hostname == hostname,
            r.network_output == network_output,
            r.tasklist_output == tasklist_output,
            r.ips == ips,
    {
        WindowsHostRawData { hostname, network_output, tasklist_output, ips }
    }
}

} // verus!
use std::collections::HashMap;

use crate::host::{
    listen_node_id, listen_node_name, process_node_id, Host, HostV, ListeningSocket,
    ListeningSocketV, Process, ProcessV, SocketType,
};
use crate::net::IpAddr;

verus! {

/// A text with every double quote removed.
pub open spec fn strip_quotes(s: Seq<char>) -> Seq<char>
    decreases s.len(),
{
    if s.len() == 0 {
        s
    } else {
        (if s[0] == '"' {
            Seq::empty()
        } else {
            seq![s[0]]
        }) + strip_quotes(s.drop_first())
    }
}

fn strip_quotes_str(s: &str) -> (r: String)
    ensures
        r@ == strip_quotes(s@),
{
    let len = s.unicode_len();
    let mut out = String::new();
    let mut i: usize = 0;
    proof {
        assert(s@.skip(0) =~= s@);
        assert(out@ + strip_quotes(s@) =~= strip_quotes(s@));
    }
    while i < len
        invariant
            0 <= i <= len,
            len == s@.len(),
            out@ + strip_quotes(s@.skip(i as int)) == strip_quotes(s@),
        decreases len - i,
    {
        let c = s.get_char(i);
        proof {
            assert(s@.skip(i as int)[0] == s@[i as int]);
            assert(s@.skip(i as int).drop_first() =~= s@.skip(i + 1));
        }
        if c != '"' {
            crate::text::push_char(&mut out, c);
        }
        proof {
            assert(out@ + strip_quotes(s@.skip(i + 1)) =~= strip_quotes(s@));
        }
        i += 1;
    }
    proof {
        assert(strip_quotes(s@.skip(len as int)) =~= Seq::<char>::empty());
        assert(out@ =~= out@ + strip_quotes(s@.skip(len as int)));
    }
    out
}

/// Whether a text holds at least one decimal digit, which separates data
/// lines of the task list from its header.
pub open spec fn has_digit(s: Seq<char>) -> bool {
    exists|i: int| 0 <= i < s.len() && crate::text::is_digit(#[trigger] s[i])
}

fn contains_digit(s: &str) -> (r: bool)
    ensures
        r == has_digit(s@),
{
    let len = s.unicode_len();
    let mut i: usize = 0;
    while i < len
        invariant
            0 <= i <= len,
            len == s@.len(),
            forall|k: int| 0 <= k < i ==> !crate::text::is_digit(#[trigger] s@[k]),
        decreases len - i,
    {
        let c = s.get_char(i) as u32;
        if 48 <= c && c <= 57 {
            return true;
        }
        i += 1;
    }
    false
}

/// The process entry one task-list line describes: its pid and its name,
/// the first two comma-separated fields with the quotes removed.
pub open spec fn tasklist_line(line: Seq<char>) -> Option<(int, Seq<char>)> {
    if line.len() == 0 || !has_digit(line) {
        None
    } else {
        let parts = crate::text::spec_split(strip_quotes(line), ',');
        if parts.len() <= 1 {
            None
        } else {
            match crate::text::parse_dec_spec(parts[1]) {
                Some(v) => if v <= u32::MAX {
                    Some((v, parts[0]))
                } else {
                    None
                },
                None => None,
            }
        }
    }
}

/// The pid-to-name map after the first `upto` task-list lines; the first
/// name seen for a pid wins.
pub open spec fn tasklist_map(lines: Seq<Seq<char>>, upto: int) -> Map<u32, Seq<char>>
    decreases upto,
{
    if upto <= 0 {
        Map::empty()
    } else {
        let prev = tasklist_map(lines, upto - 1);
        match tasklist_line(lines[upto - 1]) {
            Some(pn) => if prev.contains_key(pn.0 as u32) {
                prev
            } else {
                prev.insert(pn.0 as u32, pn.1)
            },
            None => prev,
        }
    }
}

/// The character-level view of a pid-to-name map.
pub open spec fn name_map_view(m: Map<u32, String>) -> Map<u32, Seq<char>> {
    Map::new(|k: u32| m.contains_key(k), |k: u32| m[k]@)
}

/// Parse the task list into a map from pid to process name.
pub fn parse_tasklist_command_output(contents: &str) -> (r: HashMap<u32, String>)
    ensures
        name_map_view(r@) == tasklist_map(
            crate::text::spec_lines(contents@),
            crate::text::spec_lines(contents@).len() as int,
        ),
{
    broadcast use vstd::std_specs::hash::group_hash_axioms;

    let lines = crate::text::lines_of(contents);
    let ghost lv = lines.deep_view();
    let mut map: HashMap<u32, String> = HashMap::new();
    let mut i: usize = 0;
    proof {
        assert(name_map_view(map@) =~= tasklist_map(lv, 0));
    }
    while i < lines.len()
        invariant
            0 <= i <= lv.len(),
            lv == lines.deep_view(),
            name_map_view(map@) == tasklist_map(lv, i as int),
        decreases lv.len() - i,
    {
        let ghost prev = map@;
        proof {
            assert(lines@[i as int]@ == lv[i as int]);
        }
        let line = lines[i].as_str();
        if line.unicode_len() > 0 && contains_digit(line) {
            let cleaned = strip_quotes_str(line);
            let parts = crate::text::split_str(cleaned.as_str(), ',');
            if parts.len() > 1 {
                proof {
                    assert(parts@[0]@ == parts.deep_view()[0]);
                    assert(parts@[1]@ == parts.deep_view()[1]);
                }
                match crate::text::parse_u32(parts[1].as_str()) {
                    Some(pid) => {
                        if !map.contains_key(&pid) {
                            let name = parts[0].clone();
                            map.insert(pid, name);
                        }
                    },
                    None => {},
                }
            }
        }
        i += 1;
        proof {
            assert(name_map_view(map@) =~= tasklist_map(lv, i as int));
        }
    }
    map
}

} // verus!
verus! {

/// Leading whitespace removed.
pub open spec fn spec_ltrim(s: Seq<char>) -> Seq<char>
    decreases s.len(),
{
    if s.len() > 0 && crate::text::is_space(s[0]) {
        spec_ltrim(s.drop_first())
    } else {
        s
    }
}

fn ltrim_str(s: &str) -> (r: String)
    ensures
        r@ == spec_ltrim(s@),
{
    let len = s.unicode_len();
    let mut lo: usize = 0;
    proof {
        assert(s@.skip(0) =~= s@);
    }
    while lo < len && crate::text::is_space_char(s.get_char(lo))
        invariant
            0 <= lo <= len,
            len == s@.len(),
            spec_ltrim(s@) == spec_ltrim(s@.skip(lo as int)),
        decreases len - lo,
    {
        proof {
            assert(s@.skip(lo as int)[0] == s@[lo as int]);
            assert(s@.skip(lo as int).drop_first() =~= s@.skip(lo + 1));
        }
        lo += 1;
    }
    proof {
        if lo < len {
            assert(s@.skip(lo as int)[0] == s@[lo as int]);
            assert(spec_ltrim(s@.skip(lo as int)) =~= s@.skip(lo as int));
        } else {
            assert(s@.skip(lo as int) =~= Seq::<char>::empty());
        }
    }
    String::from_str(s.substring_char(lo, len))
}

/// The address one line of the address-listing command contributes: the
/// third field of an `IPAddress` line with runs of spaces collapsed and any
/// interface suffix cut off.
pub open spec fn win_ip_line(line: Seq<char>) -> Option<IpAddr> {
    if "IPAddress"@.is_prefix_of(line) {
        let c = crate::text::collapse_spaces(line);
        let c2 = c.take(crate::text::find_from(c, '%', 0));
        let fields = crate::text::spec_split(c2, ' ');
        if fields.len() <= 2 {
            None
        } else {
            crate::net::parse_ip_spec(fields[2])
        }
    } else {
        None
    }
}

/// The addresses the first `upto` lines contribute.
pub open spec fn win_ip_lines(lines: Seq<Seq<char>>, upto: int) -> Seq<IpAddr>
    decreases upto,
{
    if upto <= 0 {
        Seq::empty()
    } else {
        win_ip_lines(lines, upto - 1) + match win_ip_line(lines[upto - 1]) {
            Some(ip) => seq![ip],
            None => Seq::empty(),
        }
    }
}

/// Parse the Windows address-listing output into the addresses it names.
pub fn parse_ip_command_output(contents: &str) -> (r: Vec<IpAddr>)
    ensures
        r@ == win_ip_lines(
            crate::text::spec_lines(contents@),
            crate::text::spec_lines(contents@).len() as int,
        ),
{
    let lines = crate::text::lines_of(contents);
    let ghost lv = lines.deep_view();
    let mut ips: Vec<IpAddr> = Vec::new();
    let mut i: usize = 0;
    proof {
        assert(ips@ =~= win_ip_lines(lv, 0));
    }
    while i < lines.len()
        invariant
            0 <= i <= lv.len(),
            lv == lines.deep_view(),
            ips@ == win_ip_lines(lv, i as int),
        decreases lv.len() - i,
    {
        proof {
            assert(lines@[i as int]@ == lv[i as int]);
            reveal_strlit("IPAddress");
        }
        let line = lines[i].as_str();
        if crate::host::str_starts_with(line, "IPAddress") {
            let collapsed = crate::text::collapse_spaces_str(line);
            let c = collapsed.as_str();
            let clen = c.unicode_len();
            let mut p: usize = 0;
            while p < clen && c.get_char(p) != '%'
                invariant
                    0 <= p <= clen,
                    clen == c@.len(),
                    crate::text::find_from(c@, '%', 0) == crate::text::find_from(c@, '%', p as int),
                decreases clen - p,
            {
                p += 1;
            }
            let cut = c.substring_char(0, p);
            proof {
                assert(cut@ =~= c@.take(crate::text::find_from(c@, '%', 0)));
            }
            let fields = crate::text::split_str(cut, ' ');
            if fields.len() > 2 {
                proof {
                    assert(fields@[2]@ == fields.deep_view()[2]);
                }
                match crate::net::parse_ip(fields[2].as_str()) {
                    Some(ip) => {
                        ips.push(ip);
                    },
                    None => {},
                }
            }
        }
        i += 1;
        proof {
            assert(ips@ =~= win_ip_lines(lv, i as int));
        }
    }
    ips
}

/// The listening socket one Windows netstat line contributes: a `TCP` line
/// in LISTENING state whose pid the task list knows.
pub open spec fn win_line_listen(
    line: Seq<char>,
    hostname: Seq<char>,
    pm: Map<u32, Seq<char>>,
) -> Option<ListeningSocketV> {
    let c = crate::text::collapse_spaces(spec_ltrim(line));
    if !"TCP"@.is_prefix_of(c) {
        None
    } else {
        let fields = crate::text::spec_split(c, ' ');
        if fields.len() <= 4 {
            None
        } else {
            match crate::text::parse_dec_spec(fields[4]) {
                Some(pid) => if pid > u32::MAX || !pm.contains_key(pid as u32) {
                    None
                } else if fields[3] == "LISTENING"@ {
                    match crate::net::parse_sock_addr_spec(fields[1]) {
                        Some(local) => {
                            let name = pm[pid as u32];
                            let ipv6_only = if local.ip is V6 {
                                Some(true)
                            } else {
                                None
                            };
                            Some(
                                ListeningSocketV {
                                    socket: local,
                                    socket_type: SocketType::TCP,
                                    process: ProcessV {
                                        name,
                                        pid: pid as u32,
                                        node_id: process_node_id(hostname, name),
                                    },
                                    node_name: listen_node_name(
                                        name,
                                        SocketType::TCP,
                                        local,
                                        ipv6_only,
                                    ),
                                    node_id: listen_node_id(hostname, name, local.port),
                                    ipv6_only,
                                },
                            )
                        },
                        None => None,
                    }
                } else {
                    None
                },
                None => None,
            }
        }
    }
}

/// The connection one Windows netstat line contributes: a `TCP` line in
/// ESTABLISHED state whose pid the task list knows.
pub open spec fn win_line_conn(line: Seq<char>, hostname: Seq<char>, pm: Map<u32, Seq<char>>)
    -> Option<crate::host::ConnectionV> {
    let c = crate::text::collapse_spaces(spec_ltrim(line));
    if !"TCP"@.is_prefix_of(c) {
        None
    } else {
        let fields = crate::text::spec_split(c, ' ');
        if fields.len() <= 4 {
            None
        } else {
            match crate::text::parse_dec_spec(fields[4]) {
                Some(pid) => if pid > u32::MAX || !pm.contains_key(pid as u32) {
                    None
                } else if fields[3] == "ESTABLISHED"@ {
                    match (
                        crate::net::parse_sock_addr_spec(fields[1]),
                        crate::net::parse_sock_addr_spec(fields[2]),
                    ) {
                        (Some(local), Some(peer)) => {
                            let name = pm[pid as u32];
                            Some(
                                crate::host::ConnectionV {
                                    socket_type: SocketType::TCP,
                                    local_socket: local,
                                    peer_socket: peer,
                                    process: ProcessV {
                                        name,
                                        pid: pid as u32,
                                        node_id: process_node_id(hostname, name),
                                    },
                                },
                            )
                        },
                        _ => None,
                    }
                } else {
                    None
                },
                None => None,
            }
        }
    }
}

} // verus!
verus! {

/// The listening sockets the first `upto` Windows netstat lines contribute.
pub open spec fn win_listens(
    lines: Seq<Seq<char>>,
    hostname: Seq<char>,
    pm: Map<u32, Seq<char>>,
    upto: int,
) -> Seq<ListeningSocketV>
    decreases upto,
{
    if upto <= 0 {
        Seq::empty()
    } else {
        win_listens(lines, hostname, pm, upto - 1) + match win_line_listen(
            lines[upto - 1],
            hostname,
            pm,
        ) {
            Some(l) => seq![l],
            None => Seq::empty(),
        }
    }
}

/// The connections the first `upto` Windows netstat lines contribute.
pub open spec fn win_conns(
    lines: Seq<Seq<char>>,
    hostname: Seq<char>,
    pm: Map<u32, Seq<char>>,
    upto: int,
) -> Seq<crate::host::ConnectionV>
    decreases upto,
{
    if upto <= 0 {
        Seq::empty()
    } else {
        win_conns(lines, hostname, pm, upto - 1) + match win_line_conn(
            lines[upto - 1],
            hostname,
            pm,
        ) {
            Some(c) => seq![c],
            None => Seq::empty(),
        }
    }
}

/// Apply one Windows netstat line to the host.
fn apply_win_line(line: &str, pid_map: &HashMap<u32, String>, host: &mut Host)
    ensures
        final(host)@ == (HostV {
            listening_sockets: old(host)@.listening_sockets + match win_line_listen(
                line@,
                old(host)@.name,
                name_map_view(pid_map@),
            ) {
                Some(l) => seq![l],
                None => Seq::<ListeningSocketV>::empty(),
            },
            connections: old(host)@.connections + match win_line_conn(
                line@,
                old(host)@.name,
                name_map_view(pid_map@),
            ) {
                Some(c) => seq![c],
                None => Seq::<crate::host::ConnectionV>::empty(),
            },
            ..old(host)@
        }),
{
    broadcast use vstd::std_specs::hash::group_hash_axioms;

    let ghost hname = host@.name;
    let ghost pm = name_map_view(pid_map@);
    let hname_own = String::from_str(host.name());
    proof {
        reveal_strlit("TCP");
        reveal_strlit("ESTABLISHED");
        reveal_strlit("LISTENING");
        assert("ESTABLISHED"@.len() == 11);
        assert("LISTENING"@.len() == 9);
        assert(host@ =~= (HostV {
            listening_sockets: host@.listening_sockets + Seq::<ListeningSocketV>::empty(),
            connections: host@.connections + Seq::<crate::host::ConnectionV>::empty(),
            ..host@
        }));
    }
    let trimmed = ltrim_str(line);
    let collapsed = crate::text::collapse_spaces_str(trimmed.as_str());
    if !crate::host::str_starts_with(collapsed.as_str(), "TCP") {
        return ;
    }
    let fields = crate::text::split_str(collapsed.as_str(), ' ');
    let ghost fv = fields.deep_view();
    if fields.len() <= 4 {
        return ;
    }
    proof {
        assert(fields@[1]@ == fv[1]);
        assert(fields@[2]@ == fv[2]);
        assert(fields@[3]@ == fv[3]);
        assert(fields@[4]@ == fv[4]);
    }
    let pid = match crate::text::parse_u32(fields[4].as_str()) {
        Some(v) => v,
        None => {
            return ;
        },
    };
    let name = match pid_map.get(&pid) {
        Some(n) => n.clone(),
        None => {
            proof {
                assert(!pm.contains_key(pid));
            }
            return ;
        },
    };
    proof {
        assert(pm.contains_key(pid) && pm[pid] == name@);
    }
    let process = Process::new(name.as_str(), pid, hname_own.clone());
    if crate::text::str_eq(fields[3].as_str(), "ESTABLISHED") {
        let local = match crate::net::parse_sock_addr(fields[1].as_str()) {
            Some(l) => l,
            None => {
                return ;
            },
        };
        let peer = match crate::net::parse_sock_addr(fields[2].as_str()) {
            Some(p) => p,
            None => {
                return ;
            },
        };
        let c = crate::host::Connection::new(local, peer, SocketType::TCP, process);
        host.add_established_connection(c);
        proof {
            assert(final(host)@ =~= (HostV {
                listening_sockets: old(host)@.listening_sockets + Seq::<
                    ListeningSocketV,
                >::empty(),
                connections: old(host)@.connections + match win_line_conn(line@, hname, pm) {
                    Some(cc) => seq![cc],
                    None => Seq::<crate::host::ConnectionV>::empty(),
                },
                ..old(host)@
            }));
        }
    } else if crate::text::str_eq(fields[3].as_str(), "LISTENING") {
        let local = match crate::net::parse_sock_addr(fields[1].as_str()) {
            Some(l) => l,
            None => {
                return ;
            },
        };
        let ipv6_only = if local.ip().is_ipv6() {
            Some(true)
        } else {
            None
        };
        let l = ListeningSocket::new(local, SocketType::TCP, process, hname_own, ipv6_only);
        host.add_listening_socket(l);
        proof {
            assert(final(host)@ =~= (HostV {
                listening_sockets: old(host)@.listening_sockets + match win_line_listen(
                    line@,
                    hname,
                    pm,
                ) {
                    Some(ll) => seq![ll],
                    None => Seq::<ListeningSocketV>::empty(),
                },
                connections: old(host)@.connections + Seq::<crate::host::ConnectionV>::empty(),
                ..old(host)@
            }));
        }
    }
}

/// Walk the lines of a Windows netstat capture, resolving process names
/// through the task-list map.
pub fn parse_netstat_contents(
    lines: &Vec<String>,
    pid_map: &HashMap<u32, String>,
    host: &mut Host,
)
    ensures
        final(host)@ == (HostV {
            listening_sockets: old(host)@.listening_sockets + win_listens(
                lines.deep_view(),
                old(host)@.name,
                name_map_view(pid_map@),
                lines@.len() as int,
            ),
            connections: old(host)@.connections + win_conns(
                lines.deep_view(),
                old(host)@.name,
                name_map_view(pid_map@),
                lines@.len() as int,
            ),
            ..old(host)@
        }),
{
    let ghost lv = lines.deep_view();
    let ghost hname = old(host)@.name;
    let ghost pm = name_map_view(pid_map@);
    let mut i: usize = 0;
    proof {
        assert(host@ =~= (HostV {
            listening_sockets: old(host)@.listening_sockets + win_listens(lv, hname, pm, 0),
            connections: old(host)@.connections + win_conns(lv, hname, pm, 0),
            ..old(host)@
        }));
    }
    while i < lines.len()
        invariant
            0 <= i <= lv.len(),
            lv == lines.deep_view(),
            hname == old(host)@.name,
            pm == name_map_view(pid_map@),
            host@ == (HostV {
                listening_sockets: old(host)@.listening_sockets + win_listens(
                    lv,
                    hname,
                    pm,
                    i as int,
                ),
                connections: old(host)@.connections + win_conns(lv, hname, pm, i as int),
                ..old(host)@
            }),
        decreases lv.len() - i,
    {
        proof {
            assert(lines@[i as int]@ == lv[i as int]);
        }
        apply_win_line(lines[i].as_str(), pid_map, host);
        i += 1;
        proof {
            assert(host@ =~= (HostV {
                listening_sockets: old(host)@.listening_sockets + win_listens(
                    lv,
                    hname,
                    pm,
                    i as int,
                ),
                connections: old(host)@.connections + win_conns(lv, hname, pm, i as int),
                ..old(host)@
            }));
        }
    }
}

/// The listening sockets a Windows capture describes.
pub open spec fn win_raw_listens(d: WindowsHostRawData) -> Seq<ListeningSocketV> {
    win_listens(
        crate::text::spec_lines(d.network_output@),
        d.hostname@,
        tasklist_map(
            crate::text::spec_lines(d.tasklist_output@),
            crate::text::spec_lines(d.tasklist_output@).len() as int,
        ),
        crate::text::spec_lines(d.network_output@).len() as int,
    )
}

/// The connections a Windows capture describes.
pub open spec fn win_raw_conns(d: WindowsHostRawData) -> Seq<crate::host::ConnectionV> {
    win_conns(
        crate::text::spec_lines(d.network_output@),
        d.hostname@,
        tasklist_map(
            crate::text::spec_lines(d.tasklist_output@),
            crate::text::spec_lines(d.tasklist_output@).len() as int,
        ),
        crate::text::spec_lines(d.network_output@).len() as int,
    )
}

impl WindowsHostRawData {
    /// Build the host this capture describes.
    pub fn into_host(self) -> (h: Host)
        ensures
            h@ == (HostV {
                name: self.hostname@,
                cluster_id: crate::host::cluster_id_of(self.hostname@),
                listening_sockets: win_raw_listens(self),
                connections: win_raw_conns(self),
                ips: crate::parsers::linux::ips_extended(
                    seq![IpAddr::V4(0x7f00_0001u32), IpAddr::V6(1u128)],
                    self.ips@,
                    self.ips@.len() as int,
                ),
            }),
    {
        let ghost init_ips = seq![IpAddr::V4(0x7f00_0001u32), IpAddr::V6(1u128)];
        let mut host = Host::new(self.hostname.as_str());
        let mut i: usize = 0;
        proof {
            assert(host@.ips =~= crate::parsers::linux::ips_extended(init_ips, self.ips@, 0));
        }
        while i < self.ips.len()
            invariant
                0 <= i <= self.ips@.len(),
                host@ == (HostV {
                    ips: crate::parsers::linux::ips_extended(init_ips, self.ips@, i as int),
                    ..crate::parsers::linux::old_host_shape(self.hostname@)
                }),
            decreases self.ips@.len() - i,
        {
            host.add_ip(self.ips[i]);
            i += 1;
            proof {
                assert(host@.ips =~= crate::parsers::linux::ips_extended(
                    init_ips,
                    self.ips@,
                    i as int,
                ));
                assert(host@ =~= (HostV {
                    ips: crate::parsers::linux::ips_extended(init_ips, self.ips@, i as int),
                    ..crate::parsers::linux::old_host_shape(self.hostname@)
                }));
            }
        }
        let pid_map = parse_tasklist_command_output(self.tasklist_output.as_str());
        let lines = crate::text::lines_of(self.network_output.as_str());
        parse_netstat_contents(&lines, &pid_map, &mut host);
        proof {
            assert(host@ =~= (HostV {
                name: self.hostname@,
                cluster_id: crate::host::cluster_id_of(self.hostname@),
                listening_sockets: win_raw_listens(self),
                connections: win_raw_conns(self),
                ips: crate::parsers::linux::ips_extended(
                    init_ips,
                    self.ips@,
                    self.ips@.len() as int,
                ),
            }));
        }
        host
    }
}

} // verus!
