//! Parsing of the Linux socket-table commands' output.

pub mod file_parser;

use vstd::prelude::*;

verus! {

/// The captured output of one of the two Linux network-state commands.
#[derive(Debug, Clone)]
pub enum NetworkOutput {
    Ss(String),
    Netstat(String),
}

/// Everything collected on one Linux host: its name, one network-state
/// capture, and its addresses.
#[derive(Debug, Clone)]
pub struct LinuxHostRawData {
    pub hostname: String,
    pub network_output: NetworkOutput,
    pub ips: Vec<crate::net::IpAddr>,
}

impl LinuxHostRawData {
    pub fn new(hostname: String, network_output: NetworkOutput, ips: Vec<crate::net::IpAddr>)
        -> (r: Self)
        ensures
            r.hostname == hostname,
            r.network_output == network_output,
            r.ips == ips,
    {
        LinuxHostRawData { hostname, network_output, ips }
    }
}

} // verus!
use crate::host::{
    listen_node_id, listen_node_name, process_node_id, Host, HostV, ListeningSocket,
    ListeningSocketV, Process, ProcessV, SocketType,
};
use crate::net::{parse_ip_spec, parse_sock_addr_spec, IpAddr, SocketAddr};
verus! {

/// What the interface-suffix strip returns.  The replacement of the fixed
/// pattern is a function of the text alone, so it gets a name; a text
/// without `%` cannot match and comes back unchanged.
pub uninterp spec fn strip_iface_of(s: Seq<char>) -> Seq<char>;

/// Relies on regex::Regex::new and Regex::replace with the fixed pattern
/// `%\w+:`, which removes an interface suffix such as `%lo` from a loopback
/// socket text: deterministic in the input, and the identity on texts
/// without `%`.
#[verifier::external_body]
fn strip_iface(s: &str) -> (r: String)
    ensures
        r@ == strip_iface_of(s@),
        (forall|i: int| 0 <= i < s@.len() ==> s@[i] != '%') ==> r@ == s@,
{
    let re = regex::Regex::new("%\\w+:").unwrap();
    re.replace(s, ":").into_owned()
}

/// Every `*` expanded to `[::]`, the unspecified-address form the socket
/// grammar reads.
pub open spec fn star_expand(s: Seq<char>) -> Seq<char>
    decreases s.len(),
{
    if s.len() == 0 {
        s
    } else {
        (if s[0] == '*' {
            seq!['[', ':', ':', ']']
        } else {
            seq![s[0]]
        }) + star_expand(s.drop_first())
    }
}

fn star_expand_str(s: &str) -> (r: String)
    ensures
        r@ == star_expand(s@),
{
    let len = s.unicode_len();
    let mut out = String::new();
    let mut i: usize = 0;
    proof {
        assert(s@.skip(0) =~= s@);
        assert(out@ + star_expand(s@) =~= star_expand(s@));
    }
    while i < len
        invariant
            0 <= i <= len,
            len == s@.len(),
            out@ + star_expand(s@.skip(i as int)) == star_expand(s@),
        decreases len - i,
    {
        let c = s.get_char(i);
        proof {
            assert(s@.skip(i as int)[0] == s@[i as int]);
            assert(s@.skip(i as int).drop_first() =~= s@.skip(i + 1));
        }
        if c == '*' {
            out.append("[::]");
            proof {
                reveal_strlit("[::]");
                assert(out@ + star_expand(s@.skip(i + 1)) =~= star_expand(s@));
            }
        } else {
            crate::text::push_char(&mut out, c);
            proof {
                assert(out@ + star_expand(s@.skip(i + 1)) =~= star_expand(s@));
            }
        }
        i += 1;
    }
    proof {
        assert(star_expand(s@.skip(len as int)) =~= Seq::<char>::empty());
        assert(out@ =~= out@ + star_expand(s@.skip(len as int)));
    }
    out
}

/// The fields of one command-output line: runs of spaces collapsed, the line
/// trimmed, then split on single spaces.
pub open spec fn cleaned_fields(line: Seq<char>) -> Seq<Seq<char>> {
    crate::text::spec_split(
        crate::text::spec_trim(crate::text::collapse_spaces(line)),
        ' ',
    )
}

/// Cleanup a line by collapsing whitespace and return its fields.
pub fn clean_and_split_line(line: &str) -> (r: Vec<String>)
    ensures
        r.deep_view() == cleaned_fields(line@),
{
    let collapsed = crate::text::collapse_spaces_str(line);
    let trimmed = crate::text::trim_str(collapsed.as_str());
    crate::text::split_str(trimmed.as_str(), ' ')
}

/// The process name inside an ss process field: the text between the first
/// pair of double quotes.
pub open spec fn ss_process_name(pinfo: Seq<char>) -> Option<Seq<char>> {
    let parts = crate::text::spec_split(pinfo, '"');
    if parts.len() > 1 {
        Some(parts[1])
    } else {
        None
    }
}

/// The pid inside an ss process field: the digits after the `=` of the
/// second comma-separated piece.
pub open spec fn ss_process_pid(pinfo: Seq<char>) -> Option<int> {
    let parts = crate::text::spec_split(pinfo, ',');
    if parts.len() <= 1 {
        None
    } else {
        let sub = crate::text::spec_split(parts[1], '=');
        if sub.len() <= 1 {
            None
        } else {
            match crate::text::parse_dec_spec(sub[1]) {
                Some(v) => if v <= u32::MAX {
                    Some(v)
                } else {
                    None
                },
                None => None,
            }
        }
    }
}

/// Extract the owning process from an ss process field.
fn ss_extract_process(pinfo: &str, hostname: &str) -> (r: Option<Process>)
    ensures
        match r {
            Some(p) => {
                &&& ss_process_name(pinfo@) is Some
                &&& ss_process_pid(pinfo@) is Some
                &&& p@ == (ProcessV {
                    name: ss_process_name(pinfo@)->0,
                    pid: ss_process_pid(pinfo@)->0 as u32,
                    node_id: process_node_id(hostname@, ss_process_name(pinfo@)->0),
                })
            },
            None => ss_process_name(pinfo@) is None || ss_process_pid(pinfo@) is None,
        },
{
    let quote_parts = crate::text::split_str(pinfo, '"');
    if quote_parts.len() <= 1 {
        return None;
    }
    proof {
        assert(quote_parts@[1]@ == quote_parts.deep_view()[1]);
    }
    let name = quote_parts[1].as_str();
    let comma_parts = crate::text::split_str(pinfo, ',');
    if comma_parts.len() <= 1 {
        return None;
    }
    proof {
        assert(comma_parts@[1]@ == comma_parts.deep_view()[1]);
    }
    let eq_parts = crate::text::split_str(comma_parts[1].as_str(), '=');
    if eq_parts.len() <= 1 {
        return None;
    }
    proof {
        assert(eq_parts@[1]@ == eq_parts.deep_view()[1]);
    }
    let pid = match crate::text::parse_u32(eq_parts[1].as_str()) {
        Some(v) => v,
        None => {
            return None;
        },
    };
    Some(Process::new(name, pid, String::from_str(hostname)))
}

/// The listening socket one ss line's fields describe, if any.
pub open spec fn spec_parse_listen_ss(
    fields: Seq<Seq<char>>,
    hostname: Seq<char>,
    st: SocketType,
) -> Option<ListeningSocketV> {
    if fields.len() <= 4 || fields.len() <= 6 {
        None
    } else {
        let local0 = strip_iface_of(fields[4]);
        match (ss_process_name(fields[6]), ss_process_pid(fields[6])) {
            (Some(name), Some(pid)) => {
                let ipv6 = local0.len() > 0 && (local0[0] == '[' || local0[0] == '*');
                let ipv6_only = if ipv6 {
                    Some(
                        !((local0.len() > 0 && local0[0] == '*') || "[::ffff:"@.is_prefix_of(
                            local0,
                        )),
                    )
                } else {
                    None
                };
                let sock_txt = if ipv6 {
                    star_expand(local0)
                } else {
                    local0
                };
                match parse_sock_addr_spec(sock_txt) {
                    Some(socket) => Some(
                        ListeningSocketV {
                            socket,
                            socket_type: st,
                            process: ProcessV {
                                name,
                                pid: pid as u32,
                                node_id: process_node_id(hostname, name),
                            },
                            node_name: listen_node_name(name, st, socket, ipv6_only),
                            node_id: listen_node_id(hostname, name, socket.port),
                            ipv6_only,
                        },
                    ),
                    None => None,
                }
            },
            _ => None,
        }
    }
}

/// Parse a listening socket from one ss line's fields.
pub fn parse_listening_socket_ss_line(
    split_line: &Vec<String>,
    hostname: &str,
    socket_type: SocketType,
) -> (r: Option<ListeningSocket>)
    ensures
        match r {
            Some(l) => spec_parse_listen_ss(split_line.deep_view(), hostname@, socket_type)
                == Some(l@),
            None => spec_parse_listen_ss(split_line.deep_view(), hostname@, socket_type) is None,
        },
{
    if split_line.len() <= 6 {
        return None;
    }
    proof {
        assert(split_line@[4]@ == split_line.deep_view()[4]);
        assert(split_line@[6]@ == split_line.deep_view()[6]);
    }
    let local0 = strip_iface(split_line[4].as_str());
    let process = match ss_extract_process(split_line[6].as_str(), hostname) {
        Some(p) => p,
        None => {
            return None;
        },
    };
    let l0 = local0.as_str();
    let l0len = l0.unicode_len();
    let ipv6 = l0len > 0 && (l0.get_char(0) == '[' || l0.get_char(0) == '*');
    let ipv6_only = if ipv6 {
        Some(
            !((l0len > 0 && l0.get_char(0) == '*') || crate::host::str_starts_with(l0, "[::ffff:")),
        )
    } else {
        None
    };
    let sock_txt = if ipv6 {
        star_expand_str(l0)
    } else {
        String::from_str(l0)
    };
    let socket = match crate::net::parse_sock_addr(sock_txt.as_str()) {
        Some(s) => s,
        None => {
            return None;
        },
    };
    Some(
        ListeningSocket::new(socket, socket_type, process, String::from_str(hostname), ipv6_only),
    )
}

/// The established connection one ss line's fields describe, if any.
pub open spec fn spec_parse_conn_ss(
    fields: Seq<Seq<char>>,
    hostname: Seq<char>,
    st: SocketType,
) -> Option<crate::host::ConnectionV> {
    if fields.len() <= 4 || fields.len() <= 5 || fields.len() <= 6 {
        None
    } else {
        match (ss_process_name(fields[6]), ss_process_pid(fields[6])) {
            (Some(name), Some(pid)) => {
                match (parse_sock_addr_spec(fields[4]), parse_sock_addr_spec(fields[5])) {
                    (Some(local), Some(peer)) => Some(
                        crate::host::ConnectionV {
                            socket_type: st,
                            local_socket: local,
                            peer_socket: peer,
                            process: ProcessV {
                                name,
                                pid: pid as u32,
                                node_id: process_node_id(hostname, name),
                            },
                        },
                    ),
                    _ => None,
                }
            },
            _ => None,
        }
    }
}

/// Parse an established connection from one ss line's fields.
pub fn parse_established_connection_ss_line(
    split_line: &Vec<String>,
    hostname: &str,
    socket_type: SocketType,
) -> (r: Option<crate::host::Connection>)
    ensures
        match r {
            Some(c) => spec_parse_conn_ss(split_line.deep_view(), hostname@, socket_type) == Some(
                c@,
            ),
            None => spec_parse_conn_ss(split_line.deep_view(), hostname@, socket_type) is None,
        },
{
    if split_line.len() <= 6 {
        return None;
    }
    proof {
        assert(split_line@[4]@ == split_line.deep_view()[4]);
        assert(split_line@[5]@ == split_line.deep_view()[5]);
        assert(split_line@[6]@ == split_line.deep_view()[6]);
    }
    let process = match ss_extract_process(split_line[6].as_str(), hostname) {
        Some(p) => p,
        None => {
            return None;
        },
    };
    let local = match crate::net::parse_sock_addr(split_line[4].as_str()) {
        Some(s) => s,
        None => {
            return None;
        },
    };
    let peer = match crate::net::parse_sock_addr(split_line[5].as_str()) {
        Some(s) => s,
        None => {
            return None;
        },
    };
    Some(crate::host::Connection::new(local, peer, socket_type, process))
}

} // verus!
verus! {

/// The listening socket one whole ss line contributes, if any: TCP lines in
/// LISTEN state and UDP lines in UNCONN state.
pub open spec fn ss_line_listen(line: Seq<char>, hostname: Seq<char>) -> Option<ListeningSocketV> {
    if !("tcp"@.is_prefix_of(line) || "udp"@.is_prefix_of(line)) {
        None
    } else {
        let fields = cleaned_fields(line);
        if fields.len() <= 1 {
            None
        } else if fields[0] == "tcp"@ && fields[1] == "LISTEN"@ {
            spec_parse_listen_ss(fields, hostname, SocketType::TCP)
        } else if fields[0] == "udp"@ && fields[1] == "UNCONN"@ {
            spec_parse_listen_ss(fields, hostname, SocketType::UDP)
        } else {
            None
        }
    }
}

/// The established connection one whole ss line contributes, if any: TCP or
/// UDP lines in ESTAB state.
pub open spec fn ss_line_conn(line: Seq<char>, hostname: Seq<char>) -> Option<
    crate::host::ConnectionV,
> {
    if !("tcp"@.is_prefix_of(line) || "udp"@.is_prefix_of(line)) {
        None
    } else {
        let fields = cleaned_fields(line);
        if fields.len() <= 1 {
            None
        } else if fields[0] == "tcp"@ && fields[1] == "ESTAB"@ {
            spec_parse_conn_ss(fields, hostname, SocketType::TCP)
        } else if fields[0] == "udp"@ && fields[1] == "ESTAB"@ {
            spec_parse_conn_ss(fields, hostname, SocketType::UDP)
        } else {
            None
        }
    }
}

/// The listening sockets the first `upto` ss lines contribute.
pub open spec fn ss_listens(lines: Seq<Seq<char>>, hostname: Seq<char>, upto: int) -> Seq<
    ListeningSocketV,
>
    decreases upto,
{
    if upto <= 0 {
        Seq::empty()
    } else {
        ss_listens(lines, hostname, upto - 1) + match ss_line_listen(lines[upto - 1], hostname) {
            Some(l) => seq![l],
            None => Seq::empty(),
        }
    }
}

/// The connections the first `upto` ss lines contribute.
pub open spec fn ss_conns(lines: Seq<Seq<char>>, hostname: Seq<char>, upto: int) -> Seq<
    crate::host::ConnectionV,
>
    decreases upto,
{
    if upto <= 0 {
        Seq::empty()
    } else {
        ss_conns(lines, hostname, upto - 1) + match ss_line_conn(lines[upto - 1], hostname) {
            Some(c) => seq![c],
            None => Seq::empty(),
        }
    }
}

/// Apply one ss line to the host.
fn apply_ss_line(line: &str, host: &mut Host)
    ensures
        final(host)@ == (HostV {
            listening_sockets: old(host)@.listening_sockets + match ss_line_listen(
                line@,
                old(host)@.name,
            ) {
                Some(l) => seq![l],
                None => Seq::<ListeningSocketV>::empty(),
            },
            connections: old(host)@.connections + match ss_line_conn(line@, old(host)@.name) {
                Some(c) => seq![c],
                None => Seq::<crate::host::ConnectionV>::empty(),
            },
            ..old(host)@
        }),
{
    let ghost hname = host@.name;
    let hname_own = String::from_str(host.name());
    let tcp_prefix = crate::host::str_starts_with(line, "tcp");
    let udp_prefix = crate::host::str_starts_with(line, "udp");
    if !(tcp_prefix || udp_prefix) {
        proof {
            assert(host@ =~= (HostV {
                listening_sockets: host@.listening_sockets + Seq::<ListeningSocketV>::empty(),
                connections: host@.connections + Seq::<crate::host::ConnectionV>::empty(),
                ..host@
            }));
        }
        return ;
    }
    let fields = clean_and_split_line(line);
    let ghost fv = fields.deep_view();
    if fields.len() > 1 {
        proof {
            assert(fields@[0]@ == fv[0]);
            assert(fields@[1]@ == fv[1]);
            reveal_strlit("tcp");
            reveal_strlit("udp");
            reveal_strlit("LISTEN");
            reveal_strlit("UNCONN");
            reveal_strlit("ESTAB");
        }
        let is_tcp = crate::text::str_eq(fields[0].as_str(), "tcp");
        let is_udp = crate::text::str_eq(fields[0].as_str(), "udp");
        let state_listen = crate::text::str_eq(fields[1].as_str(), "LISTEN");
        let state_unconn = crate::text::str_eq(fields[1].as_str(), "UNCONN");
        let state_estab = crate::text::str_eq(fields[1].as_str(), "ESTAB");
        if is_tcp && state_listen {
            match parse_listening_socket_ss_line(&fields, hname_own.as_str(), SocketType::TCP) {
                Some(l) => {
                    host.add_listening_socket(l);
                },
                None => {},
            }
        } else if is_udp && state_unconn {
            match parse_listening_socket_ss_line(&fields, hname_own.as_str(), SocketType::UDP) {
                Some(l) => {
                    host.add_listening_socket(l);
                },
                None => {},
            }
        } else if is_tcp && state_estab {
            match parse_established_connection_ss_line(
                &fields,
                hname_own.as_str(),
                SocketType::TCP,
            ) {
                Some(c) => {
                    host.add_established_connection(c);
                },
                None => {},
            }
        } else if is_udp && state_estab {
            match parse_established_connection_ss_line(
                &fields,
                hname_own.as_str(),
                SocketType::UDP,
            ) {
                Some(c) => {
                    host.add_established_connection(c);
                },
                None => {},
            }
        }
    }
    proof {
        assert(final(host)@ =~= (HostV {
            listening_sockets: old(host)@.listening_sockets + match ss_line_listen(line@, hname) {
                Some(l) => seq![l],
                None => Seq::<ListeningSocketV>::empty(),
            },
            connections: old(host)@.connections + match ss_line_conn(line@, hname) {
                Some(c) => seq![c],
                None => Seq::<crate::host::ConnectionV>::empty(),
            },
            ..old(host)@
        }));
    }
}

/// Walk the lines of an ss capture and record every listening socket and
/// established connection they describe on the host.
pub fn parse_ss_contents(lines: &Vec<String>, host: &mut Host)
    ensures
        final(host)@ == (HostV {
            listening_sockets: old(host)@.listening_sockets + ss_listens(
                lines.deep_view(),
                old(host)@.name,
                lines@.len() as int,
            ),
            connections: old(host)@.connections + ss_conns(
                lines.deep_view(),
                old(host)@.name,
                lines@.len() as int,
            ),
            ..old(host)@
        }),
{
    let ghost lv = lines.deep_view();
    let ghost hname = old(host)@.name;
    let mut i: usize = 0;
    proof {
        assert(host@ =~= (HostV {
            listening_sockets: old(host)@.listening_sockets + ss_listens(lv, hname, 0),
            connections: old(host)@.connections + ss_conns(lv, hname, 0),
            ..old(host)@
        }));
    }
    while i < lines.len()
        invariant
            0 <= i <= lv.len(),
            lv == lines.deep_view(),
            hname == old(host)@.name,
            host@ == (HostV {
                listening_sockets: old(host)@.listening_sockets + ss_listens(lv, hname, i as int),
                connections: old(host)@.connections + ss_conns(lv, hname, i as int),
                ..old(host)@
            }),
        decreases lv.len() - i,
    {
        proof {
            assert(lines@[i as int]@ == lv[i as int]);
        }
        apply_ss_line(lines[i].as_str(), host);
        i += 1;
        proof {
            assert(host@ =~= (HostV {
                listening_sockets: old(host)@.listening_sockets + ss_listens(lv, hname, i as int),
                connections: old(host)@.connections + ss_conns(lv, hname, i as int),
                ..old(host)@
            }));
        }
    }
}

/// The address one line of the address-listing command contributes: the
/// second field of a trimmed `inet` line, up to a `/`.
pub open spec fn ip_line_addr(line: Seq<char>) -> Option<IpAddr> {
    let t = crate::text::spec_trim(line);
    if "inet"@.is_prefix_of(t) {
        let fields = crate::text::spec_split(t, ' ');
        if fields.len() <= 1 {
            None
        } else {
            parse_ip_spec(crate::text::spec_split(fields[1], '/')[0])
        }
    } else {
        None
    }
}

/// The addresses the first `upto` lines contribute.
pub open spec fn ip_lines_addrs(lines: Seq<Seq<char>>, upto: int) -> Seq<IpAddr>
    decreases upto,
{
    if upto <= 0 {
        Seq::empty()
    } else {
        ip_lines_addrs(lines, upto - 1) + match ip_line_addr(lines[upto - 1]) {
            Some(ip) => seq![ip],
            None => Seq::empty(),
        }
    }
}

/// Parse the output of the address-listing command into the addresses it
/// names.
pub fn parse_ip_command_output(contents: &str) -> (r: Vec<IpAddr>)
    ensures
        r@ == ip_lines_addrs(
            crate::text::spec_lines(contents@),
            crate::text::spec_lines(contents@).len() as int,
        ),
{
    let lines = crate::text::lines_of(contents);
    let ghost lv = lines.deep_view();
    let mut ips: Vec<IpAddr> = Vec::new();
    let mut i: usize = 0;
    proof {
        assert(ips@ =~= ip_lines_addrs(lv, 0));
    }
    while i < lines.len()
        invariant
            0 <= i <= lv.len(),
            lv == lines.deep_view(),
            ips@ == ip_lines_addrs(lv, i as int),
        decreases lv.len() - i,
    {
        proof {
            assert(lines@[i as int]@ == lv[i as int]);
            reveal_strlit("inet");
        }
        let t = crate::text::trim_str(lines[i].as_str());
        if crate::host::str_starts_with(t.as_str(), "inet") {
            let fields = crate::text::split_str(t.as_str(), ' ');
            if fields.len() > 1 {
                proof {
                    assert(fields@[1]@ == fields.deep_view()[1]);
                }
                let slash_parts = crate::text::split_str(fields[1].as_str(), '/');
                proof {
                    assert(slash_parts.deep_view().len() > 0);
                    assert(slash_parts@[0]@ == slash_parts.deep_view()[0]);
                }
                match crate::net::parse_ip(slash_parts[0].as_str()) {
                    Some(ip) => {
                        ips.push(ip);
                    },
                    None => {},
                }
            }
        }
        i += 1;
        proof {
            assert(ips@ =~= ip_lines_addrs(lv, i as int));
        }
    }
    ips
}

} // verus!
verus! {

/// What one netstat line does to the host: nothing, one listening socket,
/// one connection, or an abort of the whole parse on an unreadable IPv6
/// peer.
pub enum NetstatLine {
    Skip,
    Listen(ListeningSocketV),
    Conn(crate::host::ConnectionV),
    Abort,
}

/// The socket a netstat field parses to: directly, or through the IPv6
/// fallback, which splits at the last colon and re-reads the peer field; a
/// peer field that cannot be read either aborts the parse.
pub open spec fn netstat_local_socket(local_str: Seq<char>, peer_str: Seq<char>) -> Option<
    Option<SocketAddr>,
> {
    match parse_sock_addr_spec(local_str) {
        Some(l) => Some(Some(l)),
        None => {
            match crate::net::rfind_upto(local_str, local_str.len() as int, ':') {
                Some(_) => match parse_sock_addr_spec(peer_str) {
                    Some(p) => Some(Some(p)),
                    None => None,  // abort
                },
                None => Some(None),  // skip
            }
        },
    }
}

/// The peer socket of an established netstat line: directly, or rebuilt in
/// the bracketed form from the text around its last colon.
pub open spec fn netstat_peer_socket(peer_str: Seq<char>) -> Option<Option<SocketAddr>> {
    match parse_sock_addr_spec(peer_str) {
        Some(p) => Some(Some(p)),
        None => {
            match crate::net::rfind_upto(peer_str, peer_str.len() as int, ':') {
                Some(k) => {
                    let rebuilt = seq!['['] + peer_str.take(k) + seq![']', ':'] + peer_str.skip(
                        k + 1,
                    );
                    match parse_sock_addr_spec(rebuilt) {
                        Some(p) => Some(Some(p)),
                        None => None,  // abort
                    }
                },
                None => Some(None),  // skip
            }
        },
    }
}

/// What one netstat line means.
pub open spec fn netstat_line(line: Seq<char>, hostname: Seq<char>) -> NetstatLine {
    if !(crate::text::has_sub(line, "ESTABLISHED"@) || crate::text::has_sub(line, "LISTEN"@)) {
        NetstatLine::Skip
    } else {
        let fields = crate::text::spec_split(crate::text::collapse_spaces(line), ' ');
        if fields.len() <= 6 {
            NetstatLine::Skip
        } else {
            let protocol = fields[0];
            let local_str = fields[3];
            let peer_str = fields[4];
            let state = fields[5];
            let pinfo = fields[6];
            let pid_parts = crate::text::spec_split(pinfo, '/');
            match crate::text::parse_dec_spec(pid_parts[0]) {
                None => NetstatLine::Skip,
                Some(pid) => {
                    if pid > u32::MAX || pid_parts.len() <= 1 {
                        NetstatLine::Skip
                    } else {
                        let name = pid_parts[1];
                        let ipv6 = protocol.len() > 0 && protocol.last() == '6';
                        match netstat_local_socket(local_str, peer_str) {
                            None => NetstatLine::Abort,
                            Some(None) => NetstatLine::Skip,
                            Some(Some(local)) => {
                                let st_tcp = protocol == "tcp"@ || protocol == "tcp6"@;
                                let st_udp = protocol == "udp"@ || protocol == "udp6"@;
                                if !st_tcp && !st_udp {
                                    NetstatLine::Skip
                                } else {
                                    let st = if st_tcp {
                                        SocketType::TCP
                                    } else {
                                        SocketType::UDP
                                    };
                                    let process = ProcessV {
                                        name,
                                        pid: pid as u32,
                                        node_id: process_node_id(hostname, name),
                                    };
                                    if state == "ESTABLISHED"@ {
                                        match netstat_peer_socket(peer_str) {
                                            None => NetstatLine::Abort,
                                            Some(None) => NetstatLine::Skip,
                                            Some(Some(peer)) => NetstatLine::Conn(
                                                crate::host::ConnectionV {
                                                    socket_type: st,
                                                    local_socket: local,
                                                    peer_socket: peer,
                                                    process,
                                                },
                                            ),
                                        }
                                    } else if state == "LISTEN"@ {
                                        let ipv6_only = if ipv6 {
                                            Some(true)
                                        } else {
                                            None
                                        };
                                        NetstatLine::Listen(
                                            ListeningSocketV {
                                                socket: local,
                                                socket_type: st,
                                                process,
                                                node_name: listen_node_name(
                                                    name,
                                                    st,
                                                    local,
                                                    ipv6_only,
                                                ),
                                                node_id: listen_node_id(hostname, name, local.port),
                                                ipv6_only,
                                            },
                                        )
                                    } else {
                                        NetstatLine::Skip
                                    }
                                }
                            },
                        }
                    }
                },
            }
        }
    }
}

/// The state after scanning the first `upto` netstat lines.
#[verifier::ext_equal]
pub struct NetstatScan {
    pub listens: Seq<ListeningSocketV>,
    pub conns: Seq<crate::host::ConnectionV>,
    pub aborted: bool,
}

pub open spec fn netstat_scan(lines: Seq<Seq<char>>, hostname: Seq<char>, upto: int) -> NetstatScan
    decreases upto,
{
    if upto <= 0 {
        NetstatScan {
            listens: Seq::empty(),
            conns: Seq::empty(),
            aborted: false,
        }
    } else {
        let prev = netstat_scan(lines, hostname, upto - 1);
        if prev.aborted {
            prev
        } else {
            match netstat_line(lines[upto - 1], hostname) {
                NetstatLine::Skip => prev,
                NetstatLine::Listen(l) => NetstatScan { listens: prev.listens.push(l), ..prev },
                NetstatLine::Conn(c) => NetstatScan { conns: prev.conns.push(c), ..prev },
                NetstatLine::Abort => NetstatScan { aborted: true, ..prev },
            }
        }
    }
}

/// Once aborted, the scan stays where it was.
proof fn lemma_netstat_scan_abort(lines: Seq<Seq<char>>, hostname: Seq<char>, i: int, j: int)
    requires
        0 <= i <= j,
        netstat_scan(lines, hostname, i).aborted,
    ensures
        netstat_scan(lines, hostname, j) == netstat_scan(lines, hostname, i),
    decreases j - i,
{
    if i < j {
        lemma_netstat_scan_abort(lines, hostname, i, j - 1);
    }
}

/// The last colon of a text, if any.
fn rfind_colon(s: &str) -> (r: Option<usize>)
    ensures
        match r {
            Some(k) => crate::net::rfind_upto(s@, s@.len() as int, ':') == Some(k as int) && k
                < s@.len(),
            None => crate::net::rfind_upto(s@, s@.len() as int, ':') is None,
        },
{
    let len = s.unicode_len();
    let mut found: Option<usize> = None;
    let mut k: usize = 0;
    while k < len
        invariant
            0 <= k <= len,
            len == s@.len(),
            match found {
                Some(f) => crate::net::rfind_upto(s@, k as int, ':') == Some(f as int) && f < len,
                None => crate::net::rfind_upto(s@, k as int, ':') is None,
            },
        decreases len - k,
    {
        if s.get_char(k) == ':' {
            found = Some(k);
        }
        k += 1;
    }
    found
}

/// Apply one netstat line to the host; true means the parse aborts.
fn apply_netstat_line(line: &str, host: &mut Host) -> (aborted: bool)
    ensures
        final(host)@ == (HostV {
            listening_sockets: old(host)@.listening_sockets + match netstat_line(
                line@,
                old(host)@.name,
            ) {
                NetstatLine::Listen(l) => seq![l],
                _ => Seq::<ListeningSocketV>::empty(),
            },
            connections: old(host)@.connections + match netstat_line(line@, old(host)@.name) {
                NetstatLine::Conn(c) => seq![c],
                _ => Seq::<crate::host::ConnectionV>::empty(),
            },
            ..old(host)@
        }),
        aborted == (netstat_line(line@, old(host)@.name) is Abort),
{
    let ghost hname = host@.name;
    let hname_own = String::from_str(host.name());
    proof {
        reveal_strlit("ESTABLISHED");
        reveal_strlit("LISTEN");
        reveal_strlit("tcp");
        reveal_strlit("tcp6");
        reveal_strlit("udp");
        reveal_strlit("udp6");
        assert(host@ =~= (HostV {
            listening_sockets: host@.listening_sockets + Seq::<ListeningSocketV>::empty(),
            connections: host@.connections + Seq::<crate::host::ConnectionV>::empty(),
            ..host@
        }));
    }
    if !(crate::text::contains_sub(line, "ESTABLISHED") || crate::text::contains_sub(
        line,
        "LISTEN",
    )) {
        return false;
    }
    let collapsed = crate::text::collapse_spaces_str(line);
    let fields = crate::text::split_str(collapsed.as_str(), ' ');
    let ghost fv = fields.deep_view();
    if fields.len() <= 6 {
        return false;
    }
    proof {
        assert(fields@[0]@ == fv[0]);
        assert(fields@[3]@ == fv[3]);
        assert(fields@[4]@ == fv[4]);
        assert(fields@[5]@ == fv[5]);
        assert(fields@[6]@ == fv[6]);
    }
    let pid_parts = crate::text::split_str(fields[6].as_str(), '/');
    proof {
        assert(pid_parts.deep_view().len() > 0);
        assert(pid_parts@[0]@ == pid_parts.deep_view()[0]);
    }
    let pid = match crate::text::parse_u32(pid_parts[0].as_str()) {
        Some(v) => v,
        None => {
            return false;
        },
    };
    if pid_parts.len() <= 1 {
        return false;
    }
    proof {
        assert(pid_parts@[1]@ == pid_parts.deep_view()[1]);
    }
    let name = pid_parts[1].as_str();
    let proto = fields[0].as_str();
    let plen = proto.unicode_len();
    let ipv6 = plen > 0 && proto.get_char(plen - 1) == '6';
    proof {
        if plen > 0 {
            assert(fv[0].last() == proto@[plen - 1]);
        }
    }

    // Local socket, with the fallback that re-reads the peer field.
    let local: SocketAddr;
    let mut aborted = false;
    match crate::net::parse_sock_addr(fields[3].as_str()) {
        Some(l) => {
            local = l;
        },
        None => {
            match rfind_colon(fields[3].as_str()) {
                Some(_) => {
                    match crate::net::parse_sock_addr(fields[4].as_str()) {
                        Some(p) => {
                            local = p;
                        },
                        None => {
                            return true;
                        },
                    }
                },
                None => {
                    return false;
                },
            }
        },
    }

    let is_tcp = crate::text::str_eq(proto, "tcp") || crate::text::str_eq(proto, "tcp6");
    let is_udp = crate::text::str_eq(proto, "udp") || crate::text::str_eq(proto, "udp6");
    if !is_tcp && !is_udp {
        return false;
    }
    let st = if is_tcp {
        SocketType::TCP
    } else {
        SocketType::UDP
    };
    let process = Process::new(name, pid, hname_own.clone());

    proof {
        reveal_strlit("ESTABLISHED");
        reveal_strlit("LISTEN");
    }
    if crate::text::str_eq(fields[5].as_str(), "ESTABLISHED") {
        // Peer socket, rebuilt in bracketed form when the plain form fails.
        let peer: SocketAddr;
        match crate::net::parse_sock_addr(fields[4].as_str()) {
            Some(p) => {
                peer = p;
            },
            None => {
                match rfind_colon(fields[4].as_str()) {
                    Some(k) => {
                        let pstr = fields[4].as_str();
                        let plen2 = pstr.unicode_len();
                        let mut rebuilt = String::from_str("[");
                        rebuilt.append(pstr.substring_char(0, k));
                        rebuilt.append("]:");
                        rebuilt.append(pstr.substring_char(k + 1, plen2));
                        proof {
                            reveal_strlit("[");
                            reveal_strlit("]:");
                            assert(rebuilt@ =~= seq!['['] + fv[4].take(k as int) + seq![']', ':']
                                + fv[4].skip(k as int + 1));
                        }
                        match crate::net::parse_sock_addr(rebuilt.as_str()) {
                            Some(p) => {
                                peer = p;
                            },
                            None => {
                                return true;
                            },
                        }
                    },
                    None => {
                        return false;
                    },
                }
            },
        }
        let c = crate::host::Connection::new(local, peer, st, process);
        host.add_established_connection(c);
        proof {
            assert(final(host)@ =~= (HostV {
                listening_sockets: old(host)@.listening_sockets + Seq::<
                    ListeningSocketV,
                >::empty(),
                connections: old(host)@.connections + match netstat_line(line@, hname) {
                    NetstatLine::Conn(cc) => seq![cc],
                    _ => Seq::<crate::host::ConnectionV>::empty(),
                },
                ..old(host)@
            }));
        }
        false
    } else if crate::text::str_eq(fields[5].as_str(), "LISTEN") {
        let ipv6_only = if ipv6 {
            Some(true)
        } else {
            None
        };
        let l = ListeningSocket::new(local, st, process, hname_own, ipv6_only);
        host.add_listening_socket(l);
        proof {
            assert(final(host)@ =~= (HostV {
                listening_sockets: old(host)@.listening_sockets + match netstat_line(
                    line@,
                    hname,
                ) {
                    NetstatLine::Listen(ll) => seq![ll],
                    _ => Seq::<ListeningSocketV>::empty(),
                },
                connections: old(host)@.connections + Seq::<crate::host::ConnectionV>::empty(),
                ..old(host)@
            }));
        }
        false
    } else {
        false
    }
}

/// Walk the lines of a netstat capture; stops early when an IPv6 peer field
/// cannot be read in either form, as the capture is then unusable.  Returns
/// whether it stopped early.
pub fn parse_netstat_contents(lines: &Vec<String>, host: &mut Host) -> (aborted: bool)
    ensures
        final(host)@ == (HostV {
            listening_sockets: old(host)@.listening_sockets + netstat_scan(
                lines.deep_view(),
                old(host)@.name,
                lines@.len() as int,
            ).listens,
            connections: old(host)@.connections + netstat_scan(
                lines.deep_view(),
                old(host)@.name,
                lines@.len() as int,
            ).conns,
            ..old(host)@
        }),
        aborted == netstat_scan(lines.deep_view(), old(host)@.name, lines@.len() as int).aborted,
{
    let ghost lv = lines.deep_view();
    let ghost hname = old(host)@.name;
    let mut i: usize = 0;
    proof {
        assert(host@ =~= (HostV {
            listening_sockets: old(host)@.listening_sockets + netstat_scan(lv, hname, 0).listens,
            connections: old(host)@.connections + netstat_scan(lv, hname, 0).conns,
            ..old(host)@
        }));
    }
    while i < lines.len()
        invariant
            0 <= i <= lv.len(),
            lv == lines.deep_view(),
            hname == old(host)@.name,
            !netstat_scan(lv, hname, i as int).aborted,
            host@ == (HostV {
                listening_sockets: old(host)@.listening_sockets + netstat_scan(
                    lv,
                    hname,
                    i as int,
                ).listens,
                connections: old(host)@.connections + netstat_scan(lv, hname, i as int).conns,
                ..old(host)@
            }),
        decreases lv.len() - i,
    {
        proof {
            assert(lines@[i as int]@ == lv[i as int]);
        }
        let aborted = apply_netstat_line(lines[i].as_str(), host);
        if aborted {
            proof {
                assert(netstat_scan(lv, hname, i + 1).aborted);
                lemma_netstat_scan_abort(lv, hname, i + 1, lv.len() as int);
                assert(host@ =~= (HostV {
                    listening_sockets: old(host)@.listening_sockets + netstat_scan(
                        lv,
                        hname,
                        lv.len() as int,
                    ).listens,
                    connections: old(host)@.connections + netstat_scan(
                        lv,
                        hname,
                        lv.len() as int,
                    ).conns,
                    ..old(host)@
                }));
            }
            return true;
        }
        i += 1;
        proof {
            assert(host@ =~= (HostV {
                listening_sockets: old(host)@.listening_sockets + netstat_scan(
                    lv,
                    hname,
                    i as int,
                ).listens,
                connections: old(host)@.connections + netstat_scan(lv, hname, i as int).conns,
                ..old(host)@
            }));
        }
    }
    false
}

} // verus!
verus! {

/// A host's address list after recording each of the given addresses in
/// order (IPv4 addresses bring their mapped form along).
pub open spec fn ips_extended(base: Seq<IpAddr>, added: Seq<IpAddr>, upto: int) -> Seq<IpAddr>
    decreases upto,
{
    if upto <= 0 {
        base
    } else {
        ips_extended(base, added, upto - 1) + crate::host::added_ips(added[upto - 1])
    }
}

/// The listening sockets a Linux capture describes.
pub open spec fn linux_raw_listens(d: LinuxHostRawData) -> Seq<ListeningSocketV> {
    match d.network_output {
        NetworkOutput::Ss(data) => ss_listens(
            crate::text::spec_lines(data@),
            d.hostname@,
            crate::text::spec_lines(data@).len() as int,
        ),
        NetworkOutput::Netstat(data) => netstat_scan(
            crate::text::spec_lines(data@),
            d.hostname@,
            crate::text::spec_lines(data@).len() as int,
        ).listens,
    }
}

/// The established connections a Linux capture describes.
pub open spec fn linux_raw_conns(d: LinuxHostRawData) -> Seq<crate::host::ConnectionV> {
    match d.network_output {
        NetworkOutput::Ss(data) => ss_conns(
            crate::text::spec_lines(data@),
            d.hostname@,
            crate::text::spec_lines(data@).len() as int,
        ),
        NetworkOutput::Netstat(data) => netstat_scan(
            crate::text::spec_lines(data@),
            d.hostname@,
            crate::text::spec_lines(data@).len() as int,
        ).conns,
    }
}

impl LinuxHostRawData {
    /// Build the host this capture describes: its name, its addresses with
    /// the loopback and mapped forms, and everything the network-state
    /// capture names.
    pub fn into_host(self) -> (h: Host)
        ensures
            h@ == (HostV {
                name: self.hostname@,
                cluster_id: crate::host::cluster_id_of(self.hostname@),
                listening_sockets: linux_raw_listens(self),
                connections: linux_raw_conns(self),
                ips: ips_extended(
                    seq![IpAddr::V4(0x7f00_0001u32), IpAddr::V6(1u128)],
                    self.ips@,
                    self.ips@.len() as int,
                ),
            }),
    {
        let ghost init_ips = seq![IpAddr::V4(0x7f00_0001u32), IpAddr::V6(1u128)];
        let mut host = Host::new(self.hostname.as_str());
        let mut i: usize = 0;
        proof {
            assert(host@.ips =~= ips_extended(init_ips, self.ips@, 0));
        }
        while i < self.ips.len()
            invariant
                0 <= i <= self.ips@.len(),
                host@ == (HostV {
                    ips: ips_extended(init_ips, self.ips@, i as int),
                    ..old_host_shape(self.hostname@)
                }),
            decreases self.ips@.len() - i,
        {
            host.add_ip(self.ips[i]);
            i += 1;
            proof {
                assert(host@.ips =~= ips_extended(init_ips, self.ips@, i as int));
                assert(host@ =~= (HostV {
                    ips: ips_extended(init_ips, self.ips@, i as int),
                    ..old_host_shape(self.hostname@)
                }));
            }
        }
        match &self.network_output {
            NetworkOutput::Ss(data) => {
                let lines = crate::text::lines_of(data.as_str());
                parse_ss_contents(&lines, &mut host);
            },
            NetworkOutput::Netstat(data) => {
                let lines = crate::text::lines_of(data.as_str());
                parse_netstat_contents(&lines, &mut host);
            },
        }
        proof {
            assert(host@ =~= (HostV {
                name: self.hostname@,
                cluster_id: crate::host::cluster_id_of(self.hostname@),
                listening_sockets: linux_raw_listens(self),
                connections: linux_raw_conns(self),
                ips: ips_extended(init_ips, self.ips@, self.ips@.len() as int),
            }));
        }
        host
    }
}

/// The fields a freshly scanned host has before any socket is recorded.
pub open spec fn old_host_shape(name: Seq<char>) -> HostV {
    HostV {
        name,
        cluster_id: crate::host::cluster_id_of(name),
        listening_sockets: Seq::empty(),
        connections: Seq::empty(),
        ips: Seq::empty(),
    }
}

} // verus!
