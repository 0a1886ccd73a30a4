//! Parsing of port-scan output for hosts where no socket table could be
//! collected.  Every open port becomes a listening socket attributed to a
//! guessed process named after the service, with pid zero.

use vstd::prelude::*;

use crate::host::{
    listen_node_id, listen_node_name, process_node_id, Host, HostV, ListeningSocket,
    ListeningSocketV, Process, ProcessV, SocketType,
};
use crate::net::{parse_ip_spec, parse_sock_addr_spec, IpAddr};

verus! {

/// Why a port-scan capture could not be read.
#[derive(Clone, Copy, PartialEq, Eq, Structural, Debug)]
pub enum NmapError {
    /// The address the capture is for could not be read.
    UnreadableAddress,
    /// A port line yielded no readable socket address.
    UnreadableSocket,
}

/// What one port-scan line does: nothing, one listening socket, or an abort
/// when the socket text cannot be read back.
pub enum NmapLine {
    Skip,
    Listen(ListeningSocketV),
    Abort,
}

/// The socket text of one scanned port: the address as given, bracketed for
/// IPv6, with the port.
pub open spec fn nmap_socket_text(ip_str: Seq<char>, ip: IpAddr, port_txt: Seq<char>) -> Seq<
    char,
> {
    if ip is V4 {
        ip_str + seq![':'] + port_txt
    } else {
        seq!['['] + ip_str + seq![']', ':'] + port_txt
    }
}

/// What one port-scan line means: lines are `port/proto state service`, and
/// only lines starting with a digit name ports.
pub open spec fn nmap_line(
    line: Seq<char>,
    hostname: Seq<char>,
    ip_str: Seq<char>,
    ip: IpAddr,
) -> NmapLine {
    if line.len() == 0 || !crate::text::is_digit(line[0]) {
        NmapLine::Skip
    } else {
        let fields = crate::parsers::linux::cleaned_fields(line);
        if fields.len() <= 2 {
            NmapLine::Skip
        } else {
            let pp = crate::text::spec_split(fields[0], '/');
            if pp.len() <= 1 {
                NmapLine::Skip
            } else {
                match parse_sock_addr_spec(nmap_socket_text(ip_str, ip, pp[0])) {
                    None => NmapLine::Abort,
                    Some(socket) => {
                        let st = if pp[1] == "tcp"@ {
                            Some(SocketType::TCP)
                        } else if pp[1] == "udp"@ {
                            Some(SocketType::UDP)
                        } else {
                            None
                        };
                        match st {
                            None => NmapLine::Skip,
                            Some(st) => {
                                let name = fields[2] + seq!['?'];
                                let ipv6_only = if ip is V4 {
                                    None
                                } else {
                                    Some(true)
                                };
                                NmapLine::Listen(
                                    ListeningSocketV {
                                        socket,
                                        socket_type: st,
                                        process: ProcessV {
                                            name,
                                            pid: 0,
                                            node_id: process_node_id(hostname, name),
                                        },
                                        node_name: listen_node_name(name, st, socket, ipv6_only),
                                        node_id: listen_node_id(hostname, name, socket.port),
                                        ipv6_only,
                                    },
                                )
                            },
                        }
                    },
                }
            }
        }
    }
}

/// The scan state after the first `upto` lines.
#[verifier::ext_equal]
pub struct NmapScan {
    pub listens: Seq<ListeningSocketV>,
    pub aborted: bool,
}

pub open spec fn nmap_scan(
    lines: Seq<Seq<char>>,
    hostname: Seq<char>,
    ip_str: Seq<char>,
    ip: IpAddr,
    upto: int,
) -> NmapScan
    decreases upto,
{
    if upto <= 0 {
        NmapScan { listens: Seq::empty(), aborted: false }
    } else {
        let prev = nmap_scan(lines, hostname, ip_str, ip, upto - 1);
        if prev.aborted {
            prev
        } else {
            match nmap_line(lines[upto - 1], hostname, ip_str, ip) {
                NmapLine::Skip => prev,
                NmapLine::Listen(l) => NmapScan { listens: prev.listens.push(l), ..prev },
                NmapLine::Abort => NmapScan { aborted: true, ..prev },
            }
        }
    }
}

proof fn lemma_nmap_scan_abort(
    lines: Seq<Seq<char>>,
    hostname: Seq<char>,
    ip_str: Seq<char>,
    ip: IpAddr,
    i: int,
    j: int,
)
    requires
        0 <= i <= j,
        nmap_scan(lines, hostname, ip_str, ip, i).aborted,
    ensures
        nmap_scan(lines, hostname, ip_str, ip, j) == nmap_scan(lines, hostname, ip_str, ip, i),
    decreases j - i,
{
    if i < j {
        lemma_nmap_scan_abort(lines, hostname, ip_str, ip, i, j - 1);
    }
}

/// Apply one port-scan line to the host; true means the parse aborts.
#[verifier::rlimit(60)]
fn apply_nmap_line(line: &str, hostname: &str, ip_str: &str, ip: IpAddr, host: &mut Host) -> (r:
    bool)
    ensures
        final(host)@ == (HostV {
            listening_sockets: old(host)@.listening_sockets + match nmap_line(
                line@,
                hostname@,
                ip_str@,
                ip,
            ) {
                NmapLine::Listen(l) => seq![l],
                _ => Seq::<ListeningSocketV>::empty(),
            },
            ..old(host)@
        }),
        r == (nmap_line(line@, hostname@, ip_str@, ip) is Abort),
{
    proof {
        reveal_strlit("tcp");
        reveal_strlit("udp");
        reveal_strlit(":");
        reveal_strlit("[");
        reveal_strlit("]:");
        assert(host@ =~= (HostV {
            listening_sockets: host@.listening_sockets + Seq::<ListeningSocketV>::empty(),
            ..host@
        }));
    }
    let llen = line.unicode_len();
    if llen == 0 {
        return false;
    }
    let c0 = line.get_char(0) as u32;
    if !(48 <= c0 && c0 <= 57) {
        return false;
    }
    let fields = crate::parsers::linux::clean_and_split_line(line);
    let ghost fv = fields.deep_view();
    if fields.len() <= 2 {
        return false;
    }
    proof {
        assert(fields@[0]@ == fv[0]);
        assert(fields@[2]@ == fv[2]);
    }
    let pp = crate::text::split_str(fields[0].as_str(), '/');
    if pp.len() <= 1 {
        return false;
    }
    proof {
        assert(pp@[0]@ == pp.deep_view()[0]);
        assert(pp@[1]@ == pp.deep_view()[1]);
    }
    // Assemble the socket text exactly as the grammar states it.
    let mut sock_txt = String::new();
    if ip.is_ipv4() {
        sock_txt.append(ip_str);
        sock_txt.append(":");
    } else {
        sock_txt.append("[");
        sock_txt.append(ip_str);
        sock_txt.append("]:");
    }
    sock_txt.append(pp[0].as_str());
    proof {
        assert(sock_txt@ =~= nmap_socket_text(ip_str@, ip, pp.deep_view()[0]));
    }
    let socket = match crate::net::parse_sock_addr(sock_txt.as_str()) {
        None => {
            return true;
        },
        Some(socket) => socket,
    };
    let is_tcp = crate::text::str_eq(pp[1].as_str(), "tcp");
    let is_udp = crate::text::str_eq(pp[1].as_str(), "udp");
    if !(is_tcp || is_udp) {
        return false;
    }
    let st = if is_tcp {
        SocketType::TCP
    } else {
        SocketType::UDP
    };
    let mut name = fields[2].clone();
    crate::text::push_char(&mut name, '?');
    proof {
        assert(name@ =~= fv[2] + seq!['?']);
    }
    let process = Process::new(name.as_str(), 0, String::from_str(hostname));
    let ipv6_only = if ip.is_ipv4() {
        None
    } else {
        Some(true)
    };
    let l = ListeningSocket::new(socket, st, process, String::from_str(hostname), ipv6_only);
    host.add_listening_socket(l);
    proof {
        assert(final(host)@ =~= (HostV {
            listening_sockets: old(host)@.listening_sockets + match nmap_line(
                line@,
                hostname@,
                ip_str@,
                ip,
            ) {
                NmapLine::Listen(ll) => seq![ll],
                _ => Seq::<ListeningSocketV>::empty(),
            },
            ..old(host)@
        }));
    }
    false
}

impl Host {
    /// Build a host from the text of a port scan: its name, the scanned
    /// address, and one listening socket per open port.  Fails when the
    /// address itself or a port line's socket cannot be read.
    pub fn from_nmap_contents(hostname: &str, ip_str: &str, contents: &str) -> (r: Result<
        Host,
        NmapError,
    >)
        ensures
            match r {
                Ok(h) => {
                    &&& parse_ip_spec(ip_str@) is Some
                    &&& !nmap_scan(
                        crate::text::spec_lines(contents@),
                        hostname@,
                        ip_str@,
                        parse_ip_spec(ip_str@)->0,
                        crate::text::spec_lines(contents@).len() as int,
                    ).aborted
                    &&& h@ == (HostV {
                        name: hostname@,
                        cluster_id: crate::host::cluster_id_of(hostname@),
                        listening_sockets: nmap_scan(
                            crate::text::spec_lines(contents@),
                            hostname@,
                            ip_str@,
                            parse_ip_spec(ip_str@)->0,
                            crate::text::spec_lines(contents@).len() as int,
                        ).listens,
                        connections: Seq::empty(),
                        ips: seq![IpAddr::V4(0x7f00_0001u32), IpAddr::V6(1u128)]
                            + crate::host::added_ips(parse_ip_spec(ip_str@)->0),
                    })
                },
                Err(e) => {
                    ||| (e == NmapError::UnreadableAddress && parse_ip_spec(ip_str@) is None)
                    ||| (e == NmapError::UnreadableSocket && parse_ip_spec(ip_str@) is Some
                        && nmap_scan(
                        crate::text::spec_lines(contents@),
                        hostname@,
                        ip_str@,
                        parse_ip_spec(ip_str@)->0,
                        crate::text::spec_lines(contents@).len() as int,
                    ).aborted)
                },
            },
    {
        let ip = match crate::net::parse_ip(ip_str) {
            Some(ip) => ip,
            None => {
                return Err(NmapError::UnreadableAddress);
            },
        };
        let mut host = Host::new(hostname);
        host.add_ip(ip);
        let ghost base = host@;
        let lines = crate::text::lines_of(contents);
        let ghost lv = lines.deep_view();
        let mut i: usize = 0;
        proof {
            assert(host@ =~= (HostV {
                listening_sockets: base.listening_sockets + nmap_scan(
                    lv,
                    hostname@,
                    ip_str@,
                    ip,
                    0,
                ).listens,
                ..base
            }));
        }
        while i < lines.len()
            invariant
                0 <= i <= lv.len(),
                lv == lines.deep_view(),
                lv == crate::text::spec_lines(contents@),
                parse_ip_spec(ip_str@) == Some(ip),
                base.name == hostname@,
                !nmap_scan(lv, hostname@, ip_str@, ip, i as int).aborted,
                host@ == (HostV {
                    listening_sockets: base.listening_sockets + nmap_scan(
                        lv,
                        hostname@,
                        ip_str@,
                        ip,
                        i as int,
                    ).listens,
                    ..base
                }),
            decreases lv.len() - i,
        {
            proof {
                assert(lines@[i as int]@ == lv[i as int]);
            }
            let aborted = apply_nmap_line(lines[i].as_str(), hostname, ip_str, ip, &mut host);
            if aborted {
                proof {
                    assert(nmap_scan(lv, hostname@, ip_str@, ip, i + 1).aborted);
                    lemma_nmap_scan_abort(lv, hostname@, ip_str@, ip, i + 1, lv.len() as int);
                    assert(parse_ip_spec(ip_str@) == Some(ip));
                    assert(lv == crate::text::spec_lines(contents@));
                    assert(lv.len() == crate::text::spec_lines(contents@).len());
                    assert(nmap_scan(
                        crate::text::spec_lines(contents@),
                        hostname@,
                        ip_str@,
                        parse_ip_spec(ip_str@)->0,
                        crate::text::spec_lines(contents@).len() as int,
                    ).aborted);
                }
                return Err(NmapError::UnreadableSocket);
            }
            i += 1;
            proof {
                assert(host@ =~= (HostV {
                    listening_sockets: base.listening_sockets + nmap_scan(
                        lv,
                        hostname@,
                        ip_str@,
                        ip,
                        i as int,
                    ).listens,
                    ..base
                }));
            }
        }
        proof {
            assert(base.listening_sockets =~= Seq::<ListeningSocketV>::empty());
            assert(Seq::<ListeningSocketV>::empty() + nmap_scan(
                lv,
                hostname@,
                ip_str@,
                ip,
                lv.len() as int,
            ).listens =~= nmap_scan(lv, hostname@, ip_str@, ip, lv.len() as int).listens);
            assert(base.ips =~= seq![IpAddr::V4(0x7f00_0001u32), IpAddr::V6(1u128)]
                + crate::host::added_ips(ip));
        }
        Ok(host)
    }
}

} // verus!
