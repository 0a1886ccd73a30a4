//! Hand-written captures: one record per socket, as read from a CSV file.
//! Reading and field-splitting the file is the caller's business; the
//! records here hold the plain field values.

use vstd::prelude::*;

use crate::host::{
    listen_node_id, listen_node_name, process_node_id, Host, HostV, ListeningSocket,
    ListeningSocketV, Process, ProcessV, SocketType,
};
use crate::net::{parse_ip_spec, parse_sock_addr_spec, IpAddr};

verus! {

/// The state column of a record.
#[derive(Debug, Clone, Copy, PartialEq, Eq, Structural)]
pub enum ConState {
    Established,
    Listening,
}

/// One socket record of a hand-written capture.
#[derive(Debug, Clone)]
pub struct Record {
    pub protocol: SocketType,
    pub local_socket: String,
    pub foreign_socket: Option<String>,
    pub state: ConState,
    pub pid: u32,
    pub process_name: String,
}

/// The view of a [`Record`].
#[verifier::ext_equal]
pub struct RecordV {
    pub protocol: SocketType,
    pub local_socket: Seq<char>,
    pub foreign_socket: Option<Seq<char>>,
    pub state: ConState,
    pub pid: u32,
    pub process_name: Seq<char>,
}

impl View for Record {
    type V = RecordV;

    open spec fn view(&self) -> RecordV {
        RecordV {
            protocol: self.protocol,
            local_socket: self.local_socket@,
            foreign_socket: self.foreign_socket.deep_view(),
            state: self.state,
            pid: self.pid,
            process_name: self.process_name@,
        }
    }
}

impl DeepView for Record {
    type V = RecordV;

    open spec fn deep_view(&self) -> RecordV {
        self@
    }
}

/// Why a hand-written capture could not be used.
#[derive(Clone, Copy, PartialEq, Eq, Structural, Debug)]
pub enum CsvError {
    /// An address of the address file could not be read.
    UnreadableAddress,
}

/// An IPv4-mapped IPv6 value, whose textual form begins `::ffff:`.
pub open spec fn is_mapped_value(n: u128) -> bool {
    0xffff_0000_0000 <= n <= 0xffff_ffff_ffff
}

/// The listening socket one record describes, if any: a record in listening
/// state whose local socket reads back.  An IPv6 socket in the mapped form
/// is marked IPv6-only, as the capture convention has it.
pub open spec fn csv_record_listen(r: RecordV, hostname: Seq<char>) -> Option<ListeningSocketV> {
    if r.state is Listening {
        match parse_sock_addr_spec(r.local_socket) {
            Some(local) => {
                let ipv6_only = match local.ip {
                    IpAddr::V4(_) => None,
                    IpAddr::V6(n) => Some(is_mapped_value(n)),
                };
                Some(
                    ListeningSocketV {
                        socket: local,
                        socket_type: r.protocol,
                        process: ProcessV {
                            name: r.process_name,
                            pid: r.pid,
                            node_id: process_node_id(hostname, r.process_name),
                        },
                        node_name: listen_node_name(r.process_name, r.protocol, local, ipv6_only),
                        node_id: listen_node_id(hostname, r.process_name, local.port),
                        ipv6_only,
                    },
                )
            },
            None => None,
        }
    } else {
        None
    }
}

/// The connection one record describes, if any: a record in established
/// state with a readable local and foreign socket.
pub open spec fn csv_record_conn(r: RecordV, hostname: Seq<char>) -> Option<
    crate::host::ConnectionV,
> {
    if r.state is Established {
        match r.foreign_socket {
            Some(fs) => match (parse_sock_addr_spec(r.local_socket), parse_sock_addr_spec(fs)) {
                (Some(local), Some(peer)) => Some(
                    crate::host::ConnectionV {
                        socket_type: r.protocol,
                        local_socket: local,
                        peer_socket: peer,
                        process: ProcessV {
                            name: r.process_name,
                            pid: r.pid,
                            node_id: process_node_id(hostname, r.process_name),
                        },
                    },
                ),
                _ => None,
            },
            None => None,
        }
    } else {
        None
    }
}

/// The listening sockets of the first `upto` records.
pub open spec fn csv_listens(records: Seq<RecordV>, hostname: Seq<char>, upto: int) -> Seq<
    ListeningSocketV,
>
    decreases upto,
{
    if upto <= 0 {
        Seq::empty()
    } else {
        csv_listens(records, hostname, upto - 1) + match csv_record_listen(
            records[upto - 1],
            hostname,
        ) {
            Some(l) => seq![l],
            None => Seq::empty(),
        }
    }
}

/// The connections of the first `upto` records.
pub open spec fn csv_conns(records: Seq<RecordV>, hostname: Seq<char>, upto: int) -> Seq<
    crate::host::ConnectionV,
>
    decreases upto,
{
    if upto <= 0 {
        Seq::empty()
    } else {
        csv_conns(records, hostname, upto - 1) + match csv_record_conn(
            records[upto - 1],
            hostname,
        ) {
            Some(c) => seq![c],
            None => Seq::empty(),
        }
    }
}

/// Apply one record to the host.
fn apply_csv_record(r: &Record, host: &mut Host)
    ensures
        final(host)@ == (HostV {
            listening_sockets: old(host)@.listening_sockets + match csv_record_listen(
                r@,
                old(host)@.name,
            ) {
                Some(l) => seq![l],
                None => Seq::<ListeningSocketV>::empty(),
            },
            connections: old(host)@.connections + match csv_record_conn(r@, old(host)@.name) {
                Some(c) => seq![c],
                None => Seq::<crate::host::ConnectionV>::empty(),
            },
            ..old(host)@
        }),
{
    let ghost hname = host@.name;
    let hname_own = String::from_str(host.name());
    proof {
        assert(host@ =~= (HostV {
            listening_sockets: host@.listening_sockets + Seq::<ListeningSocketV>::empty(),
            connections: host@.connections + Seq::<crate::host::ConnectionV>::empty(),
            ..host@
        }));
    }
    match r.state {
        ConState::Established => {
            let fs = match &r.foreign_socket {
                Some(fs) => fs,
                None => {
                    return ;
                },
            };
            let local = match crate::net::parse_sock_addr(r.local_socket.as_str()) {
                Some(l) => l,
                None => {
                    return ;
                },
            };
            let peer = match crate::net::parse_sock_addr(fs.as_str()) {
                Some(p) => p,
                None => {
                    return ;
                },
            };
            let process = Process::new(r.process_name.as_str(), r.pid, hname_own);
            let c = crate::host::Connection::new(local, peer, r.protocol, process);
            host.add_established_connection(c);
            proof {
                assert(final(host)@ =~= (HostV {
                    listening_sockets: old(host)@.listening_sockets + Seq::<
                        ListeningSocketV,
                    >::empty(),
                    connections: old(host)@.connections + match csv_record_conn(r@, hname) {
                        Some(cc) => seq![cc],
                        None => Seq::<crate::host::ConnectionV>::empty(),
                    },
                    ..old(host)@
                }));
            }
        },
        ConState::Listening => {
            let local = match crate::net::parse_sock_addr(r.local_socket.as_str()) {
                Some(l) => l,
                None => {
                    return ;
                },
            };
            let ipv6_only = match local.ip() {
                IpAddr::V4(_) => None,
                IpAddr::V6(n) => Some(0xffff_0000_0000u128 <= n && n <= 0xffff_ffff_ffffu128),
            };
            let process = Process::new(r.process_name.as_str(), r.pid, hname_own.clone());
            let l = ListeningSocket::new(local, r.protocol, process, hname_own, ipv6_only);
            host.add_listening_socket(l);
            proof {
                assert(final(host)@ =~= (HostV {
                    listening_sockets: old(host)@.listening_sockets + match csv_record_listen(
                        r@,
                        hname,
                    ) {
                        Some(ll) => seq![ll],
                        None => Seq::<ListeningSocketV>::empty(),
                    },
                    connections: old(host)@.connections + Seq::<
                        crate::host::ConnectionV,
                    >::empty(),
                    ..old(host)@
                }));
            }
        },
    }
}

/// Every address text reads back as an address.
pub open spec fn all_addresses_ok(texts: Seq<Seq<char>>) -> bool {
    forall|k: int| 0 <= k < texts.len() ==> parse_ip_spec(#[trigger] texts[k]) is Some
}

/// The addresses the texts name, when they all read back.
pub open spec fn parsed_addresses(texts: Seq<Seq<char>>) -> Seq<IpAddr> {
    Seq::new(texts.len(), |k: int| parse_ip_spec(texts[k])->0)
}

/// Build a host from a hand-written capture: its addresses and one entry
/// per record.  Fails exactly when some address text cannot be read;
/// records whose sockets cannot be read are skipped, like any other
/// malformed capture line.
pub fn host_from_csv_records(
    hostname: &str,
    ip_texts: &Vec<String>,
    records: &Vec<Record>,
) -> (r: Result<Host, CsvError>)
    ensures
        match r {
            Ok(h) => {
                &&& all_addresses_ok(ip_texts.deep_view())
                &&& h@ == (HostV {
                    name: hostname@,
                    cluster_id: crate::host::cluster_id_of(hostname@),
                    listening_sockets: csv_listens(
                        records.deep_view(),
                        hostname@,
                        records@.len() as int,
                    ),
                    connections: csv_conns(records.deep_view(), hostname@, records@.len() as int),
                    ips: crate::parsers::linux::ips_extended(
                        seq![IpAddr::V4(0x7f00_0001u32), IpAddr::V6(1u128)],
                        parsed_addresses(ip_texts.deep_view()),
                        ip_texts@.len() as int,
                    ),
                })
            },
            Err(e) => e == CsvError::UnreadableAddress && !all_addresses_ok(ip_texts.deep_view()),
        },
{
    let ghost init_ips = seq![IpAddr::V4(0x7f00_0001u32), IpAddr::V6(1u128)];
    let ghost texts = ip_texts.deep_view();
    let mut host = Host::new(hostname);
    let mut i: usize = 0;
    proof {
        assert(host@.ips =~= crate::parsers::linux::ips_extended(
            init_ips,
            parsed_addresses(texts),
            0,
        ));
    }
    while i < ip_texts.len()
        invariant
            0 <= i <= texts.len(),
            texts == ip_texts.deep_view(),
            forall|k: int| 0 <= k < i ==> parse_ip_spec(#[trigger] texts[k]) is Some,
            host@ == (HostV {
                ips: crate::parsers::linux::ips_extended(init_ips, parsed_addresses(texts), i as int),
                ..crate::parsers::linux::old_host_shape(hostname@)
            }),
        decreases texts.len() - i,
    {
        proof {
            assert(ip_texts@[i as int]@ == texts[i as int]);
        }
        match crate::net::parse_ip(ip_texts[i].as_str()) {
            Some(ip) => {
                host.add_ip(ip);
            },
            None => {
                return Err(CsvError::UnreadableAddress);
            },
        }
        i += 1;
        proof {
            assert(host@.ips =~= crate::parsers::linux::ips_extended(
                init_ips,
                parsed_addresses(texts),
                i as int,
            ));
            assert(host@ =~= (HostV {
                ips: crate::parsers::linux::ips_extended(
                    init_ips,
                    parsed_addresses(texts),
                    i as int,
                ),
                ..crate::parsers::linux::old_host_shape(hostname@)
            }));
        }
    }
    let ghost base = host@;
    let ghost rv = records.deep_view();
    let mut j: usize = 0;
    proof {
        assert(host@ =~= (HostV {
            listening_sockets: base.listening_sockets + csv_listens(rv, hostname@, 0),
            connections: base.connections + csv_conns(rv, hostname@, 0),
            ..base
        }));
    }
    while j < records.len()
        invariant
            0 <= j <= rv.len(),
            rv == records.deep_view(),
            base.name == hostname@,
            host@ == (HostV {
                listening_sockets: base.listening_sockets + csv_listens(rv, hostname@, j as int),
                connections: base.connections + csv_conns(rv, hostname@, j as int),
                ..base
            }),
        decreases rv.len() - j,
    {
        proof {
            assert(records@[j as int]@ == rv[j as int]);
        }
        apply_csv_record(&records[j], &mut host);
        j += 1;
        proof {
            assert(host@ =~= (HostV {
                listening_sockets: base.listening_sockets + csv_listens(rv, hostname@, j as int),
                connections: base.connections + csv_conns(rv, hostname@, j as int),
                ..base
            }));
        }
    }
    proof {
        assert(base.listening_sockets =~= Seq::<ListeningSocketV>::empty());
        assert(base.connections =~= Seq::<crate::host::ConnectionV>::empty());
        assert(Seq::<ListeningSocketV>::empty() + csv_listens(rv, hostname@, rv.len() as int)
            =~= csv_listens(rv, hostname@, rv.len() as int));
        assert(Seq::<crate::host::ConnectionV>::empty() + csv_conns(rv, hostname@, rv.len() as int)
            =~= csv_conns(rv, hostname@, rv.len() as int));
    }
    Ok(host)
}

} // verus!
