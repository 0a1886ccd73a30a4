use sockets_map::host::{Connection, Host, ListeningSocket, Process, SocketType};
use sockets_map::net::{parse_ip, parse_sock_addr};

fn sock(s: &str) -> sockets_map::net::SocketAddr {
    parse_sock_addr(s).unwrap()
}

/// The listening-socket node identifier is a letter followed by the hex form
/// of the uppercased SHA-1 digest of `host_process_port`.
#[test]
fn listening_socket_node_id_is_digest() {
    let l = ListeningSocket::new(
        sock("0.0.0.0:443"),
        SocketType::TCP,
        Process::new("nginx", 102, "machine1".to_string()),
        "machine1".to_string(),
        None,
    );
    assert_eq!(l.node_id(), "a8e19baf9b19c9349da504dd4cda987393b0fdf2b");
    assert_eq!(l.node_id().len(), 41);
}

#[test]
fn listening_socket_node_name_labels() {
    let plain = ListeningSocket::new(
        sock("0.0.0.0:443"),
        SocketType::TCP,
        Process::new("nginx", 102, "machine1".to_string()),
        "machine1".to_string(),
        None,
    );
    assert_eq!(plain.node_name(), "nginx\ntcp4:443");
    let dual = ListeningSocket::new(
        sock("[::ffff:10.0.0.1]:22"),
        SocketType::TCP,
        Process::new("sshd", 101, "machine1".to_string()),
        "machine1".to_string(),
        Some(false),
    );
    assert_eq!(dual.node_name(), "sshd\ntcp4/6:22");
    let v6only = ListeningSocket::new(
        sock("[2001:db8::1]:53"),
        SocketType::UDP,
        Process::new("named", 7, "machine1".to_string()),
        "machine1".to_string(),
        Some(true),
    );
    assert_eq!(v6only.node_name(), "named\nudp6:53");
}

/// Identifier-unsafe characters of host and process names become
/// underscores.
#[test]
fn process_node_id_is_sanitized() {
    let p = Process::new("my-app?", 1, "host.domain".to_string());
    assert_eq!(p.node_id(), "host_domain_my_app_");
    assert_eq!(p.name(), "my-app?");
    assert_eq!(*p.pid(), 1);
}

/// A host always holds both loopback addresses, and every added IPv4
/// address brings its IPv4-mapped IPv6 form along.
#[test]
fn host_mirrors_ipv4_addresses() {
    let mut h = Host::new("box-1");
    assert_eq!(h.ips().len(), 2);
    assert_eq!(h.ips()[0], parse_ip("127.0.0.1").unwrap());
    assert_eq!(h.ips()[1], parse_ip("::1").unwrap());
    h.add_ip(parse_ip("10.0.0.1").unwrap());
    assert_eq!(h.ips().len(), 4);
    assert_eq!(h.ips()[2], parse_ip("10.0.0.1").unwrap());
    assert_eq!(h.ips()[3], parse_ip("::ffff:10.0.0.1").unwrap());
    h.add_ip(parse_ip("2001:db8::1").unwrap());
    assert_eq!(h.ips().len(), 5);
    assert_eq!(h.cluster_id(), "cluster_box_1");
    assert_eq!(h.name(), "box-1");
}

/// A connection survives exclusion when at least one prefix fails to match
/// its process name.
#[test]
fn exclude_processes_by_prefix() {
    let mk = |name: &str| {
        Connection::new(
            sock("10.0.0.1:40000"),
            sock("10.0.0.2:443"),
            SocketType::TCP,
            Process::new(name, 1, "box1".to_string()),
        )
    };
    let mut h = Host::new("box1");
    h.add_established_connection(mk("nginx"));
    h.add_established_connection(mk("curl"));
    h.exclude_processes(&vec!["ngi".to_string()]);
    assert_eq!(h.connections().len(), 1);
    assert_eq!(h.connections()[0].process().name(), "curl");

    // With several prefixes a name escapes as soon as one of them fails to
    // match it.
    let mut h2 = Host::new("box1");
    h2.add_established_connection(mk("nginx"));
    h2.add_established_connection(mk("curl"));
    h2.exclude_processes(&vec!["a".to_string(), "ngi".to_string()]);
    assert_eq!(h2.connections().len(), 2);
}
