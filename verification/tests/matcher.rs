use sockets_map::connections_model::build_connections_list;
use sockets_map::host::{Connection, Host, ListeningSocket, Process, SocketType};
use sockets_map::net::{parse_ip, parse_sock_addr, IpAddr};

fn sock(s: &str) -> sockets_map::net::SocketAddr {
    parse_sock_addr(s).unwrap()
}

fn ip(s: &str) -> IpAddr {
    parse_ip(s).unwrap()
}

fn make_fake_connections() -> Vec<Host> {
    let mut hosts = Vec::<Host>::new();

    // Machine 1
    let mut machine1 = Host::new("machine1");
    // SSHD server
    let sshd_listening_socket = ListeningSocket::new(
        sock("[::ffff:10.0.0.1]:22"),
        SocketType::TCP,
        Process::new("sshd", 101, "machine1".to_string()),
        "machine1".to_string(),
        Some(false),
    );
    // Nginx server
    let nginx_listening_socket = ListeningSocket::new(
        sock("0.0.0.0:443"),
        SocketType::TCP,
        Process::new("nginx", 102, "machine1".to_string()),
        "machine1".to_string(),
        None,
    );
    machine1.add_listening_socket(sshd_listening_socket);
    machine1.add_listening_socket(nginx_listening_socket);
    machine1.add_ip(ip("10.0.0.1"));

    let mut machine2 = Host::new("machine2");
    machine2.add_ip(ip("10.0.0.2"));
    // SSH connection
    machine2.add_established_connection(Connection::new(
        sock("10.0.0.2:5688"),
        sock("[::ffff:10.0.0.1]:22"),
        SocketType::TCP,
        Process::new("ssh", 201, "machine2".to_string()),
    ));
    // HTTPS connection
    machine2.add_established_connection(Connection::new(
        sock("10.0.0.2:5681"),
        sock("10.0.0.1:443"),
        SocketType::TCP,
        Process::new("firefox", 202, "machine2".to_string()),
    ));
    // Some UDP service
    let some_udp_service = ListeningSocket::new(
        sock("10.0.0.3:50001"),
        SocketType::UDP,
        Process::new("some_udp_service", 203, "machine2".to_string()),
        "machine2".to_string(),
        None,
    );
    machine2.add_listening_socket(some_udp_service);

    // Machine 3
    let mut machine3 = Host::new("machine3");
    machine3.add_ip(ip("10.0.0.3"));
    // Some UDP client
    let some_udp_client = Connection::new(
        sock("10.0.0.3:50002"),
        sock("10.0.0.2:50001"),
        SocketType::UDP,
        Process::new("some_udp_client", 301, "machine3".to_string()),
    );
    machine3.add_established_connection(some_udp_client);

    hosts.push(machine1);
    hosts.push(machine2);
    hosts.push(machine3);

    hosts
}

/// Test TCP connections detection between two IPv4 sockets
#[test]
fn test_tcp4_connections() {
    let hosts = make_fake_connections();

    let connections = build_connections_list(&hosts, false);

    assert!(
        connections.iter().any(|c| {
            let lh = &hosts[c.listening_host()];
            let ls = &lh.listening_sockets()[c.listening_connection()];
            let ch = &hosts[c.connected_host()];
            let cc = &ch.connections()[c.connected_connection()];
            lh.name() == "machine1"
                && ls.port() == 443
                && ls.process().name() == "nginx"
                && ls.process().pid() == &102
                && !ls.socket().is_ipv6()
                && ls.socket().ip() == ip("0.0.0.0")
                && ch.name() == "machine2"
                && cc.process().name() == "firefox"
                && cc.process().pid() == &202
        }),
        "missing TCP connection from machine2 firefox process on machine1 nginx server:\n{connections:#?}"
    );
}

/// Test UDP connections detection between two IPv4 sockets
#[test]
fn test_udp4_connections() {
    let hosts = make_fake_connections();

    let connections = build_connections_list(&hosts, false);

    assert!(
        connections.iter().any(|c| {
            let lh = &hosts[c.listening_host()];
            let ls = &lh.listening_sockets()[c.listening_connection()];
            let ch = &hosts[c.connected_host()];
            let cc = &ch.connections()[c.connected_connection()];
            lh.name() == "machine2"
                && ls.port() == 50001
                && ls.process().name() == "some_udp_service"
                && ls.process().pid() == &203
                && !ls.socket().is_ipv6()
                && ls.socket().ip() == ip("10.0.0.3")
                && ch.name() == "machine3"
                && cc.process().name() == "some_udp_client"
                && cc.process().pid() == &301
        }),
        "missing UDP connection from machine2 to machine3:\n{connections:#?}"
    );
}

/// Test TCP connections detection between an IPv6 server with IP6ONLY flag set to false, and
/// an IPv4 client
#[test]
fn test_tcp6_to_4_connections() {
    let hosts = make_fake_connections();

    let connections = build_connections_list(&hosts, false);

    assert!(
        connections.iter().any(|c| {
            let lh = &hosts[c.listening_host()];
            let ls = &lh.listening_sockets()[c.listening_connection()];
            let ch = &hosts[c.connected_host()];
            let cc = &ch.connections()[c.connected_connection()];
            lh.name() == "machine1"
                && !ls.is_loopback()
                && ls.port() == 22
                && ls.process().name() == "sshd"
                && ls.process().pid() == &101
                && ls.ipv6_only() == Some(&false)
                && ls.socket().is_ipv6()
                && ls.socket().ip() == ip("::ffff:10.0.0.1")
                && ch.name() == "machine2"
                && cc.process().name() == "ssh"
                && cc.process().pid() == &201
        }),
        "missing TCP connection from machine2 ssh client on machine1 sshd server:\n{connections:#?}"
    );
}

/// Matching twice over the same hosts gives the same edge sequence.
#[test]
fn matching_is_idempotent() {
    let hosts = make_fake_connections();
    let first = build_connections_list(&hosts, false);
    let second = build_connections_list(&hosts, false);
    assert_eq!(first, second);
    let first_no_loop = build_connections_list(&hosts, true);
    let second_no_loop = build_connections_list(&hosts, true);
    assert_eq!(first_no_loop, second_no_loop);
}

/// Excluding loopback removes exactly the self-host edges.
#[test]
fn loopback_toggle_removes_self_edges() {
    let mut hosts = make_fake_connections();
    // A local client on machine1 talking to its own nginx through loopback.
    hosts[0].add_established_connection(Connection::new(
        sock("127.0.0.1:5555"),
        sock("127.0.0.1:443"),
        SocketType::TCP,
        Process::new("localcurl", 103, "machine1".to_string()),
    ));
    let all = build_connections_list(&hosts, false);
    let without = build_connections_list(&hosts, true);
    let filtered: Vec<_> = all
        .iter()
        .filter(|e| e.listening_host() != e.connected_host())
        .cloned()
        .collect();
    assert_eq!(without, filtered);
    assert!(all.len() > without.len());
    assert!(all
        .iter()
        .any(|e| e.listening_host() == e.connected_host()));
}

/// An IPv4 peer never matches an IPv6-only listener.
#[test]
fn ipv4_peer_excluded_from_ipv6_only_listener() {
    let mut server = Host::new("server");
    server.add_ip(ip("10.0.0.1"));
    server.add_listening_socket(ListeningSocket::new(
        sock("[2001:db8::1]:8080"),
        SocketType::TCP,
        Process::new("v6d", 1, "server".to_string()),
        "server".to_string(),
        Some(true),
    ));
    let mut client = Host::new("client");
    client.add_ip(ip("10.0.0.9"));
    client.add_established_connection(Connection::new(
        sock("10.0.0.9:40000"),
        sock("10.0.0.1:8080"),
        SocketType::TCP,
        Process::new("curl", 2, "client".to_string()),
    ));
    let hosts = vec![server, client];
    let edges = build_connections_list(&hosts, false);
    assert!(edges.is_empty(), "unexpected edges: {edges:#?}");
}

/// A connection to a handed-off socket is traced back to the accepting
/// listening socket of the serving host.
#[test]
fn handoff_resolves_to_listening_socket() {
    let mut server = Host::new("server");
    server.add_ip(ip("10.0.0.2"));
    // The accepting socket is loopback-bound, so the direct pass cannot see
    // it; only the handed-off connection reveals the link.
    server.add_listening_socket(ListeningSocket::new(
        sock("127.0.0.1:8081"),
        SocketType::TCP,
        Process::new("nginx", 10, "server".to_string()),
        "server".to_string(),
        None,
    ));
    server.add_established_connection(Connection::new(
        sock("10.0.0.2:8081"),
        sock("10.0.0.1:40000"),
        SocketType::TCP,
        Process::new("nginx-worker", 11, "server".to_string()),
    ));
    let mut client = Host::new("client");
    client.add_ip(ip("10.0.0.1"));
    client.add_established_connection(Connection::new(
        sock("10.0.0.1:40000"),
        sock("10.0.0.2:8081"),
        SocketType::TCP,
        Process::new("curl", 20, "client".to_string()),
    ));
    let hosts = vec![server, client];
    let edges = build_connections_list(&hosts, true);
    assert_eq!(edges.len(), 1);
    let e = &edges[0];
    let lh = &hosts[e.listening_host()];
    assert_eq!(lh.name(), "server");
    let ls = &lh.listening_sockets()[e.listening_connection()];
    assert_eq!(ls.port(), 8081);
    assert_eq!(ls.process().name(), "nginx");
    let ch = &hosts[e.connected_host()];
    assert_eq!(ch.name(), "client");
    let cc = &ch.connections()[e.connected_connection()];
    assert_eq!(cc.process().name(), "curl");
}
