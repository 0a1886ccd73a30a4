use sockets_map::client::{generate_aggregate_update, AggregateError, Client, Update};
use sockets_map::host::{Connection, Host, ListeningSocket, Process, SocketType};
use sockets_map::net::{parse_ip, parse_sock_addr};

fn sock(s: &str) -> sockets_map::net::SocketAddr {
    parse_sock_addr(s).unwrap()
}

fn conn(local: &str, peer: &str, name: &str, pid: u32) -> Connection {
    Connection::new(
        sock(local),
        sock(peer),
        SocketType::TCP,
        Process::new(name, pid, "box1".to_string()),
    )
}

fn conn_matches(c: &Connection, local: &str, peer: &str, name: &str, pid: u32) -> bool {
    *c.local_socket() == sock(local)
        && *c.peer_socket() == sock(peer)
        && c.process().name() == name
        && *c.process().pid() == pid
}

fn snapshot(conns: Vec<Connection>) -> Update {
    let mut h = Host::new("box1");
    h.add_ip(parse_ip("10.0.0.1").unwrap());
    for c in conns {
        h.add_established_connection(c);
    }
    Update::new(h)
}

/// Two snapshots differing in one extra connection aggregate to the same
/// deduplicated union, whichever snapshot comes first.
#[test]
fn aggregation_is_order_independent() {
    let c1 = || conn("10.0.0.1:40000", "10.0.0.2:443", "firefox", 7);
    let c2 = || conn("10.0.0.1:40001", "10.0.0.2:22", "ssh", 8);

    let forward = vec![snapshot(vec![c1()]), snapshot(vec![c1(), c2()])];
    let backward = vec![snapshot(vec![c1(), c2()]), snapshot(vec![c1()])];

    let a = generate_aggregate_update(&forward).unwrap();
    let b = generate_aggregate_update(&backward).unwrap();

    assert_eq!(a.host.name(), "box1");
    assert_eq!(b.host.name(), "box1");
    assert_eq!(a.host.connections().len(), 2);
    assert_eq!(b.host.connections().len(), 2);
    for i in 0..2 {
        let x = &a.host.connections()[i];
        let y = &b.host.connections()[i];
        assert_eq!(x.process().name(), y.process().name());
        assert_eq!(x.process().pid(), y.process().pid());
        assert_eq!(x.local_socket(), y.local_socket());
        assert_eq!(x.peer_socket(), y.peer_socket());
    }
}

/// Exact duplicates collapse; near-duplicates (same process name, another
/// pid) stay distinct.
#[test]
fn aggregation_deduplicates_exactly() {
    let updates = vec![
        snapshot(vec![conn("10.0.0.1:40000", "10.0.0.2:443", "firefox", 7)]),
        snapshot(vec![
            conn("10.0.0.1:40000", "10.0.0.2:443", "firefox", 7),
            conn("10.0.0.1:40000", "10.0.0.2:443", "firefox", 9),
        ]),
    ];
    let merged = generate_aggregate_update(&updates).unwrap();
    let conns = merged.host.connections();
    assert_eq!(conns.len(), 2);
    assert!(conns
        .iter()
        .any(|c| conn_matches(c, "10.0.0.1:40000", "10.0.0.2:443", "firefox", 7)));
    assert!(conns
        .iter()
        .any(|c| conn_matches(c, "10.0.0.1:40000", "10.0.0.2:443", "firefox", 9)));
}

/// Listening sockets are merged and deduplicated the same way.
#[test]
fn aggregation_merges_listening_sockets() {
    let ls = |port: u16, pid: u32| {
        ListeningSocket::new(
            sock(&format!("0.0.0.0:{port}")),
            SocketType::TCP,
            Process::new("srv", pid, "box1".to_string()),
            "box1".to_string(),
            None,
        )
    };
    let mut h1 = Host::new("box1");
    h1.add_listening_socket(ls(80, 1));
    let mut h2 = Host::new("box1");
    h2.add_listening_socket(ls(80, 1));
    h2.add_listening_socket(ls(443, 2));
    let updates = vec![Update::new(h1), Update::new(h2)];
    let merged = generate_aggregate_update(&updates).unwrap();
    let sockets = merged.host.listening_sockets();
    assert_eq!(sockets.len(), 2);
    assert_eq!(sockets[0].port(), 80);
    assert_eq!(sockets[1].port(), 443);
}

/// No updates is the one aggregation error.
#[test]
fn aggregation_of_nothing_fails() {
    let updates: Vec<Update> = Vec::new();
    let r = generate_aggregate_update(&updates);
    assert!(matches!(r, Err(AggregateError::EmptyInput)));
}

/// A client accumulates the updates it is handed.
#[test]
fn client_collects_updates() {
    let mut client = Client::new(
        "box1".to_string(),
        Some("pretty".to_string()),
        vec![parse_ip("10.0.0.1").unwrap()],
    );
    assert_eq!(client.updates().len(), 0);
    client.add_update(snapshot(vec![conn("10.0.0.1:40000", "10.0.0.2:443", "firefox", 7)]));
    client.add_update(snapshot(vec![]));
    assert_eq!(client.updates().len(), 2);
    assert_eq!(client.hostname, "box1");
    assert_eq!(client.updates()[0].host.connections().len(), 1);
}
