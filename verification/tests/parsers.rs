use sockets_map::host::{Host, SocketType};
use sockets_map::net::parse_ip;
use sockets_map::parsers::directory_scanner::{
    classify_file_name, plan_host_builds, scan_file_names, FileType, HostPlan, PlanError,
};
use sockets_map::parsers::linux::{
    clean_and_split_line, parse_established_connection_ss_line, parse_ip_command_output,
    parse_listening_socket_ss_line, parse_netstat_contents, parse_ss_contents, LinuxHostRawData,
    NetworkOutput,
};
use sockets_map::client::HostData;
use sockets_map::parsers::csv::{host_from_csv_records, ConState, Record};
use sockets_map::parsers::windows::WindowsHostRawData;
use sockets_map::text::lines_of;

#[test]
fn clean_and_split_collapses_whitespace() {
    let fields = clean_and_split_line("  tcp   LISTEN  0    128 ");
    let strs: Vec<&str> = fields.iter().map(|s| s.as_str()).collect();
    assert_eq!(strs, vec!["tcp", "LISTEN", "0", "128"]);
}

/// The interface suffix of a loopback socket is stripped before the address
/// is read; with it left in place the line would not parse at all.
#[test]
fn ss_listening_line_with_interface_suffix() {
    let fields = clean_and_split_line(
        "udp UNCONN 0 0 127.0.0.53%lo:53 0.0.0.0:* users:((\"systemd-resolve\",pid=575,fd=12))",
    );
    let l = parse_listening_socket_ss_line(&fields, "box1", SocketType::UDP).unwrap();
    assert_eq!(l.port(), 53);
    assert_eq!(l.ip_addr(), parse_ip("127.0.0.53").unwrap());
    assert_eq!(l.process().name(), "systemd-resolve");
    assert_eq!(*l.process().pid(), 575);
    assert_eq!(l.ipv6_only(), None);
}

#[test]
fn ss_listening_line_wildcard_is_dual_stack() {
    let fields =
        clean_and_split_line("tcp LISTEN 0 128 *:80 *:* users:((\"nginx\",pid=42,fd=6))");
    let l = parse_listening_socket_ss_line(&fields, "box1", SocketType::TCP).unwrap();
    assert_eq!(l.port(), 80);
    assert_eq!(l.ip_addr(), parse_ip("::").unwrap());
    assert_eq!(l.ipv6_only(), Some(&false));
}

#[test]
fn ss_established_line() {
    let fields = clean_and_split_line(
        "tcp ESTAB 0 0 10.0.0.2:5688 10.0.0.1:22 users:((\"ssh\",pid=201,fd=3))",
    );
    let c = parse_established_connection_ss_line(&fields, "box1", SocketType::TCP).unwrap();
    assert_eq!(*c.local_socket(), sockets_map::net::parse_sock_addr("10.0.0.2:5688").unwrap());
    assert_eq!(*c.peer_socket(), sockets_map::net::parse_sock_addr("10.0.0.1:22").unwrap());
    assert_eq!(c.process().name(), "ssh");
    assert_eq!(*c.process().pid(), 201);
}

#[test]
fn ss_line_without_process_is_skipped() {
    let fields = clean_and_split_line("tcp ESTAB 0 0 10.0.0.2:5688 10.0.0.1:22");
    assert!(parse_established_connection_ss_line(&fields, "box1", SocketType::TCP).is_none());
}

#[test]
fn ss_capture_walk() {
    let capture = "Netid State Recv-Q Send-Q Local Peer Process\n\
        tcp LISTEN 0 128 0.0.0.0:22 0.0.0.0:* users:((\"sshd\",pid=101,fd=3))\n\
        tcp ESTAB 0 0 10.0.0.2:5688 10.0.0.1:22 users:((\"ssh\",pid=201,fd=3))\n\
        udp UNCONN 0 0 0.0.0.0:68 0.0.0.0:* users:((\"dhclient\",pid=300,fd=6))\n";
    let mut host = Host::new("box1");
    let lines = lines_of(capture);
    parse_ss_contents(&lines, &mut host);
    assert_eq!(host.listening_sockets().len(), 2);
    assert_eq!(host.connections().len(), 1);
    assert_eq!(host.listening_sockets()[0].process().name(), "sshd");
    assert_eq!(host.listening_sockets()[1].port(), 68);
    assert_eq!(host.connections()[0].process().name(), "ssh");
}

#[test]
fn netstat_capture_walk() {
    let capture = "Active Internet connections\n\
        Proto Recv-Q Send-Q Local Address Foreign Address State PID/Program name\n\
        tcp 0 0 0.0.0.0:22 0.0.0.0:* LISTEN 101/sshd\n\
        tcp 0 0 10.0.0.2:5688 10.0.0.1:22 ESTABLISHED 201/ssh\n\
        tcp 0 0 10.0.0.2:9999 10.0.0.1:22 TIME_WAIT 202/ssh\n";
    let mut host = Host::new("box1");
    let lines = lines_of(capture);
    let aborted = parse_netstat_contents(&lines, &mut host);
    assert!(!aborted);
    assert_eq!(host.listening_sockets().len(), 1);
    assert_eq!(host.listening_sockets()[0].port(), 22);
    assert_eq!(host.listening_sockets()[0].ipv6_only(), None);
    assert_eq!(host.connections().len(), 1);
    assert_eq!(host.connections()[0].process().name(), "ssh");
    assert_eq!(*host.connections()[0].process().pid(), 201);
}

#[test]
fn netstat_unbracketed_ipv6_aborts() {
    let capture = "tcp6 0 0 :::80 :::* LISTEN 42/nginx\n";
    let mut host = Host::new("box1");
    let lines = lines_of(capture);
    // The unbracketed IPv6 form of netstat cannot be read back directly; the
    // fallback reads the peer field, which has no port either, so this line
    // ends the parse.
    let aborted = parse_netstat_contents(&lines, &mut host);
    assert!(aborted);
    assert_eq!(host.listening_sockets().len(), 0);
}

#[test]
fn ip_command_output_addresses() {
    let contents = "1: lo: <LOOPBACK,UP,LOWER_UP>\n\
        \x20   inet 127.0.0.1/8 scope host lo\n\
        \x20   inet6 ::1/128 scope host\n\
        2: eth0: <BROADCAST>\n\
        \x20   inet 10.0.0.2/24 brd 10.0.0.255 scope global eth0\n";
    let ips = parse_ip_command_output(contents);
    assert_eq!(ips.len(), 3);
    assert_eq!(ips[0], parse_ip("127.0.0.1").unwrap());
    assert_eq!(ips[1], parse_ip("::1").unwrap());
    assert_eq!(ips[2], parse_ip("10.0.0.2").unwrap());
}

#[test]
fn linux_raw_data_builds_host() {
    let capture = "tcp LISTEN 0 128 0.0.0.0:22 0.0.0.0:* users:((\"sshd\",pid=101,fd=3))\n";
    let raw = LinuxHostRawData::new(
        "box1".to_string(),
        NetworkOutput::Ss(capture.to_string()),
        vec![parse_ip("10.0.0.2").unwrap()],
    );
    let host = raw.into_host();
    assert_eq!(host.name(), "box1");
    // Loopbacks, the address, and its mapped mirror.
    assert_eq!(host.ips().len(), 4);
    assert_eq!(host.listening_sockets().len(), 1);
    assert_eq!(host.listening_sockets()[0].process().name(), "sshd");
}

#[test]
fn file_names_classify() {
    let check = |name: &str, expect: Option<(FileType, &str)>| {
        let got = classify_file_name(name);
        match (got, expect) {
            (None, None) => {},
            (Some((t, h)), Some((et, eh))) => {
                assert_eq!(t, et, "kind of {name}");
                assert_eq!(h.as_str(), eh, "host of {name}");
            },
            (got, expect) => panic!("{name}: got {got:?}, expected {expect:?}"),
        }
    };
    check("web1.ss", Some((FileType::LinuxSs, "web1")));
    check("web1.linux_netstat", Some((FileType::LinuxNetstat, "web1")));
    check("w.windows_netstat", Some((FileType::WindowsNetstat, "w")));
    check("w.windows_ip", Some((FileType::WindowsIp, "w")));
    check("web1.linux_ip", Some((FileType::LinuxIp, "web1")));
    check("w.windows_tasklist", Some((FileType::WindowsTasklist, "w")));
    check("db.nmap_10.0.0.5", Some((FileType::Nmap, "db")));
    check("m_ip.csv", Some((FileType::CsvIp, "m")));
    check("m_network.csv", Some((FileType::CsvNetwork, "m")));
    check("readme.txt", None);
    check("noextension", None);
    check(".bashrc", None);
}

#[test]
fn file_names_group_by_machine() {
    let names = vec![
        "a.ss".to_string(),
        "junk.txt".to_string(),
        "a.linux_ip".to_string(),
        "b.ss".to_string(),
    ];
    let hosts = scan_file_names(&names);
    assert_eq!(hosts.len(), 2);
    assert_eq!(hosts[0].name(), "a");
    assert_eq!(hosts[0].files().len(), 2);
    assert_eq!(hosts[0].files()[0].path(), "a.ss");
    assert_eq!(*hosts[0].files()[1].file_type(), FileType::LinuxIp);
    assert_eq!(hosts[1].name(), "b");
    assert_eq!(hosts[1].files().len(), 1);
}

#[test]
fn windows_tasklist_and_netstat() {
    let tasklist = "\"Image Name\",\"PID\",\"Session Name\"\n\
        \"svchost.exe\",\"1001\",\"Services\"\n\
        \"iexplore.exe\",\"2002\",\"Console\"\n";
    let netstat = "Active Connections\n\
        \x20 Proto Local Address Foreign Address State PID\n\
        \x20 TCP 0.0.0.0:135 0.0.0.0:0 LISTENING 1001\n\
        \x20 TCP 10.0.0.5:50000 10.0.0.1:443 ESTABLISHED 2002\n\
        \x20 TCP 10.0.0.5:50001 10.0.0.1:443 ESTABLISHED 9999\n";
    let raw = WindowsHostRawData::new(
        "winbox".to_string(),
        netstat.to_string(),
        tasklist.to_string(),
        vec![parse_ip("10.0.0.5").unwrap()],
    );
    let host = HostData::WindowsHostData(raw).into_host();
    assert_eq!(host.name(), "winbox");
    assert_eq!(host.listening_sockets().len(), 1);
    assert_eq!(host.listening_sockets()[0].port(), 135);
    assert_eq!(host.listening_sockets()[0].process().name(), "svchost.exe");
    // The pid 9999 connection has no task-list entry and is skipped.
    assert_eq!(host.connections().len(), 1);
    assert_eq!(host.connections()[0].process().name(), "iexplore.exe");
    assert_eq!(*host.connections()[0].process().pid(), 2002);
}

#[test]
fn nmap_contents_build_listeners() {
    let contents = "Starting scan\n\
        PORT STATE SERVICE\n\
        22/tcp open ssh\n\
        80/tcp open http\n\
        53/udp open domain\n\
        8080/sctp open unknown\n";
    let host = Host::from_nmap_contents("scanned", "10.0.0.7", contents).unwrap();
    assert_eq!(host.name(), "scanned");
    assert_eq!(host.listening_sockets().len(), 3);
    assert_eq!(host.listening_sockets()[0].port(), 22);
    assert_eq!(host.listening_sockets()[0].process().name(), "ssh?");
    assert_eq!(*host.listening_sockets()[0].process().pid(), 0);
    assert_eq!(host.listening_sockets()[2].port(), 53);
    assert!(host.ips().iter().any(|i| *i == parse_ip("10.0.0.7").unwrap()));
    assert!(Host::from_nmap_contents("scanned", "not-an-ip", contents).is_err());
}

#[test]
fn csv_records_build_host() {
    let records = vec![
        Record {
            protocol: SocketType::TCP,
            local_socket: "0.0.0.0:443".to_string(),
            foreign_socket: None,
            state: ConState::Listening,
            pid: 10,
            process_name: "nginx".to_string(),
        },
        Record {
            protocol: SocketType::TCP,
            local_socket: "10.0.0.9:5000".to_string(),
            foreign_socket: Some("10.0.0.1:443".to_string()),
            state: ConState::Established,
            pid: 11,
            process_name: "curl".to_string(),
        },
        Record {
            protocol: SocketType::TCP,
            local_socket: "garbage".to_string(),
            foreign_socket: None,
            state: ConState::Listening,
            pid: 12,
            process_name: "broken".to_string(),
        },
    ];
    let host =
        host_from_csv_records("csvbox", &vec!["10.0.0.9".to_string()], &records).unwrap();
    assert_eq!(host.name(), "csvbox");
    assert_eq!(host.listening_sockets().len(), 1);
    assert_eq!(host.listening_sockets()[0].port(), 443);
    assert_eq!(host.connections().len(), 1);
    assert_eq!(host.connections()[0].process().name(), "curl");
    assert!(host_from_csv_records("csvbox", &vec!["bad".to_string()], &records).is_err());
}

#[test]
fn host_builds_are_planned_from_the_scan() {
    let scanned = scan_file_names(&vec![
        "a.ss".to_string(),
        "a.linux_ip".to_string(),
        "b.nmap_10.0.0.5".to_string(),
    ]);
    let plans = plan_host_builds(&scanned).unwrap();
    assert_eq!(plans.len(), 2);
    assert!(matches!(&plans[0], HostPlan::LinuxSs { hostname, .. } if hostname == "a"));
    assert!(matches!(&plans[1], HostPlan::Nmap { hostname, .. } if hostname == "b"));

    let missing = scan_file_names(&vec!["a.ss".to_string()]);
    assert!(matches!(plan_host_builds(&missing), Err(PlanError::MissingIpFile)));

    let mixed = scan_file_names(&vec![
        "a.linux_ip".to_string(),
        "a.windows_netstat".to_string(),
    ]);
    assert!(matches!(plan_host_builds(&mixed), Err(PlanError::MissingTasklistFile)));
}
