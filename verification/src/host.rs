//! The data model: processes, listening sockets, established connections and
//! hosts, as observed on one machine.
//!
//! Every type carries a mathematical view (`@`) over which all contracts are
//! stated: strings become `Seq<char>`, vectors become sequences of views.

use vstd::prelude::*;

use crate::net::{v4_mapped_value, IpAddr, SocketAddr};
use crate::text::{dec_str, dec_string, hex_digit, push_char};
use sha1::Digest;

verus! {

/// The SHA-1 digest of the UTF-8 bytes of a character sequence.  Stating the
/// algorithm itself is out of reach; the digest is a function of the text
/// alone, so it only gets a name.
pub uninterp spec fn sha1_digest_of(s: Seq<char>) -> Seq<u8>;

/// Relies on the sha1 crate (`Sha1::new`/`update`/`finalize`): the SHA-1
/// digest of the string's bytes, 20 bytes long, depending on the input alone.
#[verifier::external_body]
fn sha1_digest(s: &str) -> (r: Vec<u8>)
    ensures
        r@ == sha1_digest_of(s@),
        r@.len() == 20,
{
    let mut hasher = sha1::Sha1::new();
    hasher.update(s.as_bytes());
    hasher.finalize().to_vec()
}

/// The lowercase hexadecimal encoding of a byte sequence: two digits per
/// byte, high nibble first.
pub open spec fn hex_lower_of(bytes: Seq<u8>) -> Seq<char>
    decreases bytes.len(),
{
    if bytes.len() == 0 {
        Seq::empty()
    } else {
        seq![hex_digit(bytes[0] as int / 16), hex_digit(bytes[0] as int % 16)] + hex_lower_of(
            bytes.drop_first(),
        )
    }
}

/// Relies on hex::encode: the lowercase hexadecimal form of the bytes, two
/// digits per byte, high nibble first.
#[verifier::external_body]
fn hex_encode(bytes: &Vec<u8>) -> (r: String)
    ensures
        r@ == hex_lower_of(bytes@),
{
    hex::encode(bytes)
}

/// ASCII uppercasing of one byte, as std documents it: `a`..`z` mapped to
/// `A`..`Z`, everything else unchanged.
pub open spec fn upper_byte(b: u8) -> u8 {
    if 97 <= b <= 122 {
        (b - 32) as u8
    } else {
        b
    }
}

pub open spec fn upper_bytes(s: Seq<u8>) -> Seq<u8> {
    s.map_values(|b: u8| upper_byte(b))
}

/// ASCII-uppercase every byte of a vector.
fn upper_bytes_vec(v: &Vec<u8>) -> (r: Vec<u8>)
    ensures
        r@ == upper_bytes(v@),
{
    let mut out: Vec<u8> = Vec::new();
    let mut i: usize = 0;
    while i < v.len()
        invariant
            0 <= i <= v@.len(),
            out@ == upper_bytes(v@.take(i as int)),
        decreases v@.len() - i,
    {
        let b = v[i];
        if 97 <= b && b <= 122 {
            out.push(b - 32);
        } else {
            out.push(b);
        }
        i += 1;
        proof {
            assert(out@ =~= upper_bytes(v@.take(i as int)));
        }
    }
    proof {
        assert(v@.take(v@.len() as int) =~= v@);
    }
    out
}

/// Identifier sanitizing: the characters `.`, `?` and `-`, unsafe for
/// downstream graph identifiers, become `_`.
pub open spec fn sanitize_char(c: char) -> char {
    if c == '.' || c == '?' || c == '-' {
        '_'
    } else {
        c
    }
}

pub open spec fn sanitize(s: Seq<char>) -> Seq<char> {
    s.map_values(|c: char| sanitize_char(c))
}

/// Replace identifier-unsafe characters by underscores.
fn sanitize_str(s: &str) -> (r: String)
    ensures
        r@ == sanitize(s@),
{
    let len = s.unicode_len();
    let mut out = String::new();
    let mut i: usize = 0;
    while i < len
        invariant
            0 <= i <= len,
            len == s@.len(),
            out@ == sanitize(s@.take(i as int)),
        decreases len - i,
    {
        let c = s.get_char(i);
        if c == '.' || c == '?' || c == '-' {
            push_char(&mut out, '_');
        } else {
            push_char(&mut out, c);
        }
        i += 1;
        proof {
            assert(out@ =~= sanitize(s@.take(i as int)));
        }
    }
    proof {
        assert(s@.take(len as int) =~= s@);
    }
    out
}

/// The transport protocol of a socket.
#[derive(Clone, Copy, PartialEq, Eq, Structural, Debug)]
pub enum SocketType {
    TCP,
    UDP,
    UNIX,
}

/// The view of a [`Process`].
#[verifier::ext_equal]
pub struct ProcessV {
    pub name: Seq<char>,
    pub pid: u32,
    pub node_id: Seq<char>,
}

/// The stable node identifier of a process: host name and process name,
/// joined by an underscore and sanitized.
pub open spec fn process_node_id(host_name: Seq<char>, name: Seq<char>) -> Seq<char> {
    sanitize(host_name + seq!['_'] + name)
}

/// A process that sockets and connections are attributed to.
#[derive(Debug)]
pub struct Process {
    name: String,
    pid: u32,
    node_id: String,
}

impl View for Process {
    type V = ProcessV;

    closed spec fn view(&self) -> ProcessV {
        ProcessV { name: self.name@, pid: self.pid, node_id: self.node_id@ }
    }
}

impl DeepView for Process {
    type V = ProcessV;

    open spec fn deep_view(&self) -> ProcessV {
        self@
    }
}

impl Clone for Process {
    fn clone(&self) -> (res: Self)
        ensures
            res == *self,
    {
        Process { name: self.name.clone(), pid: self.pid, node_id: self.node_id.clone() }
    }
}

impl Process {
    /// A process on the named host; the node identifier is derived once from
    /// the host and process names.
    pub fn new(name: &str, pid: u32, host_name: String) -> (r: Self)
        ensures
            r@.name == name@,
            r@.pid == pid,
            r@.node_id == process_node_id(host_name@, name@),
    {
        let ghost host_name_chars = host_name@;
        let mut joined = host_name;
        joined.append("_");
        joined.append(name);
        proof {
            reveal_strlit("_");
            assert(joined@ =~= host_name_chars + seq!['_'] + name@);
        }
        let node_id = sanitize_str(joined.as_str());
        Process { name: String::from_str(name), pid, node_id }
    }

    /// Get a reference to the process's pid.
    pub fn pid(&self) -> (r: &u32)
        ensures
            *r == self@.pid,
    {
        &self.pid
    }

    /// Get a reference to the process's node id.
    pub fn node_id(&self) -> (r: &str)
        ensures
            r@ == self@.node_id,
    {
        self.node_id.as_str()
    }

    /// Get a reference to the process's name.
    pub fn name(&self) -> (r: &str)
        ensures
            r@ == self@.name,
    {
        self.name.as_str()
    }
}

/// The view of a [`ListeningSocket`].
#[verifier::ext_equal]
pub struct ListeningSocketV {
    pub socket: SocketAddr,
    pub socket_type: SocketType,
    pub process: ProcessV,
    pub node_name: Seq<char>,
    pub node_id: Seq<char>,
    pub ipv6_only: Option<bool>,
}

/// The protocol part of a listening socket's node label.
pub open spec fn proto_label(t: SocketType) -> Seq<char> {
    match t {
        SocketType::TCP => seq!['t', 'c', 'p'],
        SocketType::UDP => seq!['u', 'd', 'p'],
        SocketType::UNIX => seq!['u', 'n', 'i', 'x'],
    }
}

/// The address-family part of a listening socket's node label: `4/6` for a
/// dual-stack socket, otherwise the socket's own family.
pub open spec fn ip_version_label(socket: SocketAddr, ipv6_only: Option<bool>) -> Seq<char> {
    let ver = if socket.ip is V4 {
        seq!['4']
    } else {
        seq!['6']
    };
    match ipv6_only {
        Some(b) => if !b {
            seq!['4', '/', '6']
        } else {
            ver
        },
        None => ver,
    }
}

/// The human-readable node label of a listening socket.
pub open spec fn listen_node_name(
    pname: Seq<char>,
    t: SocketType,
    socket: SocketAddr,
    ipv6_only: Option<bool>,
) -> Seq<char> {
    pname + seq!['\n'] + proto_label(t) + ip_version_label(socket, ipv6_only) + seq![':']
        + dec_str(socket.port as int)
}

/// The text hashed into a listening socket's node identifier.
pub open spec fn listen_node_id_text(host_name: Seq<char>, pname: Seq<char>, port: u16) -> Seq<
    char,
> {
    host_name + seq!['_'] + pname + seq!['_'] + dec_str(port as int)
}

/// The stable node identifier of a listening socket: a letter followed by
/// the hex form of the ASCII-uppercased SHA-1 digest of the identifying text.
pub open spec fn listen_node_id(host_name: Seq<char>, pname: Seq<char>, port: u16) -> Seq<char> {
    seq!['a'] + hex_lower_of(upper_bytes(sha1_digest_of(listen_node_id_text(host_name, pname, port))))
}

/// A socket bound and accepting connections, owned by exactly one process.
#[derive(Debug)]
pub struct ListeningSocket {
    socket: SocketAddr,
    socket_type: SocketType,
    process: Process,
    node_name: String,
    node_id: String,
    /// `None` for IPv4 sockets; for IPv6 sockets, whether only IPv6 peers
    /// are accepted (`Some(true)`) or IPv4-mapped peers too (`Some(false)`).
    ipv6_only: Option<bool>,
}

impl View for ListeningSocket {
    type V = ListeningSocketV;

    closed spec fn view(&self) -> ListeningSocketV {
        ListeningSocketV {
            socket: self.socket,
            socket_type: self.socket_type,
            process: self.process@,
            node_name: self.node_name@,
            node_id: self.node_id@,
            ipv6_only: self.ipv6_only,
        }
    }
}

impl DeepView for ListeningSocket {
    type V = ListeningSocketV;

    open spec fn deep_view(&self) -> ListeningSocketV {
        self@
    }
}

impl Clone for ListeningSocket {
    fn clone(&self) -> (res: Self)
        ensures
            res == *self,
    {
        ListeningSocket {
            socket: self.socket,
            socket_type: self.socket_type,
            process: self.process.clone(),
            node_name: self.node_name.clone(),
            node_id: self.node_id.clone(),
            ipv6_only: self.ipv6_only,
        }
    }
}

impl ListeningSocket {
    /// A listening socket with its derived node label and node identifier.
    pub fn new(
        socket: SocketAddr,
        socket_type: SocketType,
        process: Process,
        host_name: String,
        ipv6_only: Option<bool>,
    ) -> (r: Self)
        ensures
            r@ == (ListeningSocketV {
                socket,
                socket_type,
                process: process@,
                node_name: listen_node_name(process@.name, socket_type, socket, ipv6_only),
                node_id: listen_node_id(host_name@, process@.name, socket.port),
                ipv6_only,
            }),
    {
        let mut node_name = String::from_str(process.name());
        node_name.append("\n");
        match socket_type {
            SocketType::TCP => node_name.append("tcp"),
            SocketType::UDP => node_name.append("udp"),
            SocketType::UNIX => node_name.append("unix"),
        }
        let dual = match ipv6_only {
            Some(b) => !b,
            None => false,
        };
        if dual {
            node_name.append("4/6");
        } else if socket.is_ipv4() {
            node_name.append("4");
        } else {
            node_name.append("6");
        }
        node_name.append(":");
        let port_str = dec_string(socket.port() as u64);
        node_name.append(port_str.as_str());
        proof {
            reveal_strlit("\n");
            reveal_strlit("tcp");
            reveal_strlit("udp");
            reveal_strlit("unix");
            reveal_strlit("4/6");
            reveal_strlit("4");
            reveal_strlit("6");
            reveal_strlit(":");
            assert(node_name@ =~= listen_node_name(
                process@.name,
                socket_type,
                socket,
                ipv6_only,
            ));
        }

        let ghost host_name_chars = host_name@;
        let mut id_text = host_name;
        id_text.append("_");
        id_text.append(process.name());
        id_text.append("_");
        id_text.append(port_str.as_str());
        proof {
            reveal_strlit("_");
        }
        let digest = sha1_digest(id_text.as_str());
        let upper = upper_bytes_vec(&digest);
        let hex = hex_encode(&upper);
        let mut node_id = String::from_str("a");
        node_id.append(hex.as_str());
        proof {
            reveal_strlit("a");
            assert(id_text@ =~= listen_node_id_text(host_name_chars, process@.name, socket.port));
            assert(node_id@ =~= listen_node_id(host_name_chars, process@.name, socket.port));
        }

        ListeningSocket { socket, socket_type, process, node_name, node_id, ipv6_only }
    }

    /// Get the listening socket's IP address.
    pub fn ip_addr(&self) -> (r: IpAddr)
        ensures
            r == self@.socket.ip,
    {
        self.socket.ip()
    }

    /// Get the listening socket's port.
    pub fn port(&self) -> (r: u16)
        ensures
            r == self@.socket.port,
    {
        self.socket.port()
    }

    /// Get a reference to the listening socket's node name.
    pub fn node_name(&self) -> (r: &str)
        ensures
            r@ == self@.node_name,
    {
        self.node_name.as_str()
    }

    /// Get a reference to the listening socket's socket type.
    pub fn socket_type(&self) -> (r: &SocketType)
        ensures
            *r == self@.socket_type,
    {
        &self.socket_type
    }

    /// Get a reference to the listening socket's node id.
    pub fn node_id(&self) -> (r: &str)
        ensures
            r@ == self@.node_id,
    {
        self.node_id.as_str()
    }

    /// Returns true if this socket is bound to a loopback address.
    pub fn is_loopback(&self) -> (r: bool)
        ensures
            r == self@.socket.ip.is_loopback_spec(),
    {
        self.socket.ip().is_loopback()
    }

    /// Get a reference to the listening socket's process.
    pub fn process(&self) -> (r: &Process)
        ensures
            r@ == self@.process,
    {
        &self.process
    }

    /// Get a reference to the listening socket's socket address.
    pub fn socket(&self) -> (r: &SocketAddr)
        ensures
            *r == self@.socket,
    {
        &self.socket
    }

    /// Get a reference to the listening socket's ipv6-only flag.
    pub fn ipv6_only(&self) -> (r: Option<&bool>)
        ensures
            match r {
                Some(b) => self@.ipv6_only == Some(*b),
                None => self@.ipv6_only is None,
            },
    {
        self.ipv6_only.as_ref()
    }
}

/// The view of a [`Connection`].
#[verifier::ext_equal]
pub struct ConnectionV {
    pub socket_type: SocketType,
    pub local_socket: SocketAddr,
    pub peer_socket: SocketAddr,
    pub process: ProcessV,
}

/// One observed endpoint of an established conversation: the local socket,
/// the peer socket, and the owning process on the observing host.
#[derive(Debug)]
pub struct Connection {
    socket_type: SocketType,
    local_socket: SocketAddr,
    peer_socket: SocketAddr,
    process: Process,
}

impl View for Connection {
    type V = ConnectionV;

    closed spec fn view(&self) -> ConnectionV {
        ConnectionV {
            socket_type: self.socket_type,
            local_socket: self.local_socket,
            peer_socket: self.peer_socket,
            process: self.process@,
        }
    }
}

impl DeepView for Connection {
    type V = ConnectionV;

    open spec fn deep_view(&self) -> ConnectionV {
        self@
    }
}

impl Clone for Connection {
    fn clone(&self) -> (res: Self)
        ensures
            res == *self,
    {
        Connection {
            socket_type: self.socket_type,
            local_socket: self.local_socket,
            peer_socket: self.peer_socket,
            process: self.process.clone(),
        }
    }
}

impl Connection {
    pub fn new(
        local_socket: SocketAddr,
        peer_socket: SocketAddr,
        socket_type: SocketType,
        process: Process,
    ) -> (r: Self)
        ensures
            r@ == (ConnectionV { socket_type, local_socket, peer_socket, process: process@ }),
    {
        Connection { socket_type, local_socket, peer_socket, process }
    }

    /// Get a reference to the connection's socket type.
    pub fn socket_type(&self) -> (r: &SocketType)
        ensures
            *r == self@.socket_type,
    {
        &self.socket_type
    }

    /// Get a reference to the connection's local socket.
    pub fn local_socket(&self) -> (r: &SocketAddr)
        ensures
            *r == self@.local_socket,
    {
        &self.local_socket
    }

    /// Get a reference to the connection's peer socket.
    pub fn peer_socket(&self) -> (r: &SocketAddr)
        ensures
            *r == self@.peer_socket,
    {
        &self.peer_socket
    }

    /// Get a reference to the connection's process.
    pub fn process(&self) -> (r: &Process)
        ensures
            r@ == self@.process,
    {
        &self.process
    }
}

/// The view of a [`Host`].
#[verifier::ext_equal]
pub struct HostV {
    pub name: Seq<char>,
    pub cluster_id: Seq<char>,
    pub listening_sockets: Seq<ListeningSocketV>,
    pub connections: Seq<ConnectionV>,
    pub ips: Seq<IpAddr>,
}

/// Dashes replaced by underscores, for cluster identifiers.
pub open spec fn dash_to_underscore(s: Seq<char>) -> Seq<char> {
    s.map_values(
        |c: char|
            if c == '-' {
                '_'
            } else {
                c
            },
    )
}

/// The cluster identifier of a host.
pub open spec fn cluster_id_of(name: Seq<char>) -> Seq<char> {
    dash_to_underscore(seq!['c', 'l', 'u', 's', 't', 'e', 'r', '_'] + name)
}

/// A host: its name, IP addresses, listening sockets and established
/// connections.  The address list always holds both loopback addresses, and
/// every IPv4 address is mirrored by its IPv4-mapped IPv6 form, so that peer
/// addresses written in either form compare equal to a host address.
#[derive(Debug)]
pub struct Host {
    name: String,
    cluster_id: String,
    listening_sockets: Vec<ListeningSocket>,
    connections: Vec<Connection>,
    ips: Vec<IpAddr>,
}

impl View for Host {
    type V = HostV;

    closed spec fn view(&self) -> HostV {
        HostV {
            name: self.name@,
            cluster_id: self.cluster_id@,
            listening_sockets: self.listening_sockets.deep_view(),
            connections: self.connections.deep_view(),
            ips: self.ips@,
        }
    }
}

impl DeepView for Host {
    type V = HostV;

    open spec fn deep_view(&self) -> HostV {
        self@
    }
}

impl Clone for Host {
    fn clone(&self) -> (res: Self)
        ensures
            res@ == self@,
    {
        let mut listening_sockets: Vec<ListeningSocket> = Vec::new();
        let mut i: usize = 0;
        while i < self.listening_sockets.len()
            invariant
                0 <= i <= self.listening_sockets@.len(),
                listening_sockets.deep_view() == self.listening_sockets.deep_view().take(i as int),
            decreases self.listening_sockets@.len() - i,
        {
            let ghost prev = listening_sockets.deep_view();
            let elem = self.listening_sockets[i].clone();
            proof {
                assert(elem@ == self.listening_sockets@[i as int]@);
            }
            listening_sockets.push(elem);
            i += 1;
            proof {
                assert(listening_sockets.deep_view() =~= prev.push(
                    self.listening_sockets@[i as int - 1]@,
                ));
                assert(listening_sockets.deep_view() =~= self.listening_sockets.deep_view().take(
                    i as int,
                ));
            }
        }
        let mut connections: Vec<Connection> = Vec::new();
        let mut j: usize = 0;
        while j < self.connections.len()
            invariant
                0 <= j <= self.connections@.len(),
                connections.deep_view() == self.connections.deep_view().take(j as int),
            decreases self.connections@.len() - j,
        {
            let ghost prev = connections.deep_view();
            let elem = self.connections[j].clone();
            proof {
                assert(elem@ == self.connections@[j as int]@);
            }
            connections.push(elem);
            j += 1;
            proof {
                assert(connections.deep_view() =~= prev.push(self.connections@[j as int - 1]@));
                assert(connections.deep_view() =~= self.connections.deep_view().take(j as int));
            }
        }
        let mut ips: Vec<IpAddr> = Vec::new();
        let mut k: usize = 0;
        while k < self.ips.len()
            invariant
                0 <= k <= self.ips@.len(),
                ips@ == self.ips@.take(k as int),
            decreases self.ips@.len() - k,
        {
            ips.push(self.ips[k]);
            k += 1;
            proof {
                assert(ips@ =~= self.ips@.take(k as int));
            }
        }
        proof {
            assert(listening_sockets.deep_view() =~= self.listening_sockets.deep_view());
            assert(connections.deep_view() =~= self.connections.deep_view());
            assert(ips@ =~= self.ips@);
        }
        let res = Host {
            name: self.name.clone(),
            cluster_id: self.cluster_id.clone(),
            listening_sockets,
            connections,
            ips,
        };
        proof {
            assert(res@ =~= self@);
        }
        res
    }
}

impl Host {
    /// A fresh host: no sockets, no connections, and the two loopback
    /// addresses already present.
    pub fn new(name: &str) -> (r: Self)
        ensures
            r@.name == name@,
            r@.cluster_id == cluster_id_of(name@),
            r@.listening_sockets == Seq::<ListeningSocketV>::empty(),
            r@.connections == Seq::<ConnectionV>::empty(),
            r@.ips == seq![IpAddr::V4(0x7f00_0001u32), IpAddr::V6(1u128)],
    {
        let mut prefixed = String::from_str("cluster_");
        prefixed.append(name);
        proof {
            reveal_strlit("cluster_");
            assert(prefixed@ =~= seq!['c', 'l', 'u', 's', 't', 'e', 'r', '_'] + name@);
        }
        let len = prefixed.as_str().unicode_len();
        let mut cluster_id = String::new();
        let mut i: usize = 0;
        while i < len
            invariant
                0 <= i <= len,
                len == prefixed@.len(),
                cluster_id@ == dash_to_underscore(prefixed@.take(i as int)),
            decreases len - i,
        {
            let c = prefixed.as_str().get_char(i);
            if c == '-' {
                push_char(&mut cluster_id, '_');
            } else {
                push_char(&mut cluster_id, c);
            }
            i += 1;
            proof {
                assert(cluster_id@ =~= dash_to_underscore(prefixed@.take(i as int)));
            }
        }
        proof {
            assert(prefixed@.take(len as int) =~= prefixed@);
        }
        let mut ips: Vec<IpAddr> = Vec::new();
        ips.push(IpAddr::V4(0x7f00_0001));
        ips.push(IpAddr::V6(1));
        let r = Host {
            name: String::from_str(name),
            cluster_id,
            listening_sockets: Vec::new(),
            connections: Vec::new(),
            ips,
        };
        proof {
            assert(r@.ips =~= seq![IpAddr::V4(0x7f00_0001u32), IpAddr::V6(1u128)]);
            assert(r@.listening_sockets =~= Seq::<ListeningSocketV>::empty());
            assert(r@.connections =~= Seq::<ConnectionV>::empty());
        }
        r
    }

    /// Record one more listening socket.
    pub fn add_listening_socket(&mut self, s: ListeningSocket)
        ensures
            final(self)@ == (HostV {
                listening_sockets: old(self)@.listening_sockets.push(s@),
                ..old(self)@
            }),
    {
        self.listening_sockets.push(s);
        proof {
            assert(self.listening_sockets.deep_view() =~= old(self)@.listening_sockets.push(s@));
            assert(self@ =~= (HostV {
                listening_sockets: old(self)@.listening_sockets.push(s@),
                ..old(self)@
            }));
        }
    }

    /// Record one more established connection.
    pub fn add_established_connection(&mut self, c: Connection)
        ensures
            final(self)@ == (HostV { connections: old(self)@.connections.push(c@), ..old(self)@ }),
    {
        self.connections.push(c);
        proof {
            assert(self.connections.deep_view() =~= old(self)@.connections.push(c@));
            assert(self@ =~= (HostV { connections: old(self)@.connections.push(c@), ..old(self)@ }));
        }
    }

    /// Record one more address.  An IPv4 address is mirrored at once by its
    /// IPv4-mapped IPv6 form, so that peers observed in the mapped notation
    /// still match this host.
    pub fn add_ip(&mut self, ip: IpAddr)
        ensures
            final(self)@ == (HostV { ips: old(self)@.ips + added_ips(ip), ..old(self)@ }),
    {
        self.ips.push(ip);
        if let IpAddr::V4(n) = ip {
            let mapped = ip.to_v6_mapped();
            self.ips.push(mapped);
        }
        proof {
            assert(self.ips@ =~= old(self)@.ips + added_ips(ip));
            assert(self@ =~= (HostV { ips: old(self)@.ips + added_ips(ip), ..old(self)@ }));
        }
    }

    /// Get a reference to the host's listening sockets.
    pub fn listening_sockets(&self) -> (r: &Vec<ListeningSocket>)
        ensures
            r.deep_view() == self@.listening_sockets,
    {
        &self.listening_sockets
    }

    /// Mutable access to the host's listening sockets.
    pub fn listening_sockets_mut(&mut self) -> (r: &mut Vec<ListeningSocket>)
        ensures
            old(self)@.listening_sockets == r.deep_view(),
            final(self)@ == (HostV { listening_sockets: final(r).deep_view(), ..old(self)@ }),
    {
        &mut self.listening_sockets
    }

    /// Get a reference to the host's name.
    pub fn name(&self) -> (r: &str)
        ensures
            r@ == self@.name,
    {
        self.name.as_str()
    }

    /// Get a reference to the host's connections.
    pub fn connections(&self) -> (r: &Vec<Connection>)
        ensures
            r.deep_view() == self@.connections,
    {
        &self.connections
    }

    /// Mutable access to the host's connections.
    pub fn connections_mut(&mut self) -> (r: &mut Vec<Connection>)
        ensures
            old(self)@.connections == r.deep_view(),
            final(self)@ == (HostV { connections: final(r).deep_view(), ..old(self)@ }),
    {
        &mut self.connections
    }

    /// Get a reference to the host's addresses.
    pub fn ips(&self) -> (r: &Vec<IpAddr>)
        ensures
            r@ == self@.ips,
    {
        &self.ips
    }

    /// Get a reference to the host's cluster id.
    pub fn cluster_id(&self) -> (r: &str)
        ensures
            r@ == self@.cluster_id,
    {
        self.cluster_id.as_str()
    }

    /// Keep only the connections whose process name fails to start with at
    /// least one of the given prefixes.
    pub fn exclude_processes(&mut self, pattern: &Vec<String>)
        ensures
            final(self)@ == (HostV {
                connections: old(self)@.connections.filter(
                    |c: ConnectionV| keeps_process(pattern.deep_view(), c),
                ),
                ..old(self)@
            }),
    {
        let mut kept: Vec<Connection> = Vec::new();
        let mut i: usize = 0;
        proof {
            assert(self@.connections.take(0) =~= Seq::<ConnectionV>::empty());
            assert(Seq::<ConnectionV>::empty().filter(
                |c: ConnectionV| keeps_process(pattern.deep_view(), c),
            ) =~= Seq::<ConnectionV>::empty());
            assert(kept.deep_view() =~= Seq::<ConnectionV>::empty());
        }
        while i < self.connections.len()
            invariant
                0 <= i <= self.connections@.len(),
                kept.deep_view() == self.connections.deep_view().take(i as int).filter(
                    |c: ConnectionV| keeps_process(pattern.deep_view(), c),
                ),
            decreases self.connections@.len() - i,
        {
            let ghost pref = self.connections.deep_view().take(i as int);
            let c = &self.connections[i];
            let keep = name_escapes_patterns(c.process().name(), pattern);
            if keep {
                kept.push(c.clone());
            }
            i += 1;
            proof {
                let f = |cv: ConnectionV| keeps_process(pattern.deep_view(), cv);
                assert(self.connections.deep_view().take(i as int) =~= pref.push(c@));
                reveal_with_fuel(Seq::filter, 2);
                seq_filter_push(pref, c@, f);
                assert(kept.deep_view() =~= pref.push(c@).filter(f));
            }
        }
        proof {
            assert(self.connections.deep_view().take(self.connections@.len() as int)
                =~= self.connections.deep_view());
        }
        self.connections = kept;
        proof {
            assert(self@ =~= (HostV {
                connections: old(self)@.connections.filter(
                    |c: ConnectionV| keeps_process(pattern.deep_view(), c),
                ),
                ..old(self)@
            }));
        }
    }
}

/// The addresses that recording one address adds to a host: the address, and
/// for IPv4 also its mapped form.
pub open spec fn added_ips(ip: IpAddr) -> Seq<IpAddr> {
    match ip {
        IpAddr::V4(n) => seq![ip, IpAddr::V6(v4_mapped_value(n))],
        IpAddr::V6(_) => seq![ip],
    }
}

/// A connection survives process exclusion when its process name fails to
/// start with at least one of the prefixes.
pub open spec fn keeps_process(pattern: Seq<Seq<char>>, c: ConnectionV) -> bool {
    exists|k: int| 0 <= k < pattern.len() && !(#[trigger] pattern[k]).is_prefix_of(c.process.name)
}

/// Filtering one pushed element.
proof fn seq_filter_push<A>(s: Seq<A>, x: A, f: spec_fn(A) -> bool)
    ensures
        s.push(x).filter(f) == if f(x) {
            s.filter(f).push(x)
        } else {
            s.filter(f)
        },
{
    reveal_with_fuel(Seq::filter, 2);
    assert(s.push(x).drop_last() =~= s);
    assert(s.push(x).last() == x);
}

/// Whether the name fails to start with at least one of the prefixes.
fn name_escapes_patterns(name: &str, pattern: &Vec<String>) -> (r: bool)
    ensures
        r == (exists|k: int|
            0 <= k < pattern.deep_view().len() && !(#[trigger] pattern.deep_view()[k]).is_prefix_of(
                name@,
            )),
{
    let mut k: usize = 0;
    while k < pattern.len()
        invariant
            0 <= k <= pattern@.len(),
            forall|j: int|
                0 <= j < k ==> (#[trigger] pattern.deep_view()[j]).is_prefix_of(name@),
        decreases pattern@.len() - k,
    {
        if !str_starts_with(name, pattern[k].as_str()) {
            assert(!pattern.deep_view()[k as int].is_prefix_of(name@));
            return true;
        }
        k += 1;
    }
    false
}

/// Character-prefix test.
pub fn str_starts_with(s: &str, prefix: &str) -> (r: bool)
    ensures
        r == prefix@.is_prefix_of(s@),
{
    let plen = prefix.unicode_len();
    let slen = s.unicode_len();
    if plen > slen {
        return false;
    }
    let mut i: usize = 0;
    while i < plen
        invariant
            0 <= i <= plen,
            plen == prefix@.len(),
            slen == s@.len(),
            plen <= slen,
            forall|k: int| 0 <= k < i ==> prefix@[k] == s@[k],
        decreases plen - i,
    {
        if prefix.get_char(i) != s.get_char(i) {
            assert(!prefix@.is_prefix_of(s@));
            return false;
        }
        i += 1;
    }
    proof {
        assert(prefix@ =~= s@.subrange(0, plen as int));
    }
    true
}

} // verus!
