//! The plain data carried between a collecting agent and the server: the
//! registration record and the raw socket records.

use vstd::prelude::*;

use crate::host;
use crate::net::IpAddr;

verus! {

/// The view of a [`Register`] message.
#[verifier::ext_equal]
pub struct RegisterV {
    pub hostname: Seq<char>,
    pub pretty_name: Option<Seq<char>>,
    pub ip_addresses: Seq<IpAddr>,
}

/// What an agent announces when it connects: its host name, an optional
/// display name, and its addresses.
#[derive(Debug)]
pub struct Register {
    hostname: String,
    pretty_name: Option<String>,
    ip_addresses: Vec<IpAddr>,
}

impl View for Register {
    type V = RegisterV;

    closed spec fn view(&self) -> RegisterV {
        RegisterV {
            hostname: self.hostname@,
            pretty_name: self.pretty_name.deep_view(),
            ip_addresses: self.ip_addresses@,
        }
    }
}

impl Register {
    pub fn new(hostname: String, pretty_name: Option<String>, ip_addresses: Vec<IpAddr>) -> (r:
        Self)
        ensures
            r@ == (RegisterV {
                hostname: hostname@,
                pretty_name: pretty_name.deep_view(),
                ip_addresses: ip_addresses@,
            }),
    {
        Register { hostname, pretty_name, ip_addresses }
    }

    pub fn hostname(&self) -> (r: &str)
        ensures
            r@ == self@.hostname,
    {
        self.hostname.as_str()
    }

    pub fn pretty_name(&self) -> (r: Option<&String>)
        ensures
            match r {
                Some(s) => self@.pretty_name == Some(s@),
                None => self@.pretty_name is None,
            },
    {
        self.pretty_name.as_ref()
    }

    pub fn ip_addresses(&self) -> (r: &Vec<IpAddr>)
        ensures
            r@ == self@.ip_addresses,
    {
        &self.ip_addresses
    }
}

/// A process as an agent reports it: name and pid only.
#[derive(Debug, Clone)]
pub struct Process {
    pub name: String,
    pub pid: u32,
}

/// The view of a [`Socket`] record.
#[verifier::ext_equal]
pub struct SocketV {
    pub socket_str: Seq<char>,
    pub socket_type: host::SocketType,
    pub process: crate::host::ProcessV,
    pub ipv6_only: Option<bool>,
}

/// A socket as an agent reports it: the textual socket address, the
/// protocol, the owning process and the IPv6-only flag.
#[derive(Debug)]
pub struct Socket {
    socket_str: String,
    socket_type: host::SocketType,
    process: host::Process,
    ipv6_only: Option<bool>,
}

impl View for Socket {
    type V = SocketV;

    closed spec fn view(&self) -> SocketV {
        SocketV {
            socket_str: self.socket_str@,
            socket_type: self.socket_type,
            process: self.process@,
            ipv6_only: self.ipv6_only,
        }
    }
}

impl Socket {
    pub fn new(
        socket_str: String,
        socket_type: host::SocketType,
        process: host::Process,
        ipv6_only: Option<bool>,
    ) -> (r: Self)
        ensures
            r@ == (SocketV {
                socket_str: socket_str@,
                socket_type,
                process: process@,
                ipv6_only,
            }),
    {
        Socket { socket_str, socket_type, process, ipv6_only }
    }

    pub fn socket_str(&self) -> (r: &str)
        ensures
            r@ == self@.socket_str,
    {
        self.socket_str.as_str()
    }

    pub fn socket_type(&self) -> (r: &host::SocketType)
        ensures
            *r == self@.socket_type,
    {
        &self.socket_type
    }

    pub fn process(&self) -> (r: &host::Process)
        ensures
            r@ == self@.process,
    {
        &self.process
    }

    pub fn ipv6_only(&self) -> (r: Option<bool>)
        ensures
            r == self@.ipv6_only,
    {
        self.ipv6_only
    }
}

} // verus!
