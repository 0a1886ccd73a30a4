//! The files a Linux host's observation is read from.  Reading is the
//! caller's business; the types here only name the files and which command
//! produced them.

use vstd::prelude::*;

verus! {

/// The path of a network-state capture, by the command that produced it.
#[derive(Debug, Clone)]
pub enum NetworkOutputFile {
    Ss(String),
    Netstat(String),
}

/// The capture files of one Linux host: a network-state file and the output
/// of the address-listing command.
#[derive(Debug, Clone)]
pub struct LinuxHostFiles {
    pub hostname: String,
    pub network_output_file: NetworkOutputFile,
    pub ip_output_file: String,
}

impl LinuxHostFiles {
    pub fn new(hostname: String, network_output_file: NetworkOutputFile, ip_output_file: String)
        -> (r: Self)
        ensures
            r.hostname == hostname,
            r.network_output_file == network_output_file,
            r.ip_output_file == ip_output_file,
    {
        LinuxHostFiles { hostname, network_output_file, ip_output_file }
    }
}

} // verus!
