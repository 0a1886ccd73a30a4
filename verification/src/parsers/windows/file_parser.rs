//! The files a Windows host's observation is read from.

use vstd::prelude::*;

verus! {

/// The capture files of one Windows host: the network-state file, the
/// address-listing file and the task-list file.
#[derive(Debug, Clone)]
pub struct WindowsHostFiles {
    pub hostname: String,
    pub network_output_file: String,
    pub ip_output_file: String,
    pub tasklist_output_file: String,
}

impl WindowsHostFiles {
    pub fn new(
        hostname: String,
        network_output_file: String,
        ip_output_file: String,
        tasklist_output_file: String,
    ) -> (r: Self)
        ensures
            r.hostname == hostname,
            r.network_output_file == network_output_file,
            r.ip_output_file == ip_output_file,
            r.tasklist_output_file == tasklist_output_file,
    {
        WindowsHostFiles { hostname, network_output_file, ip_output_file, tasklist_output_file }
    }
}

} // verus!
