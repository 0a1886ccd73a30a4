//! Classification of capture files by their names.  A capture directory
//! holds files named `<machine_name>.<file_type>`; the scanner groups them
//! by machine.  Listing the directory is the caller's business: the logic
//! here works on plain file names.

use vstd::prelude::*;

verus! {

/// What kind of capture a file holds, read off its name.
#[derive(Debug, Clone, Copy, PartialEq, Eq, Structural)]
pub enum FileType {
    LinuxIp,
    WindowsIp,
    LinuxNetstat,
    WindowsNetstat,
    WindowsTasklist,
    LinuxSs,
    Nmap,
    CsvIp,
    CsvNetwork,
}

/// One capture file: its path and its kind.
#[derive(Debug, Clone)]
pub struct File {
    path: String,
    file_type: FileType,
}

impl View for File {
    type V = FileV;

    closed spec fn view(&self) -> FileV {
        FileV { path: self.path@, file_type: self.file_type }
    }
}

impl DeepView for File {
    type V = FileV;

    open spec fn deep_view(&self) -> FileV {
        self@
    }
}

/// The view of a [`File`].
#[verifier::ext_equal]
pub struct FileV {
    pub path: Seq<char>,
    pub file_type: FileType,
}

impl File {
    pub fn new(path: String, file_type: FileType) -> (r: Self)
        ensures
            r@ == (FileV { path: path@, file_type }),
    {
        File { path, file_type }
    }

    /// Get a reference to the file's file type.
    pub fn file_type(&self) -> (r: &FileType)
        ensures
            *r == self@.file_type,
    {
        &self.file_type
    }

    /// Get a reference to the file's path.
    pub fn path(&self) -> (r: &str)
        ensures
            r@ == self@.path,
    {
        self.path.as_str()
    }
}

/// The view of a [`ScannedHost`].
#[verifier::ext_equal]
pub struct ScannedHostV {
    pub name: Seq<char>,
    pub files: Seq<FileV>,
}

/// One machine found while scanning: its name and its capture files.
#[derive(Debug, Clone)]
pub struct ScannedHost {
    name: String,
    files: Vec<File>,
}

impl View for ScannedHost {
    type V = ScannedHostV;

    closed spec fn view(&self) -> ScannedHostV {
        ScannedHostV { name: self.name@, files: self.files.deep_view() }
    }
}

impl DeepView for ScannedHost {
    type V = ScannedHostV;

    open spec fn deep_view(&self) -> ScannedHostV {
        self@
    }
}

impl ScannedHost {
    pub fn new(name: String) -> (r: Self)
        ensures
            r@.name == name@,
            r@.files == Seq::<FileV>::empty(),
    {
        let r = ScannedHost { name, files: Vec::new() };
        proof {
            assert(r@.files =~= Seq::<FileV>::empty());
        }
        r
    }

    /// Record one more capture file of this machine.
    pub fn add_file(&mut self, file: File)
        ensures
            final(self)@.name == old(self)@.name,
            final(self)@.files == old(self)@.files.push(file@),
    {
        let ghost fv = file@;
        self.files.push(file);
        proof {
            assert(self@.files =~= old(self)@.files.push(fv));
        }
    }

    /// Get a reference to the scanned host's name.
    pub fn name(&self) -> (r: &str)
        ensures
            r@ == self@.name,
    {
        self.name.as_str()
    }

    /// Get a reference to the scanned host's files.
    pub fn files(&self) -> (r: &Vec<File>)
        ensures
            r.deep_view() == self@.files,
    {
        &self.files
    }
}

} // verus!
verus! {

/// A suffix test.
pub fn str_ends_with(s: &str, suffix: &str) -> (r: bool)
    ensures
        r == suffix@.is_suffix_of(s@),
{
    let len = s.unicode_len();
    let suflen = suffix.unicode_len();
    if suflen > len {
        return false;
    }
    let tail = s.substring_char(len - suflen, len);
    proof {
        assert(tail@ == s@.subrange(s@.len() - suffix@.len(), s@.len() as int));
    }
    crate::text::str_eq(tail, suffix)
}

/// What a capture file's name says about it: its kind, and the machine name
/// it belongs to.
///
/// The name must carry an extension (text after a last dot that is not the
/// first character).  The fixed extensions name their kind directly and the
/// machine is the stem.  A name whose text after the first dot starts with
/// `nmap_` is a port-scan capture for the machine named before that dot.  A
/// `csv` file whose stem ends in `_network` or `_ip` is a hand-written
/// capture for the machine named by the stem without that marker.
pub open spec fn classify_name(name: Seq<char>) -> Option<(FileType, Seq<char>)> {
    match crate::net::rfind_upto(name, name.len() as int, '.') {
        None => None,
        Some(k) => {
            if k == 0 {
                None
            } else {
                let ext = name.skip(k + 1);
                let stem = name.take(k);
                if ext == "ss"@ {
                    Some((FileType::LinuxSs, stem))
                } else if ext == "linux_netstat"@ {
                    Some((FileType::LinuxNetstat, stem))
                } else if ext == "windows_netstat"@ {
                    Some((FileType::WindowsNetstat, stem))
                } else if ext == "windows_ip"@ {
                    Some((FileType::WindowsIp, stem))
                } else if ext == "linux_ip"@ {
                    Some((FileType::LinuxIp, stem))
                } else if ext == "windows_tasklist"@ {
                    Some((FileType::WindowsTasklist, stem))
                } else {
                    let f = crate::text::find_from(name, '.', 0);
                    if "nmap_"@.is_prefix_of(name.skip(f + 1)) {
                        Some((FileType::Nmap, name.take(f)))
                    } else if ext == "csv"@ && "_network"@.is_suffix_of(stem) {
                        Some((FileType::CsvNetwork, stem.take(stem.len() - 8)))
                    } else if ext == "csv"@ && "_ip"@.is_suffix_of(stem) {
                        Some((FileType::CsvIp, stem.take(stem.len() - 3)))
                    } else {
                        None
                    }
                }
            }
        },
    }
}

/// Classify one file name.
pub fn classify_file_name(name: &str) -> (r: Option<(FileType, String)>)
    ensures
        match r {
            Some(th) => classify_name(name@) == Some((th.0, th.1@)),
            None => classify_name(name@) is None,
        },
{
    proof {
        reveal_strlit("ss");
        reveal_strlit("linux_netstat");
        reveal_strlit("windows_netstat");
        reveal_strlit("windows_ip");
        reveal_strlit("linux_ip");
        reveal_strlit("windows_tasklist");
        reveal_strlit("nmap_");
        reveal_strlit("csv");
        reveal_strlit("_network");
        reveal_strlit("_ip");
    }
    let len = name.unicode_len();
    let mut last_dot: Option<usize> = None;
    let mut k: usize = 0;
    while k < len
        invariant
            0 <= k <= len,
            len == name@.len(),
            match last_dot {
                Some(f) => crate::net::rfind_upto(name@, k as int, '.') == Some(f as int) && f
                    < len,
                None => crate::net::rfind_upto(name@, k as int, '.') is None,
            },
        decreases len - k,
    {
        if name.get_char(k) == '.' {
            last_dot = Some(k);
        }
        k += 1;
    }
    let k = match last_dot {
        Some(k) => k,
        None => {
            return None;
        },
    };
    if k == 0 {
        return None;
    }
    let ext = name.substring_char(k + 1, len);
    let stem = name.substring_char(0, k);
    proof {
        assert(ext@ =~= name@.skip(k as int + 1));
        assert(stem@ =~= name@.take(k as int));
    }
    if crate::text::str_eq(ext, "ss") {
        Some((FileType::LinuxSs, String::from_str(stem)))
    } else if crate::text::str_eq(ext, "linux_netstat") {
        Some((FileType::LinuxNetstat, String::from_str(stem)))
    } else if crate::text::str_eq(ext, "windows_netstat") {
        Some((FileType::WindowsNetstat, String::from_str(stem)))
    } else if crate::text::str_eq(ext, "windows_ip") {
        Some((FileType::WindowsIp, String::from_str(stem)))
    } else if crate::text::str_eq(ext, "linux_ip") {
        Some((FileType::LinuxIp, String::from_str(stem)))
    } else if crate::text::str_eq(ext, "windows_tasklist") {
        Some((FileType::WindowsTasklist, String::from_str(stem)))
    } else {
        let mut f: usize = 0;
        while f < len && name.get_char(f) != '.'
            invariant
                0 <= f <= len,
                len == name@.len(),
                crate::text::find_from(name@, '.', 0) == crate::text::find_from(name@, '.', f as int),
            decreases len - f,
        {
            f += 1;
        }
        proof {
            crate::net::lemma_rfind_upto(name@, name@.len() as int, '.');
            assert(name@[k as int] == '.');
            crate::text::lemma_find_from(name@, '.', 0);
            assert(crate::text::find_from(name@, '.', 0) <= k as int);
            assert(f < len);
        }
        let after = name.substring_char(f + 1, len);
        proof {
            assert(after@ =~= name@.skip(f as int + 1));
        }
        if crate::host::str_starts_with(after, "nmap_") {
            let hostname = name.substring_char(0, f);
            proof {
                assert(hostname@ =~= name@.take(f as int));
            }
            Some((FileType::Nmap, String::from_str(hostname)))
        } else if crate::text::str_eq(ext, "csv") && str_ends_with(stem, "_network") {
            let slen = stem.unicode_len();
            let hostname = stem.substring_char(0, slen - 8);
            proof {
                assert(hostname@ =~= name@.take(k as int).take(name@.take(k as int).len() - 8));
            }
            Some((FileType::CsvNetwork, String::from_str(hostname)))
        } else if crate::text::str_eq(ext, "csv") && str_ends_with(stem, "_ip") {
            let slen = stem.unicode_len();
            let hostname = stem.substring_char(0, slen - 3);
            proof {
                assert(hostname@ =~= name@.take(k as int).take(name@.take(k as int).len() - 3));
            }
            Some((FileType::CsvIp, String::from_str(hostname)))
        } else {
            None
        }
    }
}

/// The first group with the given machine name, or the group count.
pub open spec fn group_index_from(groups: Seq<ScannedHostV>, name: Seq<char>, k: int) -> int
    decreases groups.len() - k,
{
    if k < 0 || k >= groups.len() {
        groups.len() as int
    } else if groups[k].name == name {
        k
    } else {
        group_index_from(groups, name, k + 1)
    }
}

/// One classified file recorded into the machine groups: appended to its
/// machine's group, or opening a new group at the end.
pub open spec fn add_group(groups: Seq<ScannedHostV>, name: Seq<char>, f: FileV) -> Seq<
    ScannedHostV,
> {
    let k = group_index_from(groups, name, 0);
    if k == groups.len() {
        groups.push(ScannedHostV { name, files: seq![f] })
    } else {
        groups.update(k, ScannedHostV { name, files: groups[k].files.push(f) })
    }
}

/// The machine groups after scanning the first `upto` file names.
pub open spec fn scan_groups(names: Seq<Seq<char>>, upto: int) -> Seq<ScannedHostV>
    decreases upto,
{
    if upto <= 0 {
        Seq::empty()
    } else {
        let prev = scan_groups(names, upto - 1);
        match classify_name(names[upto - 1]) {
            None => prev,
            Some(th) => add_group(prev, th.1, FileV { path: names[upto - 1], file_type: th.0 }),
        }
    }
}

proof fn lemma_group_index(groups: Seq<ScannedHostV>, name: Seq<char>, k: int)
    requires
        0 <= k <= groups.len(),
    ensures
        k <= group_index_from(groups, name, k) <= groups.len(),
        group_index_from(groups, name, k) < groups.len() ==> groups[group_index_from(
            groups,
            name,
            k,
        )].name == name,
        forall|j: int| k <= j < group_index_from(groups, name, k) ==> groups[j].name != name,
    decreases groups.len() - k,
{
    if k < groups.len() && groups[k].name != name {
        lemma_group_index(groups, name, k + 1);
    }
}

/// Group a directory's file names by the machine they capture, in order of
/// first appearance; unrecognized names are skipped.
pub fn scan_file_names(names: &Vec<String>) -> (r: Vec<ScannedHost>)
    ensures
        r.deep_view() == scan_groups(names.deep_view(), names@.len() as int),
{
    let ghost nv = names.deep_view();
    let mut groups: Vec<ScannedHost> = Vec::new();
    let mut i: usize = 0;
    proof {
        assert(groups.deep_view() =~= scan_groups(nv, 0));
    }
    while i < names.len()
        invariant
            0 <= i <= nv.len(),
            nv == names.deep_view(),
            groups.deep_view() == scan_groups(nv, i as int),
        decreases nv.len() - i,
    {
        proof {
            assert(names@[i as int]@ == nv[i as int]);
        }
        match classify_file_name(names[i].as_str()) {
            None => {},
            Some(th) => {
                let (file_type, hostname) = th;
                let file = File::new(names[i].clone(), file_type);
                let ghost gv = groups.deep_view();
                let ghost fvv = file@;
                let mut k: usize = 0;
                let glen = groups.len();
                while k < glen && !crate::text::str_eq(groups[k].name(), hostname.as_str())
                    invariant
                        0 <= k <= glen,
                        glen == groups@.len(),
                        gv == groups.deep_view(),
                        group_index_from(gv, hostname@, 0) == group_index_from(gv, hostname@, k as int),
                    decreases glen - k,
                {
                    proof {
                        assert(groups@[k as int]@ == gv[k as int]);
                    }
                    k += 1;
                }
                proof {
                    if k < glen {
                        assert(groups@[k as int]@ == gv[k as int]);
                        assert(group_index_from(gv, hostname@, 0) == k as int);
                    } else {
                        assert(group_index_from(gv, hostname@, 0) == gv.len());
                    }
                }
                if k < glen {
                    let g = &mut groups[k];
                    g.add_file(file);
                    proof {
                        assert(groups.deep_view() =~= gv.update(
                            k as int,
                            ScannedHostV { name: hostname@, files: gv[k as int].files.push(fvv) },
                        ));
                        assert(gv[k as int].name == hostname@);
                    }
                } else {
                    let mut g = ScannedHost::new(hostname);
                    g.add_file(file);
                    let ghost new_gv = g@;
                    groups.push(g);
                    proof {
                        assert(new_gv.files =~= seq![fvv]);
                        assert(groups.deep_view() =~= gv.push(new_gv));
                    }
                }
            },
        }
        i += 1;
        proof {
            assert(groups.deep_view() =~= scan_groups(nv, i as int));
        }
    }
    groups
}

} // verus!
verus! {

/// How one scanned machine's host is to be built: which capture files to
/// read, by platform.
#[derive(Debug, Clone)]
pub enum HostPlan {
    LinuxSs { hostname: String, network_file: String, ip_file: String },
    LinuxNetstat { hostname: String, network_file: String, ip_file: String },
    Windows { hostname: String, network_file: String, ip_file: String, tasklist_file: String },
    Nmap { hostname: String, ip_file: String },
    Csv { hostname: String, network_file: String, ip_file: String },
}

/// The view of a [`HostPlan`].
#[verifier::ext_equal]
pub enum HostPlanV {
    LinuxSs { hostname: Seq<char>, network_file: Seq<char>, ip_file: Seq<char> },
    LinuxNetstat { hostname: Seq<char>, network_file: Seq<char>, ip_file: Seq<char> },
    Windows {
        hostname: Seq<char>,
        network_file: Seq<char>,
        ip_file: Seq<char>,
        tasklist_file: Seq<char>,
    },
    Nmap { hostname: Seq<char>, ip_file: Seq<char> },
    Csv { hostname: Seq<char>, network_file: Seq<char>, ip_file: Seq<char> },
}

impl View for HostPlan {
    type V = HostPlanV;

    open spec fn view(&self) -> HostPlanV {
        match self {
            HostPlan::LinuxSs { hostname, network_file, ip_file } => HostPlanV::LinuxSs {
                hostname: hostname@,
                network_file: network_file@,
                ip_file: ip_file@,
            },
            HostPlan::LinuxNetstat { hostname, network_file, ip_file } => HostPlanV::LinuxNetstat {
                hostname: hostname@,
                network_file: network_file@,
                ip_file: ip_file@,
            },
            HostPlan::Windows { hostname, network_file, ip_file, tasklist_file } => {
                HostPlanV::Windows {
                    hostname: hostname@,
                    network_file: network_file@,
                    ip_file: ip_file@,
                    tasklist_file: tasklist_file@,
                }
            },
            HostPlan::Nmap { hostname, ip_file } => HostPlanV::Nmap {
                hostname: hostname@,
                ip_file: ip_file@,
            },
            HostPlan::Csv { hostname, network_file, ip_file } => HostPlanV::Csv {
                hostname: hostname@,
                network_file: network_file@,
                ip_file: ip_file@,
            },
        }
    }
}

impl DeepView for HostPlan {
    type V = HostPlanV;

    open spec fn deep_view(&self) -> HostPlanV {
        self@
    }
}

/// Why no build plan could be made.
#[derive(Debug, Clone, Copy, PartialEq, Eq, Structural)]
pub enum PlanError {
    /// A machine has no address-listing capture.
    MissingIpFile,
    /// A machine has no network-state capture.
    MissingNetworkFile,
    /// A Windows machine has no task-list capture.
    MissingTasklistFile,
    /// A machine mixes captures of different platforms.
    WrongAssociation,
}

/// Does a capture of this kind name the machine's addresses?
pub open spec fn is_ip_kind(t: FileType) -> bool {
    t is LinuxIp || t is WindowsIp || t is Nmap || t is CsvIp
}

/// Does a capture of this kind name the machine's sockets?
pub open spec fn is_network_kind(t: FileType) -> bool {
    t is LinuxNetstat || t is WindowsNetstat || t is LinuxSs || t is Nmap || t is CsvNetwork
}

/// The last capture file of the class, which is the one a scan settles on.
pub open spec fn last_of_kind(files: Seq<FileV>, want_ip: bool, upto: int) -> Option<FileV>
    decreases upto,
{
    if upto <= 0 {
        None
    } else if (want_ip && is_ip_kind(files[upto - 1].file_type)) || (!want_ip && is_network_kind(
        files[upto - 1].file_type,
    )) {
        Some(files[upto - 1])
    } else {
        last_of_kind(files, want_ip, upto - 1)
    }
}

/// The last task-list capture.
pub open spec fn last_tasklist(files: Seq<FileV>, upto: int) -> Option<FileV>
    decreases upto,
{
    if upto <= 0 {
        None
    } else if files[upto - 1].file_type is WindowsTasklist {
        Some(files[upto - 1])
    } else {
        last_tasklist(files, upto - 1)
    }
}

/// The plan one scanned machine yields: a plan, nothing (a capture kind this
/// pipeline cannot build from), or an error.
pub open spec fn plan_for(h: ScannedHostV) -> Result<Option<HostPlanV>, PlanError> {
    let n = h.files.len() as int;
    match (last_of_kind(h.files, true, n), last_of_kind(h.files, false, n)) {
        (None, _) => Err(PlanError::MissingIpFile),
        (_, None) => Err(PlanError::MissingNetworkFile),
        (Some(ip_file), Some(net_file)) => {
            if net_file.file_type is WindowsNetstat && last_tasklist(h.files, n) is None {
                Err(PlanError::MissingTasklistFile)
            } else {
                match ip_file.file_type {
                    FileType::LinuxIp => match net_file.file_type {
                        FileType::LinuxNetstat => Ok(
                            Some(
                                HostPlanV::LinuxNetstat {
                                    hostname: h.name,
                                    network_file: net_file.path,
                                    ip_file: ip_file.path,
                                },
                            ),
                        ),
                        FileType::LinuxSs => Ok(
                            Some(
                                HostPlanV::LinuxSs {
                                    hostname: h.name,
                                    network_file: net_file.path,
                                    ip_file: ip_file.path,
                                },
                            ),
                        ),
                        FileType::WindowsNetstat => Err(PlanError::WrongAssociation),
                        _ => Ok(None),
                    },
                    FileType::WindowsIp => match last_tasklist(h.files, n) {
                        Some(tl) => Ok(
                            Some(
                                HostPlanV::Windows {
                                    hostname: h.name,
                                    network_file: net_file.path,
                                    ip_file: ip_file.path,
                                    tasklist_file: tl.path,
                                },
                            ),
                        ),
                        None => Err(PlanError::MissingTasklistFile),
                    },
                    FileType::Nmap => Ok(
                        Some(HostPlanV::Nmap { hostname: h.name, ip_file: ip_file.path }),
                    ),
                    FileType::CsvIp => Ok(
                        Some(
                            HostPlanV::Csv {
                                hostname: h.name,
                                network_file: net_file.path,
                                ip_file: ip_file.path,
                            },
                        ),
                    ),
                    _ => Ok(None),
                }
            }
        },
    }
}

/// The plans of the first `upto` machines, stopping at the first error.
pub open spec fn plans_for(scanned: Seq<ScannedHostV>, upto: int) -> Result<
    Seq<HostPlanV>,
    PlanError,
>
    decreases upto,
{
    if upto <= 0 {
        Ok(Seq::empty())
    } else {
        match plans_for(scanned, upto - 1) {
            Err(e) => Err(e),
            Ok(prev) => match plan_for(scanned[upto - 1]) {
                Err(e) => Err(e),
                Ok(None) => Ok(prev),
                Ok(Some(p)) => Ok(prev.push(p)),
            },
        }
    }
}

/// Select the capture files of one machine.
fn plan_one(h: &ScannedHost) -> (r: Result<Option<HostPlan>, PlanError>)
    ensures
        match r {
            Ok(Some(p)) => plan_for(h@) == Ok::<Option<HostPlanV>, PlanError>(Some(p@)),
            Ok(None) => plan_for(h@) == Ok::<Option<HostPlanV>, PlanError>(
                None::<HostPlanV>,
            ),
            Err(e) => plan_for(h@) == Err::<Option<HostPlanV>, PlanError>(e),
        },
{
    let files = h.files();
    let ghost fv = h@.files;
    let n = files.len();
    let mut ip_idx: Option<usize> = None;
    let mut net_idx: Option<usize> = None;
    let mut tl_idx: Option<usize> = None;
    let mut i: usize = 0;
    while i < n
        invariant
            0 <= i <= n,
            n == fv.len(),
            files.deep_view() == fv,
            match ip_idx {
                Some(k) => k < i && last_of_kind(fv, true, i as int) == Some(fv[k as int]),
                None => last_of_kind(fv, true, i as int) is None,
            },
            match net_idx {
                Some(k) => k < i && last_of_kind(fv, false, i as int) == Some(fv[k as int]),
                None => last_of_kind(fv, false, i as int) is None,
            },
            match tl_idx {
                Some(k) => k < i && last_tasklist(fv, i as int) == Some(fv[k as int]),
                None => last_tasklist(fv, i as int) is None,
            },
        decreases n - i,
    {
        proof {
            assert(files@[i as int]@ == fv[i as int]);
        }
        match files[i].file_type() {
            FileType::LinuxIp => ip_idx = Some(i),
            FileType::WindowsIp => ip_idx = Some(i),
            FileType::LinuxNetstat => net_idx = Some(i),
            FileType::WindowsNetstat => net_idx = Some(i),
            FileType::LinuxSs => net_idx = Some(i),
            FileType::WindowsTasklist => tl_idx = Some(i),
            FileType::Nmap => {
                ip_idx = Some(i);
                net_idx = Some(i);
            },
            FileType::CsvIp => ip_idx = Some(i),
            FileType::CsvNetwork => net_idx = Some(i),
        }
        i += 1;
    }
    let ip_i = match ip_idx {
        Some(k) => k,
        None => {
            return Err(PlanError::MissingIpFile);
        },
    };
    let net_i = match net_idx {
        Some(k) => k,
        None => {
            return Err(PlanError::MissingNetworkFile);
        },
    };
    proof {
        assert(files@[ip_i as int]@ == fv[ip_i as int]);
        assert(files@[net_i as int]@ == fv[net_i as int]);
        if tl_idx is Some {
            assert(files@[tl_idx->0 as int]@ == fv[tl_idx->0 as int]);
        }
    }
    let ip_file = &files[ip_i];
    let net_file = &files[net_i];
    let net_is_windows = matches!(net_file.file_type(), FileType::WindowsNetstat);
    if net_is_windows && tl_idx.is_none() {
        return Err(PlanError::MissingTasklistFile);
    }
    let hostname = String::from_str(h.name());
    match ip_file.file_type() {
        FileType::LinuxIp => match net_file.file_type() {
            FileType::LinuxNetstat => Ok(
                Some(
                    HostPlan::LinuxNetstat {
                        hostname,
                        network_file: String::from_str(net_file.path()),
                        ip_file: String::from_str(ip_file.path()),
                    },
                ),
            ),
            FileType::LinuxSs => Ok(
                Some(
                    HostPlan::LinuxSs {
                        hostname,
                        network_file: String::from_str(net_file.path()),
                        ip_file: String::from_str(ip_file.path()),
                    },
                ),
            ),
            FileType::WindowsNetstat => Err(PlanError::WrongAssociation),
            _ => Ok(None),
        },
        FileType::WindowsIp => match tl_idx {
            Some(tl_i) => {
                let tl_file = &files[tl_i];
                Ok(
                    Some(
                        HostPlan::Windows {
                            hostname,
                            network_file: String::from_str(net_file.path()),
                            ip_file: String::from_str(ip_file.path()),
                            tasklist_file: String::from_str(tl_file.path()),
                        },
                    ),
                )
            },
            None => Err(PlanError::MissingTasklistFile),
        },
        FileType::Nmap => Ok(
            Some(HostPlan::Nmap { hostname, ip_file: String::from_str(ip_file.path()) }),
        ),
        FileType::CsvIp => Ok(
            Some(
                HostPlan::Csv {
                    hostname,
                    network_file: String::from_str(net_file.path()),
                    ip_file: String::from_str(ip_file.path()),
                },
            ),
        ),
        _ => Ok(None),
    }
}

/// Decide, for every scanned machine, which capture files its host is to be
/// built from.  Machines whose captures this pipeline cannot build from are
/// skipped; an incomplete machine is an error, as in every capture the
/// address and socket files belong together.
pub fn plan_host_builds(scanned: &Vec<ScannedHost>) -> (r: Result<Vec<HostPlan>, PlanError>)
    ensures
        match r {
            Ok(plans) => plans_for(scanned.deep_view(), scanned@.len() as int) == Ok::<
                Seq<HostPlanV>,
                PlanError,
            >(plans.deep_view()),
            Err(e) => plans_for(scanned.deep_view(), scanned@.len() as int) == Err::<
                Seq<HostPlanV>,
                PlanError,
            >(e),
        },
{
    let ghost sv = scanned.deep_view();
    let mut plans: Vec<HostPlan> = Vec::new();
    let mut i: usize = 0;
    proof {
        assert(plans.deep_view() =~= Seq::<HostPlanV>::empty());
    }
    while i < scanned.len()
        invariant
            0 <= i <= sv.len(),
            sv == scanned.deep_view(),
            plans_for(sv, i as int) == Ok::<Seq<HostPlanV>, PlanError>(plans.deep_view()),
        decreases sv.len() - i,
    {
        proof {
            assert(scanned@[i as int]@ == sv[i as int]);
        }
        match plan_one(&scanned[i]) {
            Ok(Some(p)) => {
                let ghost prev = plans.deep_view();
                let ghost pv = p@;
                plans.push(p);
                proof {
                    assert(plans.deep_view() =~= prev.push(pv));
                }
            },
            Ok(None) => {},
            Err(e) => {
                proof {
                    lemma_plans_err(sv, i + 1, sv.len() as int);
                }
                return Err(e);
            },
        }
        i += 1;
    }
    Ok(plans)
}

/// Once erred, planning stays erred.
proof fn lemma_plans_err(scanned: Seq<ScannedHostV>, i: int, j: int)
    requires
        0 <= i <= j,
        plans_for(scanned, i) is Err,
    ensures
        plans_for(scanned, j) == plans_for(scanned, i),
    decreases j - i,
{
    if i < j {
        lemma_plans_err(scanned, i, j - 1);
    }
}

} // verus!
