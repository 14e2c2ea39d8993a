//! The host itself and its notable processes.

use vstd::prelude::*;
use crate::models::{Host, ProcessInfo};
use crate::text::{contains_str, contains_sub, lowercase, to_lowercase, views};

verus! {

/// The process names that mark a well-known component, in report order.
pub open spec fn important_names() -> Seq<Seq<char>> {
    seq![
        "nginx"@,
        "postgres"@,
        "postmaster"@,
        "docker"@,
        "containerd"@,
        "sshd"@,
        "mysqld"@,
        "redis-server"@,
        "mongod"@,
        "node"@,
        "apache2"@,
        "httpd"@,
        "haproxy"@,
    ]
}

fn important_name(i: usize) -> (r: &'static str)
    requires
        i < 13,
    ensures
        r@ == important_names()[i as int],
{
    if i == 0 {
        "nginx"
    } else if i == 1 {
        "postgres"
    } else if i == 2 {
        "postmaster"
    } else if i == 3 {
        "docker"
    } else if i == 4 {
        "containerd"
    } else if i == 5 {
        "sshd"
    } else if i == 6 {
        "mysqld"
    } else if i == 7 {
        "redis-server"
    } else if i == 8 {
        "mongod"
    } else if i == 9 {
        "node"
    } else if i == 10 {
        "apache2"
    } else if i == 11 {
        "httpd"
    } else {
        "haproxy"
    }
}

/// Some process's lowercase name mentions `name`.
pub open spec fn runs_named(processes: Seq<ProcessInfo>, name: Seq<char>) -> bool {
    exists|i: int| 0 <= i < processes.len() && #[trigger] contains_sub(lowercase(processes[i].name@), name)
}

/// The names among `names` that some process runs, in order.
pub open spec fn found_names(names: Seq<Seq<char>>, processes: Seq<ProcessInfo>) -> Seq<Seq<char>>
    decreases names.len(),
{
    if names.len() == 0 {
        Seq::empty()
    } else {
        found_names(names.drop_last(), processes) + if runs_named(processes, names.last()) {
            seq![names.last()]
        } else {
            Seq::empty()
        }
    }
}

fn any_runs(processes: &[ProcessInfo], name: &str) -> (b: bool)
    ensures
        b == runs_named(processes@, name@),
{
    let mut i: usize = 0;
    while i < processes.len()
        invariant
            i <= processes@.len(),
            forall|j: int| 0 <= j < i ==> !#[trigger] contains_sub(lowercase(processes@[j].name@), name@),
        decreases processes@.len() - i,
    {
        let l = to_lowercase(processes[i].name.as_str());
        if contains_str(l.as_str(), name) {
            return true;
        }
        i = i + 1;
    }
    false
}

/// The well-known components that the processes reveal, by name, in the
/// order of `important_names`.
pub fn detect_important_processes(processes: &[ProcessInfo]) -> (found: Vec<String>)
    ensures
        views(found@) == found_names(important_names(), processes@),
{
    let mut found: Vec<String> = Vec::new();
    let mut i: usize = 0;
    assert(important_names().take(0) =~= Seq::<Seq<char>>::empty());
    while i < 13
        invariant
            i <= 13,
            views(found@) =~= found_names(important_names().take(i as int), processes@),
        decreases 13 - i,
    {
        let name = important_name(i);
        assert(important_names().take(i + 1).drop_last() =~= important_names().take(i as int));
        if any_runs(processes, name) {
            found.push(String::from_str(name));
        }
        i = i + 1;
    }
    assert(important_names().take(13) =~= important_names());
    found
}

/// The host record from what the system reports: the host name (`unknown`
/// when unknown), the system name and version joined by a space (`Linux` and
/// the empty text when unknown) and the kernel version (`unknown` when
/// unknown).
pub fn host_from_system(
    hostname: Option<String>,
    system_name: Option<String>,
    os_version: Option<String>,
    kernel: Option<String>,
) -> (h: Host)
    ensures
        h.hostname@ == match hostname {
            Some(s) => s@,
            None => "unknown"@,
        },
        h.os@ == match system_name {
            Some(s) => s@,
            None => "Linux"@,
        } + " "@ + match os_version {
            Some(s) => s@,
            None => Seq::empty(),
        },
        h.kernel@ == match kernel {
            Some(s) => s@,
            None => "unknown"@,
        },
{
    let hostname = match hostname {
        Some(s) => s,
        None => String::from_str("unknown"),
    };
    let mut os = match system_name {
        Some(s) => s,
        None => String::from_str("Linux"),
    };
    os.append(" ");
    match os_version {
        Some(v) => os.append(v.as_str()),
        None => {},
    }
    let kernel = match kernel {
        Some(s) => s,
        None => String::from_str("unknown"),
    };
    Host { hostname, os, kernel }
}

} // verus!
