//! What the collector decides between its readings: which units and
//! containers a process or a socket belongs to, and when the static analysis
//! is to be repeated.

use vstd::prelude::*;
use crate::models::{
    network_connections_view, opt_view, units_view, NetworkConnection, NetworkConnectionView,
    SystemdUnit, SystemdUnitView,
};
use crate::text::{chars_eq, chars_of, string_of, trim, trim_chars};

verus! {

/// What the collector gathers.
pub struct CollectorConfig {
    /// Directory under which container definitions are looked for.
    pub root_path: String,
    pub collect_logs: bool,
    pub collect_metrics: bool,
    pub collect_network: bool,
    pub collect_processes: bool,
    pub detailed_scan: bool,
}

/// What the collector knows of a running process.
pub struct ProcessRecord {
    pub pid: i32,
    pub name: String,
    /// Full path of its executable.
    pub executable: String,
    pub container_id: Option<String>,
    pub systemd_unit: Option<String>,
}

/// The mathematical content of a [`ProcessRecord`].
pub struct ProcessRecordView {
    pub pid: i32,
    pub name: Seq<char>,
    pub executable: Seq<char>,
    pub container_id: Option<Seq<char>>,
    pub systemd_unit: Option<Seq<char>>,
}

impl View for ProcessRecord {
    type V = ProcessRecordView;

    open spec fn view(&self) -> ProcessRecordView {
        ProcessRecordView {
            pid: self.pid,
            name: self.name@,
            executable: self.executable@,
            container_id: opt_view(self.container_id),
            systemd_unit: opt_view(self.systemd_unit),
        }
    }
}

/// The views of a sequence of processes.
pub open spec fn processes_view(v: Seq<ProcessRecord>) -> Seq<ProcessRecordView> {
    v.map_values(|p: ProcessRecord| p@)
}

/// The name of the first of the units from `i` on that starts `executable`.
pub open spec fn unit_for_executable(units: Seq<SystemdUnitView>, executable: Seq<char>, i: int) -> Option<
    Seq<char>,
>
    decreases units.len() - i,
{
    if i < 0 || i >= units.len() {
        None
    } else if units[i].exec_path == Some(executable) {
        Some(units[i].name)
    } else {
        unit_for_executable(units, executable, i + 1)
    }
}

/// The first of the processes from `i` on with the given id.
pub open spec fn process_with_pid(ps: Seq<ProcessRecordView>, pid: i32, i: int) -> Option<
    ProcessRecordView,
>
    decreases ps.len() - i,
{
    if i < 0 || i >= ps.len() {
        None
    } else if ps[i].pid == pid {
        Some(ps[i])
    } else {
        process_with_pid(ps, pid, i + 1)
    }
}

/// The first entry of the table from `i` on for the given id.
pub open spec fn table_entry(table: Seq<(i32, Seq<char>)>, pid: i32, i: int) -> Option<Seq<char>>
    decreases table.len() - i,
{
    if i < 0 || i >= table.len() {
        None
    } else if table[i].0 == pid {
        Some(table[i].1)
    } else {
        table_entry(table, pid, i + 1)
    }
}

/// The systemd unit that starts the executable of a process: the name of
/// the first of the known units whose executable is the same path.
pub fn find_unit_for_process(services: &Vec<SystemdUnit>, executable: &str) -> (r: Option<String>)
    ensures
        opt_view(r) == unit_for_executable(units_view(services@), executable@, 0),
{
    let ghost uv = units_view(services@);
    let exe = chars_of(executable);
    let mut i: usize = 0;
    while i < services.len()
        invariant
            uv == units_view(services@),
            exe@ == executable@,
            i <= services@.len(),
            unit_for_executable(uv, executable@, 0) == unit_for_executable(
                uv,
                executable@,
                i as int,
            ),
        decreases services@.len() - i,
    {
        assert(uv[i as int] == services@[i as int]@);
        match &services[i].exec_path {
            Some(path) => {
                if chars_eq(&chars_of(path.as_str()), &exe) {
                    let name = services[i].name.clone();
                    assert(name@ == uv[i as int].name);
                    return Some(name);
                }
            },
            None => {},
        }
        i = i + 1;
    }
    None
}

/// The name of a process known by its id: from the processes already
/// collected, else from what `/proc/<pid>/comm` holds, trimmed.
pub open spec fn process_name_for(
    ps: Seq<ProcessRecordView>,
    comm: Seq<(i32, Seq<char>)>,
    pid: i32,
) -> Option<Seq<char>> {
    match process_with_pid(ps, pid, 0) {
        Some(p) => Some(p.name),
        None => match table_entry(comm, pid, 0) {
            Some(c) => Some(trim(c)),
            None => None,
        },
    }
}

/// The views of a table of process ids and texts.
pub open spec fn table_view(t: Seq<(i32, String)>) -> Seq<(i32, Seq<char>)> {
    t.map_values(|e: (i32, String)| (e.0, e.1@))
}

/// The first process with the given id.
fn find_process(processes: &Vec<ProcessRecord>, pid: i32) -> (r: Option<usize>)
    ensures
        match r {
            Some(i) => i < processes@.len() && process_with_pid(processes_view(processes@), pid, 0)
                == Some(processes@[i as int]@),
            None => process_with_pid(processes_view(processes@), pid, 0) is None,
        },
{
    let ghost pv = processes_view(processes@);
    let mut i: usize = 0;
    while i < processes.len()
        invariant
            pv == processes_view(processes@),
            i <= processes@.len(),
            process_with_pid(pv, pid, 0) == process_with_pid(pv, pid, i as int),
        decreases processes@.len() - i,
    {
        assert(pv[i as int] == processes@[i as int]@);
        if processes[i].pid == pid {
            return Some(i);
        }
        i = i + 1;
    }
    None
}

/// The name of a process known by its id, from the processes already
/// collected or from the contents of `/proc/<pid>/comm` that `comm` lists.
pub fn find_process_name_by_pid(
    processes: &Vec<ProcessRecord>,
    comm: &Vec<(i32, String)>,
    pid: i32,
) -> (r: Option<String>)
    ensures
        opt_view(r) == process_name_for(processes_view(processes@), table_view(comm@), pid),
{
    match find_process(processes, pid) {
        Some(i) => Some(processes[i].name.clone()),
        None => {
            let ghost tv = table_view(comm@);
            let mut j: usize = 0;
            while j < comm.len()
                invariant
                    tv == table_view(comm@),
                    process_with_pid(processes_view(processes@), pid, 0) is None,
                    j <= comm@.len(),
                    table_entry(tv, pid, 0) == table_entry(tv, pid, j as int),
                decreases comm@.len() - j,
            {
                assert(tv[j as int] == (comm@[j as int].0, comm@[j as int].1@));
                if comm[j].0 == pid {
                    let c = chars_of(comm[j].1.as_str());
                    assert(table_entry(tv, pid, j as int) == Some(c@));
                    return Some(string_of(&trim_chars(&c)));
                }
                j = j + 1;
            }
            None
        },
    }
}

/// The container of a process known by its id: that of the first process
/// already collected with this id.
pub fn find_container_by_pid(processes: &Vec<ProcessRecord>, pid: i32) -> (r: Option<String>)
    ensures
        opt_view(r) == match process_with_pid(processes_view(processes@), pid, 0) {
            Some(p) => p.container_id,
            None => None,
        },
{
    match find_process(processes, pid) {
        Some(i) => match &processes[i].container_id {
            Some(c) => Some(c.clone()),
            None => None,
        },
        None => None,
    }
}

/// A connection completed with what is known of its process: where it has a
/// process id, a missing process name is looked up, and a missing container
/// is that of the process.
pub open spec fn enriched_connection(
    c: NetworkConnectionView,
    ps: Seq<ProcessRecordView>,
    comm: Seq<(i32, Seq<char>)>,
) -> NetworkConnectionView {
    match c.pid {
        Some(pid) => NetworkConnectionView {
            process_name: if c.process_name is None {
                process_name_for(ps, comm, pid)
            } else {
                c.process_name
            },
            container_id: if c.container_id is None {
                match process_with_pid(ps, pid, 0) {
                    Some(p) => p.container_id,
                    None => None,
                }
            } else {
                c.container_id
            },
            ..c
        },
        None => c,
    }
}

/// Completes one connection with what is known of its process.
fn enrich_connection(
    c: NetworkConnection,
    processes: &Vec<ProcessRecord>,
    comm: &Vec<(i32, String)>,
) -> (r: NetworkConnection)
    ensures
        r@ == enriched_connection(c@, processes_view(processes@), table_view(comm@)),
{
    let mut c = c;
    match c.pid {
        Some(pid) => {
            if c.process_name.is_none() {
                c.process_name = find_process_name_by_pid(processes, comm, pid);
            }
            if c.container_id.is_none() {
                c.container_id = find_container_by_pid(processes, pid);
            }
        },
        None => {},
    }
    c
}

/// Completes each connection with what is known of its process; `comm`
/// lists what `/proc/<pid>/comm` holds for process ids that the collected
/// processes do not include.
pub fn enrich_network_data(
    connections: Vec<NetworkConnection>,
    processes: &Vec<ProcessRecord>,
    comm: &Vec<(i32, String)>,
) -> (r: Vec<NetworkConnection>)
    ensures
        network_connections_view(r@) == network_connections_view(connections@).map_values(
            |c: NetworkConnectionView|
                enriched_connection(c, processes_view(processes@), table_view(comm@)),
        ),
{
    let ghost all = connections@;
    let n = connections.len();
    let mut pending = connections;
    let mut reversed: Vec<NetworkConnection> = Vec::new();
    while pending.len() > 0
        invariant
            n == all.len(),
            pending@.len() + reversed@.len() == n,
            pending@ == all.take(pending@.len() as int),
            forall|k: int| 0 <= k < reversed@.len() ==> #[trigger] reversed@[k] == all[n - 1 - k],
        decreases pending@.len(),
    {
        let ghost before = pending@;
        let c = pending.pop().unwrap();
        assert(c == all[before.len() - 1]);
        assert(pending@ =~= all.take(pending@.len() as int));
        reversed.push(c);
    }
    let ghost target = network_connections_view(all).map_values(
        |c: NetworkConnectionView|
            enriched_connection(c, processes_view(processes@), table_view(comm@)),
    );
    let mut r: Vec<NetworkConnection> = Vec::new();
    while reversed.len() > 0
        invariant
            n == all.len(),
            r@.len() + reversed@.len() == n,
            forall|k: int| 0 <= k < reversed@.len() ==> #[trigger] reversed@[k] == all[n - 1 - k],
            target == network_connections_view(all).map_values(
                |c: NetworkConnectionView|
                    enriched_connection(c, processes_view(processes@), table_view(comm@)),
            ),
            network_connections_view(r@) == target.take(r@.len() as int),
        decreases reversed@.len(),
    {
        let ghost j: int = r@.len() as int;
        let ghost before = reversed@;
        let c = reversed.pop().unwrap();
        assert(c == before[before.len() - 1]);
        assert(c == all[j]);
        assert(forall|k: int| 0 <= k < reversed@.len() ==> reversed@[k] == before[k]);
        let e = enrich_connection(c, processes, comm);
        let ghost old_r = r@;
        r.push(e);
        assert(network_connections_view(r@) =~= network_connections_view(old_r).push(e@));
        assert(target.take(j + 1) =~= target.take(j).push(target[j]));
    }
    assert(target.take(n as int) =~= target);
    r
}

/// A process completed with what is known of it: no container is recorded
/// for it, and its unit is the one that starts its executable.
pub open spec fn enriched_process(p: ProcessRecordView, units: Seq<SystemdUnitView>) -> ProcessRecordView {
    ProcessRecordView {
        container_id: None,
        systemd_unit: unit_for_executable(units, p.executable, 0),
        ..p
    }
}

/// Completes each process with the unit that starts it.
pub fn enrich_process_data(processes: Vec<ProcessRecord>, services: &Vec<SystemdUnit>) -> (r: Vec<
    ProcessRecord,
>)
    ensures
        processes_view(r@) == processes_view(processes@).map_values(
            |p: ProcessRecordView| enriched_process(p, units_view(services@)),
        ),
{
    let ghost all = processes@;
    let n = processes.len();
    let mut pending = processes;
    let mut reversed: Vec<ProcessRecord> = Vec::new();
    while pending.len() > 0
        invariant
            n == all.len(),
            pending@.len() + reversed@.len() == n,
            pending@ == all.take(pending@.len() as int),
            forall|k: int| 0 <= k < reversed@.len() ==> #[trigger] reversed@[k] == all[n - 1 - k],
        decreases pending@.len(),
    {
        let ghost before = pending@;
        let p = pending.pop().unwrap();
        assert(p == all[before.len() - 1]);
        assert(pending@ =~= all.take(pending@.len() as int));
        reversed.push(p);
    }
    let ghost target = processes_view(all).map_values(
        |p: ProcessRecordView| enriched_process(p, units_view(services@)),
    );
    let mut r: Vec<ProcessRecord> = Vec::new();
    while reversed.len() > 0
        invariant
            n == all.len(),
            r@.len() + reversed@.len() == n,
            forall|k: int| 0 <= k < reversed@.len() ==> #[trigger] reversed@[k] == all[n - 1 - k],
            target == processes_view(all).map_values(
                |p: ProcessRecordView| enriched_process(p, units_view(services@)),
            ),
            processes_view(r@) == target.take(r@.len() as int),
        decreases reversed@.len(),
    {
        let ghost j: int = r@.len() as int;
        let ghost before = reversed@;
        let mut p = reversed.pop().unwrap();
        assert(p == before[before.len() - 1]);
        assert(p == all[j]);
        assert(forall|k: int| 0 <= k < reversed@.len() ==> reversed@[k] == before[k]);
        p.container_id = None;
        p.systemd_unit = find_unit_for_process(services, p.executable.as_str());
        let ghost old_r = r@;
        r.push(p);
        assert(processes_view(r@) =~= processes_view(old_r).push(r@[j]@));
        assert(target.take(j + 1) =~= target.take(j).push(target[j]));
    }
    assert(target.take(n as int) =~= target);
    r
}

/// Completing a connection keeps what was already known of it, changes
/// nothing else than its process name and container, and completing it a
/// second time changes nothing more.
pub proof fn law_enrichment_keeps_known_fields(
    c: NetworkConnectionView,
    ps: Seq<ProcessRecordView>,
    comm: Seq<(i32, Seq<char>)>,
)
    ensures
        c.process_name is Some ==> enriched_connection(c, ps, comm).process_name == c.process_name,
        c.container_id is Some ==> enriched_connection(c, ps, comm).container_id == c.container_id,
        enriched_connection(c, ps, comm).pid == c.pid,
        enriched_connection(c, ps, comm).local_address == c.local_address,
        enriched_connection(c, ps, comm).remote_address == c.remote_address,
        enriched_connection(c, ps, comm).local_port == c.local_port,
        enriched_connection(c, ps, comm).remote_port == c.remote_port,
        enriched_connection(enriched_connection(c, ps, comm), ps, comm) == enriched_connection(
            c,
            ps,
            comm,
        ),
{
}

/// Completing a process a second time changes nothing more.
pub proof fn law_process_enrichment_idempotent(p: ProcessRecordView, units: Seq<SystemdUnitView>)
    ensures
        enriched_process(enriched_process(p, units), units) == enriched_process(p, units),
        enriched_process(p, units).pid == p.pid,
        enriched_process(p, units).executable == p.executable,
{
}

/// Whether the static analysis is to be repeated: more than fifteen minutes
/// have passed since the last one (`secs` seconds and `nanos` nanoseconds).
pub fn static_refresh_due(secs: u64, nanos: u32) -> (r: bool)
    requires
        nanos < 1_000_000_000,
    ensures
        r == (secs * 1_000_000_000 + nanos > 900 * 1_000_000_000int),
{
    let r = secs > 900 || (secs == 900 && nanos > 0);
    assert(r == (secs * 1_000_000_000 + nanos > 900 * 1_000_000_000int)) by (nonlinear_arith)
        requires
            nanos < 1_000_000_000,
            r == (secs > 900 || (secs == 900 && nanos > 0)),
    ;
    r
}

} // verus!

verus! {

/// The unit of a process is one whose executable is the process's own, the
/// first such of the known units; none when no unit starts that executable.
pub proof fn law_unit_for_executable(units: Seq<SystemdUnitView>, executable: Seq<char>, i: int)
    requires
        0 <= i,
    ensures
        unit_for_executable(units, executable, i) matches Some(n) ==> exists|k: int|
            i <= k < units.len() && (#[trigger] units[k]).exec_path == Some(executable) && units[k].name
                == n && forall|j: int| i <= j < k ==> (#[trigger] units[j]).exec_path != Some(
                executable,
            ),
        unit_for_executable(units, executable, i) is None ==> forall|k: int|
            i <= k < units.len() ==> (#[trigger] units[k]).exec_path != Some(executable),
    decreases units.len() - i,
{
    if i < units.len() && units[i].exec_path != Some(executable) {
        law_unit_for_executable(units, executable, i + 1);
        if let Some(n) = unit_for_executable(units, executable, i + 1) {
            let k = choose|k: int|
                i + 1 <= k < units.len() && (#[trigger] units[k]).exec_path == Some(executable)
                    && units[k].name == n && forall|j: int|
                    i + 1 <= j < k ==> (#[trigger] units[j]).exec_path != Some(executable);
            assert(i <= k < units.len() && units[k].exec_path == Some(executable) && units[k].name
                == n);
        }
    }
}

} // verus!
