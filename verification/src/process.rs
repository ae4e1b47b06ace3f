//! Process supervision: the record store for spawned commands, the status
//! and port bookkeeping driven by lifecycle events, and the signal used to
//! stop a child. Spawning the OS process itself, reading its pipes and
//! awaiting its exit are asynchronous work that the daemon binary performs;
//! it reports the outcomes back into this module.

use vstd::prelude::*;
use vstd::string::*;
use crate::common::{fresh_uuid128, now_millis, ProcessInfo, ProcessStatus};
use crate::strutil::{push_char, str_eq};

verus! {

/// Event from a managed process, delivered to the event router in FIFO
/// order per process id.
#[derive(Debug, PartialEq, Eq)]
pub enum ProcessEvent {
    /// One captured line of child output.
    Output { process_id: u128, line: String, is_stderr: bool },
    /// The child was reaped; `exit_code` is `None` for signal deaths.
    Exited { process_id: u128, exit_code: Option<i32> },
    /// The port prober saw the child listening.
    PortDetected { process_id: u128, port: u16 },
}

/// Relies on `nix::sys::signal::kill`: asks the kernel to deliver SIGTERM
/// to the process with this pid, and reports whether the kernel accepted
/// the request. Whether it succeeds depends on the system, so nothing is
/// promised of the result.
#[verifier::external_body]
fn send_sigterm(pid: u32) -> bool {
    nix::sys::signal::kill(
        nix::unistd::Pid::from_raw(pid as i32),
        nix::sys::signal::Signal::SIGTERM,
    ).is_ok()
}

/// Why a stop request failed.
#[derive(Clone, Copy, Debug, PartialEq, Eq, Structural)]
pub enum StopError {
    NotFound,
    SignalFailed,
}

impl StopError {
    pub fn message(&self) -> (r: String)
        ensures
            self is NotFound ==> r@ == "Process not found"@,
            self is SignalFailed ==> r@ == "Failed to send SIGTERM"@,
    {
        match self {
            StopError::NotFound => String::from_str("Process not found"),
            StopError::SignalFailed => String::from_str("Failed to send SIGTERM"),
        }
    }
}

pub open spec fn has_id(s: Seq<ProcessInfo>, id: u128) -> bool {
    exists|i: int| 0 <= i < s.len() && (#[trigger] s[i]).id == id
}

/// Index of the first record with this id (meaningful only when one exists).
pub open spec fn first_index(s: Seq<ProcessInfo>, id: u128) -> int
    decreases s.len(),
{
    if s.len() == 0 {
        0
    } else if s[0].id == id {
        0
    } else {
        1 + first_index(s.skip(1), id)
    }
}

pub proof fn lemma_first_index_of(s: Seq<ProcessInfo>, id: u128, i: int)
    requires
        0 <= i < s.len(),
        s[i].id == id,
        forall|j: int| 0 <= j < i ==> (#[trigger] s[j]).id != id,
    ensures
        has_id(s, id),
        first_index(s, id) == i,
    decreases s.len(),
{
    if s[0].id == id {
        assert(i == 0);
    } else {
        assert(forall|j: int| 0 <= j < i - 1 ==> (#[trigger] s.skip(1)[j]).id != id);
        lemma_first_index_of(s.skip(1), id, i - 1);
    }
}

/// When a record with this id exists, `first_index` points at it.
pub proof fn lemma_first_index_props(s: Seq<ProcessInfo>, id: u128)
    requires
        has_id(s, id),
    ensures
        0 <= first_index(s, id) < s.len(),
        s[first_index(s, id)].id == id,
    decreases s.len(),
{
    if s[0].id == id {
    } else {
        let w = choose|w: int| 0 <= w < s.len() && (#[trigger] s[w]).id == id;
        assert(s.skip(1)[w - 1].id == id);
        assert(has_id(s.skip(1), id));
        lemma_first_index_props(s.skip(1), id);
    }
}

/// The first index with a given id only depends on the sequence of ids.
pub proof fn lemma_same_ids_first_index(a: Seq<ProcessInfo>, b: Seq<ProcessInfo>, id: u128)
    requires
        a.len() == b.len(),
        forall|j: int| 0 <= j < a.len() ==> (#[trigger] a[j]).id == b[j].id,
    ensures
        first_index(a, id) == first_index(b, id),
        has_id(a, id) <==> has_id(b, id),
    decreases a.len(),
{
    if a.len() > 0 {
        assert(forall|j: int|
            0 <= j < a.skip(1).len() ==> (#[trigger] a.skip(1)[j]).id == b.skip(1)[j].id);
        lemma_same_ids_first_index(a.skip(1), b.skip(1), id);
    }
    if has_id(a, id) {
        let w = choose|w: int| 0 <= w < a.len() && (#[trigger] a[w]).id == id;
        assert(b[w].id == id);
        assert(has_id(b, id));
    }
    if has_id(b, id) {
        let w = choose|w: int| 0 <= w < b.len() && (#[trigger] b[w]).id == id;
        assert(a[w].id == id);
        assert(has_id(a, id));
    }
}

pub open spec fn is_running(p: ProcessInfo) -> bool {
    p.status is Running
}

pub open spec fn with_status(p: ProcessInfo, status: ProcessStatus) -> ProcessInfo {
    ProcessInfo { status, ..p }
}

pub open spec fn with_port(p: ProcessInfo, port: u16) -> ProcessInfo {
    ProcessInfo { port: Some(port), ..p }
}

/// `started_at` order on records, ties broken by the larger process id.
pub open spec fn strictly_later(a: ProcessInfo, b: ProcessInfo) -> bool {
    a.started_at_millis > b.started_at_millis || (a.started_at_millis == b.started_at_millis
        && a.id > b.id)
}

/// The arguments joined with single spaces, as shown to users.
pub open spec fn join_spaces(args: Seq<Seq<char>>) -> Seq<char>
    decreases args.len(),
{
    if args.len() == 0 {
        Seq::empty()
    } else if args.len() == 1 {
        args[0]
    } else {
        args[0] + seq![' '] + join_spaces(args.skip(1))
    }
}

proof fn lemma_join_spaces_push(args: Seq<Seq<char>>, x: Seq<char>)
    requires
        args.len() >= 1,
    ensures
        join_spaces(args.push(x)) == join_spaces(args) + seq![' '] + x,
    decreases args.len(),
{
    if args.len() == 1 {
        assert(args.push(x).skip(1) =~= seq![x]);
        assert(join_spaces(seq![x]) == x);
        assert(args.push(x)[0] == args[0]);
        assert(join_spaces(args.push(x)) == args[0] + seq![' '] + x);
        assert(join_spaces(args) + seq![' '] + x =~= args[0] + seq![' '] + x);
    } else {
        lemma_join_spaces_push(args.skip(1), x);
        assert(args.push(x).skip(1) =~= args.skip(1).push(x));
        assert(args.push(x)[0] == args[0]);
        assert(join_spaces(args.push(x)) == args[0] + seq![' '] + (join_spaces(args.skip(1))
            + seq![' '] + x));
        assert(args[0] + seq![' '] + (join_spaces(args.skip(1)) + seq![' '] + x) =~= (args[0]
            + seq![' '] + join_spaces(args.skip(1))) + seq![' '] + x);
    }
}

/// The display string recorded for a spawned command: the command, one
/// space, then the space-joined arguments.
pub open spec fn spec_command_display(command: Seq<char>, args: Seq<Seq<char>>) -> Seq<char> {
    command + seq![' '] + join_spaces(args)
}

/// Build the display string for a command and its arguments.
pub fn command_display(command: &str, args: &Vec<String>) -> (r: String)
    ensures
        r@ == spec_command_display(command@, args.deep_view()),
{
    let mut r = String::from_str(command);
    push_char(&mut r, ' ');
    let ghost base = command@ + seq![' '];
    let mut k: usize = 0;
    while k < args.len()
        invariant
            k <= args@.len(),
            r@ == base + join_spaces(args.deep_view().take(k as int)),
        decreases args@.len() - k,
    {
        if k > 0 {
            push_char(&mut r, ' ');
            let ghost pre = args.deep_view().take(k as int);
            r.append(args[k].as_str());
            proof {
                lemma_join_spaces_push(pre, args@[k as int]@);
                assert(args.deep_view().take(k + 1) =~= pre.push(args@[k as int]@));
            }
        } else {
            r.append(args[k].as_str());
            proof {
                assert(args.deep_view().take(1) =~= seq![args@[0]@]);
            }
        }
        k = k + 1;
    }
    proof {
        assert(args.deep_view().take(args@.len() as int) =~= args.deep_view());
    }
    r
}

/// The environment exported to every spawned child.
pub fn child_env(project_name: &str) -> (r: Vec<(String, String)>)
    ensures
        r@.len() == 2,
        r@[0].0@ == "PROJECT_ID"@,
        r@[0].1@ == project_name@,
        r@[1].0@ == "PROJECT_HOST"@,
        r@[1].1@ == project_name@ + ".localhost"@,
    {
    let mut r: Vec<(String, String)> = Vec::new();
    r.push((String::from_str("PROJECT_ID"), String::from_str(project_name)));
    r.push((
        String::from_str("PROJECT_HOST"),
        String::from_str(project_name).concat(".localhost"),
    ));
    r
}

/// Owner of the records of all spawned commands. The OS-side work (pipes,
/// exit waits, the probe timer) runs outside; its outcomes arrive through
/// `spawn`, `update_status` and `update_port`.
pub struct ProcessManager {
    processes: Vec<ProcessInfo>,
}

impl ProcessManager {
    /// All records, in spawn order.
    pub closed spec fn records(&self) -> Seq<ProcessInfo> {
        self.processes@
    }

    pub fn new() -> (r: Self)
        ensures
            r.records() == Seq::<ProcessInfo>::empty(),
    {
        ProcessManager { processes: Vec::new() }
    }

    /// Record a child that was successfully started under the given OS pid:
    /// a fresh id and start timestamp are drawn, and the record enters in
    /// `Running` state with no port.
    pub fn spawn(
        &mut self,
        project_name: String,
        command: &str,
        args: &Vec<String>,
        pid: u32,
    ) -> (r: ProcessInfo)
        ensures
            final(self).records() == old(self).records().push(r),
            r.project_name@ == project_name@,
            r.pid == pid,
            r.command@ == spec_command_display(command@, args.deep_view()),
            r.port is None,
            r.status is Running,
    {
        let info = ProcessInfo {
            id: fresh_uuid128(),
            project_name,
            pid,
            command: command_display(command, args),
            started_at_millis: now_millis(),
            port: None,
            status: ProcessStatus::Running,
        };
        let out = info.clone();
        self.processes.push(info);
        out
    }

    /// Ask the recorded pid to terminate with SIGTERM and mark the record
    /// `Stopped`. The wait task reports the real exit later. An unknown id
    /// is an error and changes nothing; a refused signal changes nothing.
    pub fn stop(&mut self, process_id: u128) -> (r: Result<(), StopError>)
        ensures
            r == Err::<(), StopError>(StopError::NotFound) <==> !has_id(
                old(self).records(),
                process_id,
            ),
            r is Err ==> final(self).records() == old(self).records(),
            r is Ok ==> final(self).records() == old(self).records().update(
                first_index(old(self).records(), process_id),
                with_status(
                    old(self).records()[first_index(old(self).records(), process_id)],
                    ProcessStatus::Stopped,
                ),
            ),
    {
        let n = self.processes.len();
        let mut i: usize = 0;
        while i < n
            invariant
                i <= n,
                n == self.processes@.len(),
                *self == *old(self),
                forall|j: int| 0 <= j < i ==> (#[trigger] self.processes@[j]).id != process_id,
            decreases n - i,
        {
            if self.processes[i].id == process_id {
                proof {
                    lemma_first_index_of(self.processes@, process_id, i as int);
                }
                if !send_sigterm(self.processes[i].pid) {
                    return Err(StopError::SignalFailed);
                }
                self.processes[i].status = ProcessStatus::Stopped;
                return Ok(());
            }
            i = i + 1;
        }
        Err(StopError::NotFound)
    }

    /// The record with this id, if any.
    pub fn get(&self, process_id: u128) -> (r: Option<&ProcessInfo>)
        ensures
            match r {
                Some(p) => has_id(self.records(), process_id) && *p == self.records()[first_index(
                    self.records(),
                    process_id,
                )],
                None => !has_id(self.records(), process_id),
            },
    {
        let n = self.processes.len();
        let mut i: usize = 0;
        while i < n
            invariant
                i <= n,
                n == self.processes@.len(),
                forall|j: int| 0 <= j < i ==> (#[trigger] self.processes@[j]).id != process_id,
            decreases n - i,
        {
            if self.processes[i].id == process_id {
                proof {
                    lemma_first_index_of(self.processes@, process_id, i as int);
                }
                return Some(&self.processes[i]);
            }
            i = i + 1;
        }
        None
    }

    /// Copies of all records.
    pub fn list(&self) -> (r: Vec<ProcessInfo>)
        ensures
            r@ == self.records(),
    {
        let n = self.processes.len();
        let mut r: Vec<ProcessInfo> = Vec::new();
        let mut i: usize = 0;
        while i < n
            invariant
                i <= n,
                n == self.processes@.len(),
                r@ == self.processes@.take(i as int),
            decreases n - i,
        {
            r.push(self.processes[i].clone());
            proof {
                assert(r@ =~= self.processes@.take(i + 1));
            }
            i = i + 1;
        }
        proof {
            assert(self.processes@.take(n as int) =~= self.processes@);
        }
        r
    }

    /// Copies of the records that belong to one project.
    pub fn list_for_project(&self, project_name: &str) -> (r: Vec<ProcessInfo>)
        ensures
            r@ == self.records().filter(|p: ProcessInfo| p.project_name@ == project_name@),
    {
        let ghost pred = |p: ProcessInfo| p.project_name@ == project_name@;
        let n = self.processes.len();
        let mut r: Vec<ProcessInfo> = Vec::new();
        let mut i: usize = 0;
        while i < n
            invariant
                i <= n,
                n == self.processes@.len(),
                pred == (|p: ProcessInfo| p.project_name@ == project_name@),
                r@ == self.processes@.take(i as int).filter(pred),
            decreases n - i,
        {
            proof {
                reveal(Seq::filter);
                assert(self.processes@.take(i + 1).drop_last() =~= self.processes@.take(i as int));
                assert(self.processes@.take(i + 1).last() == self.processes@[i as int]);
            }
            if str_eq(self.processes[i].project_name.as_str(), project_name) {
                r.push(self.processes[i].clone());
            }
            i = i + 1;
        }
        proof {
            assert(self.processes@.take(n as int) =~= self.processes@);
        }
        r
    }

    /// How many records are `Running`: exactly the count of records whose
    /// status is `Running`.
    pub fn running_count(&self) -> (r: usize)
        ensures
            r == self.records().filter(|p: ProcessInfo| is_running(p)).len(),
    {
        let ghost pred = |p: ProcessInfo| is_running(p);
        let n = self.processes.len();
        let mut count: usize = 0;
        let mut i: usize = 0;
        while i < n
            invariant
                i <= n,
                n == self.processes@.len(),
                pred == (|p: ProcessInfo| is_running(p)),
                count == self.processes@.take(i as int).filter(pred).len(),
                count <= i,
            decreases n - i,
        {
            proof {
                reveal(Seq::filter);
                assert(self.processes@.take(i + 1).drop_last() =~= self.processes@.take(i as int));
                assert(self.processes@.take(i + 1).last() == self.processes@[i as int]);
                self.processes@.take(i as int).lemma_filter_len(pred);
            }
            let running = match self.processes[i].status {
                ProcessStatus::Running => true,
                _ => false,
            };
            if running {
                count = count + 1;
            }
            i = i + 1;
        }
        proof {
            assert(self.processes@.take(n as int) =~= self.processes@);
        }
        count
    }

    /// Set the status of the record with this id; unknown ids change
    /// nothing.
    pub fn update_status(&mut self, process_id: u128, status: ProcessStatus)
        ensures
            has_id(old(self).records(), process_id) ==> final(self).records() == old(
                self,
            ).records().update(
                first_index(old(self).records(), process_id),
                with_status(
                    old(self).records()[first_index(old(self).records(), process_id)],
                    status,
                ),
            ),
            !has_id(old(self).records(), process_id) ==> final(self).records() == old(
                self,
            ).records(),
    {
        let n = self.processes.len();
        let mut i: usize = 0;
        while i < n
            invariant
                i <= n,
                n == self.processes@.len(),
                *self == *old(self),
                forall|j: int| 0 <= j < i ==> (#[trigger] self.processes@[j]).id != process_id,
            decreases n - i,
        {
            if self.processes[i].id == process_id {
                proof {
                    lemma_first_index_of(self.processes@, process_id, i as int);
                }
                self.processes[i].status = status;
                return;
            }
            i = i + 1;
        }
    }

    /// Record the discovered port of the record with this id. A port is set
    /// at most once: a record that already has one keeps it. Unknown ids
    /// change nothing.
    pub fn update_port(&mut self, process_id: u128, port: u16)
        ensures
            ({
                let s = old(self).records();
                if has_id(s, process_id) && s[first_index(s, process_id)].port is None {
                    final(self).records() == s.update(
                        first_index(s, process_id),
                        with_port(s[first_index(s, process_id)], port),
                    )
                } else {
                    final(self).records() == s
                }
            }),
    {
        let n = self.processes.len();
        let mut i: usize = 0;
        while i < n
            invariant
                i <= n,
                n == self.processes@.len(),
                *self == *old(self),
                forall|j: int| 0 <= j < i ==> (#[trigger] self.processes@[j]).id != process_id,
            decreases n - i,
        {
            if self.processes[i].id == process_id {
                proof {
                    lemma_first_index_of(self.processes@, process_id, i as int);
                }
                let already = match self.processes[i].port {
                    Some(_) => true,
                    None => false,
                };
                if !already {
                    self.processes[i].port = Some(port);
                }
                return;
            }
            i = i + 1;
        }
    }

    /// The most recently started `Running` record of a project, ties broken
    /// by the larger id; `None` when the project has no running record.
    pub fn find_by_project(&self, project_name: &str) -> (r: Option<ProcessInfo>)
        ensures
            match r {
                Some(p) => {
                    &&& p.project_name@ == project_name@
                    &&& is_running(p)
                    &&& self.records().contains(p)
                    &&& forall|j: int|
                        0 <= j < self.records().len() && (#[trigger] self.records()[j]).project_name@
                            == project_name@ && is_running(self.records()[j]) ==> !strictly_later(
                            self.records()[j],
                            p,
                        )
                },
                None => forall|j: int|
                    0 <= j < self.records().len() ==> !((#[trigger] self.records()[j]).project_name@
                        == project_name@ && is_running(self.records()[j])),
            },
    {
        let n = self.processes.len();
        let mut best: Option<usize> = None;
        let mut i: usize = 0;
        while i < n
            invariant
                i <= n,
                n == self.processes@.len(),
                match best {
                    Some(bi) => {
                        &&& bi < i
                        &&& self.processes@[bi as int].project_name@ == project_name@
                        &&& is_running(self.processes@[bi as int])
                        &&& forall|j: int|
                            0 <= j < i && (#[trigger] self.processes@[j]).project_name@
                                == project_name@ && is_running(self.processes@[j])
                                ==> !strictly_later(self.processes@[j], self.processes@[bi as int])
                    },
                    None => forall|j: int|
                        0 <= j < i ==> !((#[trigger] self.processes@[j]).project_name@
                            == project_name@ && is_running(self.processes@[j])),
                },
            decreases n - i,
        {
            let running = match self.processes[i].status {
                ProcessStatus::Running => true,
                _ => false,
            };
            if running && str_eq(self.processes[i].project_name.as_str(), project_name) {
                match best {
                    None => {
                        best = Some(i);
                    },
                    Some(bi) => {
                        let cand = &self.processes[i];
                        let cur = &self.processes[bi];
                        if cand.started_at_millis > cur.started_at_millis
                            || (cand.started_at_millis == cur.started_at_millis && cand.id
                            > cur.id) {
                            best = Some(i);
                        }
                    },
                }
            }
            i = i + 1;
        }
        match best {
            Some(bi) => Some(self.processes[bi].clone()),
            None => None,
        }
    }
}

} // verus!
