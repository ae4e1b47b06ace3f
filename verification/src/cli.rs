//! The CLI front-end's decisions: turning a raw `proj <project> [action]
//! [args...]` argument list into an action, splitting a command line,
//! picking the running process to show, and matching the working
//! directory against project roots. The terminal and socket I/O around
//! these live outside the library.

use vstd::prelude::*;
use crate::common::{ProcessInfo, Project};
use crate::process::is_running;
use crate::strutil::str_eq;

verus! {

/// What a `proj <project> ...` invocation asks for.
#[derive(Debug, PartialEq, Eq)]
pub enum CliAction {
    /// `proj` with no arguments: the daemon status overview.
    ShowStatus,
    /// `proj <project>` or `proj <project> info`.
    ProjectInfo { name: String },
    /// `proj <project> run <cmd>...`, or `proj <project> <cmd>...` for an
    /// unrecognized action word.
    Run { name: String, command: Vec<String> },
    /// `proj <project> run` with nothing to run.
    RunUsageError { name: String },
    /// `proj <project> open`.
    Open { name: String },
    /// `proj <project> stop`.
    Stop { name: String },
}

/// The action an argument list denotes.
pub open spec fn spec_parse_args(args: Seq<Seq<char>>) -> CliActionSpec {
    if args.len() == 0 {
        CliActionSpec::ShowStatus
    } else if args.len() == 1 {
        CliActionSpec::ProjectInfo { name: args[0] }
    } else {
        let name = args[0];
        let action = args[1];
        let rest = args.skip(2);
        if action == "run"@ {
            if rest.len() == 0 {
                CliActionSpec::RunUsageError { name }
            } else {
                CliActionSpec::Run { name, command: rest }
            }
        } else if action == "open"@ {
            CliActionSpec::Open { name }
        } else if action == "stop"@ {
            CliActionSpec::Stop { name }
        } else if action == "info"@ {
            CliActionSpec::ProjectInfo { name }
        } else {
            CliActionSpec::Run { name, command: seq![action] + rest }
        }
    }
}

/// Ghost counterpart of `CliAction`, over character sequences.
pub enum CliActionSpec {
    ShowStatus,
    ProjectInfo { name: Seq<char> },
    Run { name: Seq<char>, command: Seq<Seq<char>> },
    RunUsageError { name: Seq<char> },
    Open { name: Seq<char> },
    Stop { name: Seq<char> },
}

pub open spec fn action_view(a: CliAction) -> CliActionSpec {
    match a {
        CliAction::ShowStatus => CliActionSpec::ShowStatus,
        CliAction::ProjectInfo { name } => CliActionSpec::ProjectInfo { name: name@ },
        CliAction::Run { name, command } => CliActionSpec::Run {
            name: name@,
            command: command.deep_view(),
        },
        CliAction::RunUsageError { name } => CliActionSpec::RunUsageError { name: name@ },
        CliAction::Open { name } => CliActionSpec::Open { name: name@ },
        CliAction::Stop { name } => CliActionSpec::Stop { name: name@ },
    }
}

/// Interpret `proj <project> [action] [args...]`: no arguments shows the
/// overview, a bare project name shows its info, the words `run`, `open`,
/// `stop` and `info` select their actions, and any other word starts the
/// command to run in the project.
pub fn parse_project_args(args: Vec<String>) -> (r: CliAction)
    ensures
        action_view(r) == spec_parse_args(args.deep_view()),
{
    let n = args.len();
    if n == 0 {
        return CliAction::ShowStatus;
    }
    if n == 1 {
        let name = args[0].clone();
        return CliAction::ProjectInfo { name };
    }
    let name = args[0].clone();
    let is_run = str_eq(args[1].as_str(), "run");
    let is_open = str_eq(args[1].as_str(), "open");
    let is_stop = str_eq(args[1].as_str(), "stop");
    let is_info = str_eq(args[1].as_str(), "info");
    let mut rest: Vec<String> = Vec::new();
    let mut i: usize = if is_run || is_open || is_stop || is_info {
        2
    } else {
        1
    };
    let ghost start = i as int;
    while i < n
        invariant
            start <= i <= n,
            0 <= start <= 2,
            n == args@.len(),
            rest.deep_view() == args.deep_view().subrange(start, i as int),
        decreases n - i,
    {
        let ghost pre_d = rest.deep_view();
        let ghost pre_v = rest@;
        let x = args[i].clone();
        rest.push(x);
        proof {
            assert forall|j: int| 0 <= j < rest.deep_view().len() implies rest.deep_view()[j]
                == args.deep_view().subrange(start, i + 1)[j] by {
                if j < pre_d.len() {
                    assert(rest@[j] == pre_v[j]);
                    assert(rest.deep_view()[j] == pre_d[j]);
                } else {
                    assert(rest@[j] == args@[i as int]);
                    assert(args.deep_view()[i as int] == args@[i as int]@);
                }
            }
            assert(rest.deep_view().len() == rest@.len());
            assert(pre_d.len() == pre_v.len());
            assert(rest.deep_view().len() == i + 1 - start);
            assert(rest.deep_view() =~= args.deep_view().subrange(start, i + 1));
        }
        i = i + 1;
    }
    proof {
        assert(args.deep_view().subrange(2, n as int) =~= args.deep_view().skip(2));
        assert(args.deep_view().subrange(1, n as int) =~= seq![args.deep_view()[1]]
            + args.deep_view().skip(2));
    }
    if is_run {
        if rest.len() == 0 {
            CliAction::RunUsageError { name }
        } else {
            CliAction::Run { name, command: rest }
        }
    } else if is_open {
        CliAction::Open { name }
    } else if is_stop {
        CliAction::Stop { name }
    } else if is_info {
        CliAction::ProjectInfo { name }
    } else {
        CliAction::Run { name, command: rest }
    }
}

/// Split a command line into the program and its arguments; `None` when
/// there is nothing to run.
pub fn split_command(command: Vec<String>) -> (r: Option<(String, Vec<String>)>)
    ensures
        match r {
            Some((cmd, args)) => command.deep_view().len() > 0 && cmd@ == command.deep_view()[0]
                && args.deep_view() == command.deep_view().skip(1),
            None => command.deep_view().len() == 0,
        },
{
    let n = command.len();
    if n == 0 {
        return None;
    }
    let cmd = command[0].clone();
    let mut args: Vec<String> = Vec::new();
    let mut i: usize = 1;
    while i < n
        invariant
            1 <= i <= n,
            n == command@.len(),
            args.deep_view() == command.deep_view().subrange(1, i as int),
        decreases n - i,
    {
        let ghost pre_d = args.deep_view();
        let ghost pre_v = args@;
        let x = command[i].clone();
        args.push(x);
        proof {
            assert forall|j: int| 0 <= j < args.deep_view().len() implies args.deep_view()[j]
                == command.deep_view().subrange(1, i + 1)[j] by {
                if j < pre_d.len() {
                    assert(args@[j] == pre_v[j]);
                    assert(args.deep_view()[j] == pre_d[j]);
                } else {
                    assert(args@[j] == command@[i as int]);
                    assert(command.deep_view()[i as int] == command@[i as int]@);
                }
            }
            assert(args.deep_view().len() == args@.len());
            assert(pre_d.len() == pre_v.len());
            assert(args.deep_view() =~= command.deep_view().subrange(1, i + 1));
        }
        i = i + 1;
    }
    proof {
        assert(command.deep_view().subrange(1, n as int) =~= command.deep_view().skip(1));
    }
    Some((cmd, args))
}

/// The records with status `Running`, in order.
pub fn running_processes(list: &Vec<ProcessInfo>) -> (r: Vec<ProcessInfo>)
    ensures
        r@ == list@.filter(|p: ProcessInfo| is_running(p)),
{
    let ghost pred = |p: ProcessInfo| is_running(p);
    let n = list.len();
    let mut r: Vec<ProcessInfo> = Vec::new();
    let mut i: usize = 0;
    while i < n
        invariant
            i <= n,
            n == list@.len(),
            pred == (|p: ProcessInfo| is_running(p)),
            r@ == list@.take(i as int).filter(pred),
        decreases n - i,
    {
        proof {
            reveal(Seq::filter);
            assert(list@.take(i + 1).drop_last() =~= list@.take(i as int));
            assert(list@.take(i + 1).last() == list@[i as int]);
        }
        let keep = match list[i].status {
            crate::common::ProcessStatus::Running => true,
            _ => false,
        };
        if keep {
            r.push(list[i].clone());
        }
        i = i + 1;
    }
    proof {
        assert(list@.take(n as int) =~= list@);
    }
    r
}

/// The first running record that belongs to the named project, if any.
pub fn find_running_for(list: &Vec<ProcessInfo>, name: &str) -> (r: Option<ProcessInfo>)
    ensures
        match r {
            Some(p) => {
                &&& is_running(p)
                &&& p.project_name@ == name@
                &&& list@.contains(p)
            },
            None => forall|j: int|
                0 <= j < list@.len() ==> !(is_running(#[trigger] list@[j])
                    && list@[j].project_name@ == name@),
        },
{
    let n = list.len();
    let mut i: usize = 0;
    while i < n
        invariant
            i <= n,
            n == list@.len(),
            forall|j: int|
                0 <= j < i ==> !(is_running(#[trigger] list@[j]) && list@[j].project_name@
                    == name@),
        decreases n - i,
    {
        let running = match list[i].status {
            crate::common::ProcessStatus::Running => true,
            _ => false,
        };
        if running && str_eq(list[i].project_name.as_str(), name) {
            return Some(list[i].clone());
        }
        i = i + 1;
    }
    None
}

/// `a` is a prefix of `b`.
pub open spec fn is_prefix_of(a: Seq<char>, b: Seq<char>) -> bool {
    a.len() <= b.len() && b.take(a.len() as int) == a
}

/// The working directory `cwd` lies inside a directory `root`: it is the
/// root itself or below it, on a path-component boundary.
pub open spec fn dir_contains(root: Seq<char>, cwd: Seq<char>) -> bool {
    cwd == root || is_prefix_of(root + "/"@, cwd)
}

fn starts_with(s: &str, prefix_a: &str, prefix_b: &str) -> (r: bool)
    ensures
        r == is_prefix_of(prefix_a@ + prefix_b@, s@),
{
    let ghost p = prefix_a@ + prefix_b@;
    let na: usize = prefix_a.unicode_len();
    let nb: usize = prefix_b.unicode_len();
    let ns: usize = s.unicode_len();
    if ns < na || ns - na < nb {
        return false;
    }
    let mut i: usize = 0;
    while i < na
        invariant
            i <= na,
            p == prefix_a@ + prefix_b@,
            na == prefix_a@.len(),
            nb == prefix_b@.len(),
            ns == s@.len(),
            na + nb <= ns,
            forall|j: int| 0 <= j < i ==> s@[j] == p[j],
        decreases na - i,
    {
        if s.get_char(i) != prefix_a.get_char(i) {
            proof {
                assert(p[i as int] == prefix_a@[i as int]);
                assert(s@.take(p.len() as int)[i as int] != p[i as int]);
            }
            return false;
        }
        i = i + 1;
    }
    let mut k: usize = 0;
    while k < nb
        invariant
            k <= nb,
            p == prefix_a@ + prefix_b@,
            na == prefix_a@.len(),
            nb == prefix_b@.len(),
            ns == s@.len(),
            na + nb <= ns,
            forall|j: int| 0 <= j < na + k ==> s@[j] == p[j],
        decreases nb - k,
    {
        if s.get_char(na + k) != prefix_b.get_char(k) {
            proof {
                assert(p[na + k] == prefix_b@[k as int]);
                assert(s@.take(p.len() as int)[na + k] != p[na + k]);
            }
            return false;
        }
        k = k + 1;
    }
    proof {
        assert(s@.take(p.len() as int) =~= p);
    }
    true
}

/// The first project whose root directory contains `cwd`, if any; this is
/// how a bare `proj run ...` finds its project from the working
/// directory.
pub fn select_project_for_cwd(projects: &Vec<Project>, cwd: &str) -> (r: Option<String>)
    ensures
        match r {
            Some(name) => exists|j: int|
                0 <= j < projects@.len() && (#[trigger] projects@[j]).name@ == name@
                    && dir_contains(projects@[j].root_dir@, cwd@),
            None => forall|j: int|
                0 <= j < projects@.len() ==> !dir_contains(
                    (#[trigger] projects@[j]).root_dir@,
                    cwd@,
                ),
        },
{
    let n = projects.len();
    let mut i: usize = 0;
    while i < n
        invariant
            i <= n,
            n == projects@.len(),
            forall|j: int|
                0 <= j < i ==> !dir_contains((#[trigger] projects@[j]).root_dir@, cwd@),
        decreases n - i,
    {
        let root = &projects[i].root_dir;
        if str_eq(cwd, root.as_str()) || starts_with(cwd, root.as_str(), "/") {
            return Some(projects[i].name.clone());
        }
        i = i + 1;
    }
    None
}

} // verus!
