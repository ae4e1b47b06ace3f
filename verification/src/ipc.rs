//! The daemon's request dispatcher and event router: one function that
//! maps an IPC request and the shared state to a response (or to a spawn
//! plan the binary must execute), and one that folds a supervisor event
//! into the records and the routing table. The socket reading, JSON
//! framing and disk writes around them live in the daemon binary.

use vstd::prelude::*;
use vstd::string::*;
use crate::common::{
    spec_validate_name, valid_project_name, IpcRequest, IpcResponse, NameError, ProcessInfo,
    ProcessStatus, Project,
};
use crate::process::{
    first_index, has_id, is_running, lemma_first_index_props, lemma_same_ids_first_index,
    with_port, with_status, ProcessEvent, ProcessManager, StopError,
};
use crate::registry::{has_name, name_index, project_not_found_message, Registry};
use crate::routing::RoutingTable;

verus! {

/// Everything the daemon shares between its request handlers.
pub struct DaemonState {
    pub registry: Registry,
    pub process_manager: ProcessManager,
    pub routing_table: RoutingTable,
}

impl DaemonState {
    pub open spec fn wf(&self) -> bool {
        self.registry.wf() && self.routing_table.wf()
    }

    /// A fresh state around a routing table; the binary loads persisted
    /// project records into the registry afterwards.
    pub fn new(routing_table: RoutingTable) -> (r: Self)
        requires
            routing_table.wf(),
        ensures
            r.wf(),
            r.registry.records() == Seq::<Project>::empty(),
            r.process_manager.records() == Seq::<ProcessInfo>::empty(),
            r.routing_table == routing_table,
    {
        DaemonState {
            registry: Registry::new(),
            process_manager: ProcessManager::new(),
            routing_table,
        }
    }
}

/// Neither the records, nor the routes, changed.
pub open spec fn state_unchanged(pre: DaemonState, post: DaemonState) -> bool {
    &&& post.registry.records() == pre.registry.records()
    &&& post.process_manager.records() == pre.process_manager.records()
    &&& post.routing_table.as_map() == pre.routing_table.as_map()
}

/// What the binary must execute to finish a `RunCommand` request: spawn
/// this command, in this directory, for this project.
#[derive(Debug, PartialEq, Eq)]
pub struct SpawnPlan {
    pub project_name: String,
    pub command: String,
    pub args: Vec<String>,
    pub working_dir: String,
}

/// The dispatcher's verdict on one request.
#[derive(Debug, PartialEq, Eq)]
pub enum DispatchOutcome {
    /// Answer now; `persist` names a project record the binary should
    /// write to disk (best effort).
    Reply { response: IpcResponse, persist: Option<Project> },
    /// Spawn first, then report through the supervisor.
    Spawn { plan: SpawnPlan },
}

/// The message a rejected create carries.
pub open spec fn name_error_message(e: NameError) -> Seq<char> {
    match e {
        NameError::Empty => "Project name cannot be empty"@,
        NameError::TooLong => "Project name cannot exceed 64 characters"@,
        NameError::InvalidChar =>
            "Project name can only contain alphanumeric characters, hyphens, and underscores"@,
        NameError::BadStart => "Project name cannot start with a hyphen or underscore"@,
    }
}

pub open spec fn create_error_message(name: Seq<char>) -> Seq<char> {
    match spec_validate_name(name) {
        Err(e) => name_error_message(e),
        Ok(()) => "Project '"@ + name + "' already exists"@,
    }
}

pub open spec fn not_found_msg(name: Seq<char>) -> Seq<char> {
    "Project '"@ + name + "' not found"@
}

/// An error reply with this message.
pub open spec fn is_error_reply(r: DispatchOutcome, msg: Seq<char>) -> bool {
    match r {
        DispatchOutcome::Reply { response: IpcResponse::Error { message }, persist } => {
            message@ == msg && persist is None
        },
        _ => false,
    }
}

/// What `handle_request` owes: the relation between the state before, the
/// request, the state after, and the outcome.
pub open spec fn dispatch_rel(
    pre: DaemonState,
    req: IpcRequest,
    post: DaemonState,
    r: DispatchOutcome,
) -> bool {
    match req {
        IpcRequest::CreateProject { name, root_dir } => {
            &&& post.process_manager.records() == pre.process_manager.records()
            &&& post.routing_table.as_map() == pre.routing_table.as_map()
            &&& if valid_project_name(name@) && !has_name(pre.registry.records(), name@) {
                match r {
                    DispatchOutcome::Reply {
                        response: IpcResponse::Project(p),
                        persist,
                    } => {
                        &&& persist == Some(p)
                        &&& p.name@ == name@
                        &&& p.root_dir@ == root_dir@
                        &&& p.port is None
                        &&& post.registry.records() == pre.registry.records().push(p)
                    },
                    _ => false,
                }
            } else {
                post.registry.records() == pre.registry.records() && is_error_reply(
                    r,
                    create_error_message(name@),
                )
            }
        },
        IpcRequest::ListProjects => {
            &&& state_unchanged(pre, post)
            &&& match r {
                DispatchOutcome::Reply { response: IpcResponse::Projects(ps), persist } => {
                    ps@ == pre.registry.records() && persist is None
                },
                _ => false,
            }
        },
        IpcRequest::GetProject { name } => {
            &&& state_unchanged(pre, post)
            &&& if has_name(pre.registry.records(), name@) {
                r == (DispatchOutcome::Reply {
                    response: IpcResponse::Project(
                        pre.registry.records()[name_index(pre.registry.records(), name@)],
                    ),
                    persist: None,
                })
            } else {
                is_error_reply(r, not_found_msg(name@))
            }
        },
        IpcRequest::RunCommand { project_name, command, args } => {
            &&& state_unchanged(pre, post)
            &&& if has_name(pre.registry.records(), project_name@) {
                match r {
                    DispatchOutcome::Spawn { plan } => {
                        &&& plan.project_name@ == project_name@
                        &&& plan.command@ == command@
                        &&& plan.args == args
                        &&& plan.working_dir@ == pre.registry.records()[name_index(
                            pre.registry.records(),
                            project_name@,
                        )].root_dir@
                    },
                    _ => false,
                }
            } else {
                is_error_reply(r, not_found_msg(project_name@))
            }
        },
        IpcRequest::StopProcess { project_name: _, process_id } => {
            &&& post.registry.records() == pre.registry.records()
            &&& post.routing_table.as_map() == pre.routing_table.as_map()
            &&& if !has_id(pre.process_manager.records(), process_id) {
                post.process_manager.records() == pre.process_manager.records() && is_error_reply(
                    r,
                    "Process not found"@,
                )
            } else {
                ||| (post.process_manager.records() == pre.process_manager.records()
                    && is_error_reply(r, "Failed to send SIGTERM"@))
                ||| (post.process_manager.records() == pre.process_manager.records().update(
                    first_index(pre.process_manager.records(), process_id),
                    with_status(
                        pre.process_manager.records()[first_index(
                            pre.process_manager.records(),
                            process_id,
                        )],
                        ProcessStatus::Stopped,
                    ),
                ) && match r {
                    DispatchOutcome::Reply {
                        response: IpcResponse::Success { message: Some(m) },
                        persist,
                    } => m@ == "Process stopped"@ && persist is None,
                    _ => false,
                })
            }
        },
        IpcRequest::ListProcesses { project_name } => {
            &&& state_unchanged(pre, post)
            &&& match r {
                DispatchOutcome::Reply { response: IpcResponse::Processes(v), persist } => {
                    &&& persist is None
                    &&& match project_name {
                        Some(name) => v@ == pre.process_manager.records().filter(
                            |p: ProcessInfo| p.project_name@ == name@,
                        ),
                        None => v@ == pre.process_manager.records(),
                    }
                },
                _ => false,
            }
        },
        IpcRequest::Status => {
            &&& state_unchanged(pre, post)
            &&& r == (DispatchOutcome::Reply {
                response: IpcResponse::Status {
                    running: true,
                    project_count: pre.registry.records().len() as usize,
                    process_count: pre.process_manager.records().filter(
                        |p: ProcessInfo| is_running(p),
                    ).len() as usize,
                },
                persist: None,
            })
        },
        IpcRequest::Shutdown => {
            &&& state_unchanged(pre, post)
            &&& match r {
                DispatchOutcome::Reply {
                    response: IpcResponse::Success { message: Some(m) },
                    persist,
                } => m@ == "Shutting down"@ && persist is None,
                _ => false,
            }
        },
    }
}

/// Serve one IPC request against the shared state.
///
/// A `RunCommand` whose project exists answers with a spawn plan and
/// leaves the state untouched: no record is inserted before the spawn has
/// succeeded, so a failed spawn leaves nothing behind.
pub fn handle_request(state: &mut DaemonState, req: IpcRequest) -> (r: DispatchOutcome)
    requires
        old(state).wf(),
    ensures
        final(state).wf(),
        dispatch_rel(*old(state), req, *final(state), r),
{
    match req {
        IpcRequest::CreateProject { name, root_dir } => {
            match state.registry.create(name.clone(), root_dir) {
                Ok(p) => {
                    let reply = p.clone();
                    DispatchOutcome::Reply {
                        response: IpcResponse::Project(reply),
                        persist: Some(p),
                    }
                },
                Err(e) => {
                    let message = e.message(name.as_str());
                    DispatchOutcome::Reply {
                        response: IpcResponse::Error { message },
                        persist: None,
                    }
                },
            }
        },
        IpcRequest::ListProjects => {
            let ps = state.registry.list();
            DispatchOutcome::Reply { response: IpcResponse::Projects(ps), persist: None }
        },
        IpcRequest::GetProject { name } => {
            match state.registry.get(name.as_str()) {
                Some(p) => {
                    let reply = p.clone();
                    DispatchOutcome::Reply { response: IpcResponse::Project(reply), persist: None }
                },
                None => {
                    let message = project_not_found_message(name.as_str());
                    DispatchOutcome::Reply {
                        response: IpcResponse::Error { message },
                        persist: None,
                    }
                },
            }
        },
        IpcRequest::RunCommand { project_name, command, args } => {
            match state.registry.get(project_name.as_str()) {
                Some(p) => {
                    let working_dir = p.root_dir.clone();
                    DispatchOutcome::Spawn {
                        plan: SpawnPlan { project_name, command, args, working_dir },
                    }
                },
                None => {
                    let message = project_not_found_message(project_name.as_str());
                    DispatchOutcome::Reply {
                        response: IpcResponse::Error { message },
                        persist: None,
                    }
                },
            }
        },
        IpcRequest::StopProcess { project_name: _, process_id } => {
            match state.process_manager.stop(process_id) {
                Ok(()) => DispatchOutcome::Reply {
                    response: IpcResponse::Success {
                        message: Some(String::from_str("Process stopped")),
                    },
                    persist: None,
                },
                Err(e) => {
                    let message = e.message();
                    DispatchOutcome::Reply {
                        response: IpcResponse::Error { message },
                        persist: None,
                    }
                },
            }
        },
        IpcRequest::ListProcesses { project_name } => {
            let v = match &project_name {
                Some(name) => state.process_manager.list_for_project(name.as_str()),
                None => state.process_manager.list(),
            };
            DispatchOutcome::Reply { response: IpcResponse::Processes(v), persist: None }
        },
        IpcRequest::Status => {
            let project_count = state.registry.count();
            let process_count = state.process_manager.running_count();
            DispatchOutcome::Reply {
                response: IpcResponse::Status { running: true, project_count, process_count },
                persist: None,
            }
        },
        IpcRequest::Shutdown => {
            DispatchOutcome::Reply {
                response: IpcResponse::Success {
                    message: Some(String::from_str("Shutting down")),
                },
                persist: None,
            }
        },
    }
}

/// Record a spawn that the binary performed for this plan: the record
/// enters `Running` and the response for the waiting client is built.
pub fn complete_spawn(state: &mut DaemonState, plan: SpawnPlan, pid: u32) -> (r: IpcResponse)
    requires
        old(state).wf(),
    ensures
        final(state).wf(),
        final(state).registry.records() == old(state).registry.records(),
        final(state).routing_table.as_map() == old(state).routing_table.as_map(),
        match r {
            IpcResponse::ProcessStarted { process: p } => {
                &&& p.project_name@ == plan.project_name@
                &&& p.pid == pid
                &&& p.status is Running
                &&& p.port is None
                &&& final(state).process_manager.records() == old(
                    state,
                ).process_manager.records().push(p)
            },
            _ => false,
        },
{
    let info = state.process_manager.spawn(
        plan.project_name,
        plan.command.as_str(),
        &plan.args,
        pid,
    );
    IpcResponse::ProcessStarted { process: info }
}

/// What `route_event` owes.
pub open spec fn route_event_rel(
    pre: DaemonState,
    event: ProcessEvent,
    post: DaemonState,
    persist: Option<Project>,
) -> bool {
    match event {
        ProcessEvent::Output { .. } => state_unchanged(pre, post) && persist is None,
        ProcessEvent::PortDetected { process_id, port } => {
            if has_id(pre.process_manager.records(), process_id) {
                let i = first_index(pre.process_manager.records(), process_id);
                let rec = pre.process_manager.records()[i];
                let pname = rec.project_name@;
                &&& post.process_manager.records() == (if rec.port is None {
                    pre.process_manager.records().update(i, with_port(rec, port))
                } else {
                    pre.process_manager.records()
                })
                &&& post.routing_table.as_map() == pre.routing_table.as_map().insert(pname, port)
                &&& if has_name(pre.registry.records(), pname) {
                    let j = name_index(pre.registry.records(), pname);
                    let updated = Project { port: Some(port), ..pre.registry.records()[j] };
                    &&& post.registry.records() == pre.registry.records().update(j, updated)
                    &&& persist == Some(updated)
                } else {
                    post.registry.records() == pre.registry.records() && persist is None
                }
            } else {
                state_unchanged(pre, post) && persist is None
            }
        },
        ProcessEvent::Exited { process_id, exit_code } => {
            &&& persist is None
            &&& post.registry.records() == pre.registry.records()
            &&& if has_id(pre.process_manager.records(), process_id) {
                let i = first_index(pre.process_manager.records(), process_id);
                let rec = pre.process_manager.records()[i];
                let st = if exit_code == Some(0i32) {
                    ProcessStatus::Stopped
                } else {
                    ProcessStatus::Failed
                };
                &&& post.process_manager.records() == pre.process_manager.records().update(
                    i,
                    with_status(rec, st),
                )
                &&& post.routing_table.as_map() == pre.routing_table.as_map().remove(
                    rec.project_name@,
                )
            } else {
                state_unchanged(pre, post)
            }
        },
    }
}

/// Fold one supervisor event into the state, as the event router does:
/// `PortDetected` records the port, installs the route and asks the
/// caller to persist the project record it returns; `Exited` marks the
/// record terminal (`Stopped` on exit code 0, else `Failed`) and removes
/// the project's route; `Output` changes nothing.
pub fn route_event(state: &mut DaemonState, event: &ProcessEvent) -> (persist: Option<Project>)
    requires
        old(state).wf(),
    ensures
        final(state).wf(),
        route_event_rel(*old(state), *event, *final(state), persist),
{
    match event {
        ProcessEvent::Output { .. } => None,
        ProcessEvent::PortDetected { process_id, port } => {
            state.process_manager.update_port(*process_id, *port);
            proof {
                let s0 = old(state).process_manager.records();
                let s1 = state.process_manager.records();
                if has_id(s0, *process_id) {
                    lemma_first_index_props(s0, *process_id);
                }
                assert(forall|j: int| 0 <= j < s0.len() ==> (#[trigger] s0[j]).id == s1[j].id);
                lemma_same_ids_first_index(s0, s1, *process_id);
            }
            let name = match state.process_manager.get(*process_id) {
                Some(info) => info.project_name.clone(),
                None => {
                    return None;
                },
            };
            state.routing_table.install(name.clone(), *port);
            match state.registry.update_port(name.as_str(), Some(*port)) {
                Ok(updated) => Some(updated),
                Err(()) => None,
            }
        },
        ProcessEvent::Exited { process_id, exit_code } => {
            let name = match state.process_manager.get(*process_id) {
                Some(info) => Some(info.project_name.clone()),
                None => None,
            };
            let code_is_zero = match exit_code {
                Some(c) => *c == 0,
                None => false,
            };
            let status = if code_is_zero {
                ProcessStatus::Stopped
            } else {
                ProcessStatus::Failed
            };
            state.process_manager.update_status(*process_id, status);
            match name {
                Some(n) => {
                    state.routing_table.remove(n.as_str());
                },
                None => {},
            }
            None
        },
    }
}

/// The routing invariant: every running record that has a discovered port
/// keeps an entry for its project in the routing table.
pub open spec fn ports_routed(s: DaemonState) -> bool {
    forall|i: int|
        0 <= i < s.process_manager.records().len() && is_running(
            #[trigger] s.process_manager.records()[i],
        ) && s.process_manager.records()[i].port is Some
            ==> s.routing_table.as_map().contains_key(s.process_manager.records()[i].project_name@)
}

/// Routing one event preserves `ports_routed`, provided that an exiting
/// record is the only running record of its project that holds a port:
/// when two running processes of one project both carry ports, the exit
/// of one unroutes the other, and the invariant does not survive.
pub proof fn lemma_route_event_preserves_ports_routed(
    pre: DaemonState,
    event: ProcessEvent,
    post: DaemonState,
    persist: Option<Project>,
)
    requires
        ports_routed(pre),
        route_event_rel(pre, event, post, persist),
        match event {
            ProcessEvent::Exited { process_id, .. } => has_id(
                pre.process_manager.records(),
                process_id,
            ) ==> ({
                let i = first_index(pre.process_manager.records(), process_id);
                forall|j: int|
                    0 <= j < pre.process_manager.records().len() && j != i && (
                    #[trigger] pre.process_manager.records()[j]).project_name@
                        == pre.process_manager.records()[i].project_name@ ==> !(is_running(
                        pre.process_manager.records()[j],
                    ) && pre.process_manager.records()[j].port is Some)
            }),
            _ => true,
        },
    ensures
        ports_routed(post),
{
    match event {
        ProcessEvent::Output { .. } => {},
        ProcessEvent::PortDetected { process_id, port } => {
            if has_id(pre.process_manager.records(), process_id) {
                lemma_first_index_props(pre.process_manager.records(), process_id);
                let i = first_index(pre.process_manager.records(), process_id);
                assert forall|k: int|
                    0 <= k < post.process_manager.records().len() && is_running(
                        #[trigger] post.process_manager.records()[k],
                    ) && post.process_manager.records()[k].port is Some implies post
                    .routing_table.as_map().contains_key(
                    post.process_manager.records()[k].project_name@,
                ) by {
                    if k != i {
                        assert(post.process_manager.records()[k]
                            == pre.process_manager.records()[k]);
                    }
                }
            }
        },
        ProcessEvent::Exited { process_id, exit_code } => {
            if has_id(pre.process_manager.records(), process_id) {
                lemma_first_index_props(pre.process_manager.records(), process_id);
                let i = first_index(pre.process_manager.records(), process_id);
                assert forall|k: int|
                    0 <= k < post.process_manager.records().len() && is_running(
                        #[trigger] post.process_manager.records()[k],
                    ) && post.process_manager.records()[k].port is Some implies post
                    .routing_table.as_map().contains_key(
                    post.process_manager.records()[k].project_name@,
                ) by {
                    assert(k != i);
                    assert(post.process_manager.records()[k] == pre.process_manager.records()[k]);
                    assert(pre.process_manager.records()[k].project_name@
                        != pre.process_manager.records()[i].project_name@);
                }
            }
        },
    }
}

} // verus!
