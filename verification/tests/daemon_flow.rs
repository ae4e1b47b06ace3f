use proj::common::{IpcRequest, IpcResponse, ProcessStatus};
use proj::ipc::{complete_spawn, handle_request, route_event, DaemonState, DispatchOutcome};
use proj::process::ProcessEvent;
use proj::proxy::{decide, RouteDecision};
use proj::registry::Registry;
use proj::routing::new_routing_table;

fn fresh_state() -> DaemonState {
    DaemonState::new(new_routing_table())
}

fn create(state: &mut DaemonState, name: &str, root: &str) -> proj::common::Project {
    let out = handle_request(
        state,
        IpcRequest::CreateProject { name: name.to_string(), root_dir: root.to_string() },
    );
    match out {
        DispatchOutcome::Reply { response: IpcResponse::Project(p), persist } => {
            assert_eq!(persist.as_ref(), Some(&p));
            p
        }
        other => panic!("expected project reply, got {:?}", other),
    }
}

#[test]
fn create_project_and_get_it_back() {
    let mut state = fresh_state();
    let p = create(&mut state, "alpha", "/tmp/alpha");
    assert_eq!(p.name, "alpha");
    assert_eq!(p.root_dir, "/tmp/alpha");
    assert_eq!(p.port, None);
    match handle_request(&mut state, IpcRequest::GetProject { name: "alpha".to_string() }) {
        DispatchOutcome::Reply { response: IpcResponse::Project(q), persist: None } => {
            assert_eq!(q, p);
        }
        other => panic!("unexpected outcome {:?}", other),
    }
}

#[test]
fn duplicate_create_errors_and_persists_once() {
    let mut state = fresh_state();
    create(&mut state, "x", "/tmp/x");
    match handle_request(
        &mut state,
        IpcRequest::CreateProject { name: "x".to_string(), root_dir: "/tmp/x".to_string() },
    ) {
        DispatchOutcome::Reply { response: IpcResponse::Error { message }, persist } => {
            assert!(message.contains("already exists"));
            assert_eq!(message, "Project 'x' already exists");
            // nothing to write: the record was persisted exactly once
            assert_eq!(persist, None);
        }
        other => panic!("unexpected outcome {:?}", other),
    }
    match handle_request(&mut state, IpcRequest::ListProjects) {
        DispatchOutcome::Reply { response: IpcResponse::Projects(ps), .. } => {
            assert_eq!(ps.len(), 1);
        }
        other => panic!("unexpected outcome {:?}", other),
    }
}

#[test]
fn create_invalid_name_errors() {
    let mut state = fresh_state();
    match handle_request(
        &mut state,
        IpcRequest::CreateProject { name: "-bad".to_string(), root_dir: "/tmp".to_string() },
    ) {
        DispatchOutcome::Reply { response: IpcResponse::Error { message }, .. } => {
            assert_eq!(message, "Project name cannot start with a hyphen or underscore");
        }
        other => panic!("unexpected outcome {:?}", other),
    }
}

#[test]
fn get_unknown_project_errors() {
    let mut state = fresh_state();
    match handle_request(&mut state, IpcRequest::GetProject { name: "ghost".to_string() }) {
        DispatchOutcome::Reply { response: IpcResponse::Error { message }, .. } => {
            assert_eq!(message, "Project 'ghost' not found");
        }
        other => panic!("unexpected outcome {:?}", other),
    }
}

#[test]
fn run_command_plans_spawn_without_touching_state() {
    let mut state = fresh_state();
    create(&mut state, "alpha", "/tmp/alpha");
    let out = handle_request(
        &mut state,
        IpcRequest::RunCommand {
            project_name: "alpha".to_string(),
            command: "sh".to_string(),
            args: vec!["-c".to_string(), "nc -l 51515".to_string()],
        },
    );
    match out {
        DispatchOutcome::Spawn { plan } => {
            assert_eq!(plan.project_name, "alpha");
            assert_eq!(plan.command, "sh");
            assert_eq!(plan.args, vec!["-c".to_string(), "nc -l 51515".to_string()]);
            assert_eq!(plan.working_dir, "/tmp/alpha");
        }
        other => panic!("expected spawn plan, got {:?}", other),
    }
    // a spawn that fails never reaches complete_spawn: no record exists
    match handle_request(&mut state, IpcRequest::ListProcesses { project_name: None }) {
        DispatchOutcome::Reply { response: IpcResponse::Processes(v), .. } => {
            assert!(v.is_empty());
        }
        other => panic!("unexpected outcome {:?}", other),
    }
}

#[test]
fn run_command_unknown_project_errors() {
    let mut state = fresh_state();
    match handle_request(
        &mut state,
        IpcRequest::RunCommand {
            project_name: "ghost".to_string(),
            command: "true".to_string(),
            args: Vec::new(),
        },
    ) {
        DispatchOutcome::Reply { response: IpcResponse::Error { message }, .. } => {
            assert_eq!(message, "Project 'ghost' not found");
        }
        other => panic!("unexpected outcome {:?}", other),
    }
}

#[test]
fn stop_unknown_process_id_errors() {
    let mut state = fresh_state();
    match handle_request(
        &mut state,
        IpcRequest::StopProcess { project_name: "alpha".to_string(), process_id: 314159 },
    ) {
        DispatchOutcome::Reply { response: IpcResponse::Error { message }, .. } => {
            assert_eq!(message, "Process not found");
        }
        other => panic!("unexpected outcome {:?}", other),
    }
}

#[test]
fn status_reports_counts() {
    let mut state = fresh_state();
    create(&mut state, "alpha", "/tmp/alpha");
    create(&mut state, "beta", "/tmp/beta");
    match handle_request(&mut state, IpcRequest::Status) {
        DispatchOutcome::Reply {
            response: IpcResponse::Status { running, project_count, process_count },
            ..
        } => {
            assert!(running);
            assert_eq!(project_count, 2);
            assert_eq!(process_count, 0);
        }
        other => panic!("unexpected outcome {:?}", other),
    }
}

#[test]
fn shutdown_acknowledges() {
    let mut state = fresh_state();
    match handle_request(&mut state, IpcRequest::Shutdown) {
        DispatchOutcome::Reply { response: IpcResponse::Success { message }, .. } => {
            assert_eq!(message.as_deref(), Some("Shutting down"));
        }
        other => panic!("unexpected outcome {:?}", other),
    }
}

/// One full supervised life: create, spawn, port detected, route installed,
/// proxy forwards; exit, route removed, proxy answers 404.
#[test]
fn port_detection_installs_route_and_exit_removes_it() {
    let mut state = fresh_state();
    create(&mut state, "alpha", "/tmp/alpha");
    let plan = match handle_request(
        &mut state,
        IpcRequest::RunCommand {
            project_name: "alpha".to_string(),
            command: "sh".to_string(),
            args: vec!["-c".to_string(), "nc -l 51515".to_string()],
        },
    ) {
        DispatchOutcome::Spawn { plan } => plan,
        other => panic!("expected spawn plan, got {:?}", other),
    };
    let process = match complete_spawn(&mut state, plan, 4242) {
        IpcResponse::ProcessStarted { process } => process,
        other => panic!("expected ProcessStarted, got {:?}", other),
    };
    assert_eq!(process.status, ProcessStatus::Running);

    // the probe saw the child listening on 51515
    let persist = route_event(
        &mut state,
        &ProcessEvent::PortDetected { process_id: process.id, port: 51515 },
    );
    let updated = persist.expect("the project record must be persisted with its port");
    assert_eq!(updated.name, "alpha");
    assert_eq!(updated.port, Some(51515));
    assert_eq!(state.routing_table.lookup("alpha"), Some(51515));
    assert_eq!(
        decide(Some("alpha.localhost:8080"), &state.routing_table),
        RouteDecision::Forward { port: 51515 }
    );
    // the record now carries its port and is routed: the routing invariant
    let rec = state.process_manager.get(process.id).unwrap();
    assert_eq!(rec.port, Some(51515));
    assert_eq!(rec.status, ProcessStatus::Running);

    // the child dies out-of-band: the route disappears with the next event
    let persist = route_event(
        &mut state,
        &ProcessEvent::Exited { process_id: process.id, exit_code: Some(0) },
    );
    assert_eq!(persist, None);
    assert_eq!(state.routing_table.lookup("alpha"), None);
    assert_eq!(state.process_manager.get(process.id).unwrap().status, ProcessStatus::Stopped);
    match decide(Some("alpha.localhost:8080"), &state.routing_table) {
        RouteDecision::NotFound { .. } => {}
        other => panic!("expected 404 after exit, got {:?}", other),
    }
}

#[test]
fn nonzero_exit_marks_failed() {
    let mut state = fresh_state();
    create(&mut state, "alpha", "/tmp/alpha");
    let plan = match handle_request(
        &mut state,
        IpcRequest::RunCommand {
            project_name: "alpha".to_string(),
            command: "false".to_string(),
            args: Vec::new(),
        },
    ) {
        DispatchOutcome::Spawn { plan } => plan,
        other => panic!("expected spawn plan, got {:?}", other),
    };
    let process = match complete_spawn(&mut state, plan, 77) {
        IpcResponse::ProcessStarted { process } => process,
        other => panic!("expected ProcessStarted, got {:?}", other),
    };
    route_event(&mut state, &ProcessEvent::Exited { process_id: process.id, exit_code: Some(1) });
    assert_eq!(state.process_manager.get(process.id).unwrap().status, ProcessStatus::Failed);
}

#[test]
fn output_events_change_nothing() {
    let mut state = fresh_state();
    create(&mut state, "alpha", "/tmp/alpha");
    let persist = route_event(
        &mut state,
        &ProcessEvent::Output { process_id: 1, line: "hello".to_string(), is_stderr: false },
    );
    assert_eq!(persist, None);
    assert_eq!(state.registry.count(), 1);
}

#[test]
fn registry_crud() {
    let mut r = Registry::new();
    assert_eq!(r.count(), 0);
    let p = r.create("alpha".to_string(), "/tmp/alpha".to_string()).unwrap();
    assert_eq!(r.count(), 1);
    assert_eq!(r.get("alpha").unwrap().id, p.id);
    assert!(r.get("beta").is_none());
    let dup = r.create("alpha".to_string(), "/other".to_string());
    assert!(dup.is_err());
    assert_eq!(
        dup.unwrap_err().message("alpha"),
        "Project 'alpha' already exists"
    );
    let updated = r.update_port("alpha", Some(3000)).unwrap();
    assert_eq!(updated.port, Some(3000));
    assert_eq!(r.get("alpha").unwrap().port, Some(3000));
    assert!(r.update_port("ghost", Some(1)).is_err());
    assert_eq!(r.find_by_port(3000).unwrap().name, "alpha");
    assert!(r.find_by_port(4000).is_none());
    assert_eq!(r.list().len(), 1);
}

#[test]
fn registry_load_record_replaces_by_name() {
    let mut r = Registry::new();
    let p = r.create("alpha".to_string(), "/tmp/alpha".to_string()).unwrap();
    let mut reloaded = p.clone();
    reloaded.port = Some(9999);
    r.load_record(reloaded);
    assert_eq!(r.count(), 1);
    assert_eq!(r.get("alpha").unwrap().port, Some(9999));
}
