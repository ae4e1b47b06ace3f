use proj::common::{IpcRequest, IpcResponse, ProcessInfo, ProcessStatus, Project};
use proj::message::{decode_request, decode_response, encode_request, encode_response};

fn round_trip_request(req: IpcRequest) {
    let line = encode_request(&req);
    assert_eq!(decode_request(&line), Some(req));
}

fn round_trip_response(resp: IpcResponse) {
    let line = encode_response(&resp);
    assert_eq!(decode_response(&line), Some(resp));
}

fn sample_project() -> Project {
    Project {
        name: "alpha".to_string(),
        id: 42,
        created_at_millis: 1_700_000_000_123,
        root_dir: "/tmp/alpha".to_string(),
        port: Some(51515),
    }
}

fn sample_process(status: ProcessStatus) -> ProcessInfo {
    ProcessInfo {
        id: 7,
        project_name: "alpha".to_string(),
        pid: 4242,
        command: "sh -c \"nc -l 51515\"".to_string(),
        started_at_millis: -12,
        port: None,
        status,
    }
}

#[test]
fn requests_round_trip() {
    round_trip_request(IpcRequest::CreateProject {
        name: "my-app".to_string(),
        root_dir: "/home/dev/my \"odd\" dir".to_string(),
    });
    round_trip_request(IpcRequest::ListProjects);
    round_trip_request(IpcRequest::GetProject { name: "alpha".to_string() });
    round_trip_request(IpcRequest::RunCommand {
        project_name: "alpha".to_string(),
        command: "sh".to_string(),
        args: vec!["-c".to_string(), "nc -l 51515".to_string()],
    });
    round_trip_request(IpcRequest::RunCommand {
        project_name: "alpha".to_string(),
        command: "true".to_string(),
        args: Vec::new(),
    });
    round_trip_request(IpcRequest::StopProcess {
        project_name: "alpha".to_string(),
        process_id: u128::MAX,
    });
    round_trip_request(IpcRequest::ListProcesses { project_name: Some("alpha".to_string()) });
    round_trip_request(IpcRequest::ListProcesses { project_name: None });
    round_trip_request(IpcRequest::Status);
    round_trip_request(IpcRequest::Shutdown);
}

#[test]
fn responses_round_trip() {
    round_trip_response(IpcResponse::Success { message: None });
    round_trip_response(IpcResponse::Success { message: Some("Shutting down".to_string()) });
    round_trip_response(IpcResponse::Project(sample_project()));
    round_trip_response(IpcResponse::Projects(Vec::new()));
    round_trip_response(IpcResponse::Projects(vec![
        sample_project(),
        Project {
            name: "beta".to_string(),
            id: 0,
            created_at_millis: 0,
            root_dir: "/srv/beta".to_string(),
            port: None,
        },
    ]));
    round_trip_response(IpcResponse::ProcessStarted {
        process: sample_process(ProcessStatus::Running),
    });
    round_trip_response(IpcResponse::Processes(Vec::new()));
    round_trip_response(IpcResponse::Processes(vec![
        sample_process(ProcessStatus::Running),
        sample_process(ProcessStatus::Stopped),
        sample_process(ProcessStatus::Failed),
    ]));
    round_trip_response(IpcResponse::Status {
        running: true,
        project_count: 2,
        process_count: 0,
    });
    round_trip_response(IpcResponse::Error {
        message: "Project 'alpha' already exists".to_string(),
    });
}

#[test]
fn request_wire_text_is_json_shaped() {
    let line = encode_request(&IpcRequest::RunCommand {
        project_name: "alpha".to_string(),
        command: "sh".to_string(),
        args: vec!["-c".to_string(), "true".to_string()],
    });
    assert_eq!(
        line,
        "{\"type\":\"run_command\",\"project_name\":\"alpha\",\"command\":\"sh\",\"args\":[\"-c\",\"true\"]}"
    );
    let line = encode_request(&IpcRequest::Status);
    assert_eq!(line, "{\"type\":\"status\"}");
}

#[test]
fn decoder_rejects_other_lines() {
    assert_eq!(decode_request(""), None);
    assert_eq!(decode_request("{\"type\":\"unknown\"}"), None);
    assert_eq!(decode_request("{\"type\":\"status\"} "), None);
    assert_eq!(decode_response("{\"type\":\"status\"}"), None);
}
