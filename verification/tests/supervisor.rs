use proj::common::ProcessStatus;
use proj::probe::{parse_listen_port, ProbeTask, WaitTask};
use proj::process::{child_env, command_display, ProcessEvent, ProcessManager, StopError};
use proj::strutil::parse_port;

#[test]
fn spawn_records_running_process() {
    let mut m = ProcessManager::new();
    let info = m.spawn(
        "alpha".to_string(),
        "sh",
        &vec!["-c".to_string(), "nc -l 51515".to_string()],
        4242,
    );
    assert_eq!(info.project_name, "alpha");
    assert_eq!(info.pid, 4242);
    assert_eq!(info.command, "sh -c nc -l 51515");
    assert_eq!(info.port, None);
    assert_eq!(info.status, ProcessStatus::Running);
    assert_eq!(m.list().len(), 1);
    assert_eq!(m.get(info.id).unwrap().id, info.id);
}

#[test]
fn command_display_format() {
    assert_eq!(
        command_display("sh", &vec!["-c".to_string(), "nc -l 51515".to_string()]),
        "sh -c nc -l 51515"
    );
    // with no arguments, the display keeps the separating space
    assert_eq!(command_display("true", &Vec::new()), "true ");
}

#[test]
fn child_env_exports() {
    let env = child_env("alpha");
    assert_eq!(env.len(), 2);
    assert_eq!(env[0].0, "PROJECT_ID");
    assert_eq!(env[0].1, "alpha");
    assert_eq!(env[1].0, "PROJECT_HOST");
    assert_eq!(env[1].1, "alpha.localhost");
}

#[test]
fn running_count_counts_running_records() {
    let mut m = ProcessManager::new();
    let a = m.spawn("alpha".to_string(), "a", &Vec::new(), 1);
    let _b = m.spawn("alpha".to_string(), "b", &Vec::new(), 2);
    let c = m.spawn("beta".to_string(), "c", &Vec::new(), 3);
    assert_eq!(m.running_count(), 3);
    m.update_status(a.id, ProcessStatus::Failed);
    assert_eq!(m.running_count(), 2);
    m.update_status(c.id, ProcessStatus::Stopped);
    assert_eq!(m.running_count(), 1);
}

#[test]
fn list_for_project_filters() {
    let mut m = ProcessManager::new();
    m.spawn("alpha".to_string(), "a", &Vec::new(), 1);
    m.spawn("beta".to_string(), "b", &Vec::new(), 2);
    m.spawn("alpha".to_string(), "c", &Vec::new(), 3);
    assert_eq!(m.list_for_project("alpha").len(), 2);
    assert_eq!(m.list_for_project("beta").len(), 1);
    assert_eq!(m.list_for_project("gamma").len(), 0);
}

#[test]
fn update_port_sets_once() {
    let mut m = ProcessManager::new();
    let a = m.spawn("alpha".to_string(), "a", &Vec::new(), 1);
    m.update_port(a.id, 3000);
    assert_eq!(m.get(a.id).unwrap().port, Some(3000));
    // a second detection must not overwrite the first
    m.update_port(a.id, 4000);
    assert_eq!(m.get(a.id).unwrap().port, Some(3000));
}

#[test]
fn find_by_project_picks_latest_running() {
    let mut m = ProcessManager::new();
    let a = m.spawn("alpha".to_string(), "a", &Vec::new(), 1);
    let b = m.spawn("alpha".to_string(), "b", &Vec::new(), 2);
    let found = m.find_by_project("alpha").unwrap();
    assert!(found.id == a.id || found.id == b.id);
    m.update_status(found.id, ProcessStatus::Failed);
    let other = if found.id == a.id { b.id } else { a.id };
    assert_eq!(m.find_by_project("alpha").unwrap().id, other);
    m.update_status(other, ProcessStatus::Stopped);
    assert!(m.find_by_project("alpha").is_none());
}

#[test]
fn stop_unknown_process_is_error() {
    let mut m = ProcessManager::new();
    assert_eq!(m.stop(12345), Err(StopError::NotFound));
    assert_eq!(StopError::NotFound.message(), "Process not found");
}

#[test]
fn stop_with_dead_pid_reports_signal_failure() {
    let mut m = ProcessManager::new();
    // a pid far above the kernel's pid limit: the signal cannot be sent
    let a = m.spawn("alpha".to_string(), "a", &Vec::new(), 2_000_000_000);
    assert_eq!(m.stop(a.id), Err(StopError::SignalFailed));
    // the record stays running when the signal was refused
    assert_eq!(m.get(a.id).unwrap().status, ProcessStatus::Running);
}

#[test]
fn parse_lsof_listen_line() {
    let out = "COMMAND   PID USER   FD   TYPE DEVICE SIZE/OFF NODE NAME\n\
               node    93214  dev   23u  IPv6 0xdeadbeef      0t0  TCP *:3002 (LISTEN)\n";
    assert_eq!(parse_listen_port(out), Some(3002));
}

#[test]
fn parse_lsof_ignores_non_listen_lines() {
    let out = "node 93214 dev 23u IPv4 0x1 0t0 TCP 127.0.0.1:3002->127.0.0.1:55555 (ESTABLISHED)\n";
    assert_eq!(parse_listen_port(out), None);
    assert_eq!(parse_listen_port(""), None);
}

#[test]
fn parse_lsof_first_listen_wins() {
    let out = "a 1 u 1u IPv4 0x1 0t0 TCP 127.0.0.1:8080 (LISTEN)\n\
               b 2 u 2u IPv4 0x2 0t0 TCP *:9090 (LISTEN)\n";
    assert_eq!(parse_listen_port(out), Some(8080));
}

#[test]
fn parse_lsof_rejects_bad_ports() {
    // port 0 and ports above 65535 are not routable
    assert_eq!(parse_listen_port("x 93214 dev 23u IPv4 0x1 0t0 TCP *:0 (LISTEN)\n"), None);
    assert_eq!(parse_listen_port("x 93214 dev 23u IPv4 0x1 0t0 TCP *:70000 (LISTEN)\n"), None);
    assert_eq!(
        parse_listen_port("x 93214 dev 23u IPv4 0x1 0t0 TCP *:65535 (LISTEN)\n"),
        Some(65535)
    );
}

#[test]
fn parse_lsof_ipv6_listener() {
    let out = "node 1 dev 5u IPv6 0x2 0t0 TCP [::1]:3000 (LISTEN)\n";
    assert_eq!(parse_listen_port(out), Some(3000));
}

#[test]
fn parse_port_ranges() {
    let chars: Vec<char> = "51515".chars().collect();
    assert_eq!(parse_port(&chars, 0, 5), Some(51515));
    let zero: Vec<char> = "0".chars().collect();
    assert_eq!(parse_port(&zero, 0, 1), None);
    let big: Vec<char> = "65536".chars().collect();
    assert_eq!(parse_port(&big, 0, 5), None);
    let pad: Vec<char> = "00080".chars().collect();
    assert_eq!(parse_port(&pad, 0, 5), Some(80));
    let junk: Vec<char> = "12a4".chars().collect();
    assert_eq!(parse_port(&junk, 0, 4), None);
}

#[test]
fn probe_task_reports_at_most_once() {
    let mut p = ProbeTask::new(77);
    assert_eq!(p.tick(None), None);
    match p.tick(Some(3000)) {
        Some(ProcessEvent::PortDetected { process_id, port }) => {
            assert_eq!(process_id, 77);
            assert_eq!(port, 3000);
        }
        other => panic!("expected PortDetected, got {:?}", other),
    }
    // once reported, the probe never emits again
    assert_eq!(p.tick(Some(4000)), None);
    assert_eq!(p.tick(None), None);
}

#[test]
fn probe_task_gives_up_after_budget() {
    let mut p = ProbeTask::new(5);
    for _ in 0..60 {
        assert_eq!(p.tick(None), None);
    }
    // the budget is spent; even a late sighting is not reported
    assert_eq!(p.tick(Some(3000)), None);
}

#[test]
fn wait_task_reports_exactly_once() {
    let mut w = WaitTask::new(9);
    match w.complete(Some(0)) {
        Some(ProcessEvent::Exited { process_id, exit_code }) => {
            assert_eq!(process_id, 9);
            assert_eq!(exit_code, Some(0));
        }
        other => panic!("expected Exited, got {:?}", other),
    }
    assert_eq!(w.complete(Some(0)), None);
    assert_eq!(w.complete(None), None);
}
