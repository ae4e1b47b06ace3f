use proj::cli::{
    find_running_for, parse_project_args, running_processes, select_project_for_cwd,
    split_command, CliAction,
};
use proj::common::{ProcessInfo, ProcessStatus, Project};

fn args(v: &[&str]) -> Vec<String> {
    v.iter().map(|s| s.to_string()).collect()
}

#[test]
fn parse_args_overview_and_info() {
    assert_eq!(parse_project_args(Vec::new()), CliAction::ShowStatus);
    assert_eq!(
        parse_project_args(args(&["alpha"])),
        CliAction::ProjectInfo { name: "alpha".to_string() }
    );
    assert_eq!(
        parse_project_args(args(&["alpha", "info"])),
        CliAction::ProjectInfo { name: "alpha".to_string() }
    );
}

#[test]
fn parse_args_run_open_stop() {
    assert_eq!(
        parse_project_args(args(&["alpha", "run", "npm", "run", "dev"])),
        CliAction::Run {
            name: "alpha".to_string(),
            command: args(&["npm", "run", "dev"]),
        }
    );
    assert_eq!(
        parse_project_args(args(&["alpha", "run"])),
        CliAction::RunUsageError { name: "alpha".to_string() }
    );
    assert_eq!(
        parse_project_args(args(&["alpha", "open"])),
        CliAction::Open { name: "alpha".to_string() }
    );
    assert_eq!(
        parse_project_args(args(&["alpha", "stop"])),
        CliAction::Stop { name: "alpha".to_string() }
    );
}

#[test]
fn parse_args_bare_command_runs() {
    // an unrecognized action word starts the command itself
    assert_eq!(
        parse_project_args(args(&["alpha", "npm", "run", "dev"])),
        CliAction::Run {
            name: "alpha".to_string(),
            command: args(&["npm", "run", "dev"]),
        }
    );
}

#[test]
fn split_command_separates_program() {
    assert_eq!(split_command(Vec::new()), None);
    let (cmd, rest) = split_command(args(&["sh", "-c", "true"])).unwrap();
    assert_eq!(cmd, "sh");
    assert_eq!(rest, args(&["-c", "true"]));
    let (cmd, rest) = split_command(args(&["true"])).unwrap();
    assert_eq!(cmd, "true");
    assert!(rest.is_empty());
}

fn info(name: &str, id: u128, status: ProcessStatus) -> ProcessInfo {
    ProcessInfo {
        id,
        project_name: name.to_string(),
        pid: 1,
        command: "x".to_string(),
        started_at_millis: 0,
        port: None,
        status,
    }
}

#[test]
fn running_filters_and_find_running() {
    let list = vec![
        info("alpha", 1, ProcessStatus::Stopped),
        info("alpha", 2, ProcessStatus::Running),
        info("beta", 3, ProcessStatus::Running),
        info("alpha", 4, ProcessStatus::Failed),
    ];
    let running = running_processes(&list);
    assert_eq!(running.len(), 2);
    assert_eq!(find_running_for(&list, "alpha").unwrap().id, 2);
    assert_eq!(find_running_for(&list, "beta").unwrap().id, 3);
    assert!(find_running_for(&list, "gamma").is_none());
}

fn project(name: &str, root: &str) -> Project {
    Project {
        name: name.to_string(),
        id: 7,
        created_at_millis: 0,
        root_dir: root.to_string(),
        port: None,
    }
}

#[test]
fn select_project_by_working_directory() {
    let projects = vec![project("alpha", "/tmp/alpha"), project("beta", "/srv/beta")];
    assert_eq!(select_project_for_cwd(&projects, "/tmp/alpha").as_deref(), Some("alpha"));
    assert_eq!(
        select_project_for_cwd(&projects, "/tmp/alpha/src/deep").as_deref(),
        Some("alpha")
    );
    assert_eq!(select_project_for_cwd(&projects, "/srv/beta/x").as_deref(), Some("beta"));
    // a sibling directory that merely shares the prefix does not match
    assert_eq!(select_project_for_cwd(&projects, "/tmp/alphabet"), None);
    assert_eq!(select_project_for_cwd(&projects, "/home"), None);
}
