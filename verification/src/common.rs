//! Shared data model of the daemon: project and process records, IPC
//! request/response shapes, project-name validation, and the standard
//! on-disk paths under `~/.proj`.

use vstd::prelude::*;
use vstd::string::*;

verus! {

/// Status of a managed process. `Running` is the only non-terminal state.
#[derive(Clone, Copy, Debug, PartialEq, Eq, Structural)]
pub enum ProcessStatus {
    Running,
    Stopped,
    Failed,
}

/// Project metadata kept by the registry and persisted as `project.json`.
/// The id is a 128-bit value chosen at creation; the creation time is a
/// millisecond timestamp; the root directory is kept as a path string.
#[derive(Debug, PartialEq, Eq)]
pub struct Project {
    pub name: String,
    pub id: u128,
    pub created_at_millis: i64,
    pub root_dir: String,
    pub port: Option<u16>,
}

/// Public record of one supervised command.
#[derive(Debug, PartialEq, Eq)]
pub struct ProcessInfo {
    pub id: u128,
    pub project_name: String,
    pub pid: u32,
    pub command: String,
    pub started_at_millis: i64,
    pub port: Option<u16>,
    pub status: ProcessStatus,
}

/// Global configuration.
#[derive(Clone, Copy, Debug, PartialEq, Eq, Structural)]
pub struct Config {
    pub proxy_port: u16,
}

impl Default for Config {
    /// The default configuration routes through proxy port 8080.
    fn default() -> (r: Self)
        ensures
            r.proxy_port == 8080,
    {
        Config { proxy_port: 8080 }
    }
}

impl Project {
    /// A fresh project record: a newly drawn id, the current time, no
    /// port yet.
    pub fn new(name: String, root_dir: String) -> (r: Self)
        ensures
            r.name@ == name@,
            r.root_dir@ == root_dir@,
            r.port is None,
    {
        Project {
            name,
            id: fresh_uuid128(),
            created_at_millis: now_millis(),
            root_dir,
            port: None,
        }
    }
}

impl Clone for Project {
    fn clone(&self) -> (r: Self)
        ensures
            r == *self,
    {
        Project {
            name: self.name.clone(),
            id: self.id,
            created_at_millis: self.created_at_millis,
            root_dir: self.root_dir.clone(),
            port: self.port,
        }
    }
}

impl Clone for ProcessInfo {
    fn clone(&self) -> (r: Self)
        ensures
            r == *self,
    {
        ProcessInfo {
            id: self.id,
            project_name: self.project_name.clone(),
            pid: self.pid,
            command: self.command.clone(),
            started_at_millis: self.started_at_millis,
            port: self.port,
            status: self.status,
        }
    }
}

/// One request from the CLI to the daemon.
#[derive(Debug, PartialEq, Eq)]
pub enum IpcRequest {
    CreateProject { name: String, root_dir: String },
    ListProjects,
    GetProject { name: String },
    RunCommand { project_name: String, command: String, args: Vec<String> },
    StopProcess { project_name: String, process_id: u128 },
    ListProcesses { project_name: Option<String> },
    Status,
    Shutdown,
}

/// One response from the daemon to the CLI.
#[derive(Debug, PartialEq, Eq)]
pub enum IpcResponse {
    Success { message: Option<String> },
    Project(Project),
    Projects(Vec<Project>),
    ProcessStarted { process: ProcessInfo },
    Processes(Vec<ProcessInfo>),
    Status { running: bool, project_count: usize, process_count: usize },
    Error { message: String },
}

/// Port the reverse proxy listens on when no configuration overrides it.
pub fn default_proxy_port() -> (r: u16)
    ensures
        r == 8080,
{
    8080
}

pub open spec fn is_ascii_alnum(c: char) -> bool {
    (48 <= c as u32 <= 57) || (65 <= c as u32 <= 90) || (97 <= c as u32 <= 122)
}

/// Characters a project name may contain: ASCII alphanumerics, `-`, `_`.
pub open spec fn is_name_char(c: char) -> bool {
    is_ascii_alnum(c) || c as u32 == 45 || c as u32 == 95
}

pub open spec fn all_name_chars(s: Seq<char>) -> bool {
    forall|i: int| 0 <= i < s.len() ==> is_name_char(#[trigger] s[i])
}

/// A valid project name: one to 64 characters, every one an ASCII
/// alphanumeric, hyphen or underscore, and the first one alphanumeric.
pub open spec fn valid_project_name(s: Seq<char>) -> bool {
    1 <= s.len() <= 64 && all_name_chars(s) && is_ascii_alnum(s[0])
}

/// Why a project name was rejected.
#[derive(Clone, Copy, Debug, PartialEq, Eq, Structural)]
pub enum NameError {
    Empty,
    TooLong,
    InvalidChar,
    BadStart,
}

impl NameError {
    pub fn message(&self) -> (r: String)
        ensures
            self is Empty ==> r@ == "Project name cannot be empty"@,
            self is TooLong ==> r@ == "Project name cannot exceed 64 characters"@,
            self is InvalidChar ==> r@
                == "Project name can only contain alphanumeric characters, hyphens, and underscores"@,
            self is BadStart ==> r@ == "Project name cannot start with a hyphen or underscore"@,
    {
        match self {
            NameError::Empty => String::from_str("Project name cannot be empty"),
            NameError::TooLong => String::from_str("Project name cannot exceed 64 characters"),
            NameError::InvalidChar => String::from_str(
                "Project name can only contain alphanumeric characters, hyphens, and underscores",
            ),
            NameError::BadStart => String::from_str(
                "Project name cannot start with a hyphen or underscore",
            ),
        }
    }
}

/// The outcome `validate_project_name` owes for a given name, checked in
/// the order: emptiness, length, character set, leading character.
pub open spec fn spec_validate_name(s: Seq<char>) -> Result<(), NameError> {
    if s.len() == 0 {
        Err(NameError::Empty)
    } else if s.len() > 64 {
        Err(NameError::TooLong)
    } else if !all_name_chars(s) {
        Err(NameError::InvalidChar)
    } else if !is_ascii_alnum(s[0]) {
        Err(NameError::BadStart)
    } else {
        Ok(())
    }
}

/// Accepts exactly the valid project names and reports the first failing
/// check otherwise.
pub fn validate_project_name(name: &str) -> (r: Result<(), NameError>)
    ensures
        r == spec_validate_name(name@),
        r is Ok <==> valid_project_name(name@),
{
    let n: usize = name.unicode_len();
    if n == 0 {
        return Err(NameError::Empty);
    }
    if n > 64 {
        return Err(NameError::TooLong);
    }
    let mut i: usize = 0;
    while i < n
        invariant
            i <= n,
            1 <= n <= 64,
            n == name@.len(),
            forall|j: int| 0 <= j < i ==> is_name_char(#[trigger] name@[j]),
        decreases n - i,
    {
        let c = name.get_char(i);
        let cv = c as u32;
        let ok = (48 <= cv && cv <= 57) || (65 <= cv && cv <= 90) || (97 <= cv && cv <= 122)
            || cv == 45 || cv == 95;
        if !ok {
            proof {
                assert(!is_name_char(name@[i as int]));
                assert(!all_name_chars(name@));
            }
            return Err(NameError::InvalidChar);
        }
        i = i + 1;
    }
    let c0 = name.get_char(0);
    let cv0 = c0 as u32;
    if (48 <= cv0 && cv0 <= 57) || (65 <= cv0 && cv0 <= 90) || (97 <= cv0 && cv0 <= 122) {
        Ok(())
    } else {
        Err(NameError::BadStart)
    }
}

/// Why a standard path could not be produced.
#[derive(Clone, Copy, Debug, PartialEq, Eq, Structural)]
pub enum PathError {
    NoHomeDir,
}

impl PathError {
    pub fn message(&self) -> (r: String)
        ensures
            r@ == "Could not find home directory"@,
    {
        String::from_str("Could not find home directory")
    }
}

/// Relies on `dirs::home_dir`: the user's home directory, if the platform
/// reports one. The result depends on the environment, so nothing is
/// promised of it.
#[verifier::external_body]
fn home_dir_string() -> Option<String> {
    dirs::home_dir().map(|p| p.to_string_lossy().into_owned())
}

/// Relies on `uuid::Uuid::new_v4` (via `Uuid::as_u128`): a freshly drawn
/// random 128-bit identifier. The value is random, so nothing is promised
/// of it.
#[verifier::external_body]
pub(crate) fn fresh_uuid128() -> u128 {
    uuid::Uuid::new_v4().as_u128()
}

/// Relies on `chrono::Utc::now` and `DateTime::timestamp_millis`: the
/// current wall-clock time in milliseconds since the Unix epoch. The value
/// depends on the clock, so nothing is promised of it.
#[verifier::external_body]
pub(crate) fn now_millis() -> i64 {
    chrono::Utc::now().timestamp_millis()
}

/// The daemon's base directory under a given home directory.
pub open spec fn proj_dir_of(home: Seq<char>) -> Seq<char> {
    home + "/.proj"@
}

pub open spec fn projects_dir_of(home: Seq<char>) -> Seq<char> {
    proj_dir_of(home) + "/projects"@
}

pub open spec fn project_dir_of(home: Seq<char>, name: Seq<char>) -> Seq<char> {
    projects_dir_of(home) + "/"@ + name
}

pub open spec fn socket_path_of(home: Seq<char>) -> Seq<char> {
    proj_dir_of(home) + "/daemon.sock"@
}

pub open spec fn config_path_of(home: Seq<char>) -> Seq<char> {
    proj_dir_of(home) + "/config.json"@
}

pub open spec fn pid_file_path_of(home: Seq<char>) -> Seq<char> {
    proj_dir_of(home) + "/daemon.pid"@
}

/// The base directory for daemon data, `<home>/.proj`.
pub fn proj_dir() -> (r: Result<String, PathError>)
    ensures
        r matches Ok(p) ==> exists|h: Seq<char>| p@ == proj_dir_of(h),
{
    match home_dir_string() {
        Some(home) => {
            let p = home.concat("/.proj");
            proof {
                assert(p@ == proj_dir_of(home@));
            }
            Ok(p)
        },
        None => Err(PathError::NoHomeDir),
    }
}

/// The directory that holds one subdirectory per project.
pub fn projects_dir() -> (r: Result<String, PathError>)
    ensures
        r matches Ok(p) ==> exists|h: Seq<char>| p@ == projects_dir_of(h),
{
    match proj_dir() {
        Ok(base) => {
            let ghost h = choose|h: Seq<char>| base@ == proj_dir_of(h);
            let p = base.concat("/projects");
            proof {
                assert(p@ == projects_dir_of(h));
            }
            Ok(p)
        },
        Err(e) => Err(e),
    }
}

/// The directory for one project's records.
pub fn project_dir(name: &str) -> (r: Result<String, PathError>)
    ensures
        r matches Ok(p) ==> exists|h: Seq<char>| p@ == project_dir_of(h, name@),
{
    match projects_dir() {
        Ok(base) => {
            let ghost h = choose|h: Seq<char>| base@ == projects_dir_of(h);
            let p = base.concat("/").concat(name);
            proof {
                assert(p@ == project_dir_of(h, name@));
            }
            Ok(p)
        },
        Err(e) => Err(e),
    }
}

/// The daemon's Unix socket path.
pub fn socket_path() -> (r: Result<String, PathError>)
    ensures
        r matches Ok(p) ==> exists|h: Seq<char>| p@ == socket_path_of(h),
{
    match proj_dir() {
        Ok(base) => {
            let ghost h = choose|h: Seq<char>| base@ == proj_dir_of(h);
            let p = base.concat("/daemon.sock");
            proof {
                assert(p@ == socket_path_of(h));
            }
            Ok(p)
        },
        Err(e) => Err(e),
    }
}

/// The config file path.
pub fn config_path() -> (r: Result<String, PathError>)
    ensures
        r matches Ok(p) ==> exists|h: Seq<char>| p@ == config_path_of(h),
{
    match proj_dir() {
        Ok(base) => {
            let ghost h = choose|h: Seq<char>| base@ == proj_dir_of(h);
            let p = base.concat("/config.json");
            proof {
                assert(p@ == config_path_of(h));
            }
            Ok(p)
        },
        Err(e) => Err(e),
    }
}

/// The daemon PID file path.
pub fn pid_file_path() -> (r: Result<String, PathError>)
    ensures
        r matches Ok(p) ==> exists|h: Seq<char>| p@ == pid_file_path_of(h),
{
    match proj_dir() {
        Ok(base) => {
            let ghost h = choose|h: Seq<char>| base@ == proj_dir_of(h);
            let p = base.concat("/daemon.pid");
            proof {
                assert(p@ == pid_file_path_of(h));
            }
            Ok(p)
        },
        Err(e) => Err(e),
    }
}

} // verus!
