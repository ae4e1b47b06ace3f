use proj::common::{validate_project_name, NameError};

#[test]
fn test_validate_project_name() {
    assert!(validate_project_name("my-app").is_ok());
    assert!(validate_project_name("my_app").is_ok());
    assert!(validate_project_name("myapp123").is_ok());
    assert!(validate_project_name("").is_err());
    assert!(validate_project_name("-myapp").is_err());
    assert!(validate_project_name("my app").is_err());
    assert!(validate_project_name("my.app").is_err());
}

#[test]
fn validate_length_bounds() {
    let long64: String = "a".repeat(64);
    assert!(validate_project_name(&long64).is_ok());
    let long65: String = "a".repeat(65);
    assert_eq!(validate_project_name(&long65), Err(NameError::TooLong));
}

#[test]
fn validate_error_kinds() {
    assert_eq!(validate_project_name(""), Err(NameError::Empty));
    assert_eq!(validate_project_name("-myapp"), Err(NameError::BadStart));
    assert_eq!(validate_project_name("_myapp"), Err(NameError::BadStart));
    assert_eq!(validate_project_name("my app"), Err(NameError::InvalidChar));
    assert_eq!(validate_project_name("my.app"), Err(NameError::InvalidChar));
    assert_eq!(validate_project_name("9lives"), Ok(()));
}

#[test]
fn validate_rejects_non_ascii() {
    assert_eq!(validate_project_name("caf\u{e9}"), Err(NameError::InvalidChar));
}

#[test]
fn validate_error_messages() {
    assert_eq!(NameError::Empty.message(), "Project name cannot be empty");
    assert_eq!(NameError::TooLong.message(), "Project name cannot exceed 64 characters");
    assert_eq!(
        NameError::InvalidChar.message(),
        "Project name can only contain alphanumeric characters, hyphens, and underscores"
    );
    assert_eq!(
        NameError::BadStart.message(),
        "Project name cannot start with a hyphen or underscore"
    );
}

#[test]
fn standard_paths_end_as_expected() {
    if let Ok(p) = proj::common::proj_dir() {
        assert!(p.ends_with("/.proj"));
    }
    if let Ok(p) = proj::common::projects_dir() {
        assert!(p.ends_with("/.proj/projects"));
    }
    if let Ok(p) = proj::common::project_dir("alpha") {
        assert!(p.ends_with("/.proj/projects/alpha"));
    }
    if let Ok(p) = proj::common::socket_path() {
        assert!(p.ends_with("/.proj/daemon.sock"));
    }
    if let Ok(p) = proj::common::config_path() {
        assert!(p.ends_with("/.proj/config.json"));
    }
    if let Ok(p) = proj::common::pid_file_path() {
        assert!(p.ends_with("/.proj/daemon.pid"));
    }
}

#[test]
fn default_config_port() {
    assert_eq!(proj::common::default_proxy_port(), 8080);
    let c: proj::common::Config = Default::default();
    assert_eq!(c.proxy_port, 8080);
}
