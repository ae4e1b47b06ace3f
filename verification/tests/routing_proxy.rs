use proj::proxy::{bad_gateway_body, decide, extract_project_name, RouteDecision};
use proj::routing::new_routing_table;

#[test]
fn routing_install_lookup_remove() {
    let mut t = new_routing_table();
    assert_eq!(t.lookup("alpha"), None);
    t.install("alpha".to_string(), 51515);
    assert_eq!(t.lookup("alpha"), Some(51515));
    t.install("alpha".to_string(), 52000);
    assert_eq!(t.lookup("alpha"), Some(52000));
    t.remove("alpha");
    assert_eq!(t.lookup("alpha"), None);
    t.remove("alpha");
    assert_eq!(t.lookup("alpha"), None);
}

#[test]
fn routing_snapshot_lists_routes() {
    let mut t = new_routing_table();
    t.install("alpha".to_string(), 51515);
    t.install("beta".to_string(), 51616);
    let snap = t.snapshot();
    assert_eq!(snap.len(), 2);
    for (name, port) in snap {
        assert_eq!(t.lookup(&name), Some(port));
    }
}

#[test]
fn extract_name_takes_leading_label() {
    assert_eq!(extract_project_name("my-app.localhost:8080"), "my-app");
    assert_eq!(extract_project_name("localhost:8080"), "localhost:8080");
    assert_eq!(extract_project_name(""), "");
    assert_eq!(extract_project_name("a.b.c"), "a");
}

#[test]
fn proxy_missing_host_is_404() {
    let t = new_routing_table();
    match decide(None, &t) {
        RouteDecision::NotFound { body } => {
            assert_eq!(body, "Not Found: No project specified. Use <project>.localhost:8080\n");
        }
        _ => panic!("expected 404"),
    }
}

#[test]
fn proxy_bare_localhost_is_404() {
    let mut t = new_routing_table();
    t.install("alpha".to_string(), 51515);
    match decide(Some("localhost:8080"), &t) {
        RouteDecision::NotFound { body } => {
            assert!(body.starts_with("Not Found:"));
        }
        _ => panic!("expected 404"),
    }
    match decide(Some("localhost"), &t) {
        RouteDecision::NotFound { .. } => {}
        _ => panic!("expected 404"),
    }
}

#[test]
fn proxy_unrouted_project_is_404() {
    let t = new_routing_table();
    match decide(Some("alpha.localhost:8080"), &t) {
        RouteDecision::NotFound { body } => {
            assert_eq!(
                body,
                "Not Found: Project 'alpha' not found or has no running process\n"
            );
        }
        _ => panic!("expected 404"),
    }
}

#[test]
fn proxy_routed_project_forwards() {
    let mut t = new_routing_table();
    t.install("alpha".to_string(), 51515);
    assert_eq!(
        decide(Some("alpha.localhost:8080"), &t),
        RouteDecision::Forward { port: 51515 }
    );
}

#[test]
fn proxy_two_projects_route_to_their_own_backends() {
    let mut t = new_routing_table();
    t.install("alpha".to_string(), 51515);
    t.install("beta".to_string(), 51616);
    assert_eq!(
        decide(Some("alpha.localhost:8080"), &t),
        RouteDecision::Forward { port: 51515 }
    );
    assert_eq!(
        decide(Some("beta.localhost:8080"), &t),
        RouteDecision::Forward { port: 51616 }
    );
}

#[test]
fn bad_gateway_body_wraps_error() {
    assert_eq!(
        bad_gateway_body("connection refused"),
        "Bad Gateway: Failed to connect to backend: connection refused\n"
    );
}
