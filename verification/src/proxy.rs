//! Reverse-proxy request decisions: derive the project name from the
//! `Host` header, look the backend port up in the routing table, and build
//! the bodies of the error responses. Accepting connections and moving the
//! bytes is the daemon binary's work; it asks this module where each
//! request must go.

use vstd::prelude::*;
use vstd::string::*;
use crate::routing::RoutingTable;
use crate::strutil::str_eq;

verus! {

/// The host's leading label: everything before the first `.`, or the
/// whole host when it has none.
pub open spec fn name_prefix(host: Seq<char>) -> Seq<char>
    decreases host.len(),
{
    if host.len() == 0 {
        Seq::empty()
    } else if host[0] == '.' {
        Seq::empty()
    } else {
        seq![host[0]] + name_prefix(host.skip(1))
    }
}

proof fn lemma_name_prefix_at(s: Seq<char>, i: int)
    requires
        0 <= i <= s.len(),
        i < s.len() ==> s[i] == '.',
        forall|j: int| 0 <= j < i ==> (#[trigger] s[j]) != '.',
        i == s.len() ==> forall|j: int| 0 <= j < s.len() ==> (#[trigger] s[j]) != '.',
    ensures
        name_prefix(s) == s.take(i),
    decreases i,
{
    if i == 0 {
        assert(name_prefix(s) =~= s.take(0));
    } else {
        assert(s[0] != '.');
        assert(forall|j: int| 0 <= j < i - 1 ==> (#[trigger] s.skip(1)[j]) != '.');
        if i == s.len() {
            assert(forall|j: int|
                0 <= j < s.skip(1).len() ==> (#[trigger] s.skip(1)[j]) != '.');
        }
        lemma_name_prefix_at(s.skip(1), i - 1);
        assert(seq![s[0]] + s.skip(1).take(i - 1) =~= s.take(i));
    }
}

/// Extract the project name from a `Host` header value.
pub fn extract_project_name(host: &str) -> (r: String)
    ensures
        r@ == name_prefix(host@),
{
    let n: usize = host.unicode_len();
    let mut i: usize = 0;
    while i < n
        invariant
            i <= n,
            n == host@.len(),
            forall|j: int| 0 <= j < i ==> (#[trigger] host@[j]) != '.',
        decreases n - i,
    {
        if host.get_char(i) == '.' {
            proof {
                lemma_name_prefix_at(host@, i as int);
            }
            let name = host.substring_char(0, i);
            proof {
                assert(host@.subrange(0, i as int) =~= host@.take(i as int));
            }
            return String::from_str(name);
        }
        i = i + 1;
    }
    proof {
        lemma_name_prefix_at(host@, n as int);
        assert(host@.take(n as int) =~= host@);
    }
    String::from_str(host)
}

/// Where one proxied request must go.
#[derive(Debug, PartialEq, Eq)]
pub enum RouteDecision {
    /// Respond 404 with this plain-text body.
    NotFound { body: String },
    /// Forward to `127.0.0.1:<port>`.
    Forward { port: u16 },
}

/// Body of the 404 that explains the hostname convention.
pub open spec fn no_project_body() -> Seq<char> {
    "Not Found: No project specified. Use <project>.localhost:8080\n"@
}

/// Body of the 404 for a project that is unknown or has no route.
pub open spec fn unrouted_body(name: Seq<char>) -> Seq<char> {
    "Not Found: Project '"@ + name + "' not found or has no running process\n"@
}

/// What `decide` owes for a request whose `Host` header reads `host` (or
/// was absent).
pub open spec fn decide_rel(
    host: Option<&str>,
    table: RoutingTable,
    r: RouteDecision,
) -> bool {
    let h = match host {
        Some(s) => s@,
        None => Seq::<char>::empty(),
    };
    let name = name_prefix(h);
    if name.len() == 0 || name == "localhost"@ {
        r matches RouteDecision::NotFound { body } && body@ == no_project_body()
    } else if table.as_map().contains_key(name) {
        r == (RouteDecision::Forward { port: table.as_map()[name] })
    } else {
        r matches RouteDecision::NotFound { body } && body@ == unrouted_body(name)
    }
}

/// Decide one request: the project is the label before the first `.` of
/// the `Host` header; an empty or `localhost` label, or a project without
/// a route, is a 404; otherwise the request goes to the routed port.
pub fn decide(host: Option<&str>, table: &RoutingTable) -> (r: RouteDecision)
    requires
        table.wf(),
    ensures
        decide_rel(host, *table, r),
{
    let name = match host {
        Some(h) => extract_project_name(h),
        None => String::new(),
    };
    if name.as_str().unicode_len() == 0 || str_eq(name.as_str(), "localhost") {
        return RouteDecision::NotFound {
            body: String::from_str(
                "Not Found: No project specified. Use <project>.localhost:8080\n",
            ),
        };
    }
    match table.lookup(name.as_str()) {
        Some(port) => RouteDecision::Forward { port },
        None => RouteDecision::NotFound {
            body: String::from_str("Not Found: Project '").concat(name.as_str()).concat(
                "' not found or has no running process\n",
            ),
        },
    }
}

/// Body of the 502 sent when the backend connection fails, wrapping the
/// connection error's text.
pub fn bad_gateway_body(error_text: &str) -> (r: String)
    ensures
        r@ == "Bad Gateway: Failed to connect to backend: "@ + error_text@ + "\n"@,
{
    String::from_str("Bad Gateway: Failed to connect to backend: ").concat(error_text).concat(
        "\n",
    )
}

} // verus!
