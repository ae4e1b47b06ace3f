//! The IPC wire format: every request and response travels as one JSON
//! object, tagged by a `type` field. Encoding and decoding are verified
//! and invert each other, so a message survives the socket unchanged. The
//! decoder accepts precisely what this encoder produces.

use vstd::prelude::*;
use vstd::string::*;
use crate::codec::{
    digits_u128, encode_i64, escape_chars, escape_string, expect, expect_at, lemma_digits_val,
    lemma_expect_prefix, lemma_parse_digits, lemma_parse_escaped, lemma_parse_int,
    lemma_parse_opt_u16, lemma_parse_project_obj, parse_digits, parse_digits_at, parse_int,
    parse_opt_u16, parse_opt_u16_at, parse_project_at, parse_string_at, parse_string_body,
    spec_digits, spec_encode_int, spec_encode_port, spec_encode_project, spec_parse_project_obj,
    view_of, ProjectView,
};
use crate::common::{IpcRequest, IpcResponse, ProcessInfo, ProcessStatus, Project};
use crate::strutil::{is_digit, push_char, str_to_chars};

verus! {

/// A text with no character that needs escaping reads back as itself.
proof fn lemma_escape_clean(t: Seq<char>)
    requires
        forall|i: int| 0 <= i < t.len() ==> (#[trigger] t[i]) != '"' && t[i] != '\\',
    ensures
        escape_chars(t) == t,
    decreases t.len(),
{
    if t.len() == 0 {
        assert(escape_chars(t) =~= t);
    } else {
        assert(forall|i: int|
            0 <= i < t.skip(1).len() ==> (#[trigger] t.skip(1)[i]) != '"' && t.skip(1)[i]
                != '\\');
        lemma_escape_clean(t.skip(1));
        assert(seq![t[0]] + t.skip(1) =~= t);
    }
}

/// A quoted, escaped string.
pub open spec fn enc_str(t: Seq<char>) -> Seq<char> {
    seq!['"'] + escape_chars(t) + seq!['"']
}

/// Parse a quoted string.
pub open spec fn parse_str(s: Seq<char>) -> Option<(Seq<char>, Seq<char>)> {
    if s.len() >= 1 && s[0] == '"' {
        parse_string_body(s.skip(1), Seq::empty())
    } else {
        None
    }
}

proof fn lemma_parse_str(t: Seq<char>, ctx: Seq<char>)
    ensures
        parse_str(enc_str(t) + ctx) == Some((t, ctx)),
{
    let s = enc_str(t) + ctx;
    assert(s[0] == '"');
    assert(s.skip(1) =~= escape_chars(t) + seq!['"'] + ctx);
    lemma_parse_escaped(t, ctx, Seq::empty());
    assert(Seq::<char>::empty() + t =~= t);
}

/// A string or JSON null.
pub open spec fn enc_opt_str(t: Option<Seq<char>>) -> Seq<char> {
    match t {
        None => "null"@,
        Some(t) => enc_str(t),
    }
}

pub open spec fn parse_opt_str(s: Seq<char>) -> Option<(Option<Seq<char>>, Seq<char>)> {
    match expect(s, "null"@) {
        Some(s2) => Some((None, s2)),
        None => match parse_str(s) {
            Some((t, s2)) => Some((Some(t), s2)),
            None => None,
        },
    }
}

proof fn lemma_parse_opt_str(t: Option<Seq<char>>, ctx: Seq<char>)
    ensures
        parse_opt_str(enc_opt_str(t) + ctx) == Some((t, ctx)),
{
    reveal_strlit("null");
    let s = enc_opt_str(t) + ctx;
    match t {
        None => {
            assert(s =~= "null"@ + ctx);
            lemma_expect_prefix("null"@, ctx);
        },
        Some(t0) => {
            assert(s =~= enc_str(t0) + ctx);
            assert(s[0] == '"');
            assert("null"@[0] == 'n');
            if s.len() >= "null"@.len() && s.take("null"@.len() as int) == "null"@ {
                assert(s.take("null"@.len() as int)[0] == s[0]);
                assert(false);
            }
            lemma_parse_str(t0, ctx);
        },
    }
}

/// A JSON boolean.
pub open spec fn enc_bool(b: bool) -> Seq<char> {
    if b {
        "true"@
    } else {
        "false"@
    }
}

pub open spec fn parse_bool(s: Seq<char>) -> Option<(bool, Seq<char>)> {
    match expect(s, "true"@) {
        Some(s2) => Some((true, s2)),
        None => match expect(s, "false"@) {
            Some(s2) => Some((false, s2)),
            None => None,
        },
    }
}

proof fn lemma_parse_bool(b: bool, ctx: Seq<char>)
    ensures
        parse_bool(enc_bool(b) + ctx) == Some((b, ctx)),
{
    reveal_strlit("true");
    reveal_strlit("false");
    let s = enc_bool(b) + ctx;
    if b {
        lemma_expect_prefix("true"@, ctx);
    } else {
        lemma_expect_prefix("false"@, ctx);
        assert(s[0] == 'f');
        assert("true"@[0] == 't');
        if s.len() >= "true"@.len() && s.take("true"@.len() as int) == "true"@ {
            assert(s.take("true"@.len() as int)[0] == s[0]);
            assert(false);
        }
    }
}

/// A JSON array, items joined by commas.
pub open spec fn spec_encode_items<T>(items: Seq<T>, enc: spec_fn(T) -> Seq<char>) -> Seq<char>
    decreases items.len(),
{
    if items.len() == 0 {
        Seq::empty()
    } else if items.len() == 1 {
        enc(items[0])
    } else {
        enc(items[0]) + seq![','] + spec_encode_items(items.skip(1), enc)
    }
}

pub open spec fn spec_encode_list<T>(items: Seq<T>, enc: spec_fn(T) -> Seq<char>) -> Seq<char> {
    seq!['['] + spec_encode_items(items, enc) + seq![']']
}

/// Parse comma-separated items up to the closing bracket. The fuel bounds
/// the recursion; any value at least the item count suffices.
pub open spec fn spec_parse_items<T>(
    s: Seq<char>,
    parse: spec_fn(Seq<char>) -> Option<(T, Seq<char>)>,
    fuel: nat,
) -> Option<(Seq<T>, Seq<char>)>
    decreases fuel,
{
    if fuel == 0 {
        None
    } else {
        match parse(s) {
            None => None,
            Some((t, r)) => if r.len() >= 1 && r[0] == ',' {
                match spec_parse_items(r.skip(1), parse, (fuel - 1) as nat) {
                    None => None,
                    Some((ts, r2)) => Some((seq![t] + ts, r2)),
                }
            } else if r.len() >= 1 && r[0] == ']' {
                Some((seq![t], r.skip(1)))
            } else {
                None
            },
        }
    }
}

pub open spec fn spec_parse_list<T>(
    s: Seq<char>,
    parse: spec_fn(Seq<char>) -> Option<(T, Seq<char>)>,
    fuel: nat,
) -> Option<(Seq<T>, Seq<char>)> {
    if s.len() >= 2 && s[0] == '[' && s[1] == ']' {
        Some((Seq::empty(), s.skip(2)))
    } else if s.len() >= 1 && s[0] == '[' {
        spec_parse_items(s.skip(1), parse, fuel)
    } else {
        None
    }
}

proof fn lemma_parse_items<T>(
    items: Seq<T>,
    ctx: Seq<char>,
    enc: spec_fn(T) -> Seq<char>,
    parse: spec_fn(Seq<char>) -> Option<(T, Seq<char>)>,
    fuel: nat,
)
    requires
        items.len() >= 1,
        fuel >= items.len(),
        forall|i: int, r: Seq<char>|
            0 <= i < items.len() ==> #[trigger] parse(enc(items[i]) + r) == Some((items[i], r)),
    ensures
        spec_parse_items(spec_encode_items(items, enc) + seq![']'] + ctx, parse, fuel) == Some(
            (items, ctx),
        ),
    decreases items.len(),
{
    let s = spec_encode_items(items, enc) + seq![']'] + ctx;
    if items.len() == 1 {
        let tail = seq![']'] + ctx;
        assert(s =~= enc(items[0]) + tail);
        assert(parse(enc(items[0]) + tail) == Some((items[0], tail)));
        assert(tail[0] == ']');
        assert(tail.skip(1) =~= ctx);
        assert(seq![items[0]] =~= items);
    } else {
        let tail = seq![','] + (spec_encode_items(items.skip(1), enc) + seq![']'] + ctx);
        assert(s =~= enc(items[0]) + tail);
        assert(parse(enc(items[0]) + tail) == Some((items[0], tail)));
        assert(tail[0] == ',');
        assert(tail.skip(1) =~= spec_encode_items(items.skip(1), enc) + seq![']'] + ctx);
        assert(forall|i: int, r: Seq<char>|
            0 <= i < items.skip(1).len() ==> #[trigger] parse(enc(items.skip(1)[i]) + r) == Some(
                (items.skip(1)[i], r),
            )) by {
            assert(forall|i: int| 0 <= i < items.skip(1).len() ==> items.skip(1)[i] == items[i + 1]);
        }
        lemma_parse_items(items.skip(1), ctx, enc, parse, (fuel - 1) as nat);
        assert(seq![items[0]] + items.skip(1) =~= items);
    }
}

/// An encoded array parses back to its items.
proof fn lemma_parse_list<T>(
    items: Seq<T>,
    ctx: Seq<char>,
    enc: spec_fn(T) -> Seq<char>,
    parse: spec_fn(Seq<char>) -> Option<(T, Seq<char>)>,
    fuel: nat,
)
    requires
        fuel >= items.len(),
        forall|i: int, r: Seq<char>|
            0 <= i < items.len() ==> #[trigger] parse(enc(items[i]) + r) == Some((items[i], r)),
        forall|i: int|
            0 <= i < items.len() ==> (#[trigger] enc(items[i])).len() >= 1 && enc(items[i])[0]
                != ']',
    ensures
        spec_parse_list(spec_encode_list(items, enc) + ctx, parse, fuel) == Some((items, ctx)),
{
    let s = spec_encode_list(items, enc) + ctx;
    assert(s[0] == '[');
    if items.len() == 0 {
        assert(s =~= seq!['[', ']'] + ctx);
        assert(s[1] == ']');
        assert(s.skip(2) =~= ctx);
    } else {
        assert(s.skip(1) =~= spec_encode_items(items, enc) + seq![']'] + ctx);
        assert(s[1] == enc(items[0])[0]) by {
            if items.len() == 1 {
                assert(spec_encode_items(items, enc) == enc(items[0]));
            }
            assert(s.skip(1)[0] == s[1]);
        }
        assert(s[1] != ']');
        lemma_parse_items(items, ctx, enc, parse, fuel);
    }
}

/// The string-item encoder and parser used for argument arrays.
pub open spec fn str_item_enc() -> spec_fn(Seq<char>) -> Seq<char> {
    |t: Seq<char>| enc_str(t)
}

pub open spec fn str_item_parse() -> spec_fn(Seq<char>) -> Option<(Seq<char>, Seq<char>)> {
    |s: Seq<char>| parse_str(s)
}

/// `expect` fails when the input differs from the literal at a position
/// inside both.
proof fn lemma_expect_diverges(s: Seq<char>, lit: Seq<char>, k: int)
    requires
        0 <= k < lit.len(),
        k < s.len(),
        s[k] != lit[k],
    ensures
        expect(s, lit) is None,
{
    if s.len() >= lit.len() && s.take(lit.len() as int) == lit {
        assert(s.take(lit.len() as int)[k] == s[k]);
        assert(false);
    }
}

/// The mathematical content of one request.
pub enum RequestView {
    CreateProject { name: Seq<char>, root_dir: Seq<char> },
    ListProjects,
    GetProject { name: Seq<char> },
    RunCommand { project_name: Seq<char>, command: Seq<char>, args: Seq<Seq<char>> },
    StopProcess { project_name: Seq<char>, process_id: u128 },
    ListProcesses { project_name: Option<Seq<char>> },
    Status,
    Shutdown,
}

pub open spec fn request_view(r: IpcRequest) -> RequestView {
    match r {
        IpcRequest::CreateProject { name, root_dir } => RequestView::CreateProject {
            name: name@,
            root_dir: root_dir@,
        },
        IpcRequest::ListProjects => RequestView::ListProjects,
        IpcRequest::GetProject { name } => RequestView::GetProject { name: name@ },
        IpcRequest::RunCommand { project_name, command, args } => RequestView::RunCommand {
            project_name: project_name@,
            command: command@,
            args: args.deep_view(),
        },
        IpcRequest::StopProcess { project_name, process_id } => RequestView::StopProcess {
            project_name: project_name@,
            process_id,
        },
        IpcRequest::ListProcesses { project_name } => RequestView::ListProcesses {
            project_name: match project_name {
                Some(n) => Some(n@),
                None => None,
            },
        },
        IpcRequest::Status => RequestView::Status,
        IpcRequest::Shutdown => RequestView::Shutdown,
    }
}

/// The wire text of one request.
pub open spec fn spec_encode_request(v: RequestView) -> Seq<char> {
    match v {
        RequestView::CreateProject { name, root_dir } => "{\"type\":\"create_project\",\"name\":"@
            + enc_str(name) + ",\"root_dir\":"@ + enc_str(root_dir) + "}"@,
        RequestView::ListProjects => "{\"type\":\"list_projects\"}"@,
        RequestView::GetProject { name } => "{\"type\":\"get_project\",\"name\":"@ + enc_str(name)
            + "}"@,
        RequestView::RunCommand { project_name, command, args } =>
            "{\"type\":\"run_command\",\"project_name\":"@ + enc_str(project_name)
            + ",\"command\":"@ + enc_str(command) + ",\"args\":"@ + spec_encode_list(
            args,
            str_item_enc(),
        ) + "}"@,
        RequestView::StopProcess { project_name, process_id } =>
            "{\"type\":\"stop_process\",\"project_name\":"@ + enc_str(project_name)
            + ",\"process_id\":"@ + spec_digits(process_id as int) + "}"@,
        RequestView::ListProcesses { project_name } =>
            "{\"type\":\"list_processes\",\"project_name\":"@ + enc_opt_str(project_name) + "}"@,
        RequestView::Status => "{\"type\":\"status\"}"@,
        RequestView::Shutdown => "{\"type\":\"shutdown\"}"@,
    }
}

/// The end of every request object: a closing brace and nothing after it.
pub open spec fn dec_req_end(s: Seq<char>, v: RequestView) -> Option<RequestView> {
    match expect(s, "}"@) {
        None => None,
        Some(s2) => if s2.len() == 0 {
            Some(v)
        } else {
            None
        },
    }
}

pub open spec fn dec_create_project(s: Seq<char>) -> Option<RequestView> {
    match parse_str(s) {
        None => None,
        Some((name, s1)) => match expect(s1, ",\"root_dir\":"@) {
            None => None,
            Some(s2) => match parse_str(s2) {
                None => None,
                Some((root_dir, s3)) => dec_req_end(s3, RequestView::CreateProject { name, root_dir }),
            },
        },
    }
}

pub open spec fn dec_get_project(s: Seq<char>) -> Option<RequestView> {
    match parse_str(s) {
        None => None,
        Some((name, s1)) => dec_req_end(s1, RequestView::GetProject { name }),
    }
}

pub open spec fn dec_run_command(s: Seq<char>) -> Option<RequestView> {
    match parse_str(s) {
        None => None,
        Some((project_name, s1)) => match expect(s1, ",\"command\":"@) {
            None => None,
            Some(s2) => match parse_str(s2) {
                None => None,
                Some((command, s3)) => match expect(s3, ",\"args\":"@) {
                    None => None,
                    Some(s4) => match spec_parse_list(s4, str_item_parse(), s4.len() as nat) {
                        None => None,
                        Some((args, s5)) => dec_req_end(
                            s5,
                            RequestView::RunCommand { project_name, command, args },
                        ),
                    },
                },
            },
        },
    }
}

pub open spec fn dec_stop_process(s: Seq<char>) -> Option<RequestView> {
    match parse_str(s) {
        None => None,
        Some((project_name, s1)) => match expect(s1, ",\"process_id\":"@) {
            None => None,
            Some(s2) => if s2.len() >= 1 && is_digit(s2[0]) {
                {
                    let (id, s3) = parse_digits(s2, 0);
                    if id > u128::MAX {
                        None
                    } else {
                        dec_req_end(
                            s3,
                            RequestView::StopProcess { project_name, process_id: id as u128 },
                        )
                    }
                }
            } else {
                None
            },
        },
    }
}

pub open spec fn dec_list_processes(s: Seq<char>) -> Option<RequestView> {
    match parse_opt_str(s) {
        None => None,
        Some((project_name, s1)) => dec_req_end(s1, RequestView::ListProcesses { project_name }),
    }
}

/// Decode one request: exactly the grammar the encoder writes, tried tag
/// by tag.
pub open spec fn spec_decode_request(s: Seq<char>) -> Option<RequestView> {
    if expect(s, "{\"type\":\"create_project\",\"name\":"@) is Some {
        dec_create_project(expect(s, "{\"type\":\"create_project\",\"name\":"@)->Some_0)
    } else if expect(s, "{\"type\":\"list_projects\"}"@) is Some {
        if expect(s, "{\"type\":\"list_projects\"}"@)->Some_0.len() == 0 {
            Some(RequestView::ListProjects)
        } else {
            None
        }
    } else if expect(s, "{\"type\":\"get_project\",\"name\":"@) is Some {
        dec_get_project(expect(s, "{\"type\":\"get_project\",\"name\":"@)->Some_0)
    } else if expect(s, "{\"type\":\"run_command\",\"project_name\":"@) is Some {
        dec_run_command(expect(s, "{\"type\":\"run_command\",\"project_name\":"@)->Some_0)
    } else if expect(s, "{\"type\":\"stop_process\",\"project_name\":"@) is Some {
        dec_stop_process(expect(s, "{\"type\":\"stop_process\",\"project_name\":"@)->Some_0)
    } else if expect(s, "{\"type\":\"list_processes\",\"project_name\":"@) is Some {
        dec_list_processes(expect(s, "{\"type\":\"list_processes\",\"project_name\":"@)->Some_0)
    } else if expect(s, "{\"type\":\"status\"}"@) is Some {
        if expect(s, "{\"type\":\"status\"}"@)->Some_0.len() == 0 {
            Some(RequestView::Status)
        } else {
            None
        }
    } else if expect(s, "{\"type\":\"shutdown\"}"@) is Some {
        if expect(s, "{\"type\":\"shutdown\"}"@)->Some_0.len() == 0 {
            Some(RequestView::Shutdown)
        } else {
            None
        }
    } else {
        None
    }
}

/// Encoded items are at least one character each, so the encoded text is
/// at least as long as the item count.
proof fn lemma_encode_items_len<T>(items: Seq<T>, enc: spec_fn(T) -> Seq<char>)
    requires
        forall|i: int| 0 <= i < items.len() ==> (#[trigger] enc(items[i])).len() >= 1,
    ensures
        spec_encode_items(items, enc).len() >= items.len(),
    decreases items.len(),
{
    if items.len() > 1 {
        assert(forall|i: int|
            0 <= i < items.skip(1).len() ==> (#[trigger] enc(items.skip(1)[i])).len() >= 1) by {
            assert(forall|i: int|
                0 <= i < items.skip(1).len() ==> items.skip(1)[i] == items[i + 1]);
        }
        lemma_encode_items_len(items.skip(1), enc);
    }
}

/// Discharge the generic list hypotheses for string items.
proof fn lemma_str_items_parse(items: Seq<Seq<char>>)
    ensures
        forall|i: int, r: Seq<char>|
            0 <= i < items.len() ==> #[trigger] str_item_parse()(str_item_enc()(items[i]) + r)
                == Some((items[i], r)),
        forall|i: int|
            0 <= i < items.len() ==> (#[trigger] str_item_enc()(items[i])).len() >= 1
                && str_item_enc()(items[i])[0] != ']',
{
    assert forall|i: int, r: Seq<char>| 0 <= i < items.len() implies #[trigger] str_item_parse()(
        str_item_enc()(items[i]) + r,
    ) == Some((items[i], r)) by {
        lemma_parse_str(items[i], r);
    }
    assert forall|i: int| 0 <= i < items.len() implies (#[trigger] str_item_enc()(
        items[i],
    )).len() >= 1 && str_item_enc()(items[i])[0] != ']' by {
        assert(enc_str(items[i])[0] == '"');
    }
}

#[verifier::rlimit(100)]
proof fn lemma_rt_create_project(name: Seq<char>, root_dir: Seq<char>)
    ensures
        spec_decode_request(spec_encode_request(RequestView::CreateProject { name, root_dir }))
            == Some(RequestView::CreateProject { name, root_dir }),
{
    reveal_strlit("{\"type\":\"create_project\",\"name\":");
    reveal_strlit("{\"type\":\"list_projects\"}");
    reveal_strlit("{\"type\":\"get_project\",\"name\":");
    reveal_strlit("{\"type\":\"run_command\",\"project_name\":");
    reveal_strlit("{\"type\":\"stop_process\",\"project_name\":");
    reveal_strlit("{\"type\":\"list_processes\",\"project_name\":");
    reveal_strlit("{\"type\":\"status\"}");
    reveal_strlit("{\"type\":\"shutdown\"}");
    reveal_strlit(",\"root_dir\":");
    reveal_strlit(",\"command\":");
    reveal_strlit(",\"args\":");
    reveal_strlit(",\"process_id\":");
    reveal_strlit("}");
    let l_create = "{\"type\":\"create_project\",\"name\":"@;
    let end = "}"@;
    let s = spec_encode_request(RequestView::CreateProject { name, root_dir });
    let tail = enc_str(name) + ",\"root_dir\":"@ + enc_str(root_dir) + end;
    assert(s =~= l_create + tail);
    lemma_expect_prefix(l_create, tail);
    let rest1 = ",\"root_dir\":"@ + enc_str(root_dir) + end;
    assert(tail =~= enc_str(name) + rest1);
    lemma_parse_str(name, rest1);
    let rest2 = enc_str(root_dir) + end;
    assert(rest1 =~= ",\"root_dir\":"@ + rest2);
    lemma_expect_prefix(",\"root_dir\":"@, rest2);
    lemma_parse_str(root_dir, end);
    assert(end =~= end + Seq::<char>::empty());
    lemma_expect_prefix(end, Seq::<char>::empty());
}

#[verifier::rlimit(100)]
proof fn lemma_rt_list_projects()
    ensures
        spec_decode_request(spec_encode_request(RequestView::ListProjects)) == Some(
            RequestView::ListProjects,
        ),
{
    reveal_strlit("{\"type\":\"create_project\",\"name\":");
    reveal_strlit("{\"type\":\"list_projects\"}");
    reveal_strlit("{\"type\":\"get_project\",\"name\":");
    reveal_strlit("{\"type\":\"run_command\",\"project_name\":");
    reveal_strlit("{\"type\":\"stop_process\",\"project_name\":");
    reveal_strlit("{\"type\":\"list_processes\",\"project_name\":");
    reveal_strlit("{\"type\":\"status\"}");
    reveal_strlit("{\"type\":\"shutdown\"}");
    reveal_strlit(",\"root_dir\":");
    reveal_strlit(",\"command\":");
    reveal_strlit(",\"args\":");
    reveal_strlit(",\"process_id\":");
    reveal_strlit("}");
    let s = spec_encode_request(RequestView::ListProjects);
    assert(s[9] == 'l');
    lemma_expect_diverges(s, "{\"type\":\"create_project\",\"name\":"@, 9);
    assert(s =~= "{\"type\":\"list_projects\"}"@ + Seq::<char>::empty());
    lemma_expect_prefix("{\"type\":\"list_projects\"}"@, Seq::<char>::empty());
}

#[verifier::rlimit(100)]
proof fn lemma_rt_get_project(name: Seq<char>)
    ensures
        spec_decode_request(spec_encode_request(RequestView::GetProject { name })) == Some(
            RequestView::GetProject { name },
        ),
{
    reveal_strlit("{\"type\":\"create_project\",\"name\":");
    reveal_strlit("{\"type\":\"list_projects\"}");
    reveal_strlit("{\"type\":\"get_project\",\"name\":");
    reveal_strlit("{\"type\":\"run_command\",\"project_name\":");
    reveal_strlit("{\"type\":\"stop_process\",\"project_name\":");
    reveal_strlit("{\"type\":\"list_processes\",\"project_name\":");
    reveal_strlit("{\"type\":\"status\"}");
    reveal_strlit("{\"type\":\"shutdown\"}");
    reveal_strlit(",\"root_dir\":");
    reveal_strlit(",\"command\":");
    reveal_strlit(",\"args\":");
    reveal_strlit(",\"process_id\":");
    reveal_strlit("}");
    let end = "}"@;
    let s = spec_encode_request(RequestView::GetProject { name });
    assert(s[9] == 'g');
    lemma_expect_diverges(s, "{\"type\":\"create_project\",\"name\":"@, 9);
    lemma_expect_diverges(s, "{\"type\":\"list_projects\"}"@, 9);
    let tail = enc_str(name) + end;
    assert(s =~= "{\"type\":\"get_project\",\"name\":"@ + tail);
    lemma_expect_prefix("{\"type\":\"get_project\",\"name\":"@, tail);
    lemma_parse_str(name, end);
    assert(end =~= end + Seq::<char>::empty());
    lemma_expect_prefix(end, Seq::<char>::empty());
}

#[verifier::rlimit(100)]
proof fn lemma_rt_run_command(project_name: Seq<char>, command: Seq<char>, args: Seq<Seq<char>>)
    ensures
        spec_decode_request(
            spec_encode_request(RequestView::RunCommand { project_name, command, args }),
        ) == Some(RequestView::RunCommand { project_name, command, args }),
{
    reveal_strlit("{\"type\":\"create_project\",\"name\":");
    reveal_strlit("{\"type\":\"list_projects\"}");
    reveal_strlit("{\"type\":\"get_project\",\"name\":");
    reveal_strlit("{\"type\":\"run_command\",\"project_name\":");
    reveal_strlit("{\"type\":\"stop_process\",\"project_name\":");
    reveal_strlit("{\"type\":\"list_processes\",\"project_name\":");
    reveal_strlit("{\"type\":\"status\"}");
    reveal_strlit("{\"type\":\"shutdown\"}");
    reveal_strlit(",\"root_dir\":");
    reveal_strlit(",\"command\":");
    reveal_strlit(",\"args\":");
    reveal_strlit(",\"process_id\":");
    reveal_strlit("}");
    let l_run = "{\"type\":\"run_command\",\"project_name\":"@;
    let end = "}"@;
    let s = spec_encode_request(RequestView::RunCommand { project_name, command, args });
    assert(s[9] == 'r');
    lemma_expect_diverges(s, "{\"type\":\"create_project\",\"name\":"@, 9);
    lemma_expect_diverges(s, "{\"type\":\"list_projects\"}"@, 9);
    lemma_expect_diverges(s, "{\"type\":\"get_project\",\"name\":"@, 9);
    let enc_args = spec_encode_list(args, str_item_enc());
    let tail = enc_str(project_name) + ",\"command\":"@ + enc_str(command) + ",\"args\":"@
        + enc_args + end;
    assert(s =~= l_run + tail);
    lemma_expect_prefix(l_run, tail);
    let rest1 = ",\"command\":"@ + enc_str(command) + ",\"args\":"@ + enc_args + end;
    assert(tail =~= enc_str(project_name) + rest1);
    lemma_parse_str(project_name, rest1);
    let rest2 = enc_str(command) + ",\"args\":"@ + enc_args + end;
    assert(rest1 =~= ",\"command\":"@ + rest2);
    lemma_expect_prefix(",\"command\":"@, rest2);
    let rest3 = ",\"args\":"@ + enc_args + end;
    assert(rest2 =~= enc_str(command) + rest3);
    lemma_parse_str(command, rest3);
    let rest4 = enc_args + end;
    assert(rest3 =~= ",\"args\":"@ + rest4);
    lemma_expect_prefix(",\"args\":"@, rest4);
    lemma_str_items_parse(args);
    lemma_encode_items_len(args, str_item_enc());
    assert(rest4.len() >= args.len());
    lemma_parse_list(args, end, str_item_enc(), str_item_parse(), rest4.len() as nat);
    assert(end =~= end + Seq::<char>::empty());
    lemma_expect_prefix(end, Seq::<char>::empty());
}

#[verifier::rlimit(100)]
proof fn lemma_rt_stop_process(project_name: Seq<char>, process_id: u128)
    ensures
        spec_decode_request(
            spec_encode_request(RequestView::StopProcess { project_name, process_id }),
        ) == Some(RequestView::StopProcess { project_name, process_id }),
{
    reveal_strlit("{\"type\":\"create_project\",\"name\":");
    reveal_strlit("{\"type\":\"list_projects\"}");
    reveal_strlit("{\"type\":\"get_project\",\"name\":");
    reveal_strlit("{\"type\":\"run_command\",\"project_name\":");
    reveal_strlit("{\"type\":\"stop_process\",\"project_name\":");
    reveal_strlit("{\"type\":\"list_processes\",\"project_name\":");
    reveal_strlit("{\"type\":\"status\"}");
    reveal_strlit("{\"type\":\"shutdown\"}");
    reveal_strlit(",\"root_dir\":");
    reveal_strlit(",\"command\":");
    reveal_strlit(",\"args\":");
    reveal_strlit(",\"process_id\":");
    reveal_strlit("}");
    let l_stop = "{\"type\":\"stop_process\",\"project_name\":"@;
    let end = "}"@;
    let s = spec_encode_request(RequestView::StopProcess { project_name, process_id });
    assert(s[9] == 's');
    lemma_expect_diverges(s, "{\"type\":\"create_project\",\"name\":"@, 9);
    lemma_expect_diverges(s, "{\"type\":\"list_projects\"}"@, 9);
    lemma_expect_diverges(s, "{\"type\":\"get_project\",\"name\":"@, 9);
    lemma_expect_diverges(s, "{\"type\":\"run_command\",\"project_name\":"@, 9);
    let tail = enc_str(project_name) + ",\"process_id\":"@ + spec_digits(process_id as int)
        + end;
    assert(s =~= l_stop + tail);
    lemma_expect_prefix(l_stop, tail);
    let rest1 = ",\"process_id\":"@ + spec_digits(process_id as int) + end;
    assert(tail =~= enc_str(project_name) + rest1);
    lemma_parse_str(project_name, rest1);
    let rest2 = spec_digits(process_id as int) + end;
    assert(rest1 =~= ",\"process_id\":"@ + rest2);
    lemma_expect_prefix(",\"process_id\":"@, rest2);
    lemma_digits_val(process_id as int);
    assert(end[0] == '}');
    assert(!is_digit('}'));
    lemma_parse_digits(spec_digits(process_id as int), end, 0);
    assert(rest2[0] == spec_digits(process_id as int)[0]);
    assert(is_digit(rest2[0]));
    assert(end =~= end + Seq::<char>::empty());
    lemma_expect_prefix(end, Seq::<char>::empty());
}

#[verifier::rlimit(100)]
proof fn lemma_rt_list_processes(project_name: Option<Seq<char>>)
    ensures
        spec_decode_request(spec_encode_request(RequestView::ListProcesses { project_name }))
            == Some(RequestView::ListProcesses { project_name }),
{
    reveal_strlit("{\"type\":\"create_project\",\"name\":");
    reveal_strlit("{\"type\":\"list_projects\"}");
    reveal_strlit("{\"type\":\"get_project\",\"name\":");
    reveal_strlit("{\"type\":\"run_command\",\"project_name\":");
    reveal_strlit("{\"type\":\"stop_process\",\"project_name\":");
    reveal_strlit("{\"type\":\"list_processes\",\"project_name\":");
    reveal_strlit("{\"type\":\"status\"}");
    reveal_strlit("{\"type\":\"shutdown\"}");
    reveal_strlit(",\"root_dir\":");
    reveal_strlit(",\"command\":");
    reveal_strlit(",\"args\":");
    reveal_strlit(",\"process_id\":");
    reveal_strlit("}");
    let l_listproc = "{\"type\":\"list_processes\",\"project_name\":"@;
    let end = "}"@;
    let s = spec_encode_request(RequestView::ListProcesses { project_name });
    assert(s[9] == 'l');
    lemma_expect_diverges(s, "{\"type\":\"create_project\",\"name\":"@, 9);
    assert(s[17] == 'c');
    lemma_expect_diverges(s, "{\"type\":\"list_projects\"}"@, 17);
    lemma_expect_diverges(s, "{\"type\":\"get_project\",\"name\":"@, 9);
    lemma_expect_diverges(s, "{\"type\":\"run_command\",\"project_name\":"@, 9);
    lemma_expect_diverges(s, "{\"type\":\"stop_process\",\"project_name\":"@, 9);
    let tail = enc_opt_str(project_name) + end;
    assert(s =~= l_listproc + tail);
    lemma_expect_prefix(l_listproc, tail);
    lemma_parse_opt_str(project_name, end);
    assert(end =~= end + Seq::<char>::empty());
    lemma_expect_prefix(end, Seq::<char>::empty());
}

#[verifier::rlimit(100)]
proof fn lemma_rt_status()
    ensures
        spec_decode_request(spec_encode_request(RequestView::Status)) == Some(RequestView::Status),
{
    reveal_strlit("{\"type\":\"create_project\",\"name\":");
    reveal_strlit("{\"type\":\"list_projects\"}");
    reveal_strlit("{\"type\":\"get_project\",\"name\":");
    reveal_strlit("{\"type\":\"run_command\",\"project_name\":");
    reveal_strlit("{\"type\":\"stop_process\",\"project_name\":");
    reveal_strlit("{\"type\":\"list_processes\",\"project_name\":");
    reveal_strlit("{\"type\":\"status\"}");
    reveal_strlit("{\"type\":\"shutdown\"}");
    reveal_strlit(",\"root_dir\":");
    reveal_strlit(",\"command\":");
    reveal_strlit(",\"args\":");
    reveal_strlit(",\"process_id\":");
    reveal_strlit("}");
    let s = spec_encode_request(RequestView::Status);
    assert(s[9] == 's');
    lemma_expect_diverges(s, "{\"type\":\"create_project\",\"name\":"@, 9);
    lemma_expect_diverges(s, "{\"type\":\"list_projects\"}"@, 9);
    lemma_expect_diverges(s, "{\"type\":\"get_project\",\"name\":"@, 9);
    lemma_expect_diverges(s, "{\"type\":\"run_command\",\"project_name\":"@, 9);
    assert(s[11] == 'a');
    lemma_expect_diverges(s, "{\"type\":\"stop_process\",\"project_name\":"@, 11);
    lemma_expect_diverges(s, "{\"type\":\"list_processes\",\"project_name\":"@, 9);
    assert(s =~= "{\"type\":\"status\"}"@ + Seq::<char>::empty());
    lemma_expect_prefix("{\"type\":\"status\"}"@, Seq::<char>::empty());
}

#[verifier::rlimit(100)]
proof fn lemma_rt_shutdown()
    ensures
        spec_decode_request(spec_encode_request(RequestView::Shutdown)) == Some(
            RequestView::Shutdown,
        ),
{
    reveal_strlit("{\"type\":\"create_project\",\"name\":");
    reveal_strlit("{\"type\":\"list_projects\"}");
    reveal_strlit("{\"type\":\"get_project\",\"name\":");
    reveal_strlit("{\"type\":\"run_command\",\"project_name\":");
    reveal_strlit("{\"type\":\"stop_process\",\"project_name\":");
    reveal_strlit("{\"type\":\"list_processes\",\"project_name\":");
    reveal_strlit("{\"type\":\"status\"}");
    reveal_strlit("{\"type\":\"shutdown\"}");
    reveal_strlit(",\"root_dir\":");
    reveal_strlit(",\"command\":");
    reveal_strlit(",\"args\":");
    reveal_strlit(",\"process_id\":");
    reveal_strlit("}");
    let s = spec_encode_request(RequestView::Shutdown);
    assert(s[9] == 's');
    lemma_expect_diverges(s, "{\"type\":\"create_project\",\"name\":"@, 9);
    lemma_expect_diverges(s, "{\"type\":\"list_projects\"}"@, 9);
    lemma_expect_diverges(s, "{\"type\":\"get_project\",\"name\":"@, 9);
    lemma_expect_diverges(s, "{\"type\":\"run_command\",\"project_name\":"@, 9);
    assert(s[10] == 'h');
    lemma_expect_diverges(s, "{\"type\":\"stop_process\",\"project_name\":"@, 10);
    lemma_expect_diverges(s, "{\"type\":\"list_processes\",\"project_name\":"@, 9);
    lemma_expect_diverges(s, "{\"type\":\"status\"}"@, 10);
    assert(s =~= "{\"type\":\"shutdown\"}"@ + Seq::<char>::empty());
    lemma_expect_prefix("{\"type\":\"shutdown\"}"@, Seq::<char>::empty());
}

/// An encoded request decodes to the request it came from: the wire
/// format is the identity on request values.
pub proof fn lemma_request_codec_round_trip(v: RequestView)
    ensures
        spec_decode_request(spec_encode_request(v)) == Some(v),
{
    match v {
        RequestView::CreateProject { name, root_dir } => lemma_rt_create_project(name, root_dir),
        RequestView::ListProjects => lemma_rt_list_projects(),
        RequestView::GetProject { name } => lemma_rt_get_project(name),
        RequestView::RunCommand { project_name, command, args } => lemma_rt_run_command(
            project_name,
            command,
            args,
        ),
        RequestView::StopProcess { project_name, process_id } => lemma_rt_stop_process(
            project_name,
            process_id,
        ),
        RequestView::ListProcesses { project_name } => lemma_rt_list_processes(project_name),
        RequestView::Status => lemma_rt_status(),
        RequestView::Shutdown => lemma_rt_shutdown(),
    }
}

/// The mathematical content of one process record.
pub struct ProcessView {
    pub id: int,
    pub project_name: Seq<char>,
    pub pid: int,
    pub command: Seq<char>,
    pub started_at_millis: int,
    pub port: Option<u16>,
    pub status: ProcessStatus,
}

pub open spec fn process_view(p: ProcessInfo) -> ProcessView {
    ProcessView {
        id: p.id as int,
        project_name: p.project_name@,
        pid: p.pid as int,
        command: p.command@,
        started_at_millis: p.started_at_millis as int,
        port: p.port,
        status: p.status,
    }
}

/// Bounds that every process record built from the executable type meets.
pub open spec fn process_view_wf(p: ProcessView) -> bool {
    &&& 0 <= p.id <= u128::MAX
    &&& 0 <= p.pid <= u32::MAX
    &&& i64::MIN <= p.started_at_millis <= i64::MAX
}

pub open spec fn enc_status(st: ProcessStatus) -> Seq<char> {
    match st {
        ProcessStatus::Running => "\"running\""@,
        ProcessStatus::Stopped => "\"stopped\""@,
        ProcessStatus::Failed => "\"failed\""@,
    }
}

pub open spec fn parse_status(s: Seq<char>) -> Option<(ProcessStatus, Seq<char>)> {
    match expect(s, "\"running\""@) {
        Some(s2) => Some((ProcessStatus::Running, s2)),
        None => match expect(s, "\"stopped\""@) {
            Some(s2) => Some((ProcessStatus::Stopped, s2)),
            None => match expect(s, "\"failed\""@) {
                Some(s2) => Some((ProcessStatus::Failed, s2)),
                None => None,
            },
        },
    }
}

proof fn lemma_parse_status(st: ProcessStatus, ctx: Seq<char>)
    ensures
        parse_status(enc_status(st) + ctx) == Some((st, ctx)),
{
    reveal_strlit("\"running\"");
    reveal_strlit("\"stopped\"");
    reveal_strlit("\"failed\"");
    let s = enc_status(st) + ctx;
    match st {
        ProcessStatus::Running => {
            lemma_expect_prefix("\"running\""@, ctx);
        },
        ProcessStatus::Stopped => {
            assert(s[1] == 's');
            lemma_expect_diverges(s, "\"running\""@, 1);
            lemma_expect_prefix("\"stopped\""@, ctx);
        },
        ProcessStatus::Failed => {
            assert(s[1] == 'f');
            lemma_expect_diverges(s, "\"running\""@, 1);
            lemma_expect_diverges(s, "\"stopped\""@, 1);
            lemma_expect_prefix("\"failed\""@, ctx);
        },
    }
}

/// The tail of an encoded process record, from the command field on.
pub open spec fn spec_encode_process_rest(p: ProcessView) -> Seq<char> {
    ",\"command\":"@ + enc_str(p.command) + ",\"started_at_millis\":"@ + spec_encode_int(
        p.started_at_millis,
    ) + ",\"port\":"@ + spec_encode_port(p.port) + ",\"status\":"@ + enc_status(p.status)
        + "}"@
}

/// The wire text of one process record.
pub open spec fn spec_encode_process(p: ProcessView) -> Seq<char> {
    "{\"id\":"@ + spec_digits(p.id) + ",\"project_name\":"@ + enc_str(p.project_name)
        + ",\"pid\":"@ + spec_digits(p.pid) + spec_encode_process_rest(p)
}

/// Parse one process object from the front of `s`.
pub open spec fn spec_parse_process_obj(s: Seq<char>) -> Option<(ProcessView, Seq<char>)> {
    match expect(s, "{\"id\":"@) {
        None => None,
        Some(s1) => if s1.len() >= 1 && is_digit(s1[0]) {
            {
                let (id, s2) = parse_digits(s1, 0);
                if id > u128::MAX {
                    None
                } else {
                    match expect(s2, ",\"project_name\":"@) {
                        None => None,
                        Some(s3) => match parse_str(s3) {
                            None => None,
                            Some((project_name, s4)) => match expect(s4, ",\"pid\":"@) {
                                None => None,
                                Some(s5) => if s5.len() >= 1 && is_digit(s5[0]) {
                                    {
                                        let (pid, s6) = parse_digits(s5, 0);
                                        if pid > u32::MAX {
                                            None
                                        } else {
                                            spec_parse_process_rest(
                                                s6,
                                                id,
                                                project_name,
                                                pid,
                                            )
                                        }
                                    }
                                } else {
                                    None
                                },
                            },
                        },
                    }
                }
            }
        } else {
            None
        },
    }
}

pub open spec fn spec_parse_process_rest(
    s: Seq<char>,
    id: int,
    project_name: Seq<char>,
    pid: int,
) -> Option<(ProcessView, Seq<char>)> {
    match expect(s, ",\"command\":"@) {
        None => None,
        Some(s1) => match parse_str(s1) {
            None => None,
            Some((command, s2)) => match expect(s2, ",\"started_at_millis\":"@) {
                None => None,
                Some(s3) => match parse_int(s3) {
                    None => None,
                    Some((started, s4)) => if started < i64::MIN || started > i64::MAX {
                        None
                    } else {
                        match expect(s4, ",\"port\":"@) {
                            None => None,
                            Some(s5) => match parse_opt_u16(s5) {
                                None => None,
                                Some((port, s6)) => match expect(s6, ",\"status\":"@) {
                                    None => None,
                                    Some(s7) => match parse_status(s7) {
                                        None => None,
                                        Some((status, s8)) => match expect(s8, "}"@) {
                                            None => None,
                                            Some(s9) => Some(
                                                (
                                                    ProcessView {
                                                        id,
                                                        project_name,
                                                        pid,
                                                        command,
                                                        started_at_millis: started,
                                                        port,
                                                        status,
                                                    },
                                                    s9,
                                                ),
                                            ),
                                        },
                                    },
                                },
                            },
                        }
                    },
                },
            },
        },
    }
}

/// The encoded tail of a process record parses back to its fields.
#[verifier::rlimit(100)]
proof fn lemma_parse_process_rest(p: ProcessView, ctx: Seq<char>)
    requires
        process_view_wf(p),
    ensures
        spec_parse_process_rest(spec_encode_process_rest(p) + ctx, p.id, p.project_name, p.pid)
            == Some((p, ctx)),
{
    reveal_strlit(",\"command\":");
    reveal_strlit(",\"started_at_millis\":");
    reveal_strlit(",\"port\":");
    reveal_strlit(",\"status\":");
    reveal_strlit("}");
    let l4 = ",\"command\":"@;
    let l5 = ",\"started_at_millis\":"@;
    let l6 = ",\"port\":"@;
    let l7 = ",\"status\":"@;
    let l8 = "}"@;
    let s = spec_encode_process_rest(p) + ctx;
    let t7 = enc_str(p.command) + l5 + spec_encode_int(p.started_at_millis) + l6
        + spec_encode_port(p.port) + l7 + enc_status(p.status) + l8 + ctx;
    assert(s =~= l4 + t7);
    lemma_expect_prefix(l4, t7);
    let t8 = l5 + spec_encode_int(p.started_at_millis) + l6 + spec_encode_port(p.port) + l7
        + enc_status(p.status) + l8 + ctx;
    assert(t7 =~= enc_str(p.command) + t8);
    lemma_parse_str(p.command, t8);
    let t9 = spec_encode_int(p.started_at_millis) + l6 + spec_encode_port(p.port) + l7
        + enc_status(p.status) + l8 + ctx;
    assert(t8 =~= l5 + t9);
    lemma_expect_prefix(l5, t9);
    let t10 = l6 + spec_encode_port(p.port) + l7 + enc_status(p.status) + l8 + ctx;
    assert(t9 =~= spec_encode_int(p.started_at_millis) + t10);
    assert(t10[0] == ',');
    assert(!is_digit(','));
    lemma_parse_int(p.started_at_millis, t10);
    let t11 = spec_encode_port(p.port) + l7 + enc_status(p.status) + l8 + ctx;
    assert(t10 =~= l6 + t11);
    lemma_expect_prefix(l6, t11);
    let t12 = l7 + enc_status(p.status) + l8 + ctx;
    assert(t11 =~= spec_encode_port(p.port) + t12);
    assert(t12[0] == ',');
    lemma_parse_opt_u16(p.port, t12);
    let t13 = enc_status(p.status) + l8 + ctx;
    assert(t12 =~= l7 + t13);
    lemma_expect_prefix(l7, t13);
    assert(t13 =~= enc_status(p.status) + (l8 + ctx));
    lemma_parse_status(p.status, l8 + ctx);
    lemma_expect_prefix(l8, ctx);
}

/// An encoded process object parses back to the record, leaving whatever
/// follows it untouched.
#[verifier::rlimit(100)]
proof fn lemma_parse_process_obj(p: ProcessView, ctx: Seq<char>)
    requires
        process_view_wf(p),
    ensures
        spec_parse_process_obj(spec_encode_process(p) + ctx) == Some((p, ctx)),
{
    reveal_strlit("{\"id\":");
    reveal_strlit(",\"project_name\":");
    reveal_strlit(",\"pid\":");
    let l1 = "{\"id\":"@;
    let l2 = ",\"project_name\":"@;
    let l3 = ",\"pid\":"@;
    let s = spec_encode_process(p) + ctx;
    let t1 = spec_digits(p.id) + l2 + enc_str(p.project_name) + l3 + spec_digits(p.pid)
        + spec_encode_process_rest(p) + ctx;
    assert(s =~= l1 + t1);
    lemma_expect_prefix(l1, t1);
    let t2 = l2 + enc_str(p.project_name) + l3 + spec_digits(p.pid) + spec_encode_process_rest(p)
        + ctx;
    assert(t1 =~= spec_digits(p.id) + t2);
    lemma_digits_val(p.id);
    assert(t2[0] == ',');
    assert(!is_digit(','));
    lemma_parse_digits(spec_digits(p.id), t2, 0);
    assert(t1[0] == spec_digits(p.id)[0]);
    assert(is_digit(t1[0]));
    let t3 = enc_str(p.project_name) + l3 + spec_digits(p.pid) + spec_encode_process_rest(p)
        + ctx;
    assert(t2 =~= l2 + t3);
    lemma_expect_prefix(l2, t3);
    let t4 = l3 + spec_digits(p.pid) + spec_encode_process_rest(p) + ctx;
    assert(t3 =~= enc_str(p.project_name) + t4);
    lemma_parse_str(p.project_name, t4);
    let t5 = spec_digits(p.pid) + spec_encode_process_rest(p) + ctx;
    assert(t4 =~= l3 + t5);
    lemma_expect_prefix(l3, t5);
    let t6 = spec_encode_process_rest(p) + ctx;
    assert(t5 =~= spec_digits(p.pid) + t6);
    lemma_digits_val(p.pid);
    assert(t6[0] == ',') by {
        reveal_strlit(",\"command\":");
        assert(spec_encode_process_rest(p)[0] == ',');
    }
    lemma_parse_digits(spec_digits(p.pid), t6, 0);
    assert(t5[0] == spec_digits(p.pid)[0]);
    assert(is_digit(t5[0]));
    lemma_parse_process_rest(p, ctx);
}

/// Bounds that every project record built from the executable type meets.
pub open spec fn project_view_wf(p: ProjectView) -> bool {
    0 <= p.id <= u128::MAX && i64::MIN <= p.created_at_millis <= i64::MAX
}

/// The project and process item encoders and parsers used for arrays.
pub open spec fn proj_item_enc() -> spec_fn(ProjectView) -> Seq<char> {
    |p: ProjectView| spec_encode_project(p)
}

pub open spec fn proj_item_parse() -> spec_fn(Seq<char>) -> Option<(ProjectView, Seq<char>)> {
    |s: Seq<char>| spec_parse_project_obj(s)
}

pub open spec fn proc_item_enc() -> spec_fn(ProcessView) -> Seq<char> {
    |p: ProcessView| spec_encode_process(p)
}

pub open spec fn proc_item_parse() -> spec_fn(Seq<char>) -> Option<(ProcessView, Seq<char>)> {
    |s: Seq<char>| spec_parse_process_obj(s)
}

/// The views of a sequence of records.
pub open spec fn projects_seq_view(ps: Seq<Project>) -> Seq<ProjectView> {
    ps.map_values(|p: Project| view_of(p))
}

pub open spec fn processes_seq_view(ps: Seq<ProcessInfo>) -> Seq<ProcessView> {
    ps.map_values(|p: ProcessInfo| process_view(p))
}

/// The mathematical content of one response.
pub enum ResponseView {
    Success { message: Option<Seq<char>> },
    Project(ProjectView),
    Projects(Seq<ProjectView>),
    ProcessStarted { process: ProcessView },
    Processes(Seq<ProcessView>),
    Status { running: bool, project_count: int, process_count: int },
    Error { message: Seq<char> },
}

pub open spec fn response_view(r: IpcResponse) -> ResponseView {
    match r {
        IpcResponse::Success { message } => ResponseView::Success {
            message: match message {
                Some(m) => Some(m@),
                None => None,
            },
        },
        IpcResponse::Project(p) => ResponseView::Project(view_of(p)),
        IpcResponse::Projects(ps) => ResponseView::Projects(projects_seq_view(ps@)),
        IpcResponse::ProcessStarted { process } => ResponseView::ProcessStarted {
            process: process_view(process),
        },
        IpcResponse::Processes(ps) => ResponseView::Processes(processes_seq_view(ps@)),
        IpcResponse::Status { running, project_count, process_count } => ResponseView::Status {
            running,
            project_count: project_count as int,
            process_count: process_count as int,
        },
        IpcResponse::Error { message } => ResponseView::Error { message: message@ },
    }
}

/// Bounds that every response built from the executable type meets.
pub open spec fn response_view_wf(v: ResponseView) -> bool {
    match v {
        ResponseView::Success { .. } => true,
        ResponseView::Project(p) => project_view_wf(p),
        ResponseView::Projects(ps) => forall|i: int|
            0 <= i < ps.len() ==> project_view_wf(#[trigger] ps[i]),
        ResponseView::ProcessStarted { process } => process_view_wf(process),
        ResponseView::Processes(ps) => forall|i: int|
            0 <= i < ps.len() ==> process_view_wf(#[trigger] ps[i]),
        ResponseView::Status { project_count, process_count, .. } => 0 <= project_count
            <= usize::MAX && 0 <= process_count <= usize::MAX,
        ResponseView::Error { .. } => true,
    }
}

/// The wire text of one response.
pub open spec fn spec_encode_response(v: ResponseView) -> Seq<char> {
    match v {
        ResponseView::Success { message } => "{\"type\":\"success\",\"data\":{\"message\":"@
            + enc_opt_str(message) + "}}"@,
        ResponseView::Project(p) => "{\"type\":\"project\",\"data\":"@ + spec_encode_project(p)
            + "}"@,
        ResponseView::Projects(ps) => "{\"type\":\"projects\",\"data\":"@ + spec_encode_list(
            ps,
            proj_item_enc(),
        ) + "}"@,
        ResponseView::ProcessStarted { process } =>
            "{\"type\":\"process_started\",\"data\":{\"process\":"@ + spec_encode_process(process)
            + "}}"@,
        ResponseView::Processes(ps) => "{\"type\":\"processes\",\"data\":"@ + spec_encode_list(
            ps,
            proc_item_enc(),
        ) + "}"@,
        ResponseView::Status { running, project_count, process_count } =>
            "{\"type\":\"status\",\"data\":{\"running\":"@ + enc_bool(running)
            + ",\"project_count\":"@ + spec_digits(project_count) + ",\"process_count\":"@
            + spec_digits(process_count) + "}}"@,
        ResponseView::Error { message } => "{\"type\":\"error\",\"data\":{\"message\":"@ + enc_str(
            message,
        ) + "}}"@,
    }
}

/// The end of a response whose data is a nested object.
pub open spec fn dec_resp_end2(s: Seq<char>, v: ResponseView) -> Option<ResponseView> {
    match expect(s, "}}"@) {
        None => None,
        Some(s2) => if s2.len() == 0 {
            Some(v)
        } else {
            None
        },
    }
}

/// The end of a response whose data is a direct value.
pub open spec fn dec_resp_end1(s: Seq<char>, v: ResponseView) -> Option<ResponseView> {
    match expect(s, "}"@) {
        None => None,
        Some(s2) => if s2.len() == 0 {
            Some(v)
        } else {
            None
        },
    }
}

pub open spec fn dec_resp_success(s: Seq<char>) -> Option<ResponseView> {
    match parse_opt_str(s) {
        None => None,
        Some((message, s1)) => dec_resp_end2(s1, ResponseView::Success { message }),
    }
}

pub open spec fn dec_resp_project(s: Seq<char>) -> Option<ResponseView> {
    match spec_parse_project_obj(s) {
        None => None,
        Some((p, s1)) => dec_resp_end1(s1, ResponseView::Project(p)),
    }
}

pub open spec fn dec_resp_projects(s: Seq<char>) -> Option<ResponseView> {
    match spec_parse_list(s, proj_item_parse(), s.len() as nat) {
        None => None,
        Some((ps, s1)) => dec_resp_end1(s1, ResponseView::Projects(ps)),
    }
}

pub open spec fn dec_resp_process_started(s: Seq<char>) -> Option<ResponseView> {
    match spec_parse_process_obj(s) {
        None => None,
        Some((p, s1)) => dec_resp_end2(s1, ResponseView::ProcessStarted { process: p }),
    }
}

pub open spec fn dec_resp_processes(s: Seq<char>) -> Option<ResponseView> {
    match spec_parse_list(s, proc_item_parse(), s.len() as nat) {
        None => None,
        Some((ps, s1)) => dec_resp_end1(s1, ResponseView::Processes(ps)),
    }
}

pub open spec fn dec_resp_status(s: Seq<char>) -> Option<ResponseView> {
    match parse_bool(s) {
        None => None,
        Some((running, s1)) => match expect(s1, ",\"project_count\":"@) {
            None => None,
            Some(s2) => if s2.len() >= 1 && is_digit(s2[0]) {
                {
                    let (project_count, s3) = parse_digits(s2, 0);
                    if project_count > usize::MAX {
                        None
                    } else {
                        match expect(s3, ",\"process_count\":"@) {
                            None => None,
                            Some(s4) => if s4.len() >= 1 && is_digit(s4[0]) {
                                {
                                    let (process_count, s5) = parse_digits(s4, 0);
                                    if process_count > usize::MAX {
                                        None
                                    } else {
                                        dec_resp_end2(
                                            s5,
                                            ResponseView::Status {
                                                running,
                                                project_count,
                                                process_count,
                                            },
                                        )
                                    }
                                }
                            } else {
                                None
                            },
                        }
                    }
                }
            } else {
                None
            },
        },
    }
}

pub open spec fn dec_resp_error(s: Seq<char>) -> Option<ResponseView> {
    match parse_str(s) {
        None => None,
        Some((message, s1)) => dec_resp_end2(s1, ResponseView::Error { message }),
    }
}

/// Decode one response: exactly the grammar the encoder writes, tried tag
/// by tag.
pub open spec fn spec_decode_response(s: Seq<char>) -> Option<ResponseView> {
    if expect(s, "{\"type\":\"success\",\"data\":{\"message\":"@) is Some {
        dec_resp_success(expect(s, "{\"type\":\"success\",\"data\":{\"message\":"@)->Some_0)
    } else if expect(s, "{\"type\":\"project\",\"data\":"@) is Some {
        dec_resp_project(expect(s, "{\"type\":\"project\",\"data\":"@)->Some_0)
    } else if expect(s, "{\"type\":\"projects\",\"data\":"@) is Some {
        dec_resp_projects(expect(s, "{\"type\":\"projects\",\"data\":"@)->Some_0)
    } else if expect(s, "{\"type\":\"process_started\",\"data\":{\"process\":"@) is Some {
        dec_resp_process_started(
            expect(s, "{\"type\":\"process_started\",\"data\":{\"process\":"@)->Some_0,
        )
    } else if expect(s, "{\"type\":\"processes\",\"data\":"@) is Some {
        dec_resp_processes(expect(s, "{\"type\":\"processes\",\"data\":"@)->Some_0)
    } else if expect(s, "{\"type\":\"status\",\"data\":{\"running\":"@) is Some {
        dec_resp_status(expect(s, "{\"type\":\"status\",\"data\":{\"running\":"@)->Some_0)
    } else if expect(s, "{\"type\":\"error\",\"data\":{\"message\":"@) is Some {
        dec_resp_error(expect(s, "{\"type\":\"error\",\"data\":{\"message\":"@)->Some_0)
    } else {
        None
    }
}

/// Discharge the generic list hypotheses for project items.
proof fn lemma_proj_items_parse(items: Seq<ProjectView>)
    requires
        forall|i: int| 0 <= i < items.len() ==> project_view_wf(#[trigger] items[i]),
    ensures
        forall|i: int, r: Seq<char>|
            0 <= i < items.len() ==> #[trigger] proj_item_parse()(proj_item_enc()(items[i]) + r)
                == Some((items[i], r)),
        forall|i: int|
            0 <= i < items.len() ==> (#[trigger] proj_item_enc()(items[i])).len() >= 1
                && proj_item_enc()(items[i])[0] != ']',
{
    assert forall|i: int, r: Seq<char>| 0 <= i < items.len() implies #[trigger] proj_item_parse()(
        proj_item_enc()(items[i]) + r,
    ) == Some((items[i], r)) by {
        lemma_parse_project_obj(items[i], r);
    }
    assert forall|i: int| 0 <= i < items.len() implies (#[trigger] proj_item_enc()(
        items[i],
    )).len() >= 1 && proj_item_enc()(items[i])[0] != ']' by {
        reveal_strlit("{\"name\":\"");
        assert(spec_encode_project(items[i])[0] == '{');
    }
}

/// Discharge the generic list hypotheses for process items.
proof fn lemma_proc_items_parse(items: Seq<ProcessView>)
    requires
        forall|i: int| 0 <= i < items.len() ==> process_view_wf(#[trigger] items[i]),
    ensures
        forall|i: int, r: Seq<char>|
            0 <= i < items.len() ==> #[trigger] proc_item_parse()(proc_item_enc()(items[i]) + r)
                == Some((items[i], r)),
        forall|i: int|
            0 <= i < items.len() ==> (#[trigger] proc_item_enc()(items[i])).len() >= 1
                && proc_item_enc()(items[i])[0] != ']',
{
    assert forall|i: int, r: Seq<char>| 0 <= i < items.len() implies #[trigger] proc_item_parse()(
        proc_item_enc()(items[i]) + r,
    ) == Some((items[i], r)) by {
        lemma_parse_process_obj(items[i], r);
    }
    assert forall|i: int| 0 <= i < items.len() implies (#[trigger] proc_item_enc()(
        items[i],
    )).len() >= 1 && proc_item_enc()(items[i])[0] != ']' by {
        reveal_strlit("{\"id\":");
        assert(spec_encode_process(items[i])[0] == '{');
    }
}

#[verifier::rlimit(100)]
proof fn lemma_rt_resp_success(message: Option<Seq<char>>)
    ensures
        spec_decode_response(spec_encode_response(ResponseView::Success { message })) == Some(
            ResponseView::Success { message },
        ),
{
    reveal_strlit("{\"type\":\"success\",\"data\":{\"message\":");
    reveal_strlit("}}");
    let l = "{\"type\":\"success\",\"data\":{\"message\":"@;
    let end = "}}"@;
    let s = spec_encode_response(ResponseView::Success { message });
    let tail = enc_opt_str(message) + end;
    assert(s =~= l + tail);
    lemma_expect_prefix(l, tail);
    lemma_parse_opt_str(message, end);
    assert(end =~= end + Seq::<char>::empty());
    lemma_expect_prefix(end, Seq::<char>::empty());
}

#[verifier::rlimit(100)]
proof fn lemma_rt_resp_project(p: ProjectView)
    requires
        project_view_wf(p),
    ensures
        spec_decode_response(spec_encode_response(ResponseView::Project(p))) == Some(
            ResponseView::Project(p),
        ),
{
    reveal_strlit("{\"type\":\"success\",\"data\":{\"message\":");
    reveal_strlit("{\"type\":\"project\",\"data\":");
    reveal_strlit("}");
    let l = "{\"type\":\"project\",\"data\":"@;
    let end = "}"@;
    let s = spec_encode_response(ResponseView::Project(p));
    assert(s[9] == 'p');
    lemma_expect_diverges(s, "{\"type\":\"success\",\"data\":{\"message\":"@, 9);
    let tail = spec_encode_project(p) + end;
    assert(s =~= l + tail);
    lemma_expect_prefix(l, tail);
    lemma_parse_project_obj(p, end);
    assert(end =~= end + Seq::<char>::empty());
    lemma_expect_prefix(end, Seq::<char>::empty());
}

#[verifier::rlimit(100)]
proof fn lemma_rt_resp_projects(ps: Seq<ProjectView>)
    requires
        forall|i: int| 0 <= i < ps.len() ==> project_view_wf(#[trigger] ps[i]),
    ensures
        spec_decode_response(spec_encode_response(ResponseView::Projects(ps))) == Some(
            ResponseView::Projects(ps),
        ),
{
    reveal_strlit("{\"type\":\"success\",\"data\":{\"message\":");
    reveal_strlit("{\"type\":\"project\",\"data\":");
    reveal_strlit("{\"type\":\"projects\",\"data\":");
    reveal_strlit("}");
    let l = "{\"type\":\"projects\",\"data\":"@;
    let end = "}"@;
    let s = spec_encode_response(ResponseView::Projects(ps));
    assert(s[9] == 'p');
    lemma_expect_diverges(s, "{\"type\":\"success\",\"data\":{\"message\":"@, 9);
    assert(s[16] == 's');
    lemma_expect_diverges(s, "{\"type\":\"project\",\"data\":"@, 16);
    let enc_ps = spec_encode_list(ps, proj_item_enc());
    let tail = enc_ps + end;
    assert(s =~= l + tail);
    lemma_expect_prefix(l, tail);
    lemma_proj_items_parse(ps);
    lemma_encode_items_len(ps, proj_item_enc());
    assert(tail.len() >= ps.len());
    lemma_parse_list(ps, end, proj_item_enc(), proj_item_parse(), tail.len() as nat);
    assert(end =~= end + Seq::<char>::empty());
    lemma_expect_prefix(end, Seq::<char>::empty());
}

#[verifier::rlimit(100)]
proof fn lemma_rt_resp_process_started(p: ProcessView)
    requires
        process_view_wf(p),
    ensures
        spec_decode_response(spec_encode_response(ResponseView::ProcessStarted { process: p }))
            == Some(ResponseView::ProcessStarted { process: p }),
{
    reveal_strlit("{\"type\":\"success\",\"data\":{\"message\":");
    reveal_strlit("{\"type\":\"project\",\"data\":");
    reveal_strlit("{\"type\":\"projects\",\"data\":");
    reveal_strlit("{\"type\":\"process_started\",\"data\":{\"process\":");
    reveal_strlit("}}");
    let l = "{\"type\":\"process_started\",\"data\":{\"process\":"@;
    let end = "}}"@;
    let s = spec_encode_response(ResponseView::ProcessStarted { process: p });
    assert(s[9] == 'p');
    lemma_expect_diverges(s, "{\"type\":\"success\",\"data\":{\"message\":"@, 9);
    assert(s[12] == 'c');
    lemma_expect_diverges(s, "{\"type\":\"project\",\"data\":"@, 12);
    lemma_expect_diverges(s, "{\"type\":\"projects\",\"data\":"@, 12);
    let tail = spec_encode_process(p) + end;
    assert(s =~= l + tail);
    lemma_expect_prefix(l, tail);
    lemma_parse_process_obj(p, end);
    assert(end =~= end + Seq::<char>::empty());
    lemma_expect_prefix(end, Seq::<char>::empty());
}

#[verifier::rlimit(100)]
proof fn lemma_rt_resp_processes(ps: Seq<ProcessView>)
    requires
        forall|i: int| 0 <= i < ps.len() ==> process_view_wf(#[trigger] ps[i]),
    ensures
        spec_decode_response(spec_encode_response(ResponseView::Processes(ps))) == Some(
            ResponseView::Processes(ps),
        ),
{
    reveal_strlit("{\"type\":\"success\",\"data\":{\"message\":");
    reveal_strlit("{\"type\":\"project\",\"data\":");
    reveal_strlit("{\"type\":\"projects\",\"data\":");
    reveal_strlit("{\"type\":\"process_started\",\"data\":{\"process\":");
    reveal_strlit("{\"type\":\"processes\",\"data\":");
    reveal_strlit("}");
    let l = "{\"type\":\"processes\",\"data\":"@;
    let end = "}"@;
    let s = spec_encode_response(ResponseView::Processes(ps));
    assert(s[9] == 'p');
    lemma_expect_diverges(s, "{\"type\":\"success\",\"data\":{\"message\":"@, 9);
    assert(s[12] == 'c');
    lemma_expect_diverges(s, "{\"type\":\"project\",\"data\":"@, 12);
    lemma_expect_diverges(s, "{\"type\":\"projects\",\"data\":"@, 12);
    assert(s[16] == 'e');
    lemma_expect_diverges(s, "{\"type\":\"process_started\",\"data\":{\"process\":"@, 16);
    let enc_ps = spec_encode_list(ps, proc_item_enc());
    let tail = enc_ps + end;
    assert(s =~= l + tail);
    lemma_expect_prefix(l, tail);
    lemma_proc_items_parse(ps);
    lemma_encode_items_len(ps, proc_item_enc());
    assert(tail.len() >= ps.len());
    lemma_parse_list(ps, end, proc_item_enc(), proc_item_parse(), tail.len() as nat);
    assert(end =~= end + Seq::<char>::empty());
    lemma_expect_prefix(end, Seq::<char>::empty());
}

/// The status payload parses back to its three fields.
#[verifier::rlimit(100)]
proof fn lemma_rt_status_payload(running: bool, project_count: int, process_count: int)
    requires
        0 <= project_count <= usize::MAX,
        0 <= process_count <= usize::MAX,
    ensures
        dec_resp_status(
            enc_bool(running) + ",\"project_count\":"@ + spec_digits(project_count)
                + ",\"process_count\":"@ + spec_digits(process_count) + "}}"@,
        ) == Some(ResponseView::Status { running, project_count, process_count }),
{
    reveal_strlit(",\"project_count\":");
    reveal_strlit(",\"process_count\":");
    reveal_strlit("}}");
    let end = "}}"@;
    let tail = enc_bool(running) + ",\"project_count\":"@ + spec_digits(project_count)
        + ",\"process_count\":"@ + spec_digits(process_count) + end;
    let rest1 = ",\"project_count\":"@ + spec_digits(project_count) + ",\"process_count\":"@
        + spec_digits(process_count) + end;
    assert(tail =~= enc_bool(running) + rest1);
    lemma_parse_bool(running, rest1);
    let rest2 = spec_digits(project_count) + ",\"process_count\":"@ + spec_digits(process_count)
        + end;
    assert(rest1 =~= ",\"project_count\":"@ + rest2);
    lemma_expect_prefix(",\"project_count\":"@, rest2);
    let rest3 = ",\"process_count\":"@ + spec_digits(process_count) + end;
    assert(rest2 =~= spec_digits(project_count) + rest3);
    lemma_digits_val(project_count);
    assert(rest3[0] == ',');
    assert(!is_digit(','));
    lemma_parse_digits(spec_digits(project_count), rest3, 0);
    assert(rest2[0] == spec_digits(project_count)[0]);
    assert(is_digit(rest2[0]));
    let rest4 = spec_digits(process_count) + end;
    assert(rest3 =~= ",\"process_count\":"@ + rest4);
    lemma_expect_prefix(",\"process_count\":"@, rest4);
    lemma_digits_val(process_count);
    assert(end[0] == '}');
    assert(!is_digit('}'));
    lemma_parse_digits(spec_digits(process_count), end, 0);
    assert(rest4[0] == spec_digits(process_count)[0]);
    assert(is_digit(rest4[0]));
    assert(end =~= end + Seq::<char>::empty());
    lemma_expect_prefix(end, Seq::<char>::empty());
}

#[verifier::rlimit(100)]
proof fn lemma_rt_resp_status(running: bool, project_count: int, process_count: int)
    requires
        0 <= project_count <= usize::MAX,
        0 <= process_count <= usize::MAX,
    ensures
        spec_decode_response(
            spec_encode_response(ResponseView::Status { running, project_count, process_count }),
        ) == Some(ResponseView::Status { running, project_count, process_count }),
{
    reveal_strlit("{\"type\":\"success\",\"data\":{\"message\":");
    reveal_strlit("{\"type\":\"project\",\"data\":");
    reveal_strlit("{\"type\":\"projects\",\"data\":");
    reveal_strlit("{\"type\":\"process_started\",\"data\":{\"process\":");
    reveal_strlit("{\"type\":\"processes\",\"data\":");
    reveal_strlit("{\"type\":\"status\",\"data\":{\"running\":");
    let l = "{\"type\":\"status\",\"data\":{\"running\":"@;
    let s = spec_encode_response(ResponseView::Status { running, project_count, process_count });
    assert(s[10] == 't');
    lemma_expect_diverges(s, "{\"type\":\"success\",\"data\":{\"message\":"@, 10);
    assert(s[9] == 's');
    lemma_expect_diverges(s, "{\"type\":\"project\",\"data\":"@, 9);
    lemma_expect_diverges(s, "{\"type\":\"projects\",\"data\":"@, 9);
    lemma_expect_diverges(s, "{\"type\":\"process_started\",\"data\":{\"process\":"@, 9);
    lemma_expect_diverges(s, "{\"type\":\"processes\",\"data\":"@, 9);
    let tail = enc_bool(running) + ",\"project_count\":"@ + spec_digits(project_count)
        + ",\"process_count\":"@ + spec_digits(process_count) + "}}"@;
    assert(s =~= l + tail);
    lemma_expect_prefix(l, tail);
    lemma_rt_status_payload(running, project_count, process_count);
}

#[verifier::rlimit(100)]
proof fn lemma_rt_resp_error(message: Seq<char>)
    ensures
        spec_decode_response(spec_encode_response(ResponseView::Error { message })) == Some(
            ResponseView::Error { message },
        ),
{
    reveal_strlit("{\"type\":\"success\",\"data\":{\"message\":");
    reveal_strlit("{\"type\":\"project\",\"data\":");
    reveal_strlit("{\"type\":\"projects\",\"data\":");
    reveal_strlit("{\"type\":\"process_started\",\"data\":{\"process\":");
    reveal_strlit("{\"type\":\"processes\",\"data\":");
    reveal_strlit("{\"type\":\"status\",\"data\":{\"running\":");
    reveal_strlit("{\"type\":\"error\",\"data\":{\"message\":");
    reveal_strlit("}}");
    let l = "{\"type\":\"error\",\"data\":{\"message\":"@;
    let end = "}}"@;
    let s = spec_encode_response(ResponseView::Error { message });
    assert(s[9] == 'e');
    lemma_expect_diverges(s, "{\"type\":\"success\",\"data\":{\"message\":"@, 9);
    lemma_expect_diverges(s, "{\"type\":\"project\",\"data\":"@, 9);
    lemma_expect_diverges(s, "{\"type\":\"projects\",\"data\":"@, 9);
    lemma_expect_diverges(s, "{\"type\":\"process_started\",\"data\":{\"process\":"@, 9);
    lemma_expect_diverges(s, "{\"type\":\"processes\",\"data\":"@, 9);
    lemma_expect_diverges(s, "{\"type\":\"status\",\"data\":{\"running\":"@, 9);
    let tail = enc_str(message) + end;
    assert(s =~= l + tail);
    lemma_expect_prefix(l, tail);
    lemma_parse_str(message, end);
    assert(end =~= end + Seq::<char>::empty());
    lemma_expect_prefix(end, Seq::<char>::empty());
}

/// An encoded response decodes to the response it came from: the wire
/// format is the identity on response values.
pub proof fn lemma_response_codec_round_trip(v: ResponseView)
    requires
        response_view_wf(v),
    ensures
        spec_decode_response(spec_encode_response(v)) == Some(v),
{
    match v {
        ResponseView::Success { message } => lemma_rt_resp_success(message),
        ResponseView::Project(p) => lemma_rt_resp_project(p),
        ResponseView::Projects(ps) => lemma_rt_resp_projects(ps),
        ResponseView::ProcessStarted { process } => lemma_rt_resp_process_started(process),
        ResponseView::Processes(ps) => lemma_rt_resp_processes(ps),
        ResponseView::Status { running, project_count, process_count } => lemma_rt_resp_status(
            running,
            project_count,
            process_count,
        ),
        ResponseView::Error { message } => lemma_rt_resp_error(message),
    }
}

/// A quoted, escaped string, as text.
fn enc_str_exec(t: &str) -> (r: String)
    ensures
        r@ == enc_str(t@),
{
    let mut r = String::new();
    push_char(&mut r, '"');
    r.append(escape_string(t).as_str());
    push_char(&mut r, '"');
    proof {
        assert(r@ =~= enc_str(t@));
    }
    r
}

fn enc_opt_str_exec(t: &Option<String>) -> (r: String)
    ensures
        r@ == enc_opt_str(
            match t {
                Some(m) => Some(m@),
                None => None,
            },
        ),
{
    match t {
        None => String::from_str("null"),
        Some(m) => enc_str_exec(m.as_str()),
    }
}

fn encode_str_items_from(items: &Vec<String>, i: usize) -> (r: String)
    requires
        i <= items@.len(),
    ensures
        r@ == spec_encode_items(items.deep_view().skip(i as int), str_item_enc()),
    decreases items@.len() - i,
{
    let n = items.len();
    let ghost dv = items.deep_view();
    proof {
        assert(dv.len() == items@.len());
    }
    if i == n {
        proof {
            assert(dv.skip(i as int) =~= Seq::<Seq<char>>::empty());
        }
        String::new()
    } else if i + 1 == n {
        let r = enc_str_exec(items[i].as_str());
        proof {
            assert(dv.skip(i as int).len() == 1);
            assert(dv.skip(i as int)[0] == dv[i as int]);
            assert(dv[i as int] == items@[i as int]@);
        }
        r
    } else {
        let mut r = enc_str_exec(items[i].as_str());
        push_char(&mut r, ',');
        let rest = encode_str_items_from(items, i + 1);
        r.append(rest.as_str());
        proof {
            assert(dv.skip(i as int).skip(1) =~= dv.skip(i + 1));
            assert(dv.skip(i as int)[0] == dv[i as int]);
            assert(dv[i as int] == items@[i as int]@);
            assert(r@ =~= str_item_enc()(dv.skip(i as int)[0]) + seq![','] + spec_encode_items(
                dv.skip(i + 1),
                str_item_enc(),
            ));
        }
        r
    }
}

fn encode_str_list_exec(items: &Vec<String>) -> (r: String)
    ensures
        r@ == spec_encode_list(items.deep_view(), str_item_enc()),
{
    let mut r = String::new();
    push_char(&mut r, '[');
    let body = encode_str_items_from(items, 0);
    r.append(body.as_str());
    push_char(&mut r, ']');
    proof {
        assert(items.deep_view().skip(0) =~= items.deep_view());
        assert(r@ =~= spec_encode_list(items.deep_view(), str_item_enc()));
    }
    r
}

/// One process record, as text.
pub fn encode_process(p: &ProcessInfo) -> (r: String)
    ensures
        r@ == spec_encode_process(process_view(*p)),
{
    let mut s = String::from_str("{\"id\":");
    s.append(digits_u128(p.id).as_str());
    s.append(",\"project_name\":");
    s.append(enc_str_exec(p.project_name.as_str()).as_str());
    s.append(",\"pid\":");
    s.append(digits_u128(p.pid as u128).as_str());
    s.append(",\"command\":");
    s.append(enc_str_exec(p.command.as_str()).as_str());
    s.append(",\"started_at_millis\":");
    s.append(encode_i64(p.started_at_millis).as_str());
    s.append(",\"port\":");
    match p.port {
        None => s.append("null"),
        Some(pt) => s.append(digits_u128(pt as u128).as_str()),
    }
    s.append(",\"status\":");
    match p.status {
        ProcessStatus::Running => s.append("\"running\""),
        ProcessStatus::Stopped => s.append("\"stopped\""),
        ProcessStatus::Failed => s.append("\"failed\""),
    }
    s.append("}");
    proof {
        assert(s@ =~= spec_encode_process(process_view(*p)));
    }
    s
}

fn encode_project_items_from(items: &Vec<Project>, i: usize) -> (r: String)
    requires
        i <= items@.len(),
    ensures
        r@ == spec_encode_items(projects_seq_view(items@).skip(i as int), proj_item_enc()),
    decreases items@.len() - i,
{
    let n = items.len();
    let ghost dv = projects_seq_view(items@);
    if i == n {
        proof {
            assert(dv.skip(i as int) =~= Seq::<ProjectView>::empty());
        }
        String::new()
    } else if i + 1 == n {
        let r = crate::codec::encode_project(&items[i]);
        proof {
            assert(dv.skip(i as int).len() == 1);
            assert(dv.skip(i as int)[0] == dv[i as int]);
            assert(dv[i as int] == view_of(items@[i as int]));
        }
        r
    } else {
        let mut r = crate::codec::encode_project(&items[i]);
        push_char(&mut r, ',');
        let rest = encode_project_items_from(items, i + 1);
        r.append(rest.as_str());
        proof {
            assert(dv.skip(i as int).skip(1) =~= dv.skip(i + 1));
            assert(dv.skip(i as int)[0] == dv[i as int]);
            assert(dv[i as int] == view_of(items@[i as int]));
            assert(r@ =~= proj_item_enc()(dv.skip(i as int)[0]) + seq![','] + spec_encode_items(
                dv.skip(i + 1),
                proj_item_enc(),
            ));
        }
        r
    }
}

fn encode_project_list_exec(items: &Vec<Project>) -> (r: String)
    ensures
        r@ == spec_encode_list(projects_seq_view(items@), proj_item_enc()),
{
    let mut r = String::new();
    push_char(&mut r, '[');
    let body = encode_project_items_from(items, 0);
    r.append(body.as_str());
    push_char(&mut r, ']');
    proof {
        assert(projects_seq_view(items@).skip(0) =~= projects_seq_view(items@));
        assert(r@ =~= spec_encode_list(projects_seq_view(items@), proj_item_enc()));
    }
    r
}

fn encode_process_items_from(items: &Vec<ProcessInfo>, i: usize) -> (r: String)
    requires
        i <= items@.len(),
    ensures
        r@ == spec_encode_items(processes_seq_view(items@).skip(i as int), proc_item_enc()),
    decreases items@.len() - i,
{
    let n = items.len();
    let ghost dv = processes_seq_view(items@);
    if i == n {
        proof {
            assert(dv.skip(i as int) =~= Seq::<ProcessView>::empty());
        }
        String::new()
    } else if i + 1 == n {
        let r = encode_process(&items[i]);
        proof {
            assert(dv.skip(i as int).len() == 1);
            assert(dv.skip(i as int)[0] == dv[i as int]);
            assert(dv[i as int] == process_view(items@[i as int]));
        }
        r
    } else {
        let mut r = encode_process(&items[i]);
        push_char(&mut r, ',');
        let rest = encode_process_items_from(items, i + 1);
        r.append(rest.as_str());
        proof {
            assert(dv.skip(i as int).skip(1) =~= dv.skip(i + 1));
            assert(dv.skip(i as int)[0] == dv[i as int]);
            assert(dv[i as int] == process_view(items@[i as int]));
            assert(r@ =~= proc_item_enc()(dv.skip(i as int)[0]) + seq![','] + spec_encode_items(
                dv.skip(i + 1),
                proc_item_enc(),
            ));
        }
        r
    }
}

fn encode_process_list_exec(items: &Vec<ProcessInfo>) -> (r: String)
    ensures
        r@ == spec_encode_list(processes_seq_view(items@), proc_item_enc()),
{
    let mut r = String::new();
    push_char(&mut r, '[');
    let body = encode_process_items_from(items, 0);
    r.append(body.as_str());
    push_char(&mut r, ']');
    proof {
        assert(processes_seq_view(items@).skip(0) =~= processes_seq_view(items@));
        assert(r@ =~= spec_encode_list(processes_seq_view(items@), proc_item_enc()));
    }
    r
}

/// One request, as its wire line (without the trailing newline).
pub fn encode_request(req: &IpcRequest) -> (r: String)
    ensures
        r@ == spec_encode_request(request_view(*req)),
{
    match req {
        IpcRequest::CreateProject { name, root_dir } => {
            let mut s = String::from_str("{\"type\":\"create_project\",\"name\":");
            s.append(enc_str_exec(name.as_str()).as_str());
            s.append(",\"root_dir\":");
            s.append(enc_str_exec(root_dir.as_str()).as_str());
            s.append("}");
            proof {
                assert(s@ =~= spec_encode_request(request_view(*req)));
            }
            s
        },
        IpcRequest::ListProjects => String::from_str("{\"type\":\"list_projects\"}"),
        IpcRequest::GetProject { name } => {
            let mut s = String::from_str("{\"type\":\"get_project\",\"name\":");
            s.append(enc_str_exec(name.as_str()).as_str());
            s.append("}");
            proof {
                assert(s@ =~= spec_encode_request(request_view(*req)));
            }
            s
        },
        IpcRequest::RunCommand { project_name, command, args } => {
            let mut s = String::from_str("{\"type\":\"run_command\",\"project_name\":");
            s.append(enc_str_exec(project_name.as_str()).as_str());
            s.append(",\"command\":");
            s.append(enc_str_exec(command.as_str()).as_str());
            s.append(",\"args\":");
            s.append(encode_str_list_exec(args).as_str());
            s.append("}");
            proof {
                assert(s@ =~= spec_encode_request(request_view(*req)));
            }
            s
        },
        IpcRequest::StopProcess { project_name, process_id } => {
            let mut s = String::from_str("{\"type\":\"stop_process\",\"project_name\":");
            s.append(enc_str_exec(project_name.as_str()).as_str());
            s.append(",\"process_id\":");
            s.append(digits_u128(*process_id).as_str());
            s.append("}");
            proof {
                assert(s@ =~= spec_encode_request(request_view(*req)));
            }
            s
        },
        IpcRequest::ListProcesses { project_name } => {
            let mut s = String::from_str("{\"type\":\"list_processes\",\"project_name\":");
            s.append(enc_opt_str_exec(project_name).as_str());
            s.append("}");
            proof {
                assert(s@ =~= spec_encode_request(request_view(*req)));
            }
            s
        },
        IpcRequest::Status => String::from_str("{\"type\":\"status\"}"),
        IpcRequest::Shutdown => String::from_str("{\"type\":\"shutdown\"}"),
    }
}

/// One response, as its wire line (without the trailing newline).
pub fn encode_response(resp: &IpcResponse) -> (r: String)
    ensures
        r@ == spec_encode_response(response_view(*resp)),
{
    match resp {
        IpcResponse::Success { message } => {
            let mut s = String::from_str("{\"type\":\"success\",\"data\":{\"message\":");
            s.append(enc_opt_str_exec(message).as_str());
            s.append("}}");
            proof {
                assert(s@ =~= spec_encode_response(response_view(*resp)));
            }
            s
        },
        IpcResponse::Project(p) => {
            let mut s = String::from_str("{\"type\":\"project\",\"data\":");
            s.append(crate::codec::encode_project(p).as_str());
            s.append("}");
            proof {
                assert(s@ =~= spec_encode_response(response_view(*resp)));
            }
            s
        },
        IpcResponse::Projects(ps) => {
            let mut s = String::from_str("{\"type\":\"projects\",\"data\":");
            s.append(encode_project_list_exec(ps).as_str());
            s.append("}");
            proof {
                assert(s@ =~= spec_encode_response(response_view(*resp)));
            }
            s
        },
        IpcResponse::ProcessStarted { process } => {
            let mut s = String::from_str("{\"type\":\"process_started\",\"data\":{\"process\":");
            s.append(encode_process(process).as_str());
            s.append("}}");
            proof {
                assert(s@ =~= spec_encode_response(response_view(*resp)));
            }
            s
        },
        IpcResponse::Processes(ps) => {
            let mut s = String::from_str("{\"type\":\"processes\",\"data\":");
            s.append(encode_process_list_exec(ps).as_str());
            s.append("}");
            proof {
                assert(s@ =~= spec_encode_response(response_view(*resp)));
            }
            s
        },
        IpcResponse::Status { running, project_count, process_count } => {
            let mut s = String::from_str("{\"type\":\"status\",\"data\":{\"running\":");
            if *running {
                s.append("true");
            } else {
                s.append("false");
            }
            s.append(",\"project_count\":");
            s.append(digits_u128(*project_count as u128).as_str());
            s.append(",\"process_count\":");
            s.append(digits_u128(*process_count as u128).as_str());
            s.append("}}");
            proof {
                assert(s@ =~= spec_encode_response(response_view(*resp)));
            }
            s
        },
        IpcResponse::Error { message } => {
            let mut s = String::from_str("{\"type\":\"error\",\"data\":{\"message\":");
            s.append(enc_str_exec(message.as_str()).as_str());
            s.append("}}");
            proof {
                assert(s@ =~= spec_encode_response(response_view(*resp)));
            }
            s
        },
    }
}

/// Parse a quoted string at `pos`, as `parse_str` does on the suffix.
fn parse_jstr_at(chars: &Vec<char>, pos: usize) -> (r: Option<(String, usize)>)
    requires
        pos <= chars@.len(),
    ensures
        match r {
            Some(out) => out.1 <= chars@.len() && parse_str(chars@.skip(pos as int)) == Some(
                (out.0@, chars@.skip(out.1 as int)),
            ),
            None => parse_str(chars@.skip(pos as int)) is None,
        },
{
    if pos >= chars.len() {
        return None;
    }
    proof {
        assert(chars@.skip(pos as int)[0] == chars@[pos as int]);
        assert(chars@.skip(pos as int).skip(1) =~= chars@.skip(pos + 1));
    }
    if chars[pos] != '"' {
        return None;
    }
    parse_string_at(chars, pos + 1)
}

/// Parse a string or null at `pos`, as `parse_opt_str` does on the suffix.
fn parse_opt_str_at(chars: &Vec<char>, pos: usize) -> (r: Option<(Option<String>, usize)>)
    requires
        pos <= chars@.len(),
    ensures
        match r {
            Some(out) => out.1 <= chars@.len() && parse_opt_str(chars@.skip(pos as int)) == Some(
                (
                    match out.0 {
                        Some(m) => Some(m@),
                        None => None,
                    },
                    chars@.skip(out.1 as int),
                ),
            ),
            None => parse_opt_str(chars@.skip(pos as int)) is None,
        },
{
    match expect_at(chars, pos, "null") {
        Some(p) => Some((None, p)),
        None => match parse_jstr_at(chars, pos) {
            Some((m, p)) => Some((Some(m), p)),
            None => None,
        },
    }
}

/// Parse a boolean at `pos`, as `parse_bool` does on the suffix.
fn parse_bool_at(chars: &Vec<char>, pos: usize) -> (r: Option<(bool, usize)>)
    requires
        pos <= chars@.len(),
    ensures
        match r {
            Some(out) => out.1 <= chars@.len() && parse_bool(chars@.skip(pos as int)) == Some(
                (out.0, chars@.skip(out.1 as int)),
            ),
            None => parse_bool(chars@.skip(pos as int)) is None,
        },
{
    match expect_at(chars, pos, "true") {
        Some(p) => Some((true, p)),
        None => match expect_at(chars, pos, "false") {
            Some(p) => Some((false, p)),
            None => None,
        },
    }
}

/// Parse one process object at `pos`, as `spec_parse_process_obj` does on
/// the suffix.
fn parse_process_at(chars: &Vec<char>, pos: usize) -> (r: Option<(ProcessInfo, usize)>)
    requires
        pos <= chars@.len(),
    ensures
        match r {
            Some(out) => out.1 <= chars@.len() && spec_parse_process_obj(chars@.skip(pos as int))
                == Some((process_view(out.0), chars@.skip(out.1 as int))),
            None => spec_parse_process_obj(chars@.skip(pos as int)) is None,
        },
{
    let p1 = match expect_at(chars, pos, "{\"id\":") {
        Some(p) => p,
        None => {
            return None;
        },
    };
    if p1 >= chars.len() {
        return None;
    }
    let c1 = chars[p1];
    proof {
        assert(chars@.skip(p1 as int)[0] == chars@[p1 as int]);
    }
    if (c1 as u32) < 48 || (c1 as u32) > 57 {
        return None;
    }
    let (id, id_big, p2) = parse_digits_at(chars, p1);
    if id_big {
        return None;
    }
    let p3 = match expect_at(chars, p2, ",\"project_name\":") {
        Some(p) => p,
        None => {
            return None;
        },
    };
    let (project_name, p4) = match parse_jstr_at(chars, p3) {
        Some(out) => out,
        None => {
            return None;
        },
    };
    let p5 = match expect_at(chars, p4, ",\"pid\":") {
        Some(p) => p,
        None => {
            return None;
        },
    };
    if p5 >= chars.len() {
        return None;
    }
    let c5 = chars[p5];
    proof {
        assert(chars@.skip(p5 as int)[0] == chars@[p5 as int]);
    }
    if (c5 as u32) < 48 || (c5 as u32) > 57 {
        return None;
    }
    let (pid, pid_big, p6) = parse_digits_at(chars, p5);
    if pid_big || pid > u32::MAX as u128 {
        return None;
    }
    let p7 = match expect_at(chars, p6, ",\"command\":") {
        Some(p) => p,
        None => {
            return None;
        },
    };
    let (command, p8) = match parse_jstr_at(chars, p7) {
        Some(out) => out,
        None => {
            return None;
        },
    };
    let p9 = match expect_at(chars, p8, ",\"started_at_millis\":") {
        Some(p) => p,
        None => {
            return None;
        },
    };
    // a signed decimal
    let mut neg = false;
    let mut pd = p9;
    if p9 < chars.len() && chars[p9] == '-' {
        neg = true;
        pd = p9 + 1;
        if pd >= chars.len() {
            proof {
                assert(chars@.skip(p9 as int)[0] == '-');
            }
            return None;
        }
        let cd = chars[pd];
        if (cd as u32) < 48 || (cd as u32) > 57 {
            proof {
                assert(chars@.skip(p9 as int)[0] == '-');
                assert(chars@.skip(p9 as int)[1] == chars@[pd as int]);
            }
            return None;
        }
    } else {
        if p9 >= chars.len() {
            return None;
        }
        let cd = chars[p9];
        if (cd as u32) < 48 || (cd as u32) > 57 {
            proof {
                assert(chars@.skip(p9 as int)[0] == chars@[p9 as int]);
            }
            return None;
        }
    }
    proof {
        if neg {
            assert(chars@.skip(p9 as int)[0] == '-');
            assert(chars@.skip(p9 as int)[1] == chars@[p9 + 1]);
            assert(chars@.skip(p9 as int).skip(1) =~= chars@.skip(p9 + 1));
        } else {
            assert(chars@.skip(p9 as int)[0] == chars@[p9 as int]);
        }
    }
    let (mag, mag_big, p10) = parse_digits_at(chars, pd);
    let started: i64 = if neg {
        if mag_big || mag > 9223372036854775808u128 {
            return None;
        }
        if mag == 9223372036854775808u128 {
            i64::MIN
        } else {
            -(mag as i64)
        }
    } else {
        if mag_big || mag > i64::MAX as u128 {
            return None;
        }
        mag as i64
    };
    let p11 = match expect_at(chars, p10, ",\"port\":") {
        Some(p) => p,
        None => {
            return None;
        },
    };
    let (port, p12) = match parse_opt_u16_at(chars, p11) {
        Some(out) => out,
        None => {
            return None;
        },
    };
    let p13 = match expect_at(chars, p12, ",\"status\":") {
        Some(p) => p,
        None => {
            return None;
        },
    };
    let (status, p14): (ProcessStatus, usize) = match expect_at(chars, p13, "\"running\"") {
        Some(p) => (ProcessStatus::Running, p),
        None => match expect_at(chars, p13, "\"stopped\"") {
            Some(p) => (ProcessStatus::Stopped, p),
            None => match expect_at(chars, p13, "\"failed\"") {
                Some(p) => (ProcessStatus::Failed, p),
                None => {
                    return None;
                },
            },
        },
    };
    let p15 = match expect_at(chars, p14, "}") {
        Some(p) => p,
        None => {
            return None;
        },
    };
    Some(
        (
            ProcessInfo {
                id,
                project_name,
                pid: pid as u32,
                command,
                started_at_millis: started,
                port,
                status,
            },
            p15,
        ),
    )
}

/// Parse comma-separated quoted strings at `pos`, as `spec_parse_items`
/// does on the suffix.
fn parse_str_items_at(chars: &Vec<char>, pos: usize, fuel: usize) -> (r: Option<
    (Vec<String>, usize),
>)
    requires
        pos <= chars@.len(),
    ensures
        match r {
            Some(out) => out.1 <= chars@.len() && spec_parse_items(
                chars@.skip(pos as int),
                str_item_parse(),
                fuel as nat,
            ) == Some((out.0.deep_view(), chars@.skip(out.1 as int))),
            None => spec_parse_items(chars@.skip(pos as int), str_item_parse(), fuel as nat)
                is None,
        },
    decreases fuel,
{
    if fuel == 0 {
        return None;
    }
    let (item, p1) = match parse_jstr_at(chars, pos) {
        Some(out) => out,
        None => {
            return None;
        },
    };
    if p1 < chars.len() && chars[p1] == ',' {
        proof {
            assert(chars@.skip(p1 as int)[0] == chars@[p1 as int]);
            assert(chars@.skip(p1 as int).skip(1) =~= chars@.skip(p1 + 1));
        }
        match parse_str_items_at(chars, p1 + 1, fuel - 1) {
            Some((mut items, p2)) => {
                let ghost pre = items.deep_view();
                let ghost item_v = item@;
                items.insert(0, item);
                proof {
                    assert forall|j: int| 0 <= j < items.deep_view().len() implies items.deep_view()[j]
                        == (seq![item_v] + pre)[j] by {
                        if j == 0 {
                            assert(items@[0] == items@[0]);
                        } else {
                            assert(items@[j] == items@[j]);
                        }
                    }
                    assert(items.deep_view() =~= seq![item_v] + pre);
                }
                Some((items, p2))
            },
            None => None,
        }
    } else if p1 < chars.len() && chars[p1] == ']' {
        proof {
            assert(chars@.skip(p1 as int)[0] == chars@[p1 as int]);
            assert(chars@.skip(p1 as int).skip(1) =~= chars@.skip(p1 + 1));
        }
        let ghost item_v = item@;
        let mut items: Vec<String> = Vec::new();
        items.push(item);
        proof {
            assert forall|j: int| 0 <= j < items.deep_view().len() implies items.deep_view()[j]
                == seq![item_v][j] by {
                assert(items@[j] == items@[j]);
            }
            assert(items.deep_view() =~= seq![item_v]);
        }
        Some((items, p1 + 1))
    } else {
        proof {
            if p1 < chars@.len() {
                assert(chars@.skip(p1 as int)[0] == chars@[p1 as int]);
            } else {
                assert(chars@.skip(p1 as int).len() == 0);
            }
        }
        None
    }
}

/// Parse a string array at `pos`, as `spec_parse_list` does on the suffix
/// with the suffix's length as fuel.
fn parse_str_list_at(chars: &Vec<char>, pos: usize) -> (r: Option<(Vec<String>, usize)>)
    requires
        pos <= chars@.len(),
    ensures
        match r {
            Some(out) => out.1 <= chars@.len() && spec_parse_list(
                chars@.skip(pos as int),
                str_item_parse(),
                chars@.skip(pos as int).len() as nat,
            ) == Some((out.0.deep_view(), chars@.skip(out.1 as int))),
            None => spec_parse_list(
                chars@.skip(pos as int),
                str_item_parse(),
                chars@.skip(pos as int).len() as nat,
            ) is None,
        },
{
    let n = chars.len();
    if pos >= n {
        return None;
    }
    proof {
        assert(chars@.skip(pos as int)[0] == chars@[pos as int]);
    }
    if chars[pos] != '[' {
        return None;
    }
    if pos + 1 < n && chars[pos + 1] == ']' {
        proof {
            assert(chars@.skip(pos as int)[1] == chars@[pos + 1]);
            assert(chars@.skip(pos as int).skip(2) =~= chars@.skip(pos + 2));
        }
        let items: Vec<String> = Vec::new();
        proof {
            assert(items.deep_view() =~= Seq::<Seq<char>>::empty());
        }
        return Some((items, pos + 2));
    }
    proof {
        if pos + 1 < chars@.len() {
            assert(chars@.skip(pos as int)[1] == chars@[pos + 1]);
        }
        assert(chars@.skip(pos as int).skip(1) =~= chars@.skip(pos + 1));
    }
    parse_str_items_at(chars, pos + 1, n - pos)
}

/// Parse comma-separated project objects at `pos`.
fn parse_project_items_at(chars: &Vec<char>, pos: usize, fuel: usize) -> (r: Option<
    (Vec<Project>, usize),
>)
    requires
        pos <= chars@.len(),
    ensures
        match r {
            Some(out) => out.1 <= chars@.len() && spec_parse_items(
                chars@.skip(pos as int),
                proj_item_parse(),
                fuel as nat,
            ) == Some((projects_seq_view(out.0@), chars@.skip(out.1 as int))),
            None => spec_parse_items(chars@.skip(pos as int), proj_item_parse(), fuel as nat)
                is None,
        },
    decreases fuel,
{
    if fuel == 0 {
        return None;
    }
    let (item, p1) = match parse_project_at(chars, pos) {
        Some(out) => out,
        None => {
            return None;
        },
    };
    if p1 < chars.len() && chars[p1] == ',' {
        proof {
            assert(chars@.skip(p1 as int)[0] == chars@[p1 as int]);
            assert(chars@.skip(p1 as int).skip(1) =~= chars@.skip(p1 + 1));
        }
        match parse_project_items_at(chars, p1 + 1, fuel - 1) {
            Some((mut items, p2)) => {
                let ghost pre = projects_seq_view(items@);
                let ghost item_v = view_of(item);
                items.insert(0, item);
                proof {
                    assert forall|j: int| 0 <= j < projects_seq_view(items@).len() implies
                        projects_seq_view(items@)[j] == (seq![item_v] + pre)[j] by {
                        if j > 0 {
                            assert(items@[j] == items@[j]);
                        }
                    }
                    assert(projects_seq_view(items@) =~= seq![item_v] + pre);
                }
                Some((items, p2))
            },
            None => None,
        }
    } else if p1 < chars.len() && chars[p1] == ']' {
        proof {
            assert(chars@.skip(p1 as int)[0] == chars@[p1 as int]);
            assert(chars@.skip(p1 as int).skip(1) =~= chars@.skip(p1 + 1));
        }
        let ghost item_v = view_of(item);
        let mut items: Vec<Project> = Vec::new();
        items.push(item);
        proof {
            assert forall|j: int| 0 <= j < projects_seq_view(items@).len() implies
                projects_seq_view(items@)[j] == seq![item_v][j] by {
                assert(items@[j] == items@[j]);
            }
            assert(projects_seq_view(items@) =~= seq![item_v]);
        }
        Some((items, p1 + 1))
    } else {
        proof {
            if p1 < chars@.len() {
                assert(chars@.skip(p1 as int)[0] == chars@[p1 as int]);
            } else {
                assert(chars@.skip(p1 as int).len() == 0);
            }
        }
        None
    }
}

/// Parse a project array at `pos`.
fn parse_project_list_at(chars: &Vec<char>, pos: usize) -> (r: Option<(Vec<Project>, usize)>)
    requires
        pos <= chars@.len(),
    ensures
        match r {
            Some(out) => out.1 <= chars@.len() && spec_parse_list(
                chars@.skip(pos as int),
                proj_item_parse(),
                chars@.skip(pos as int).len() as nat,
            ) == Some((projects_seq_view(out.0@), chars@.skip(out.1 as int))),
            None => spec_parse_list(
                chars@.skip(pos as int),
                proj_item_parse(),
                chars@.skip(pos as int).len() as nat,
            ) is None,
        },
{
    let n = chars.len();
    if pos >= n {
        return None;
    }
    proof {
        assert(chars@.skip(pos as int)[0] == chars@[pos as int]);
    }
    if chars[pos] != '[' {
        return None;
    }
    if pos + 1 < n && chars[pos + 1] == ']' {
        proof {
            assert(chars@.skip(pos as int)[1] == chars@[pos + 1]);
            assert(chars@.skip(pos as int).skip(2) =~= chars@.skip(pos + 2));
        }
        let items: Vec<Project> = Vec::new();
        proof {
            assert(projects_seq_view(items@) =~= Seq::<ProjectView>::empty());
        }
        return Some((items, pos + 2));
    }
    proof {
        if pos + 1 < chars@.len() {
            assert(chars@.skip(pos as int)[1] == chars@[pos + 1]);
        }
        assert(chars@.skip(pos as int).skip(1) =~= chars@.skip(pos + 1));
    }
    parse_project_items_at(chars, pos + 1, n - pos)
}

/// Parse comma-separated process objects at `pos`.
fn parse_process_items_at(chars: &Vec<char>, pos: usize, fuel: usize) -> (r: Option<
    (Vec<ProcessInfo>, usize),
>)
    requires
        pos <= chars@.len(),
    ensures
        match r {
            Some(out) => out.1 <= chars@.len() && spec_parse_items(
                chars@.skip(pos as int),
                proc_item_parse(),
                fuel as nat,
            ) == Some((processes_seq_view(out.0@), chars@.skip(out.1 as int))),
            None => spec_parse_items(chars@.skip(pos as int), proc_item_parse(), fuel as nat)
                is None,
        },
    decreases fuel,
{
    if fuel == 0 {
        return None;
    }
    let (item, p1) = match parse_process_at(chars, pos) {
        Some(out) => out,
        None => {
            return None;
        },
    };
    if p1 < chars.len() && chars[p1] == ',' {
        proof {
            assert(chars@.skip(p1 as int)[0] == chars@[p1 as int]);
            assert(chars@.skip(p1 as int).skip(1) =~= chars@.skip(p1 + 1));
        }
        match parse_process_items_at(chars, p1 + 1, fuel - 1) {
            Some((mut items, p2)) => {
                let ghost pre = processes_seq_view(items@);
                let ghost item_v = process_view(item);
                items.insert(0, item);
                proof {
                    assert forall|j: int| 0 <= j < processes_seq_view(items@).len() implies
                        processes_seq_view(items@)[j] == (seq![item_v] + pre)[j] by {
                        if j > 0 {
                            assert(items@[j] == items@[j]);
                        }
                    }
                    assert(processes_seq_view(items@) =~= seq![item_v] + pre);
                }
                Some((items, p2))
            },
            None => None,
        }
    } else if p1 < chars.len() && chars[p1] == ']' {
        proof {
            assert(chars@.skip(p1 as int)[0] == chars@[p1 as int]);
            assert(chars@.skip(p1 as int).skip(1) =~= chars@.skip(p1 + 1));
        }
        let ghost item_v = process_view(item);
        let mut items: Vec<ProcessInfo> = Vec::new();
        items.push(item);
        proof {
            assert forall|j: int| 0 <= j < processes_seq_view(items@).len() implies
                processes_seq_view(items@)[j] == seq![item_v][j] by {
                assert(items@[j] == items@[j]);
            }
            assert(processes_seq_view(items@) =~= seq![item_v]);
        }
        Some((items, p1 + 1))
    } else {
        proof {
            if p1 < chars@.len() {
                assert(chars@.skip(p1 as int)[0] == chars@[p1 as int]);
            } else {
                assert(chars@.skip(p1 as int).len() == 0);
            }
        }
        None
    }
}

/// Parse a process array at `pos`.
fn parse_process_list_at(chars: &Vec<char>, pos: usize) -> (r: Option<(Vec<ProcessInfo>, usize)>)
    requires
        pos <= chars@.len(),
    ensures
        match r {
            Some(out) => out.1 <= chars@.len() && spec_parse_list(
                chars@.skip(pos as int),
                proc_item_parse(),
                chars@.skip(pos as int).len() as nat,
            ) == Some((processes_seq_view(out.0@), chars@.skip(out.1 as int))),
            None => spec_parse_list(
                chars@.skip(pos as int),
                proc_item_parse(),
                chars@.skip(pos as int).len() as nat,
            ) is None,
        },
{
    let n = chars.len();
    if pos >= n {
        return None;
    }
    proof {
        assert(chars@.skip(pos as int)[0] == chars@[pos as int]);
    }
    if chars[pos] != '[' {
        return None;
    }
    if pos + 1 < n && chars[pos + 1] == ']' {
        proof {
            assert(chars@.skip(pos as int)[1] == chars@[pos + 1]);
            assert(chars@.skip(pos as int).skip(2) =~= chars@.skip(pos + 2));
        }
        let items: Vec<ProcessInfo> = Vec::new();
        proof {
            assert(processes_seq_view(items@) =~= Seq::<ProcessView>::empty());
        }
        return Some((items, pos + 2));
    }
    proof {
        if pos + 1 < chars@.len() {
            assert(chars@.skip(pos as int)[1] == chars@[pos + 1]);
        }
        assert(chars@.skip(pos as int).skip(1) =~= chars@.skip(pos + 1));
    }
    parse_process_items_at(chars, pos + 1, n - pos)
}

/// Read one request back from its wire line. Accepts exactly the lines
/// `encode_request` writes.
pub fn decode_request(s: &str) -> (r: Option<IpcRequest>)
    ensures
        match r {
            Some(q) => spec_decode_request(s@) == Some(request_view(q)),
            None => spec_decode_request(s@) is None,
        },
{
    let chars = str_to_chars(s);
    proof {
        assert(chars@.skip(0) =~= s@);
    }
    let n = chars.len();
    if let Some(p) = expect_at(&chars, 0, "{\"type\":\"create_project\",\"name\":") {
        let (name, p1) = match parse_jstr_at(&chars, p) {
            Some(out) => out,
            None => {
                return None;
            },
        };
        let p2 = match expect_at(&chars, p1, ",\"root_dir\":") {
            Some(x) => x,
            None => {
                return None;
            },
        };
        let (root_dir, p3) = match parse_jstr_at(&chars, p2) {
            Some(out) => out,
            None => {
                return None;
            },
        };
        let p4 = match expect_at(&chars, p3, "}") {
            Some(x) => x,
            None => {
                return None;
            },
        };
        if p4 != n {
            proof {
                assert(chars@.skip(p4 as int).len() > 0);
            }
            return None;
        }
        proof {
            assert(chars@.skip(p4 as int).len() == 0);
        }
        return Some(IpcRequest::CreateProject { name, root_dir });
    }
    if let Some(p) = expect_at(&chars, 0, "{\"type\":\"list_projects\"}") {
        if p != n {
            proof {
                assert(chars@.skip(p as int).len() > 0);
            }
            return None;
        }
        proof {
            assert(chars@.skip(p as int).len() == 0);
        }
        return Some(IpcRequest::ListProjects);
    }
    if let Some(p) = expect_at(&chars, 0, "{\"type\":\"get_project\",\"name\":") {
        let (name, p1) = match parse_jstr_at(&chars, p) {
            Some(out) => out,
            None => {
                return None;
            },
        };
        let p2 = match expect_at(&chars, p1, "}") {
            Some(x) => x,
            None => {
                return None;
            },
        };
        if p2 != n {
            proof {
                assert(chars@.skip(p2 as int).len() > 0);
            }
            return None;
        }
        proof {
            assert(chars@.skip(p2 as int).len() == 0);
        }
        return Some(IpcRequest::GetProject { name });
    }
    if let Some(p) = expect_at(&chars, 0, "{\"type\":\"run_command\",\"project_name\":") {
        let (project_name, p1) = match parse_jstr_at(&chars, p) {
            Some(out) => out,
            None => {
                return None;
            },
        };
        let p2 = match expect_at(&chars, p1, ",\"command\":") {
            Some(x) => x,
            None => {
                return None;
            },
        };
        let (command, p3) = match parse_jstr_at(&chars, p2) {
            Some(out) => out,
            None => {
                return None;
            },
        };
        let p4 = match expect_at(&chars, p3, ",\"args\":") {
            Some(x) => x,
            None => {
                return None;
            },
        };
        let (args, p5) = match parse_str_list_at(&chars, p4) {
            Some(out) => out,
            None => {
                return None;
            },
        };
        let p6 = match expect_at(&chars, p5, "}") {
            Some(x) => x,
            None => {
                return None;
            },
        };
        if p6 != n {
            proof {
                assert(chars@.skip(p6 as int).len() > 0);
            }
            return None;
        }
        proof {
            assert(chars@.skip(p6 as int).len() == 0);
        }
        return Some(IpcRequest::RunCommand { project_name, command, args });
    }
    if let Some(p) = expect_at(&chars, 0, "{\"type\":\"stop_process\",\"project_name\":") {
        let (project_name, p1) = match parse_jstr_at(&chars, p) {
            Some(out) => out,
            None => {
                return None;
            },
        };
        let p2 = match expect_at(&chars, p1, ",\"process_id\":") {
            Some(x) => x,
            None => {
                return None;
            },
        };
        if p2 >= n {
            return None;
        }
        let c2 = chars[p2];
        proof {
            assert(chars@.skip(p2 as int)[0] == chars@[p2 as int]);
        }
        if (c2 as u32) < 48 || (c2 as u32) > 57 {
            return None;
        }
        let (process_id, big, p3) = parse_digits_at(&chars, p2);
        if big {
            return None;
        }
        let p4 = match expect_at(&chars, p3, "}") {
            Some(x) => x,
            None => {
                return None;
            },
        };
        if p4 != n {
            proof {
                assert(chars@.skip(p4 as int).len() > 0);
            }
            return None;
        }
        proof {
            assert(chars@.skip(p4 as int).len() == 0);
        }
        return Some(IpcRequest::StopProcess { project_name, process_id });
    }
    if let Some(p) = expect_at(&chars, 0, "{\"type\":\"list_processes\",\"project_name\":") {
        let (project_name, p1) = match parse_opt_str_at(&chars, p) {
            Some(out) => out,
            None => {
                return None;
            },
        };
        let p2 = match expect_at(&chars, p1, "}") {
            Some(x) => x,
            None => {
                return None;
            },
        };
        if p2 != n {
            proof {
                assert(chars@.skip(p2 as int).len() > 0);
            }
            return None;
        }
        proof {
            assert(chars@.skip(p2 as int).len() == 0);
        }
        return Some(IpcRequest::ListProcesses { project_name });
    }
    if let Some(p) = expect_at(&chars, 0, "{\"type\":\"status\"}") {
        if p != n {
            proof {
                assert(chars@.skip(p as int).len() > 0);
            }
            return None;
        }
        proof {
            assert(chars@.skip(p as int).len() == 0);
        }
        return Some(IpcRequest::Status);
    }
    if let Some(p) = expect_at(&chars, 0, "{\"type\":\"shutdown\"}") {
        if p != n {
            proof {
                assert(chars@.skip(p as int).len() > 0);
            }
            return None;
        }
        proof {
            assert(chars@.skip(p as int).len() == 0);
        }
        return Some(IpcRequest::Shutdown);
    }
    None
}

/// Read one response back from its wire line. Accepts exactly the lines
/// `encode_response` writes.
pub fn decode_response(s: &str) -> (r: Option<IpcResponse>)
    ensures
        match r {
            Some(q) => spec_decode_response(s@) == Some(response_view(q)),
            None => spec_decode_response(s@) is None,
        },
{
    let chars = str_to_chars(s);
    proof {
        assert(chars@.skip(0) =~= s@);
    }
    let n = chars.len();
    if let Some(p) = expect_at(&chars, 0, "{\"type\":\"success\",\"data\":{\"message\":") {
        let (message, p1) = match parse_opt_str_at(&chars, p) {
            Some(out) => out,
            None => {
                return None;
            },
        };
        let p2 = match expect_at(&chars, p1, "}}") {
            Some(x) => x,
            None => {
                return None;
            },
        };
        if p2 != n {
            proof {
                assert(chars@.skip(p2 as int).len() > 0);
            }
            return None;
        }
        proof {
            assert(chars@.skip(p2 as int).len() == 0);
        }
        return Some(IpcResponse::Success { message });
    }
    if let Some(p) = expect_at(&chars, 0, "{\"type\":\"project\",\"data\":") {
        let (project, p1) = match parse_project_at(&chars, p) {
            Some(out) => out,
            None => {
                return None;
            },
        };
        let p2 = match expect_at(&chars, p1, "}") {
            Some(x) => x,
            None => {
                return None;
            },
        };
        if p2 != n {
            proof {
                assert(chars@.skip(p2 as int).len() > 0);
            }
            return None;
        }
        proof {
            assert(chars@.skip(p2 as int).len() == 0);
        }
        return Some(IpcResponse::Project(project));
    }
    if let Some(p) = expect_at(&chars, 0, "{\"type\":\"projects\",\"data\":") {
        let (projects, p1) = match parse_project_list_at(&chars, p) {
            Some(out) => out,
            None => {
                return None;
            },
        };
        let p2 = match expect_at(&chars, p1, "}") {
            Some(x) => x,
            None => {
                return None;
            },
        };
        if p2 != n {
            proof {
                assert(chars@.skip(p2 as int).len() > 0);
            }
            return None;
        }
        proof {
            assert(chars@.skip(p2 as int).len() == 0);
        }
        return Some(IpcResponse::Projects(projects));
    }
    if let Some(p) = expect_at(&chars, 0, "{\"type\":\"process_started\",\"data\":{\"process\":") {
        let (process, p1) = match parse_process_at(&chars, p) {
            Some(out) => out,
            None => {
                return None;
            },
        };
        let p2 = match expect_at(&chars, p1, "}}") {
            Some(x) => x,
            None => {
                return None;
            },
        };
        if p2 != n {
            proof {
                assert(chars@.skip(p2 as int).len() > 0);
            }
            return None;
        }
        proof {
            assert(chars@.skip(p2 as int).len() == 0);
        }
        return Some(IpcResponse::ProcessStarted { process });
    }
    if let Some(p) = expect_at(&chars, 0, "{\"type\":\"processes\",\"data\":") {
        let (processes, p1) = match parse_process_list_at(&chars, p) {
            Some(out) => out,
            None => {
                return None;
            },
        };
        let p2 = match expect_at(&chars, p1, "}") {
            Some(x) => x,
            None => {
                return None;
            },
        };
        if p2 != n {
            proof {
                assert(chars@.skip(p2 as int).len() > 0);
            }
            return None;
        }
        proof {
            assert(chars@.skip(p2 as int).len() == 0);
        }
        return Some(IpcResponse::Processes(processes));
    }
    if let Some(p) = expect_at(&chars, 0, "{\"type\":\"status\",\"data\":{\"running\":") {
        let (running, p1) = match parse_bool_at(&chars, p) {
            Some(out) => out,
            None => {
                return None;
            },
        };
        let p2 = match expect_at(&chars, p1, ",\"project_count\":") {
            Some(x) => x,
            None => {
                return None;
            },
        };
        if p2 >= n {
            return None;
        }
        let c2 = chars[p2];
        proof {
            assert(chars@.skip(p2 as int)[0] == chars@[p2 as int]);
        }
        if (c2 as u32) < 48 || (c2 as u32) > 57 {
            return None;
        }
        let (project_count, big1, p3) = parse_digits_at(&chars, p2);
        if big1 || project_count > usize::MAX as u128 {
            return None;
        }
        let p4 = match expect_at(&chars, p3, ",\"process_count\":") {
            Some(x) => x,
            None => {
                return None;
            },
        };
        if p4 >= n {
            return None;
        }
        let c4 = chars[p4];
        proof {
            assert(chars@.skip(p4 as int)[0] == chars@[p4 as int]);
        }
        if (c4 as u32) < 48 || (c4 as u32) > 57 {
            return None;
        }
        let (process_count, big2, p5) = parse_digits_at(&chars, p4);
        if big2 || process_count > usize::MAX as u128 {
            return None;
        }
        let p6 = match expect_at(&chars, p5, "}}") {
            Some(x) => x,
            None => {
                return None;
            },
        };
        if p6 != n {
            proof {
                assert(chars@.skip(p6 as int).len() > 0);
            }
            return None;
        }
        proof {
            assert(chars@.skip(p6 as int).len() == 0);
        }
        return Some(
            IpcResponse::Status {
                running,
                project_count: project_count as usize,
                process_count: process_count as usize,
            },
        );
    }
    if let Some(p) = expect_at(&chars, 0, "{\"type\":\"error\",\"data\":{\"message\":") {
        let (message, p1) = match parse_jstr_at(&chars, p) {
            Some(out) => out,
            None => {
                return None;
            },
        };
        let p2 = match expect_at(&chars, p1, "}}") {
            Some(x) => x,
            None => {
                return None;
            },
        };
        if p2 != n {
            proof {
                assert(chars@.skip(p2 as int).len() > 0);
            }
            return None;
        }
        proof {
            assert(chars@.skip(p2 as int).len() == 0);
        }
        return Some(IpcResponse::Error { message });
    }
    None
}

} // verus!
