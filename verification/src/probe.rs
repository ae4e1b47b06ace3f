//! Port probing: parsing the socket-listing utility's output to find the
//! first TCP port a child holds in LISTEN state, and the per-child probe
//! and wait tasks as explicit state machines. The daemon binary runs the
//! actual utility and the timers; this module decides what its output
//! means and which events may be emitted.

use vstd::prelude::*;
use crate::process::ProcessEvent;
use crate::strutil::{spec_parse_port, parse_port, str_to_chars};

verus! {

/// Whitespace within one line of utility output.
pub open spec fn is_ws(c: char) -> bool {
    c == ' ' || c == '\t' || c == '\r'
}

/// The whitespace-separated tokens of `s`, with `cur` the partial token
/// read so far.
pub open spec fn tokens_from(s: Seq<char>, cur: Seq<char>) -> Seq<Seq<char>>
    decreases s.len(),
{
    if s.len() == 0 {
        if cur.len() == 0 {
            Seq::empty()
        } else {
            seq![cur]
        }
    } else if is_ws(s[0]) {
        if cur.len() == 0 {
            tokens_from(s.skip(1), Seq::empty())
        } else {
            seq![cur] + tokens_from(s.skip(1), Seq::empty())
        }
    } else {
        tokens_from(s.skip(1), cur.push(s[0]))
    }
}

pub open spec fn spec_tokens(s: Seq<char>) -> Seq<Seq<char>> {
    tokens_from(s, Seq::empty())
}

/// The part of a token after its last `:`; the whole token if it has none.
pub open spec fn after_last_colon(t: Seq<char>) -> Seq<char>
    decreases t.len(),
{
    if t.len() == 0 {
        t
    } else if t.last() == ':' {
        Seq::empty()
    } else {
        after_last_colon(t.drop_last()).push(t.last())
    }
}

/// The port named by one token: the decimal value after its last colon,
/// if that is a port.
pub open spec fn token_port(t: Seq<char>) -> Option<u16> {
    spec_parse_port(after_last_colon(t))
}

/// Scanning tokens from the right: the first token (other than the LISTEN
/// marker itself) that names a port.
pub open spec fn rev_scan(ts: Seq<Seq<char>>) -> Option<u16>
    decreases ts.len(),
{
    if ts.len() == 0 {
        None
    } else if ts.last() == "(LISTEN)"@ {
        rev_scan(ts.drop_last())
    } else {
        match token_port(ts.last()) {
            Some(p) => Some(p),
            None => rev_scan(ts.drop_last()),
        }
    }
}

/// The port a single output line reports: only lines marked `(LISTEN)`
/// count, and the port is taken from the rightmost token that names one.
pub open spec fn line_port(line: Seq<char>) -> Option<u16> {
    let ts = spec_tokens(line);
    if exists|i: int| 0 <= i < ts.len() && ts[i] == "(LISTEN)"@ {
        rev_scan(ts)
    } else {
        None
    }
}

/// The port reported by the whole output, with `cur_line` the partial
/// line read so far: the first line that reports one.
pub open spec fn listen_port_from(s: Seq<char>, cur_line: Seq<char>) -> Option<u16>
    decreases s.len(),
{
    if s.len() == 0 {
        line_port(cur_line)
    } else if s[0] == '\n' {
        match line_port(cur_line) {
            Some(p) => Some(p),
            None => listen_port_from(s.skip(1), Seq::empty()),
        }
    } else {
        listen_port_from(s.skip(1), cur_line.push(s[0]))
    }
}

/// The first TCP port that the socket-listing output shows in LISTEN
/// state, scanning lines top to bottom.
pub open spec fn spec_listen_port(out: Seq<char>) -> Option<u16> {
    listen_port_from(out, Seq::empty())
}

proof fn lemma_after_last_colon_none(t: Seq<char>)
    requires
        forall|i: int| 0 <= i < t.len() ==> (#[trigger] t[i]) != ':',
    ensures
        after_last_colon(t) == t,
    decreases t.len(),
{
    if t.len() > 0 {
        lemma_after_last_colon_none(t.drop_last());
        assert(t.drop_last().push(t.last()) =~= t);
    } else {
        assert(after_last_colon(t) =~= t);
    }
}

proof fn lemma_after_last_colon_at(t: Seq<char>, i: int)
    requires
        0 <= i < t.len(),
        t[i] == ':',
        forall|j: int| i < j < t.len() ==> (#[trigger] t[j]) != ':',
    ensures
        after_last_colon(t) == t.skip(i + 1),
    decreases t.len(),
{
    if i == t.len() - 1 {
        assert(after_last_colon(t) =~= t.skip(i + 1));
    } else {
        lemma_after_last_colon_at(t.drop_last(), i);
        assert(t.drop_last().skip(i + 1).push(t.last()) =~= t.skip(i + 1));
    }
}

/// Does this character range equal the given string?
fn range_eq_str(chars: &Vec<char>, a: usize, b: usize, lit: &str) -> (r: bool)
    requires
        a <= b <= chars@.len(),
    ensures
        r == (chars@.subrange(a as int, b as int) == lit@),
{
    let n: usize = lit.unicode_len();
    if b - a != n {
        proof {
            assert(chars@.subrange(a as int, b as int).len() != lit@.len());
        }
        return false;
    }
    let mut i: usize = 0;
    while i < n
        invariant
            i <= n,
            a <= b <= chars@.len(),
            b - a == n,
            n == lit@.len(),
            forall|j: int| 0 <= j < i ==> chars@.subrange(a as int, b as int)[j] == lit@[j],
        decreases n - i,
    {
        if chars[a + i] != lit.get_char(i) {
            proof {
                assert(chars@.subrange(a as int, b as int)[i as int] != lit@[i as int]);
            }
            return false;
        }
        i = i + 1;
    }
    proof {
        assert(chars@.subrange(a as int, b as int) =~= lit@);
    }
    true
}

/// The port of one token span, as `token_port` defines it.
fn span_port(chars: &Vec<char>, a: usize, b: usize) -> (r: Option<u16>)
    requires
        a <= b <= chars@.len(),
    ensures
        r == token_port(chars@.subrange(a as int, b as int)),
{
    let ghost t = chars@.subrange(a as int, b as int);
    // find the last ':' in the span
    let mut k: usize = b;
    while k > a
        invariant
            a <= k <= b <= chars@.len(),
            t == chars@.subrange(a as int, b as int),
            forall|j: int| k - a <= j < t.len() ==> (#[trigger] t[j]) != ':',
        decreases k - a,
    {
        if chars[k - 1] == ':' {
            proof {
                assert(t[k - 1 - a] == ':');
                lemma_after_last_colon_at(t, k - 1 - a);
                assert(t.skip(k - a) =~= chars@.subrange(k as int, b as int));
            }
            return parse_port(chars, k, b);
        }
        proof {
            assert(t[k - 1 - a] == chars@[k - 1]);
        }
        k = k - 1;
    }
    proof {
        lemma_after_last_colon_none(t);
    }
    parse_port(chars, a, b)
}

/// The spans (half-open index ranges) of the whitespace-separated tokens
/// of the line `[ls, le)`.
fn tokenize_line(chars: &Vec<char>, ls: usize, le: usize) -> (spans: Vec<(usize, usize)>)
    requires
        ls <= le <= chars@.len(),
    ensures
        spans@.map_values(
            |sp: (usize, usize)| chars@.subrange(sp.0 as int, sp.1 as int),
        ) == spec_tokens(chars@.subrange(ls as int, le as int)),
        forall|k: int|
            0 <= k < spans@.len() ==> ls <= (#[trigger] spans@[k]).0 && spans@[k].0 < spans@[k].1
                && spans@[k].1 <= le,
{
    let ghost line = chars@.subrange(ls as int, le as int);
    let ghost f = |sp: (usize, usize)| chars@.subrange(sp.0 as int, sp.1 as int);
    let mut spans: Vec<(usize, usize)> = Vec::new();
    let mut j: usize = ls;
    let mut tok_start: usize = ls;
    let mut in_tok: bool = false;
    proof {
        assert(line.skip(0) =~= line);
        assert(spans@.map_values(f) + tokens_from(line, Seq::empty()) =~= tokens_from(
            line,
            Seq::empty(),
        ));
    }
    while j < le
        invariant
            ls <= j <= le <= chars@.len(),
            line == chars@.subrange(ls as int, le as int),
            f == (|sp: (usize, usize)| chars@.subrange(sp.0 as int, sp.1 as int)),
            in_tok ==> ls <= tok_start < j,
            forall|k: int|
                0 <= k < spans@.len() ==> ls <= (#[trigger] spans@[k]).0 && spans@[k].0
                    < spans@[k].1 && spans@[k].1 <= le,
            spec_tokens(line) == spans@.map_values(f) + tokens_from(
                line.skip(j - ls),
                if in_tok {
                    line.subrange(tok_start - ls, j - ls)
                } else {
                    Seq::empty()
                },
            ),
            in_tok ==> line.subrange(tok_start - ls, j - ls).len() > 0,
        decreases le - j,
    {
        let c = chars[j];
        let ws = c == ' ' || c == '\t' || c == '\r';
        proof {
            assert(line.skip(j - ls)[0] == line[j - ls]);
            assert(line[j - ls] == chars@[j as int]);
            assert(line.skip(j - ls).skip(1) =~= line.skip(j + 1 - ls));
        }
        if ws {
            if in_tok {
                let ghost pre = spans@;
                spans.push((tok_start, j));
                proof {
                    assert(spans@.map_values(f) =~= pre.map_values(f).push(
                        chars@.subrange(tok_start as int, j as int),
                    ));
                    assert(chars@.subrange(tok_start as int, j as int) =~= line.subrange(
                        tok_start - ls,
                        j - ls,
                    ));
                    assert(pre.map_values(f) + (seq![line.subrange(tok_start - ls, j - ls)]
                        + tokens_from(line.skip(j + 1 - ls), Seq::empty())) =~= spans@.map_values(f)
                        + tokens_from(line.skip(j + 1 - ls), Seq::empty()));
                }
                in_tok = false;
            }
        } else {
            if !in_tok {
                tok_start = j;
                in_tok = true;
                proof {
                    assert(line.subrange(tok_start - ls, j + 1 - ls) =~= Seq::empty().push(
                        line[j - ls],
                    ));
                }
            } else {
                proof {
                    assert(line.subrange(tok_start - ls, j + 1 - ls) =~= line.subrange(
                        tok_start - ls,
                        j - ls,
                    ).push(line[j - ls]));
                }
            }
        }
        j = j + 1;
    }
    if in_tok {
        let ghost pre = spans@;
        spans.push((tok_start, le));
        proof {
            assert(line.skip(le - ls) =~= Seq::<char>::empty());
            assert(chars@.subrange(tok_start as int, le as int) =~= line.subrange(
                tok_start - ls,
                le - ls,
            ));
            assert(spans@.map_values(f) =~= pre.map_values(f).push(
                chars@.subrange(tok_start as int, le as int),
            ));
            assert(pre.map_values(f) + seq![line.subrange(tok_start - ls, le - ls)]
                =~= spans@.map_values(f));
        }
    } else {
        proof {
            assert(line.skip(le - ls) =~= Seq::<char>::empty());
            assert(spans@.map_values(f) + Seq::<Seq<char>>::empty() =~= spans@.map_values(f));
        }
    }
    spans
}

/// The port one line reports, as `line_port` defines it.
fn exec_line_port(chars: &Vec<char>, ls: usize, le: usize) -> (r: Option<u16>)
    requires
        ls <= le <= chars@.len(),
    ensures
        r == line_port(chars@.subrange(ls as int, le as int)),
{
    let ghost line = chars@.subrange(ls as int, le as int);
    let ghost ts = spec_tokens(line);
    let spans = tokenize_line(chars, ls, le);
    let ghost f = |sp: (usize, usize)| chars@.subrange(sp.0 as int, sp.1 as int);
    let n = spans.len();
    // is any token the LISTEN marker?
    let mut has_listen = false;
    let mut i: usize = 0;
    while i < n
        invariant
            i <= n,
            ls <= le <= chars@.len(),
            n == spans@.len(),
            line == chars@.subrange(ls as int, le as int),
            ts == spec_tokens(line),
            f == (|sp: (usize, usize)| chars@.subrange(sp.0 as int, sp.1 as int)),
            spans@.map_values(f) == ts,
            forall|k: int|
                0 <= k < spans@.len() ==> ls <= (#[trigger] spans@[k]).0 && spans@[k].0
                    < spans@[k].1 && spans@[k].1 <= le,
            has_listen ==> (exists|k: int| 0 <= k < ts.len() && ts[k] == "(LISTEN)"@),
            !has_listen ==> (forall|k: int| 0 <= k < i ==> (#[trigger] ts[k]) != "(LISTEN)"@),
        decreases n - i,
    {
        if !has_listen {
            let (a, b) = (spans[i].0, spans[i].1);
            if range_eq_str(chars, a, b, "(LISTEN)") {
                proof {
                    assert(ts[i as int] == f(spans@[i as int]));
                }
                has_listen = true;
            } else {
                proof {
                    assert(ts[i as int] == f(spans@[i as int]));
                }
            }
        }
        i = i + 1;
    }
    if !has_listen {
        return None;
    }
    // scan tokens from the right for a port
    let mut jj: usize = n;
    proof {
        assert(ts.take(n as int) =~= ts);
    }
    while jj > 0
        invariant
            jj <= n,
            ls <= le <= chars@.len(),
            n == spans@.len(),
            line == chars@.subrange(ls as int, le as int),
            ts == spec_tokens(line),
            f == (|sp: (usize, usize)| chars@.subrange(sp.0 as int, sp.1 as int)),
            spans@.map_values(f) == ts,
            forall|k: int|
                0 <= k < spans@.len() ==> ls <= (#[trigger] spans@[k]).0 && spans@[k].0
                    < spans@[k].1 && spans@[k].1 <= le,
            rev_scan(ts) == rev_scan(ts.take(jj as int)),
            exists|k: int| 0 <= k < ts.len() && ts[k] == "(LISTEN)"@,
        decreases jj,
    {
        let (a, b) = (spans[jj - 1].0, spans[jj - 1].1);
        proof {
            assert(ts[jj - 1] == f(spans@[jj - 1]));
            assert(ts.take(jj as int).last() == ts[jj - 1]);
            assert(ts.take(jj as int).drop_last() =~= ts.take(jj - 1));
        }
        if !range_eq_str(chars, a, b, "(LISTEN)") {
            match span_port(chars, a, b) {
                Some(p) => {
                    return Some(p);
                },
                None => {},
            }
        }
        jj = jj - 1;
    }
    proof {
        assert(ts.take(0) =~= Seq::<Seq<char>>::empty());
    }
    None
}

/// Parse socket-listing output: the first port shown in LISTEN state, if
/// any. Lines are scanned top to bottom; within a line, tokens from the
/// right; a token names a port when the text after its last `:` is a
/// decimal number in `1..=65535`.
pub fn parse_listen_port(out: &str) -> (r: Option<u16>)
    ensures
        r == spec_listen_port(out@),
{
    let chars = str_to_chars(out);
    let n = chars.len();
    let mut line_start: usize = 0;
    let mut j: usize = 0;
    proof {
        assert(out@.skip(0) =~= out@);
        assert(out@.subrange(0, 0) =~= Seq::<char>::empty());
    }
    while j < n
        invariant
            line_start <= j <= n,
            n == chars@.len(),
            chars@ == out@,
            spec_listen_port(out@) == listen_port_from(
                out@.skip(j as int),
                out@.subrange(line_start as int, j as int),
            ),
        decreases n - j,
    {
        proof {
            assert(out@.skip(j as int)[0] == out@[j as int]);
            assert(out@.skip(j as int).skip(1) =~= out@.skip(j + 1));
        }
        if chars[j] == '\n' {
            match exec_line_port(&chars, line_start, j) {
                Some(p) => {
                    return Some(p);
                },
                None => {},
            }
            line_start = j + 1;
            proof {
                assert(out@.subrange(line_start as int, j + 1 - 1 + 1) =~= Seq::<char>::empty());
                assert(out@.subrange(j + 1, j + 1) =~= Seq::<char>::empty());
            }
        } else {
            proof {
                assert(out@.subrange(line_start as int, j + 1) =~= out@.subrange(
                    line_start as int,
                    j as int,
                ).push(out@[j as int]));
            }
        }
        j = j + 1;
    }
    proof {
        assert(out@.skip(n as int) =~= Seq::<char>::empty());
    }
    exec_line_port(&chars, line_start, n)
}

/// How many events a trace actually delivered.
pub open spec fn count_emitted(events: Seq<Option<ProcessEvent>>) -> int
    decreases events.len(),
{
    if events.len() == 0 {
        0
    } else {
        count_emitted(events.drop_last()) + if events.last() is Some {
            1int
        } else {
            0int
        }
    }
}

/// Per-child port-probe task: polls until a port is seen, the poll budget
/// runs out, or the child is gone. At most one `PortDetected` is ever
/// emitted.
pub struct ProbeTask {
    pub process_id: u128,
    pub polls_left: u32,
    pub reported: bool,
    pub done: bool,
}

/// One probe step: what the next state and emitted event must be, given
/// what the scan of the child's sockets returned.
pub open spec fn probe_tick_rel(
    pre: ProbeTask,
    scan: Option<u16>,
    post: ProbeTask,
    emitted: Option<ProcessEvent>,
) -> bool {
    &&& post.process_id == pre.process_id
    &&& if pre.done {
        post == pre && emitted is None
    } else {
        match scan {
            Some(p) => {
                &&& post.reported && post.done
                &&& emitted == Some(
                    ProcessEvent::PortDetected { process_id: pre.process_id, port: p },
                )
            },
            None => {
                &&& emitted is None
                &&& post.reported == pre.reported
                &&& post.polls_left == if pre.polls_left > 0 {
                    (pre.polls_left - 1) as u32
                } else {
                    0u32
                }
                &&& post.done == (post.polls_left == 0)
            },
        }
    }
}

impl ProbeTask {
    pub open spec fn spec_init(process_id: u128) -> ProbeTask {
        ProbeTask { process_id, polls_left: 60, reported: false, done: false }
    }

    /// A fresh probe with the standard budget of 60 polls.
    pub fn new(process_id: u128) -> (r: Self)
        ensures
            r == ProbeTask::spec_init(process_id),
    {
        ProbeTask { process_id, polls_left: 60, reported: false, done: false }
    }

    /// Feed one scan result into the probe.
    pub fn tick(&mut self, scan: Option<u16>) -> (r: Option<ProcessEvent>)
        ensures
            probe_tick_rel(*old(self), scan, *final(self), r),
    {
        if self.done {
            return None;
        }
        match scan {
            Some(p) => {
                self.reported = true;
                self.done = true;
                Some(ProcessEvent::PortDetected { process_id: self.process_id, port: p })
            },
            None => {
                if self.polls_left > 0 {
                    self.polls_left = self.polls_left - 1;
                }
                if self.polls_left == 0 {
                    self.done = true;
                } else {
                    self.done = false;
                }
                None
            },
        }
    }
}

/// Along any run of a probe task, `PortDetected` is emitted at most once.
///
/// `states` is the chain of task states, starting from a fresh task;
/// `events` the event (or none) emitted by each step.
pub proof fn lemma_port_detected_at_most_once(
    states: Seq<ProbeTask>,
    scans: Seq<Option<u16>>,
    events: Seq<Option<ProcessEvent>>,
)
    requires
        states.len() == events.len() + 1,
        scans.len() == events.len(),
        !states[0].reported,
        states[0].done ==> states[0].reported,
        forall|k: int|
            0 <= k < events.len() ==> probe_tick_rel(
                states[k],
                scans[k],
                states[k + 1],
                #[trigger] events[k],
            ),
    ensures
        count_emitted(events) <= 1,
{
    lemma_probe_count(states, scans, events, events.len() as int);
    assert(events.take(events.len() as int) =~= events);
}

proof fn lemma_probe_count(
    states: Seq<ProbeTask>,
    scans: Seq<Option<u16>>,
    events: Seq<Option<ProcessEvent>>,
    k: int,
)
    requires
        states.len() == events.len() + 1,
        scans.len() == events.len(),
        !states[0].reported,
        forall|j: int|
            0 <= j < events.len() ==> probe_tick_rel(
                states[j],
                scans[j],
                states[j + 1],
                #[trigger] events[j],
            ),
        0 <= k <= events.len(),
    ensures
        count_emitted(events.take(k)) == if states[k].reported {
            1int
        } else {
            0int
        },
        states[k].reported ==> states[k].done,
    decreases k,
{
    if k == 0 {
        assert(events.take(0) =~= Seq::<Option<ProcessEvent>>::empty());
    } else {
        lemma_probe_count(states, scans, events, k - 1);
        assert(probe_tick_rel(states[k - 1], scans[k - 1], states[k], events[k - 1]));
        assert(events.take(k).drop_last() =~= events.take(k - 1));
        assert(events.take(k).last() == events[k - 1]);
    }
}

/// Per-child wait task: reports the child's exit exactly once.
pub struct WaitTask {
    pub process_id: u128,
    pub exited: bool,
}

/// One wait step: the first completion emits `Exited`; any further call
/// emits nothing.
pub open spec fn wait_complete_rel(
    pre: WaitTask,
    exit_code: Option<i32>,
    post: WaitTask,
    emitted: Option<ProcessEvent>,
) -> bool {
    &&& post.process_id == pre.process_id
    &&& post.exited
    &&& if pre.exited {
        emitted is None
    } else {
        emitted == Some(ProcessEvent::Exited { process_id: pre.process_id, exit_code })
    }
}

impl WaitTask {
    pub open spec fn spec_init(process_id: u128) -> WaitTask {
        WaitTask { process_id, exited: false }
    }

    pub fn new(process_id: u128) -> (r: Self)
        ensures
            r == WaitTask::spec_init(process_id),
    {
        WaitTask { process_id, exited: false }
    }

    /// Record that the child was reaped with this exit code.
    pub fn complete(&mut self, exit_code: Option<i32>) -> (r: Option<ProcessEvent>)
        ensures
            wait_complete_rel(*old(self), exit_code, *final(self), r),
    {
        if self.exited {
            None
        } else {
            self.exited = true;
            Some(ProcessEvent::Exited { process_id: self.process_id, exit_code })
        }
    }
}

/// Along any nonempty run of a wait task that starts fresh, `Exited` is
/// emitted exactly once.
pub proof fn lemma_exited_exactly_once(
    states: Seq<WaitTask>,
    codes: Seq<Option<i32>>,
    events: Seq<Option<ProcessEvent>>,
)
    requires
        states.len() == events.len() + 1,
        codes.len() == events.len(),
        events.len() >= 1,
        !states[0].exited,
        forall|k: int|
            0 <= k < events.len() ==> wait_complete_rel(
                states[k],
                codes[k],
                states[k + 1],
                #[trigger] events[k],
            ),
    ensures
        count_emitted(events) == 1,
{
    lemma_wait_count(states, codes, events, events.len() as int);
    assert(events.take(events.len() as int) =~= events);
    let last = events.len() - 1;
    assert(wait_complete_rel(states[last], codes[last], states[last + 1], events[last]));
    assert(states[events.len() as int].exited);
}

proof fn lemma_wait_count(
    states: Seq<WaitTask>,
    codes: Seq<Option<i32>>,
    events: Seq<Option<ProcessEvent>>,
    k: int,
)
    requires
        states.len() == events.len() + 1,
        codes.len() == events.len(),
        !states[0].exited,
        forall|j: int|
            0 <= j < events.len() ==> wait_complete_rel(
                states[j],
                codes[j],
                states[j + 1],
                #[trigger] events[j],
            ),
        0 <= k <= events.len(),
    ensures
        count_emitted(events.take(k)) == if states[k].exited {
            1int
        } else {
            0int
        },
    decreases k,
{
    if k == 0 {
        assert(events.take(0) =~= Seq::<Option<ProcessEvent>>::empty());
    } else {
        lemma_wait_count(states, codes, events, k - 1);
        assert(wait_complete_rel(states[k - 1], codes[k - 1], states[k], events[k - 1]));
        assert(events.take(k).drop_last() =~= events.take(k - 1));
        assert(events.take(k).last() == events[k - 1]);
    }
}

} // verus!
