//! The project record's on-disk form: a single JSON object, written and
//! read back by the daemon itself. Encoding and decoding are verified, and
//! decoding inverts encoding exactly, so a record written at creation is
//! the record seen after a restart. The decoder accepts precisely the
//! documents this encoder produces.

use vstd::prelude::*;
use vstd::string::*;
use vstd::arithmetic::div_mod::lemma_fundamental_div_mod;
use crate::common::Project;
use crate::strutil::{all_digits, dec_val, digit_val, is_digit, push_char, str_to_chars};

verus! {

/// The digit character of a value in `0..=9`.
pub open spec fn digit_char(d: int) -> char {
    ((48 + d) as u8) as char
}

/// The decimal digits of a nonnegative integer, most significant first.
pub open spec fn spec_digits(n: int) -> Seq<char>
    decreases n,
    when n >= 0
{
    if n < 10 {
        seq![digit_char(n)]
    } else {
        spec_digits(n / 10).push(digit_char(n % 10))
    }
}

proof fn lemma_digit_char_val(d: int)
    requires
        0 <= d <= 9,
    ensures
        is_digit(digit_char(d)),
        digit_val(digit_char(d)) == d,
{
}

/// The digits of `n` read back as `n`.
pub proof fn lemma_digits_val(n: int)
    requires
        n >= 0,
    ensures
        spec_digits(n).len() >= 1,
        all_digits(spec_digits(n)),
        dec_val(spec_digits(n)) == n,
    decreases n,
{
    if n < 10 {
        lemma_digit_char_val(n);
        assert(spec_digits(n) == seq![digit_char(n)]);
        assert(dec_val(Seq::<char>::empty()) == 0);
        assert(spec_digits(n).drop_last() =~= Seq::<char>::empty());
        assert(spec_digits(n).last() == digit_char(n));
        assert(forall|i: int|
            0 <= i < spec_digits(n).len() ==> is_digit(#[trigger] spec_digits(n)[i]));
    } else {
        lemma_digits_val(n / 10);
        lemma_digit_char_val(n % 10);
        lemma_fundamental_div_mod(n, 10);
        let s = spec_digits(n);
        assert(s.drop_last() == spec_digits(n / 10));
        assert(s.last() == digit_char(n % 10));
        assert(forall|i: int| 0 <= i < s.len() - 1 ==> s[i] == spec_digits(n / 10)[i]);
        assert(forall|i: int| 0 <= i < s.len() ==> is_digit(#[trigger] s[i]));
    }
}

/// Powers of ten.
pub open spec fn pow10(n: int) -> int
    decreases n,
    when n >= 0
{
    if n <= 0 {
        1
    } else {
        10 * pow10(n - 1)
    }
}

proof fn lemma_pow10_pos(n: int)
    requires
        n >= 0,
    ensures
        pow10(n) >= 1,
    decreases n,
{
    if n > 0 {
        lemma_pow10_pos(n - 1);
    }
}

/// Peeling the leading digit off a digit string.
proof fn lemma_dec_val_front(d: char, t: Seq<char>)
    requires
        is_digit(d),
        all_digits(t),
    ensures
        dec_val(seq![d] + t) == digit_val(d) * pow10(t.len() as int) + dec_val(t),
    decreases t.len(),
{
    if t.len() == 0 {
        assert(seq![d] + t =~= seq![d]);
        assert(dec_val(Seq::<char>::empty()) == 0);
        assert((seq![d]).drop_last() =~= Seq::<char>::empty());
        assert((seq![d]).last() == d);
        assert(dec_val(seq![d]) == digit_val(d));
        assert(dec_val(t) == 0);
        assert(pow10(0) == 1);
    } else {
        let s = seq![d] + t;
        assert(s.drop_last() =~= seq![d] + t.drop_last());
        assert(all_digits(t.drop_last()));
        lemma_dec_val_front(d, t.drop_last());
        assert(s.last() == t.last());
        assert(t.drop_last().len() == t.len() - 1);
        let p = pow10(t.len() - 1);
        lemma_pow10_pos(t.len() - 1);
        assert(pow10(t.len() as int) == 10 * p);
        assert(dec_val(s) == (digit_val(d) * p + dec_val(t.drop_last())) * 10 + digit_val(
            t.last(),
        ));
        assert((digit_val(d) * p + dec_val(t.drop_last())) * 10 == digit_val(d) * (10 * p)
            + dec_val(t.drop_last()) * 10) by (nonlinear_arith);
        assert(dec_val(t) == dec_val(t.drop_last()) * 10 + digit_val(t.last()));
    }
}

/// Greedy decimal scan: consume leading digits, accumulating their value.
pub open spec fn parse_digits(s: Seq<char>, acc: int) -> (int, Seq<char>)
    decreases s.len(),
{
    if s.len() == 0 || !is_digit(s[0]) {
        (acc, s)
    } else {
        parse_digits(s.skip(1), acc * 10 + digit_val(s[0]))
    }
}

/// Scanning a digit string followed by a non-digit reads its value back.
pub proof fn lemma_parse_digits(ds: Seq<char>, rest: Seq<char>, acc: int)
    requires
        all_digits(ds),
        rest.len() == 0 || !is_digit(rest[0]),
    ensures
        parse_digits(ds + rest, acc) == (acc * pow10(ds.len() as int) + dec_val(ds), rest),
    decreases ds.len(),
{
    let s = ds + rest;
    if ds.len() == 0 {
        assert(s =~= rest);
        assert(acc * pow10(0) + dec_val(ds) == acc);
    } else {
        let d = ds[0];
        assert(s[0] == d);
        assert(is_digit(d));
        assert(s.skip(1) =~= ds.skip(1) + rest);
        assert(all_digits(ds.skip(1)));
        lemma_parse_digits(ds.skip(1), rest, acc * 10 + digit_val(d));
        let n1 = ds.len() - 1;
        let p = pow10(n1);
        lemma_pow10_pos(n1);
        assert((acc * 10 + digit_val(d)) * p == acc * (10 * p) + digit_val(d) * p)
            by (nonlinear_arith);
        assert(pow10(ds.len() as int) == 10 * p);
        assert(ds =~= seq![d] + ds.skip(1));
        lemma_dec_val_front(d, ds.skip(1));
    }
}

/// Characters that are written behind a backslash.
pub open spec fn needs_escape(c: char) -> bool {
    c == '"' || c == '\\'
}

/// The JSON string-escape of a text: quote and backslash get a backslash.
pub open spec fn escape_chars(s: Seq<char>) -> Seq<char>
    decreases s.len(),
{
    if s.len() == 0 {
        Seq::empty()
    } else if needs_escape(s[0]) {
        seq!['\\', s[0]] + escape_chars(s.skip(1))
    } else {
        seq![s[0]] + escape_chars(s.skip(1))
    }
}

proof fn lemma_escape_push(t: Seq<char>, c: char)
    ensures
        escape_chars(t.push(c)) == escape_chars(t) + (if needs_escape(c) {
            seq!['\\', c]
        } else {
            seq![c]
        }),
    decreases t.len(),
{
    let piece = if needs_escape(c) {
        seq!['\\', c]
    } else {
        seq![c]
    };
    if t.len() == 0 {
        assert(t.push(c) =~= seq![c]);
        assert(t.push(c).skip(1) =~= Seq::<char>::empty());
        assert(escape_chars(Seq::<char>::empty()) == Seq::<char>::empty());
        assert(t.push(c)[0] == c);
        assert(escape_chars(t.push(c)) =~= piece);
        assert(escape_chars(t) + piece =~= piece);
    } else {
        assert(t.push(c)[0] == t[0]);
        assert(t.push(c).skip(1) =~= t.skip(1).push(c));
        lemma_escape_push(t.skip(1), c);
        if needs_escape(t[0]) {
            assert(seq!['\\', t[0]] + (escape_chars(t.skip(1)) + piece) =~= (seq!['\\', t[0]]
                + escape_chars(t.skip(1))) + piece);
        } else {
            assert(seq![t[0]] + (escape_chars(t.skip(1)) + piece) =~= (seq![t[0]]
                + escape_chars(t.skip(1))) + piece);
        }
    }
}

/// Scan a string body up to its closing quote, undoing the escapes.
pub open spec fn parse_string_body(s: Seq<char>, acc: Seq<char>) -> Option<(Seq<char>, Seq<char>)>
    decreases s.len(),
{
    if s.len() == 0 {
        None
    } else if s[0] == '"' {
        Some((acc, s.skip(1)))
    } else if s[0] == '\\' {
        if s.len() >= 2 && (s[1] == '"' || s[1] == '\\') {
            parse_string_body(s.skip(2), acc.push(s[1]))
        } else {
            None
        }
    } else {
        parse_string_body(s.skip(1), acc.push(s[0]))
    }
}

/// Scanning an escaped text plus closing quote yields the text back.
pub proof fn lemma_parse_escaped(t: Seq<char>, rest: Seq<char>, acc: Seq<char>)
    ensures
        parse_string_body(escape_chars(t) + seq!['"'] + rest, acc) == Some(
            (acc + t, rest),
        ),
    decreases t.len(),
{
    let s = escape_chars(t) + seq!['"'] + rest;
    if t.len() == 0 {
        assert(s =~= seq!['"'] + rest);
        assert(s[0] == '"');
        assert(s.skip(1) =~= rest);
        assert(acc + t =~= acc);
    } else {
        let c = t[0];
        if needs_escape(c) {
            assert(escape_chars(t) =~= seq!['\\', c] + escape_chars(t.skip(1)));
            assert(s[0] == '\\');
            assert(s[1] == c);
            assert(s.len() >= 2);
            assert(c == '"' || c == '\\');
            assert(s.skip(2) =~= escape_chars(t.skip(1)) + seq!['"'] + rest);
            lemma_parse_escaped(t.skip(1), rest, acc.push(c));
            assert(acc.push(c) + t.skip(1) =~= acc + t);
        } else {
            assert(escape_chars(t) =~= seq![c] + escape_chars(t.skip(1)));
            assert(s[0] == c);
            assert(c != '"' && c != '\\');
            assert(s.skip(1) =~= escape_chars(t.skip(1)) + seq!['"'] + rest);
            lemma_parse_escaped(t.skip(1), rest, acc.push(c));
            assert(acc.push(c) + t.skip(1) =~= acc + t);
        }
    }
}

/// Consume an exact literal from the front.
pub open spec fn expect(s: Seq<char>, lit: Seq<char>) -> Option<Seq<char>> {
    if s.len() >= lit.len() && s.take(lit.len() as int) == lit {
        Some(s.skip(lit.len() as int))
    } else {
        None
    }
}

pub proof fn lemma_expect_prefix(lit: Seq<char>, rest: Seq<char>)
    ensures
        expect(lit + rest, lit) == Some(rest),
{
    assert((lit + rest).take(lit.len() as int) =~= lit);
    assert((lit + rest).skip(lit.len() as int) =~= rest);
}

/// A signed decimal: an optional minus sign, then digits.
pub open spec fn spec_encode_int(n: int) -> Seq<char> {
    if n < 0 {
        seq!['-'] + spec_digits(-n)
    } else {
        spec_digits(n)
    }
}

pub open spec fn parse_int(s: Seq<char>) -> Option<(int, Seq<char>)> {
    if s.len() >= 1 && s[0] == '-' {
        if s.len() >= 2 && is_digit(s[1]) {
            let (v, r) = parse_digits(s.skip(1), 0);
            Some((-v, r))
        } else {
            None
        }
    } else if s.len() >= 1 && is_digit(s[0]) {
        Some(parse_digits(s, 0))
    } else {
        None
    }
}

/// An encoded integer followed by a non-digit reads back as itself.
pub proof fn lemma_parse_int(n: int, rest: Seq<char>)
    requires
        rest.len() == 0 || !is_digit(rest[0]),
    ensures
        parse_int(spec_encode_int(n) + rest) == Some((n, rest)),
{
    let a = if n < 0 {
        -n
    } else {
        n
    };
    lemma_digits_val(a);
    lemma_parse_digits(spec_digits(a), rest, 0);
    let s = spec_encode_int(n) + rest;
    if n < 0 {
        assert(s =~= seq!['-'] + (spec_digits(a) + rest));
        assert(s[0] == '-');
        assert(s.skip(1) =~= spec_digits(a) + rest);
        assert(s[1] == spec_digits(a)[0]);
        assert(is_digit(s[1]));
    } else {
        assert(s =~= spec_digits(a) + rest);
        assert(s[0] == spec_digits(a)[0]);
        assert(is_digit(s[0]));
        assert(s[0] != '-');
    }
}

/// The mathematical content of a project record.
pub struct ProjectView {
    pub name: Seq<char>,
    pub id: int,
    pub created_at_millis: int,
    pub root_dir: Seq<char>,
    pub port: Option<u16>,
}

pub open spec fn view_of(p: Project) -> ProjectView {
    ProjectView {
        name: p.name@,
        id: p.id as int,
        created_at_millis: p.created_at_millis as int,
        root_dir: p.root_dir@,
        port: p.port,
    }
}

pub open spec fn spec_encode_port(port: Option<u16>) -> Seq<char> {
    match port {
        None => "null"@,
        Some(p) => spec_digits(p as int),
    }
}

/// The document written for a project record.
pub open spec fn spec_encode_project(p: ProjectView) -> Seq<char> {
    "{\"name\":\""@ + escape_chars(p.name) + seq!['"'] + ",\"id\":"@ + spec_digits(p.id)
        + ",\"created_at_millis\":"@ + spec_encode_int(p.created_at_millis)
        + ",\"root_dir\":\""@ + escape_chars(p.root_dir) + seq!['"'] + ",\"port\":"@
        + spec_encode_port(p.port) + "}"@
}

/// Parse one project object from the front of `s`: exactly the grammar
/// the encoder writes, with whatever follows the closing brace returned.
pub open spec fn spec_parse_project_obj(s: Seq<char>) -> Option<(ProjectView, Seq<char>)> {
    match expect(s, "{\"name\":\""@) {
        None => None,
        Some(s1) => match parse_string_body(s1, Seq::empty()) {
            None => None,
            Some((name, s2)) => match expect(s2, ",\"id\":"@) {
                None => None,
                Some(s3) => if s3.len() >= 1 && is_digit(s3[0]) {
                    {
                        let (id, s4) = parse_digits(s3, 0);
                        if id > u128::MAX {
                            None
                        } else {
                            match expect(s4, ",\"created_at_millis\":"@) {
                                None => None,
                                Some(s5) => match parse_int(s5) {
                                    None => None,
                                    Some((created, s6)) => if created < i64::MIN || created
                                        > i64::MAX {
                                        None
                                    } else {
                                        match expect(s6, ",\"root_dir\":\""@) {
                                            None => None,
                                            Some(s7) => match parse_string_body(
                                                s7,
                                                Seq::empty(),
                                            ) {
                                                None => None,
                                                Some((root, s8)) => match expect(
                                                    s8,
                                                    ",\"port\":"@,
                                                ) {
                                                    None => None,
                                                    Some(s9) => spec_decode_port_and_close(
                                                        s9,
                                                        name,
                                                        id,
                                                        created,
                                                        root,
                                                    ),
                                                },
                                            },
                                        }
                                    },
                                },
                            }
                        }
                    }
                } else {
                    None
                },
            },
        },
    }
}

/// Parse an optional port: `null` or a decimal in `0..=65535`.
pub open spec fn parse_opt_u16(s: Seq<char>) -> Option<(Option<u16>, Seq<char>)> {
    match expect(s, "null"@) {
        Some(s2) => Some((None, s2)),
        None => if s.len() >= 1 && is_digit(s[0]) {
            {
                let (v, s2) = parse_digits(s, 0);
                if v > u16::MAX {
                    None
                } else {
                    Some((Some(v as u16), s2))
                }
            }
        } else {
            None
        },
    }
}

/// An encoded optional port followed by a non-digit reads back as itself.
pub proof fn lemma_parse_opt_u16(port: Option<u16>, rest: Seq<char>)
    requires
        rest.len() == 0 || !is_digit(rest[0]),
    ensures
        parse_opt_u16(spec_encode_port(port) + rest) == Some((port, rest)),
{
    reveal_strlit("null");
    let s = spec_encode_port(port) + rest;
    match port {
        None => {
            assert(s =~= "null"@ + rest);
            lemma_expect_prefix("null"@, rest);
        },
        Some(v) => {
            assert(s =~= spec_digits(v as int) + rest);
            lemma_digits_val(v as int);
            lemma_parse_digits(spec_digits(v as int), rest, 0);
            assert(s[0] == spec_digits(v as int)[0]);
            assert(is_digit(s[0]));
            // "null" does not begin with a digit
            assert("null"@[0] == 'n');
            if s.len() >= "null"@.len() && s.take("null"@.len() as int) == "null"@ {
                assert(s[0] == 'n');
                assert(false);
            }
        },
    }
}

pub open spec fn spec_decode_port_and_close(
    s: Seq<char>,
    name: Seq<char>,
    id: int,
    created: int,
    root: Seq<char>,
) -> Option<(ProjectView, Seq<char>)> {
    match parse_opt_u16(s) {
        None => None,
        Some((port, s10)) => match expect(s10, "}"@) {
            None => None,
            Some(s11) => Some(
                (ProjectView { name, id, created_at_millis: created, root_dir: root, port }, s11),
            ),
        },
    }
}

/// Decode a whole project document: one object and nothing after it.
pub open spec fn spec_decode_project(s: Seq<char>) -> Option<ProjectView> {
    match spec_parse_project_obj(s) {
        Some((p, rest)) => if rest.len() == 0 {
            Some(p)
        } else {
            None
        },
        None => None,
    }
}

/// An encoded project object parses back to the record, leaving whatever
/// follows it untouched.
#[verifier::rlimit(100)]
pub proof fn lemma_parse_project_obj(p: ProjectView, ctx: Seq<char>)
    requires
        0 <= p.id <= u128::MAX,
        i64::MIN <= p.created_at_millis <= i64::MAX,
    ensures
        spec_parse_project_obj(spec_encode_project(p) + ctx) == Some((p, ctx)),
{
    let lit1 = "{\"name\":\""@;
    let lit2 = ",\"id\":"@;
    let lit3 = ",\"created_at_millis\":"@;
    let lit4 = ",\"root_dir\":\""@;
    let lit5 = ",\"port\":"@;
    let lit6 = "}"@;
    reveal_strlit("{\"name\":\"");
    reveal_strlit(",\"id\":");
    reveal_strlit(",\"created_at_millis\":");
    reveal_strlit(",\"root_dir\":\"");
    reveal_strlit(",\"port\":");
    reveal_strlit("}");
    let s = spec_encode_project(p) + ctx;
    let tail1 = escape_chars(p.name) + seq!['"'] + lit2 + spec_digits(p.id) + lit3
        + spec_encode_int(p.created_at_millis) + lit4 + escape_chars(p.root_dir) + seq!['"']
        + lit5 + spec_encode_port(p.port) + lit6 + ctx;
    assert(s =~= lit1 + tail1);
    lemma_expect_prefix(lit1, tail1);
    let tail2 = lit2 + spec_digits(p.id) + lit3 + spec_encode_int(p.created_at_millis) + lit4
        + escape_chars(p.root_dir) + seq!['"'] + lit5 + spec_encode_port(p.port) + lit6 + ctx;
    assert(tail1 =~= escape_chars(p.name) + seq!['"'] + tail2);
    lemma_parse_escaped(p.name, tail2, Seq::empty());
    assert(Seq::<char>::empty() + p.name =~= p.name);

    let tail3 = spec_digits(p.id) + lit3 + spec_encode_int(p.created_at_millis) + lit4
        + escape_chars(p.root_dir) + seq!['"'] + lit5 + spec_encode_port(p.port) + lit6 + ctx;
    assert(tail2 =~= lit2 + tail3);
    lemma_expect_prefix(lit2, tail3);

    let tail4 = lit3 + spec_encode_int(p.created_at_millis) + lit4 + escape_chars(p.root_dir)
        + seq!['"'] + lit5 + spec_encode_port(p.port) + lit6 + ctx;
    assert(tail3 =~= spec_digits(p.id) + tail4);
    lemma_digits_val(p.id);
    assert(tail4[0] == ',');
    assert(!is_digit(','));
    lemma_parse_digits(spec_digits(p.id), tail4, 0);
    assert(tail3[0] == spec_digits(p.id)[0]);
    assert(is_digit(tail3[0]));

    let tail5 = spec_encode_int(p.created_at_millis) + lit4 + escape_chars(p.root_dir)
        + seq!['"'] + lit5 + spec_encode_port(p.port) + lit6 + ctx;
    assert(tail4 =~= lit3 + tail5);
    lemma_expect_prefix(lit3, tail5);

    let tail6 = lit4 + escape_chars(p.root_dir) + seq!['"'] + lit5 + spec_encode_port(p.port)
        + lit6 + ctx;
    assert(tail5 =~= spec_encode_int(p.created_at_millis) + tail6);
    assert(tail6[0] == ',');
    lemma_parse_int(p.created_at_millis, tail6);

    let tail7 = escape_chars(p.root_dir) + seq!['"'] + lit5 + spec_encode_port(p.port) + lit6
        + ctx;
    assert(tail6 =~= lit4 + tail7);
    lemma_expect_prefix(lit4, tail7);

    let tail8 = lit5 + spec_encode_port(p.port) + lit6 + ctx;
    assert(tail7 =~= escape_chars(p.root_dir) + seq!['"'] + tail8);
    lemma_parse_escaped(p.root_dir, tail8, Seq::empty());
    assert(Seq::<char>::empty() + p.root_dir =~= p.root_dir);

    let tail9 = spec_encode_port(p.port) + lit6 + ctx;
    assert(tail8 =~= lit5 + tail9);
    lemma_expect_prefix(lit5, tail9);

    assert(lit6[0] == '}');
    assert((lit6 + ctx)[0] == '}');
    assert(!is_digit('}'));
    assert(tail9 =~= spec_encode_port(p.port) + (lit6 + ctx));
    lemma_parse_opt_u16(p.port, lit6 + ctx);
    lemma_expect_prefix(lit6, ctx);
}

/// A record written by the encoder is read back unchanged: persisting a
/// project and reloading it on a restart preserves every field.
pub proof fn lemma_project_codec_round_trip(p: ProjectView)
    requires
        0 <= p.id <= u128::MAX,
        i64::MIN <= p.created_at_millis <= i64::MAX,
    ensures
        spec_decode_project(spec_encode_project(p)) == Some(p),
{
    lemma_parse_project_obj(p, Seq::empty());
    assert(spec_encode_project(p) + Seq::<char>::empty() =~= spec_encode_project(p));
}

/// Escape a text for embedding in a JSON string.
pub(crate) fn escape_string(s: &str) -> (r: String)
    ensures
        r@ == escape_chars(s@),
{
    let n: usize = s.unicode_len();
    let mut r = String::new();
    let mut i: usize = 0;
    while i < n
        invariant
            i <= n,
            n == s@.len(),
            r@ == escape_chars(s@.take(i as int)),
        decreases n - i,
    {
        let c = s.get_char(i);
        proof {
            lemma_escape_push(s@.take(i as int), c);
            assert(s@.take(i + 1) =~= s@.take(i as int).push(c));
        }
        if c == '"' || c == '\\' {
            push_char(&mut r, '\\');
            push_char(&mut r, c);
            proof {
                assert(r@ =~= escape_chars(s@.take(i as int)) + seq!['\\', c]);
            }
        } else {
            push_char(&mut r, c);
        }
        i = i + 1;
    }
    proof {
        assert(s@.take(n as int) =~= s@);
    }
    r
}

/// The decimal digits of a number, as text.
pub(crate) fn digits_u128(n: u128) -> (r: String)
    ensures
        r@ == spec_digits(n as int),
    decreases n,
{
    let d = (n % 10) as u8;
    let c = (48 + d) as char;
    proof {
        assert(c == digit_char(n as int % 10));
    }
    if n < 10 {
        let mut s = String::new();
        push_char(&mut s, c);
        proof {
            assert(s@ =~= seq![digit_char(n as int)]);
        }
        s
    } else {
        let mut s = digits_u128(n / 10);
        push_char(&mut s, c);
        proof {
            assert(s@ =~= spec_digits(n as int / 10).push(digit_char(n as int % 10)));
        }
        s
    }
}

/// A signed decimal, as text.
pub(crate) fn encode_i64(v: i64) -> (r: String)
    ensures
        r@ == spec_encode_int(v as int),
{
    if v < 0 {
        let abs: u128 = (-(v as i128)) as u128;
        proof {
            assert(abs as int == -(v as int));
        }
        let mut s = String::new();
        push_char(&mut s, '-');
        s.append(digits_u128(abs).as_str());
        proof {
            assert(s@ =~= seq!['-'] + spec_digits(-(v as int)));
        }
        s
    } else {
        digits_u128(v as u128)
    }
}

/// Write a project record as its JSON document.
pub fn encode_project(p: &Project) -> (r: String)
    ensures
        r@ == spec_encode_project(view_of(*p)),
{
    let mut s = String::from_str("{\"name\":\"");
    s.append(escape_string(p.name.as_str()).as_str());
    push_char(&mut s, '"');
    s.append(",\"id\":");
    s.append(digits_u128(p.id).as_str());
    s.append(",\"created_at_millis\":");
    s.append(encode_i64(p.created_at_millis).as_str());
    s.append(",\"root_dir\":\"");
    s.append(escape_string(p.root_dir.as_str()).as_str());
    push_char(&mut s, '"');
    s.append(",\"port\":");
    match p.port {
        None => s.append("null"),
        Some(pt) => s.append(digits_u128(pt as u128).as_str()),
    }
    s.append("}");
    proof {
        assert(s@ =~= spec_encode_project(view_of(*p)));
    }
    s
}

/// Consume a literal at `pos`, as `expect` does on the suffix.
pub(crate) fn expect_at(chars: &Vec<char>, pos: usize, lit: &str) -> (r: Option<usize>)
    requires
        pos <= chars@.len(),
    ensures
        match r {
            Some(p2) => pos <= p2 <= chars@.len() && expect(chars@.skip(pos as int), lit@)
                == Some(chars@.skip(p2 as int)),
            None => expect(chars@.skip(pos as int), lit@) is None,
        },
{
    let ghost s = chars@.skip(pos as int);
    let n: usize = lit.unicode_len();
    let total = chars.len();
    if total - pos < n {
        return None;
    }
    let mut i: usize = 0;
    while i < n
        invariant
            i <= n,
            pos <= chars@.len(),
            total == chars@.len(),
            pos + n <= total,
            n == lit@.len(),
            s == chars@.skip(pos as int),
            forall|j: int| 0 <= j < i ==> s[j] == lit@[j],
        decreases n - i,
    {
        if chars[pos + i] != lit.get_char(i) {
            proof {
                assert(s[i as int] == chars@[pos + i]);
                if s.len() >= lit@.len() && s.take(lit@.len() as int) == lit@ {
                    assert(s.take(lit@.len() as int)[i as int] == lit@[i as int]);
                    assert(false);
                }
            }
            return None;
        }
        i = i + 1;
    }
    proof {
        assert(s.take(n as int) =~= lit@);
        assert(s.skip(n as int) =~= chars@.skip(pos + n));
    }
    Some(pos + n)
}

/// Scan a string body at `pos`, as `parse_string_body` does on the suffix.
pub(crate) fn parse_string_at(chars: &Vec<char>, pos: usize) -> (r: Option<(String, usize)>)
    requires
        pos <= chars@.len(),
    ensures
        match r {
            Some(out) => out.1 <= chars@.len() && parse_string_body(
                chars@.skip(pos as int),
                Seq::empty(),
            ) == Some((out.0@, chars@.skip(out.1 as int))),
            None => parse_string_body(chars@.skip(pos as int), Seq::empty()) is None,
        },
{
    let n = chars.len();
    let mut acc = String::new();
    let mut j: usize = pos;
    while j < n
        invariant
            pos <= j <= n,
            n == chars@.len(),
            parse_string_body(chars@.skip(pos as int), Seq::empty()) == parse_string_body(
                chars@.skip(j as int),
                acc@,
            ),
        decreases n - j,
    {
        let c = chars[j];
        proof {
            assert(chars@.skip(j as int)[0] == chars@[j as int]);
            assert(chars@.skip(j as int).skip(1) =~= chars@.skip(j + 1));
        }
        if c == '"' {
            return Some((acc, j + 1));
        }
        if c == '\\' {
            if j + 1 >= n {
                proof {
                    assert(chars@.skip(j as int).len() < 2);
                }
                return None;
            }
            let c2 = chars[j + 1];
            proof {
                assert(chars@.skip(j as int)[1] == chars@[j + 1]);
                assert(chars@.skip(j as int).skip(2) =~= chars@.skip(j + 2));
            }
            if c2 == '"' || c2 == '\\' {
                let ghost prior = acc@;
                push_char(&mut acc, c2);
                proof {
                    assert(acc@ =~= prior.push(c2));
                }
                j = j + 2;
            } else {
                return None;
            }
        } else {
            let ghost prior = acc@;
            push_char(&mut acc, c);
            proof {
                assert(acc@ =~= prior.push(c));
            }
            j = j + 1;
        }
    }
    proof {
        assert(chars@.skip(n as int) =~= Seq::<char>::empty());
    }
    None
}

/// Scan digits at `pos`: their value, whether it overflows `u128`, and
/// where they end.
pub(crate) fn parse_digits_at(chars: &Vec<char>, pos: usize) -> (r: (u128, bool, usize))
    requires
        pos <= chars@.len(),
    ensures
        ({
            let pr = parse_digits(chars@.skip(pos as int), 0);
            &&& pos <= r.2 <= chars@.len()
            &&& pr.1 == chars@.skip(r.2 as int)
            &&& pr.0 >= 0
            &&& (r.1 ==> pr.0 > u128::MAX)
            &&& (!r.1 ==> pr.0 == r.0 as int)
        }),
{
    let n = chars.len();
    let mut acc: u128 = 0;
    let mut big = false;
    let mut j: usize = pos;
    let ghost mut a: int = 0;
    while j < n
        invariant
            pos <= j <= n,
            n == chars@.len(),
            a >= 0,
            !big ==> a == acc,
            big ==> a > u128::MAX,
            parse_digits(chars@.skip(pos as int), 0) == parse_digits(chars@.skip(j as int), a),
        decreases n - j,
    {
        let c = chars[j];
        let cv = c as u32;
        proof {
            assert(chars@.skip(j as int)[0] == chars@[j as int]);
            assert(chars@.skip(j as int).skip(1) =~= chars@.skip(j + 1));
        }
        if cv < 48 || cv > 57 {
            return (acc, big, j);
        }
        let d = (cv - 48) as u128;
        proof {
            let a0 = a;
            assert(digit_val(c) == d as int);
            a = a0 * 10 + digit_val(c);
            if big {
                assert(a > u128::MAX) by (nonlinear_arith)
                    requires
                        a == a0 * 10 + digit_val(c),
                        a0 > u128::MAX,
                        digit_val(c) >= 0,
                ;
            }
        }
        if !big {
            if acc > u128::MAX / 10 || (acc == u128::MAX / 10 && d > u128::MAX % 10) {
                big = true;
            } else {
                acc = acc * 10 + d;
            }
        }
        j = j + 1;
    }
    proof {
        assert(chars@.skip(n as int) =~= Seq::<char>::empty());
    }
    (acc, big, j)
}

/// Parse one project object at `pos`, as `spec_parse_project_obj` does on
/// the suffix.
pub(crate) fn parse_project_at(chars: &Vec<char>, pos: usize) -> (r: Option<(Project, usize)>)
    requires
        pos <= chars@.len(),
    ensures
        match r {
            Some(out) => out.1 <= chars@.len() && spec_parse_project_obj(chars@.skip(pos as int))
                == Some((view_of(out.0), chars@.skip(out.1 as int))),
            None => spec_parse_project_obj(chars@.skip(pos as int)) is None,
        },
{
    let p1 = match expect_at(chars, pos, "{\"name\":\"") {
        Some(p) => p,
        None => {
            return None;
        },
    };
    let (name, p2) = match parse_string_at(chars, p1) {
        Some(out) => out,
        None => {
            return None;
        },
    };
    let p3 = match expect_at(chars, p2, ",\"id\":") {
        Some(p) => p,
        None => {
            return None;
        },
    };
    if p3 >= chars.len() {
        return None;
    }
    let c3 = chars[p3];
    if (c3 as u32) < 48 || (c3 as u32) > 57 {
        return None;
    }
    let (id, id_big, p4) = parse_digits_at(chars, p3);
    if id_big {
        return None;
    }
    let p5 = match expect_at(chars, p4, ",\"created_at_millis\":") {
        Some(p) => p,
        None => {
            return None;
        },
    };
    // a signed decimal
    let mut neg = false;
    let mut pd = p5;
    if p5 < chars.len() && chars[p5] == '-' {
        neg = true;
        pd = p5 + 1;
        if pd >= chars.len() {
            return None;
        }
        let cd = chars[pd];
        if (cd as u32) < 48 || (cd as u32) > 57 {
            proof {
                assert(chars@.skip(p5 as int)[0] == '-');
                assert(chars@.skip(p5 as int)[1] == chars@[pd as int]);
            }
            return None;
        }
    } else {
        if p5 >= chars.len() {
            return None;
        }
        let cd = chars[p5];
        if (cd as u32) < 48 || (cd as u32) > 57 {
            return None;
        }
    }
    proof {
        if neg {
            assert(chars@.skip(p5 as int)[0] == '-');
            assert(chars@.skip(p5 as int)[1] == chars@[p5 + 1]);
            assert(chars@.skip(p5 as int).skip(1) =~= chars@.skip(p5 + 1));
        } else {
            assert(chars@.skip(p5 as int)[0] == chars@[p5 as int]);
        }
    }
    let (mag, mag_big, p6) = parse_digits_at(chars, pd);
    let created: i64 = if neg {
        if mag_big || mag > 9223372036854775808u128 {
            return None;
        }
        if mag == 9223372036854775808u128 {
            i64::MIN
        } else {
            -(mag as i64)
        }
    } else {
        if mag_big || mag > i64::MAX as u128 {
            return None;
        }
        mag as i64
    };
    let p7 = match expect_at(chars, p6, ",\"root_dir\":\"") {
        Some(p) => p,
        None => {
            return None;
        },
    };
    let (root, p8) = match parse_string_at(chars, p7) {
        Some(out) => out,
        None => {
            return None;
        },
    };
    let p9 = match expect_at(chars, p8, ",\"port\":") {
        Some(p) => p,
        None => {
            return None;
        },
    };
    let (port, p10) = match parse_opt_u16_at(chars, p9) {
        Some(out) => out,
        None => {
            return None;
        },
    };
    let p11 = match expect_at(chars, p10, "}") {
        Some(p) => p,
        None => {
            return None;
        },
    };
    Some((Project { name, id, created_at_millis: created, root_dir: root, port }, p11))
}

/// Parse an optional port at `pos`, as `parse_opt_u16` does on the suffix.
pub(crate) fn parse_opt_u16_at(chars: &Vec<char>, pos: usize) -> (r: Option<(Option<u16>, usize)>)
    requires
        pos <= chars@.len(),
    ensures
        match r {
            Some(out) => out.1 <= chars@.len() && parse_opt_u16(chars@.skip(pos as int)) == Some(
                (out.0, chars@.skip(out.1 as int)),
            ),
            None => parse_opt_u16(chars@.skip(pos as int)) is None,
        },
{
    match expect_at(chars, pos, "null") {
        Some(p) => Some((None, p)),
        None => {
            if pos >= chars.len() {
                return None;
            }
            let cp = chars[pos];
            proof {
                assert(chars@.skip(pos as int)[0] == chars@[pos as int]);
            }
            if (cp as u32) < 48 || (cp as u32) > 57 {
                return None;
            }
            let (v, v_big, pv) = parse_digits_at(chars, pos);
            if v_big || v > 65535 {
                return None;
            }
            Some((Some(v as u16), pv))
        },
    }
}

/// Read a project record back from its JSON document. Accepts exactly the
/// documents `encode_project` writes.
pub fn decode_project(s: &str) -> (r: Option<Project>)
    ensures
        match r {
            Some(p) => spec_decode_project(s@) == Some(view_of(p)),
            None => spec_decode_project(s@) is None,
        },
{
    let chars = str_to_chars(s);
    proof {
        assert(chars@.skip(0) =~= s@);
    }
    match parse_project_at(&chars, 0) {
        Some((p, end)) => {
            if end == chars.len() {
                proof {
                    assert(chars@.skip(end as int).len() == 0);
                }
                Some(p)
            } else {
                proof {
                    assert(chars@.skip(end as int).len() > 0);
                }
                None
            }
        },
        None => None,
    }
}

} // verus!
