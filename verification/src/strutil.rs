//! Small verified string helpers shared by the parsing and formatting code:
//! character extraction, string equality, and decimal numbers.

use vstd::prelude::*;

verus! {

/// Relies on `String::push`: appends the given char to the end of the string.
#[verifier::external_body]
pub fn push_char(s: &mut String, c: char)
    ensures
        final(s)@ == old(s)@ + seq![c],
{
    s.push(c);
}

/// Collect the characters of a string slice into a vector.
pub fn str_to_chars(s: &str) -> (r: Vec<char>)
    ensures
        r@ == s@,
{
    let n: usize = s.unicode_len();
    let mut r: Vec<char> = Vec::new();
    let mut i: usize = 0;
    while i < n
        invariant
            i <= n,
            n == s@.len(),
            r@ == s@.take(i as int),
        decreases n - i,
    {
        r.push(s.get_char(i));
        i = i + 1;
        proof {
            assert(r@ =~= s@.take(i as int));
        }
    }
    proof {
        assert(s@.take(n as int) =~= s@);
    }
    r
}

/// Character-wise equality of two string slices.
pub fn str_eq(a: &str, b: &str) -> (r: bool)
    ensures
        r == (a@ == b@),
{
    let na: usize = a.unicode_len();
    let nb: usize = b.unicode_len();
    if na != nb {
        return false;
    }
    let mut i: usize = 0;
    while i < na
        invariant
            i <= na,
            na == a@.len(),
            na == b@.len(),
            forall|j: int| 0 <= j < i ==> a@[j] == b@[j],
        decreases na - i,
    {
        if a.get_char(i) != b.get_char(i) {
            return false;
        }
        i = i + 1;
    }
    proof {
        assert(a@ =~= b@);
    }
    true
}

pub open spec fn is_digit(c: char) -> bool {
    48 <= c as u32 <= 57
}

pub open spec fn digit_val(c: char) -> int {
    c as u32 - 48
}

pub open spec fn all_digits(s: Seq<char>) -> bool {
    forall|i: int| 0 <= i < s.len() ==> is_digit(#[trigger] s[i])
}

/// The value of a string of decimal digits.
pub open spec fn dec_val(s: Seq<char>) -> int
    decreases s.len(),
{
    if s.len() == 0 {
        0
    } else {
        dec_val(s.drop_last()) * 10 + digit_val(s.last())
    }
}

pub proof fn lemma_dec_val_nonneg(s: Seq<char>)
    requires
        all_digits(s),
    ensures
        dec_val(s) >= 0,
    decreases s.len(),
{
    if s.len() > 0 {
        assert(all_digits(s.drop_last()));
        lemma_dec_val_nonneg(s.drop_last());
    }
}

/// The decimal value of a digit slice, as `parse_port` sees it: `Some`
/// exactly for ports `1..=65535`.
pub open spec fn spec_parse_port(s: Seq<char>) -> Option<u16> {
    if s.len() > 0 && all_digits(s) && 1 <= dec_val(s) <= 65535 {
        Some(dec_val(s) as u16)
    } else {
        None
    }
}

/// Parse a decimal TCP port; values outside `1..=65535`, empty input and
/// non-digit characters are rejected.
pub fn parse_port(chars: &Vec<char>, from: usize, to: usize) -> (r: Option<u16>)
    requires
        from <= to <= chars@.len(),
    ensures
        r == spec_parse_port(chars@.subrange(from as int, to as int)),
{
    let ghost s = chars@.subrange(from as int, to as int);
    if from == to {
        return None;
    }
    let mut acc: u32 = 0;
    let mut i: usize = from;
    while i < to
        invariant
            from <= i <= to <= chars@.len(),
            s == chars@.subrange(from as int, to as int),
            all_digits(s.take(i - from)),
            acc <= 65535,
            acc == dec_val(s.take(i - from)),
        decreases to - i,
    {
        let c = chars[i];
        let cv = c as u32;
        if cv < 48 || cv > 57 {
            proof {
                assert(s[i - from] == chars@[i as int]);
                assert(!is_digit(s[i - from]));
            }
            return None;
        }
        let d = cv - 48;
        proof {
            assert(s.take(i + 1 - from).drop_last() =~= s.take(i - from));
            assert(s.take(i + 1 - from).last() == s[i - from]);
            assert(s[i - from] == chars@[i as int]);
        }
        if acc > 6553 || (acc == 6553 && d > 5) {
            proof {
                lemma_dec_val_nonneg(s.take(i - from));
            }
            acc = 100000;
            proof {
                assert(dec_val(s.take(i + 1 - from)) > 65535);
            }
            i = i + 1;
            // remaining digits only grow the value
            while i < to
                invariant
                    from < i <= to <= chars@.len(),
                    s == chars@.subrange(from as int, to as int),
                    all_digits(s.take(i - from)),
                    dec_val(s.take(i - from)) > 65535,
                decreases to - i,
            {
                let c2 = chars[i];
                let cv2 = c2 as u32;
                if cv2 < 48 || cv2 > 57 {
                    proof {
                        assert(s[i - from] == chars@[i as int]);
                        assert(!is_digit(s[i - from]));
                    }
                    return None;
                }
                proof {
                    assert(s.take(i + 1 - from).drop_last() =~= s.take(i - from));
                    assert(s.take(i + 1 - from).last() == s[i - from]);
                    assert(s[i - from] == chars@[i as int]);
                    lemma_dec_val_nonneg(s.take(i - from));
                }
                i = i + 1;
            }
            proof {
                assert(s.take(to - from) =~= s);
            }
            return None;
        }
        acc = acc * 10 + d;
        i = i + 1;
    }
    proof {
        assert(s.take(to - from) =~= s);
    }
    if acc == 0 {
        return None;
    }
    Some(acc as u16)
}

} // verus!
