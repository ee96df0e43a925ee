//! Parsing of persisted channel and message ids: decimal `u64` values, as
//! the standard library reads them (an optional leading plus sign, then
//! digits, rejecting overflow).
use vstd::prelude::*;
use vstd::string::StrSliceExecFns;

verus! {

pub open spec fn is_ascii_digit_char(c: char) -> bool {
    48 <= c as int <= 57
}

pub open spec fn digit_value(c: char) -> int {
    c as int - 48
}

/// The digits of the number: everything after an optional leading `+`.
pub open spec fn spec_strip_plus(s: Seq<char>) -> Seq<char> {
    if s.len() > 0 && s[0] == '+' {
        s.subrange(1, s.len() as int)
    } else {
        s
    }
}

pub open spec fn spec_all_digits(s: Seq<char>) -> bool {
    forall|i: int| 0 <= i < s.len() ==> is_ascii_digit_char(#[trigger] s[i])
}

/// Value of the first `n` characters read as decimal digits.
pub open spec fn spec_digits_value(s: Seq<char>, n: int) -> int
    decreases n,
{
    if n <= 0 {
        0
    } else {
        spec_digits_value(s, n - 1) * 10 + digit_value(s[n - 1])
    }
}

/// What parsing a decimal `u64` yields: after an optional leading `+`, one
/// or more digits whose value fits, and nothing else.
pub open spec fn spec_parse_u64(s: Seq<char>) -> Option<u64> {
    let digits = spec_strip_plus(s);
    if digits.len() == 0 {
        None
    } else if !spec_all_digits(digits) {
        None
    } else if spec_digits_value(digits, digits.len() as int) > u64::MAX {
        None
    } else {
        Some(spec_digits_value(digits, digits.len() as int) as u64)
    }
}

proof fn lemma_digits_value_monotone(s: Seq<char>, n: int, m: int)
    requires
        0 <= n <= m,
        forall|i: int| 0 <= i < m ==> is_ascii_digit_char(#[trigger] s[i]),
        m <= s.len(),
    ensures
        spec_digits_value(s, n) <= spec_digits_value(s, m),
        spec_digits_value(s, n) >= 0,
    decreases m,
{
    if m > n {
        lemma_digits_value_monotone(s, n, m - 1);
        assert(spec_digits_value(s, m - 1) * 10 >= spec_digits_value(s, m - 1)) by (nonlinear_arith)
            requires spec_digits_value(s, m - 1) >= 0,
        ;
    } else if n > 0 {
        lemma_digits_value_monotone(s, n - 1, n - 1);
        assert(spec_digits_value(s, n - 1) * 10 >= 0) by (nonlinear_arith)
            requires spec_digits_value(s, n - 1) >= 0,
        ;
    }
}

/// Parse a decimal `u64`, accepting exactly what the standard library's
/// `u64` parser accepts.
pub exec fn parse_u64(s: &str) -> (r: Option<u64>)
    ensures
        r == spec_parse_u64(s@),
{
    let len: usize = s.unicode_len();
    let mut i: usize = 0;
    if len > 0 && s.get_char(0) == '+' {
        i = 1;
    }
    let ghost start: int = i as int;
    let ghost digits: Seq<char> = spec_strip_plus(s@);
    proof {
        assert(digits =~= s@.subrange(start, s@.len() as int));
    }
    if i >= len {
        proof {
            assert(digits.len() == 0);
        }
        return None;
    }
    let mut val: u64 = 0;
    while i < len
        invariant
            start <= i as int <= len as int,
            len as int == s@.len(),
            0 <= start <= 1,
            digits == spec_strip_plus(s@),
            digits =~= s@.subrange(start, s@.len() as int),
            forall|j: int| 0 <= j < i as int - start ==> is_ascii_digit_char(#[trigger] digits[j]),
            val as int == spec_digits_value(digits, i as int - start),
        decreases len as int - i,
    {
        let c: char = s.get_char(i);
        let cv: u32 = c as u32;
        if cv < 48 || cv > 57 {
            proof {
                assert(digits[i as int - start] == s@[i as int]);
                assert(!is_ascii_digit_char(digits[i as int - start]));
                assert(!spec_all_digits(digits));
            }
            return None;
        }
        let d: u64 = (cv - 48) as u64;
        if val > (u64::MAX - d) / 10 {
            proof {
                let v = val as int;
                let dd = d as int;
                assert(v * 10 + dd > u64::MAX) by (nonlinear_arith)
                    requires
                        v > (u64::MAX - dd) / 10,
                        0 <= dd <= 9,
                        v >= 0,
                ;
                assert(digits[i as int - start] == s@[i as int]);
                assert(spec_digits_value(digits, i as int - start + 1) > u64::MAX);
                if spec_all_digits(digits) {
                    lemma_digits_value_monotone(
                        digits,
                        i as int - start + 1,
                        digits.len() as int,
                    );
                    assert(spec_digits_value(digits, digits.len() as int) > u64::MAX);
                }
            }
            return None;
        }
        proof {
            let v = val as int;
            let dd = d as int;
            assert(v * 10 + dd <= u64::MAX) by (nonlinear_arith)
                requires
                    v <= (u64::MAX - dd) / 10,
                    0 <= dd <= 9,
                    v >= 0,
            ;
            assert(digits[i as int - start] == s@[i as int]);
        }
        val = val * 10 + d;
        i = i + 1;
    }
    proof {
        assert(i as int - start == digits.len());
        assert(spec_all_digits(digits));
    }
    Some(val)
}

} // verus!
