//! Decimal text of integers, both ways.
use vstd::prelude::*;

verus! {

/// The value of a decimal digit.
pub open spec fn digit_value(c: char) -> int {
    c as int - '0' as int
}

pub open spec fn is_digit(c: char) -> bool {
    '0' <= c <= '9'
}

/// The value of a string of decimal digits.
pub open spec fn digits_value(s: Seq<char>) -> int
    decreases s.len(),
{
    if s.len() == 0 {
        0
    } else {
        digits_value(s.subrange(0, s.len() - 1)) * 10 + digit_value(s[s.len() - 1])
    }
}

/// What `str::parse::<u64>` accepts: an optional `+` and at least one digit,
/// of a value that fits.
pub open spec fn parsed_u64(s: Seq<char>) -> Option<u64> {
    if unsigned_body(s).len() > 0 && all_digits(unsigned_body(s)) && digits_value(unsigned_body(s)) <= u64::MAX {
        Some(digits_value(unsigned_body(s)) as u64)
    } else {
        None
    }
}

/// `s` without one leading `+`.
pub open spec fn unsigned_body(s: Seq<char>) -> Seq<char> {
    if s.len() > 0 && s[0] == '+' {
        s.subrange(1, s.len() as int)
    } else {
        s
    }
}

pub open spec fn all_digits(s: Seq<char>) -> bool {
    forall|i: int| 0 <= i < s.len() ==> is_digit(#[trigger] s[i])
}

/// The decimal text of a natural number, without leading zeros.
pub open spec fn decimal(n: nat) -> Seq<char>
    decreases n,
{
    if n < 10 {
        seq![('0' as u8 + n as u8) as char]
    } else {
        decimal(n / 10).push(('0' as u8 + (n % 10) as u8) as char)
    }
}

/// The decimal text of an integer, `-` before a negative one.
pub open spec fn signed_decimal(n: int) -> Seq<char> {
    if n < 0 {
        seq!['-'] + decimal((-n) as nat)
    } else {
        decimal(n as nat)
    }
}

proof fn lemma_digits_value_nonneg(s: Seq<char>)
    requires
        forall|i: int| 0 <= i < s.len() ==> is_digit(#[trigger] s[i]),
    ensures
        digits_value(s) >= 0,
    decreases s.len(),
{
    if s.len() > 0 {
        lemma_digits_value_nonneg(s.subrange(0, s.len() - 1));
    }
}

/// Reads a counter's text as `str::parse::<u64>` does.
pub fn parse_u64(text: &str) -> (r: Option<u64>)
    ensures
        r == parsed_u64(text@),
{
    let cs = crate::text::chars_of(text);
    let start: usize = if cs.len() > 0 && cs[0] == '+' { 1 } else { 0 };
    let ghost body = unsigned_body(text@);
    if start >= cs.len() {
        proof {
            assert(body.len() == 0);
        }
        return None;
    }
    proof {
        assert(text@.subrange(0, text@.len() as int) =~= text@);
    }
    let mut v: u64 = 0;
    let mut i: usize = start;
    while i < cs.len()
        invariant
            start <= i <= cs.len(),
            cs@ == text@,
            start == (if text@.len() > 0 && text@[0] == '+' { 1int } else { 0int }),
            body == text@.subrange(start as int, text@.len() as int),
            body == unsigned_body(text@),
            forall|j: int| 0 <= j < i - start ==> is_digit(#[trigger] body[j]),
            v == digits_value(body.subrange(0, i - start)),
        decreases cs.len() - i,
    {
        let c = cs[i];
        proof {
            assert(body.subrange(0, i - start + 1).subrange(0, i - start) =~= body.subrange(0, i - start));
            assert(body[i - start] == c);
        }
        if !('0' <= c && c <= '9') {
            proof {
                assert(!is_digit(body[i - start]));
                assert(!all_digits(body));
                assert(parsed_u64(text@) is None);
            }
            return None;
        }
        let d = (c as u32 - '0' as u32) as u64;
        if v > (u64::MAX - d) / 10 {
            proof {
                assert(body.subrange(0, i - start + 1).subrange(0, i - start) =~= body.subrange(0, i - start));
                assert(digits_value(body.subrange(0, i - start + 1)) == v * 10 + d);
                assert(v * 10 + d > u64::MAX) by (nonlinear_arith)
                    requires v > (u64::MAX - d) / 10, d <= 9;
                lemma_prefix_value_bound(body, (i - start + 1) as int);
                assert(parsed_u64(text@) is None);
            }
            return None;
        }
        proof {
            assert(v * 10 + d <= u64::MAX) by (nonlinear_arith)
                requires v <= (u64::MAX - d) / 10, d <= 9;
        }
        v = v * 10 + d;
        i += 1;
    }
    proof {
        assert(body.subrange(0, body.len() as int) =~= body);
    }
    Some(v)
}

/// A longer run of digits is worth at least as much as its prefix.
proof fn lemma_prefix_value_bound(s: Seq<char>, k: int)
    requires
        0 <= k <= s.len(),
    ensures
        (forall|i: int| 0 <= i < s.len() ==> is_digit(#[trigger] s[i])) ==> digits_value(s) >= digits_value(s.subrange(0, k)),
    decreases s.len() - k,
{
    if k < s.len() {
        lemma_prefix_value_bound(s, k + 1);
        if forall|i: int| 0 <= i < s.len() ==> is_digit(#[trigger] s[i]) {
            let p = s.subrange(0, k);
            assert(s.subrange(0, k + 1).subrange(0, k) =~= p);
            lemma_digits_value_nonneg(p);
            assert(is_digit(s[k]));
        }
    } else {
        assert(s.subrange(0, k) =~= s);
    }
}

/// The decimal text of `n`.
pub fn decimal_text(n: u64) -> (r: String)
    ensures
        r@ == decimal(n as nat),
    decreases n,
{
    if n < 10 {
        let c = (('0' as u8) + (n as u8)) as char;
        crate::text::push_char(String::new(), c)
    } else {
        let head = decimal_text(n / 10);
        let c = (('0' as u8) + ((n % 10) as u8)) as char;
        crate::text::push_char(head, c)
    }
}

/// The decimal text of `n`, `-` before a negative one.
pub fn signed_decimal_text(n: i64) -> (r: String)
    ensures
        r@ == signed_decimal(n as int),
{
    if n < 0 {
        let magnitude: u64 = if n == i64::MIN { 9223372036854775808u64 } else { (-n) as u64 };
        let tail = decimal_text(magnitude);
        let mut s = crate::text::push_char(String::new(), '-');
        s.append(tail.as_str());
        s
    } else {
        decimal_text(n as u64)
    }
}

} // verus!
