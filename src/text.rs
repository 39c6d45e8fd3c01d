//! Operations on text that the trigger rules are built from.
use vstd::prelude::*;

verus! {

/// Whether `p` begins `s`.
pub open spec fn is_prefix<T>(p: Seq<T>, s: Seq<T>) -> bool {
    p.len() <= s.len() && s.subrange(0, p.len() as int) == p
}

/// Whether `needle` occurs somewhere in `hay`.
pub open spec fn is_substring<T>(needle: Seq<T>, hay: Seq<T>) -> bool {
    exists|i: int| 0 <= i && i + needle.len() <= hay.len() && #[trigger] hay.subrange(i, i + needle.len()) == needle
}

/// The pieces of `s` between the separators `sep`, empty pieces included.
pub open spec fn split_on(s: Seq<char>, sep: char) -> Seq<Seq<char>>
    decreases s.len(),
{
    if s.len() == 0 {
        seq![Seq::empty()]
    } else {
        let r = split_on(s.subrange(0, s.len() - 1), sep);
        let c = s[s.len() - 1];
        if c == sep {
            r.push(Seq::empty())
        } else {
            r.update(r.len() - 1, r[r.len() - 1].push(c))
        }
    }
}

/// `s` without its trailing characters `c`.
pub open spec fn trim_end_char(s: Seq<char>, c: char) -> Seq<char>
    decreases s.len(),
{
    if s.len() > 0 && s[s.len() - 1] == c {
        trim_end_char(s.subrange(0, s.len() - 1), c)
    } else {
        s
    }
}

/// The views of a list of strings.
pub open spec fn strings_view(v: Seq<String>) -> Seq<Seq<char>> {
    v.map_values(|s: String| s@)
}

/// What `str::to_uppercase` makes of a text.
pub uninterp spec fn upper_of(s: Seq<char>) -> Seq<char>;

/// Relies on str::starts_with: whether `p` is a prefix of `s`.
#[verifier::external_body]
pub(crate) fn starts_with(s: &str, p: &str) -> (r: bool)
    ensures
        r == is_prefix(p@, s@),
{
    s.starts_with(p)
}

/// Relies on str::contains: whether `p` occurs in `s`.
#[verifier::external_body]
pub(crate) fn contains(s: &str, p: &str) -> (r: bool)
    ensures
        r == is_substring(p@, s@),
{
    s.contains(p)
}

/// Relies on str::split with a `char` pattern: the pieces between the
/// separators, in order, empty pieces included.
#[verifier::external_body]
pub(crate) fn split(s: &str, sep: char) -> (r: Vec<String>)
    ensures
        strings_view(r@) == split_on(s@, sep),
{
    s.split(sep).map(|x| x.to_string()).collect()
}

/// Relies on str::to_uppercase: the result depends on the text alone, and a
/// text of the capital letters A to Z stays as it is.
#[verifier::external_body]
pub(crate) fn to_uppercase(s: &str) -> (r: String)
    ensures
        r@ == upper_of(s@),
        (forall|i: int| 0 <= i < s@.len() ==> 'A' <= #[trigger] s@[i] <= 'Z') ==> r@ == s@,
{
    s.to_uppercase()
}

/// Relies on str::chars: the characters of `s`, in order.
#[verifier::external_body]
pub(crate) fn chars_of(s: &str) -> (r: Vec<char>)
    ensures
        r@ == s@,
{
    s.chars().collect()
}

/// `s` without its trailing characters `c`.
pub fn trim_end(s: &str, c: char) -> (r: String)
    ensures
        r@ == trim_end_char(s@, c),
{
    let cs = chars_of(s);
    let mut n = cs.len();
    proof {
        assert(cs@.subrange(0, n as int) =~= s@);
    }
    while n > 0 && cs[n - 1] == c
        invariant
            n <= cs.len(),
            cs@ == s@,
            trim_end_char(cs@.subrange(0, n as int), c) == trim_end_char(s@, c),
        decreases n,
    {
        proof {
            assert(cs@.subrange(0, n as int).subrange(0, n - 1) =~= cs@.subrange(0, n - 1));
        }
        n -= 1;
    }
    let mut out = String::new();
    let mut i: usize = 0;
    while i < n
        invariant
            i <= n <= cs.len(),
            out@ == cs@.subrange(0, i as int),
        decreases n - i,
    {
        proof {
            assert(out@ + seq![cs@[i as int]] =~= cs@.subrange(0, i + 1));
        }
        out = push_char(out, cs[i]);
        i += 1;
    }
    proof {
        assert(n == 0 || cs@[n - 1] != c);
        assert(cs@.subrange(0, n as int).subrange(0, n as int) =~= cs@.subrange(0, n as int));
    }
    out
}

/// Relies on String::push: `s` with `c` added at its end.
#[verifier::external_body]
pub(crate) fn push_char(s: String, c: char) -> (r: String)
    ensures
        r@ == s@.push(c),
{
    let mut s = s;
    s.push(c);
    s
}

/// A copy of a list of strings.
pub fn copy_strings(v: &Vec<String>) -> (r: Vec<String>)
    ensures
        r@ == v@,
{
    let mut r: Vec<String> = Vec::new();
    let mut i: usize = 0;
    while i < v.len()
        invariant
            i <= v.len(),
            r@ == v@.subrange(0, i as int),
        decreases v.len() - i,
    {
        r.push(v[i].clone());
        i += 1;
        proof {
            assert(r@ =~= v@.subrange(0, i as int));
        }
    }
    proof {
        assert(v@.subrange(0, v.len() as int) =~= v@);
    }
    r
}

/// A copy of a list of string pairs.
pub fn copy_pairs(v: &Vec<(String, String)>) -> (r: Vec<(String, String)>)
    ensures
        r@ == v@,
{
    let mut r: Vec<(String, String)> = Vec::new();
    let mut i: usize = 0;
    while i < v.len()
        invariant
            i <= v.len(),
            r@ == v@.subrange(0, i as int),
        decreases v.len() - i,
    {
        r.push((v[i].0.clone(), v[i].1.clone()));
        i += 1;
        proof {
            assert(r@ =~= v@.subrange(0, i as int));
        }
    }
    proof {
        assert(v@.subrange(0, v.len() as int) =~= v@);
    }
    r
}

/// A copy of a list of (index, text) pairs.
pub fn copy_indexed(v: &Vec<(usize, String)>) -> (r: Vec<(usize, String)>)
    ensures
        r@ == v@,
{
    let mut r: Vec<(usize, String)> = Vec::new();
    let mut i: usize = 0;
    while i < v.len()
        invariant
            i <= v.len(),
            r@ == v@.subrange(0, i as int),
        decreases v.len() - i,
    {
        r.push((v[i].0, v[i].1.clone()));
        i += 1;
        proof {
            assert(r@ =~= v@.subrange(0, i as int));
        }
    }
    proof {
        assert(v@.subrange(0, v.len() as int) =~= v@);
    }
    r
}

/// A copy of an optional string.
pub fn copy_opt(v: &Option<String>) -> (r: Option<String>)
    ensures
        r == *v,
{
    match v {
        Some(s) => Some(s.clone()),
        None => None,
    }
}

} // verus!
