//! Glob-style pattern matching for exclusion patterns.
//!
//! A pattern matches byte for byte, except that `*` matches any run of
//! bytes (possibly empty). Patterns and candidate texts are compared on
//! their UTF-8 encodings, so `test_*` matches `test_helper` and `*_test`
//! matches `unit_test`.

use vstd::prelude::*;

verus! {

/// The byte value of `*`, the one wildcard the matcher understands.
pub const WILDCARD: u8 = 42;

/// Pattern `p` from position `pi` matches text `t` from position `ti` to its end.
pub open spec fn glob_match_from(p: Seq<u8>, pi: int, t: Seq<u8>, ti: int) -> bool
    decreases p.len() - pi, t.len() - ti,
{
    if pi < 0 || ti < 0 || pi > p.len() || ti > t.len() {
        false
    } else if pi == p.len() {
        ti == t.len()
    } else if p[pi] == WILDCARD {
        glob_match_from(p, pi + 1, t, ti) || (ti < t.len() && glob_match_from(p, pi, t, ti + 1))
    } else {
        ti < t.len() && p[pi] == t[ti] && glob_match_from(p, pi + 1, t, ti + 1)
    }
}

/// Pattern `p` matches the whole text `t`.
pub open spec fn glob_match(p: Seq<u8>, t: Seq<u8>) -> bool {
    glob_match_from(p, 0, t, 0)
}

/// Some pattern in `patterns` matches the whole of `t`.
pub open spec fn matches_any(patterns: Seq<Seq<u8>>, t: Seq<u8>) -> bool {
    exists|i: int| 0 <= i < patterns.len() && glob_match(patterns[i], t)
}

/// The UTF-8 bytes of a `String`, the sequence its `as_bytes` returns.
pub open spec fn bytes_of(s: Seq<char>) -> Seq<u8> {
    vstd::utf8::encode_utf8(s)
}

/// The byte sequences of a list of patterns held as strings.
pub open spec fn patterns_bytes(patterns: Seq<String>) -> Seq<Seq<u8>> {
    patterns.map_values(|p: String| bytes_of(p@))
}

fn glob_match_at(p: &[u8], pi: usize, t: &[u8], ti: usize) -> (r: bool)
    requires
        pi <= p@.len(),
        ti <= t@.len(),
    ensures
        r == glob_match_from(p@, pi as int, t@, ti as int),
    decreases p@.len() - pi, t@.len() - ti,
{
    if pi == p.len() {
        ti == t.len()
    } else if p[pi] == WILDCARD {
        if glob_match_at(p, pi + 1, t, ti) {
            true
        } else if ti < t.len() {
            glob_match_at(p, pi, t, ti + 1)
        } else {
            false
        }
    } else {
        if ti < t.len() && p[pi] == t[ti] {
            glob_match_at(p, pi + 1, t, ti + 1)
        } else {
            false
        }
    }
}

/// Does glob pattern `pattern` match the whole of `text`?
pub fn glob_matches(pattern: &str, text: &str) -> (r: bool)
    ensures
        r == glob_match(bytes_of(pattern@), bytes_of(text@)),
{
    glob_match_at(pattern.as_bytes(), 0, text.as_bytes(), 0)
}

/// Does any pattern in `patterns` match the whole of `text`?
pub fn matches_any_pattern(patterns: &Vec<String>, text: &str) -> (r: bool)
    ensures
        r == matches_any(patterns_bytes(patterns@), bytes_of(text@)),
{
    let mut i: usize = 0;
    while i < patterns.len()
        invariant
            i <= patterns@.len(),
            forall|j: int|
                0 <= j < i ==> !glob_match(patterns_bytes(patterns@)[j], bytes_of(text@)),
        decreases patterns@.len() - i,
    {
        if glob_matches(patterns[i].as_str(), text) {
            assert(glob_match(patterns_bytes(patterns@)[i as int], bytes_of(text@)));
            return true;
        }
        i += 1;
    }
    false
}

} // verus!
