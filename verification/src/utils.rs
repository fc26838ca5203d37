//! Small shared helpers: UTF-8 decoding, caseless flag matching, and
//! the marker trait for values shared across request handlers.

use vstd::prelude::*;

verus! {

/// Marker for values that may be shared across threads by the
/// surrounding runtime.
pub trait ThreadSafe: Send + Sync + 'static {

}

/// Error for command text that does not parse.
#[derive(Debug)]
pub struct CmdParseError {}

/// The UTF-8 decoding of a byte string, when the bytes are valid
/// UTF-8. Named, not spelled out: the decoding is a function of the
/// bytes alone.
pub uninterp spec fn utf8_decode(bytes: Seq<u8>) -> Option<Seq<char>>;

/// Relies on core::str::from_utf8: validity and decoding depend on the
/// bytes alone, and ASCII bytes decode to themselves, one character
/// per byte.
#[verifier::external_body]
fn utf8_to_str(bytes: &[u8]) -> (r: Option<&str>)
    ensures
        r is Some <==> utf8_decode(bytes@) is Some,
        r is Some ==> Option::Some(r->0@) == utf8_decode(bytes@),
        (forall|i: int| 0 <= i < bytes@.len() ==> bytes@[i] < 128) ==> r is Some && r->0@
            == bytes@.map_values(|b: u8| b as char),
{
    core::str::from_utf8(bytes).ok()
}

/// Decodes a byte string as UTF-8.
pub fn decode_utf8(bytes: &Vec<u8>) -> (r: Option<String>)
    ensures
        r is Some <==> utf8_decode(bytes@) is Some,
        r is Some ==> Option::Some(r->0@) == utf8_decode(bytes@),
        (forall|i: int| 0 <= i < bytes@.len() ==> bytes@[i] < 128) ==> r is Some && r->0@
            == bytes@.map_values(|b: u8| b as char),
{
    match utf8_to_str(bytes.as_slice()) {
        Some(s) => Some(s.to_owned()),
        None => None,
    }
}

/// Whether two character sequences match under canonical caseless
/// comparison. Named, not spelled out: the verdict is a function of
/// the two sequences alone.
pub uninterp spec fn caseless_eq(a: Seq<char>, b: Seq<char>) -> bool;

/// Relies on caseless::canonical_caseless_match_str: both sides run
/// through the same normalizing fold, so the verdict depends only on
/// the two character sequences, and identical sequences always match.
#[verifier::external_body]
fn caseless_match(a: &str, b: &str) -> (r: bool)
    ensures
        r == caseless_eq(a@, b@),
        a@ == b@ ==> r,
{
    caseless::canonical_caseless_match_str(a, b)
}

/// Relies on std::time::SystemTime::now: the reading depends on the
/// moment of the call, so nothing is promised of the value. The rest
/// of the body only converts the reading to signed nanoseconds since
/// the Unix epoch, clamped at the type bounds; every step handles its
/// failure case, so no clock value can abort.
#[verifier::external_body]
pub(crate) fn now_nanos() -> i64 {
    match std::time::SystemTime::now().duration_since(std::time::UNIX_EPOCH) {
        Ok(d) => i64::try_from(d.as_nanos()).unwrap_or(i64::MAX),
        Err(e) => match i64::try_from(e.duration().as_nanos()) {
            Ok(n) => -n,
            Err(_) => i64::MIN,
        },
    }
}

/// Index of the first occurrence of `c` in `s` at or after `i`.
pub open spec fn find_char_from(s: Seq<char>, c: char, i: nat) -> Option<nat>
    decreases s.len() - i,
{
    if i >= s.len() {
        Option::None
    } else if s[i as int] == c {
        Option::Some(i)
    } else {
        find_char_from(s, c, i + 1)
    }
}

/// A found index lies between the search start and the end of the
/// sequence.
pub proof fn lemma_find_char_from_bounds(s: Seq<char>, c: char, i: nat)
    requires
        i <= s.len(),
    ensures
        match find_char_from(s, c, i) {
            Option::Some(j) => i <= j < s.len(),
            Option::None => true,
        },
    decreases s.len() - i,
{
    if i < s.len() && s[i as int] != c {
        lemma_find_char_from_bounds(s, c, i + 1);
    }
}

/// Whether some `delimiter`-separated part of `s` matches `flag`
/// under canonical caseless comparison.
pub open spec fn flag_in_parts(s: Seq<char>, delimiter: char, flag: Seq<char>) -> bool
    decreases s.len(),
    via flag_in_parts_decreases
{
    match find_char_from(s, delimiter, 0) {
        Option::None => caseless_eq(s, flag),
        Option::Some(i) => caseless_eq(s.take(i as int), flag) || flag_in_parts(
            s.skip(i as int + 1),
            delimiter,
            flag,
        ),
    }
}

#[via_fn]
proof fn flag_in_parts_decreases(s: Seq<char>, delimiter: char, flag: Seq<char>) {
    lemma_find_char_from_bounds(s, delimiter, 0);
}

fn find_char(s: &str, c: char, from: usize) -> (r: Option<usize>)
    requires
        from <= s@.len(),
    ensures
        match r {
            Option::Some(i) => find_char_from(s@, c, from as nat) == Option::Some(i as nat) && i
                < s@.len(),
            Option::None => find_char_from(s@, c, from as nat) is None,
        },
{
    let len = s.unicode_len();
    let mut i: usize = from;
    while i < len
        invariant
            from <= i <= len,
            len == s@.len(),
            find_char_from(s@, c, from as nat) == find_char_from(s@, c, i as nat),
        decreases len - i,
    {
        if s.get_char(i) == c {
            return Some(i);
        }
        i = i + 1;
    }
    None
}

/// Whether any `delimiter`-separated part of `s` matches `flag`,
/// ignoring case differences.
pub fn has_flags(s: &str, delimiter: char, flag: &str) -> (r: bool)
    ensures
        r == flag_in_parts(s@, delimiter, flag@),
    decreases s@.len(),
{
    match find_char(s, delimiter, 0) {
        None => caseless_match(s, flag),
        Some(i) => {
            let head = s.substring_char(0, i);
            assert(head@ =~= s@.take(i as int));
            if caseless_match(head, flag) {
                true
            } else {
                let len = s.unicode_len();
                let tail = s.substring_char(i + 1, len);
                assert(tail@ =~= s@.skip(i as int + 1));
                has_flags(tail, delimiter, flag)
            }
        },
    }
}

} // verus!
