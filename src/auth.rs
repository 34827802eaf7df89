//! The check on the credentials that guard the maintainers' pages.

use vstd::prelude::*;
use vstd::string::{StrSliceExecFns, StringExecFns};
use vstd::utf8::{decode_utf8, valid_utf8};
use base64::Engine;
use crate::parse::starts_with;
use crate::text::chars_of;

verus! {

/// A maintainer who gave the right credentials.
pub struct User;

pub open spec fn basic_word() -> Seq<char> {
    seq!['B', 'a', 's', 'i', 'c', ' ']
}

/// `s` with every leading `Basic ` removed, as `str::trim_start_matches` does.
pub open spec fn strip_basic(s: Seq<char>) -> Seq<char>
    decreases s.len(),
{
    if s.len() >= 6 && starts_with(s, basic_word()) {
        strip_basic(s.subrange(6, s.len() as int))
    } else {
        s
    }
}

/// What `base64`'s standard engine decodes from a text; `None` when it rejects it.
pub uninterp spec fn base64_decoded(s: Seq<char>) -> Option<Seq<u8>>;

/// Relies on `base64::engine::general_purpose::STANDARD.decode`: the bytes depend on
/// the text alone.
#[verifier::external_body]
fn decode_base64(s: &str) -> (r: Option<Vec<u8>>)
    ensures
        match r {
            Some(v) => base64_decoded(s@) == Some(v@),
            None => base64_decoded(s@) is None,
        },
{
    base64::engine::general_purpose::STANDARD.decode(s).ok()
}

/// Relies on `String::from_utf8`: it accepts exactly the valid UTF-8 byte strings, and
/// holds the characters that they encode.
#[verifier::external_body]
fn utf8_text(bytes: Vec<u8>) -> (r: Option<String>)
    ensures
        r is Some <==> valid_utf8(bytes@),
        r is Some ==> r->0@ == decode_utf8(bytes@),
{
    String::from_utf8(bytes).ok()
}

/// A request is let in when its `Authorization` header is `Basic ` and then, in base64,
/// the expected credentials. Bytes that are not UTF-8 count as empty credentials; text
/// that is not base64 is refused.
pub open spec fn authorised(header: Option<Seq<char>>, expected: Seq<char>) -> bool {
    match header {
        None => false,
        Some(h) => starts_with(h, basic_word()) && match base64_decoded(strip_basic(h)) {
            None => false,
            Some(bytes) => (if valid_utf8(bytes) {
                decode_utf8(bytes)
            } else {
                Seq::empty()
            }) == expected,
        },
    }
}

fn strip_basic_text(h: &Vec<char>) -> (r: usize)
    ensures
        r <= h@.len(),
        strip_basic(h@) == h@.subrange(r as int, h@.len() as int),
{
    let n = h.len();
    let mut i: usize = 0;
    assert(h@.subrange(0, n as int) == h@);
    while n - i >= 6 && h[i] == 'B' && h[i + 1] == 'a' && h[i + 2] == 's' && h[i + 3] == 'i'
        && h[i + 4] == 'c' && h[i + 5] == ' '
        invariant
            i <= n == h@.len(),
            strip_basic(h@) == strip_basic(h@.subrange(i as int, n as int)),
        decreases n - i,
    {
        let ghost t = h@.subrange(i as int, n as int);
        assert(t.subrange(0, 6) =~= basic_word());
        assert(t.subrange(6, t.len() as int) == h@.subrange(i + 6, n as int));
        i += 6;
    }
    proof {
        let t = h@.subrange(i as int, n as int);
        if t.len() >= 6 && starts_with(t, basic_word()) {
            assert(t.subrange(0, 6)[0] == t[0]);
            assert(t.subrange(0, 6)[1] == t[1]);
            assert(t.subrange(0, 6)[2] == t[2]);
            assert(t.subrange(0, 6)[3] == t[3]);
            assert(t.subrange(0, 6)[4] == t[4]);
            assert(t.subrange(0, 6)[5] == t[5]);
        }
    }
    i
}

/// Whether an `Authorization` header carries the expected credentials.
pub fn credentials_match(header: Option<&str>, expected: &str) -> (r: bool)
    ensures
        r == authorised(
            match header {
                Some(h) => Some(h@),
                None => None,
            },
            expected@,
        ),
{
    let h = match header {
        Some(h) => h,
        None => return false,
    };
    let chars = chars_of(h);
    if chars.len() < 6 || !(chars[0] == 'B' && chars[1] == 'a' && chars[2] == 's' && chars[3]
        == 'i' && chars[4] == 'c' && chars[5] == ' ') {
        proof {
            if chars@.len() >= 6 && starts_with(chars@, basic_word()) {
                assert(chars@.subrange(0, 6)[0] == chars@[0]);
                assert(chars@.subrange(0, 6)[1] == chars@[1]);
                assert(chars@.subrange(0, 6)[2] == chars@[2]);
                assert(chars@.subrange(0, 6)[3] == chars@[3]);
                assert(chars@.subrange(0, 6)[4] == chars@[4]);
                assert(chars@.subrange(0, 6)[5] == chars@[5]);
            }
        }
        return false;
    }
    assert(chars@.subrange(0, 6) =~= basic_word());
    let from = strip_basic_text(&chars);
    let credentials = h.substring_char(from, chars.len());
    match decode_base64(credentials) {
        None => false,
        Some(bytes) => {
            let text = match utf8_text(bytes) {
                Some(t) => t,
                None => String::new(),
            };
            text == String::from_str(expected)
        },
    }
}

} // verus!
