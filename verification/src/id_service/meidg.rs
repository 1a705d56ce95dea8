//! MEIDG: the letter `g`, the milliseconds since 1970 in hexadecimal (zero-padded to
//! eleven digits), and twelve random hexadecimal characters.
use vstd::prelude::*;
use crate::radix::{radix_str, left_pad, parse_radix, radix_string, pad_zeros, parse_radix_chars, lemma_padded_roundtrip};
use crate::text::{string_of, push_chars, push_char};
use super::window::{ascii_window, byte_range_ok, take_ascii_window};
use super::random::{random_text, drawn_from};
use vstd::arithmetic::power::pow;

verus! {

/// The hexadecimal digits, lower case.
pub open spec fn hex_alphabet() -> Seq<char> {
    seq!['0', '1', '2', '3', '4', '5', '6', '7', '8', '9', 'a', 'b', 'c', 'd', 'e', 'f']
}

pub(crate) fn hex_chars() -> (v: Vec<char>)
    ensures
        v@ == hex_alphabet(),
        crate::text::all_ascii(v@),
{
    let v = vec!['0', '1', '2', '3', '4', '5', '6', '7', '8', '9', 'a', 'b', 'c', 'd', 'e', 'f'];
    assert(v@ =~= hex_alphabet());
    v
}

/// The time part of a MEIDG: `"0"` for times up to 1970, else the milliseconds in
/// hexadecimal zero-padded to eleven digits.
pub open spec fn meidg_time_str(t: int) -> Seq<char> {
    if t <= 0 {
        seq!['0']
    } else {
        left_pad(radix_str(t as nat, 16), '0', 11)
    }
}

/// The time that a MEIDG holds: its characters 1 to 11 read in hexadecimal.
pub open spec fn meidg_parse_result(id: Seq<char>) -> Option<int> {
    match ascii_window(id, 1, 12) {
        Some(w) => parse_radix(w, 16),
        None => None,
    }
}

pub struct MeidgService;

/// The time part of a MEIDG for `time`.
pub fn get_time(time: i64) -> (s: Vec<char>)
    ensures
        s@ == meidg_time_str(time as int),
{
    let t = if time > 0 { time } else { 0 };
    if t == 0 {
        let mut v: Vec<char> = Vec::new();
        v.push('0');
        return v;
    }
    let d = radix_string(t, 16);
    pad_zeros(d.as_slice(), 11)
}

impl MeidgService {
    pub fn new() -> MeidgService {
        MeidgService
    }

    /// Times after 1970 are represented faithfully.
    pub fn is_safe_t(&self, t: i64) -> (b: bool)
        ensures
            b == (t > 0),
    {
        t > 0
    }

    /// A MEIDG for `time`.
    pub fn gen(&self, time: i64) -> (s: String)
        ensures
            exists|r: Seq<char>|
                r.len() == 12 && drawn_from(r, hex_alphabet()) && s@ == seq!['g'] + meidg_time_str(time as int) + r,
    {
        let alphabet = hex_chars();
        let random = random_text(alphabet.as_slice(), 12);
        let t = get_time(time);
        let mut s = String::new();
        push_char(&mut s, 'g');
        push_chars(&mut s, t.as_slice());
        let rv = crate::text::chars_of(random.as_str());
        push_chars(&mut s, rv.as_slice());
        assert(s@ == seq!['g'] + meidg_time_str(time as int) + random@);
        s
    }

    /// The time that `id` holds.
    pub fn parse(&self, id: &str) -> (r: Option<i64>)
        requires
            byte_range_ok(id, 1, 12),
        ensures
            r is Some <==> meidg_parse_result(id@) is Some,
            r matches Some(x) ==> meidg_parse_result(id@) == Some(x as int),
    {
        match take_ascii_window(id, 1, 12) {
            None => None,
            Some(w) => parse_radix_chars(w.as_slice(), 16),
        }
    }
}

/// A MEIDG gives back the time it was made for, for times after 1970 whose milliseconds
/// fit in eleven hexadecimal digits.
pub proof fn lemma_meidg_roundtrip(t: int, rest: Seq<char>)
    requires
        0 < t < 17592186044416,
    ensures
        meidg_parse_result(seq!['g'] + meidg_time_str(t) + rest) == Some(t),
{
    assert(pow(16, 11) == 17592186044416) by {
        reveal_with_fuel(pow, 12);
    }
    lemma_padded_roundtrip(t as nat, 16, 11);
    let p = meidg_time_str(t);
    let id = seq!['g'] + p + rest;
    assert(id.subrange(1, 12) =~= p);
    assert forall|i: int| 0 <= i < 12 implies (#[trigger] id.take(12)[i] as u32) < 128 by {
        if i > 0 {
            assert(id.take(12)[i] == p[i - 1]);
        }
    }
}

} // verus!
