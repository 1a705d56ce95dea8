//! ObjectId: the seconds since 1970 in hexadecimal (zero-padded to eight digits) followed
//! by sixteen random hexadecimal characters.
use vstd::prelude::*;
use crate::radix::{radix_str, left_pad, parse_radix, radix_string, pad_zeros, parse_radix_chars, lemma_padded_roundtrip};
use crate::text::{string_of, push_chars};
use super::window::{ascii_window, byte_range_ok, take_ascii_window};
use super::random::{random_text, drawn_from};
use super::meidg::{hex_alphabet, hex_chars};
use vstd::arithmetic::power::pow;

verus! {

/// The time part of an ObjectId: `"0"` for times up to 1970, else the whole seconds in
/// hexadecimal zero-padded to eight digits.
pub open spec fn object_id_time_str(t: int) -> Seq<char> {
    if t <= 0 {
        seq!['0']
    } else {
        left_pad(radix_str((t / 1000) as nat, 16), '0', 8)
    }
}

/// The time that an ObjectId holds: its first eight characters in hexadecimal, as seconds.
pub open spec fn object_id_parse_result(id: Seq<char>) -> Option<int> {
    match ascii_window(id, 0, 8) {
        Some(w) => match parse_radix(w, 16) {
            Some(v) => Some(v * 1000),
            None => None,
        },
        None => None,
    }
}

pub struct ObjectIdService;

/// The time part of an ObjectId for `time`.
pub fn get_time(time: i64) -> (s: Vec<char>)
    ensures
        s@ == object_id_time_str(time as int),
{
    let t = if time > 0 { time } else { 0 };
    if t == 0 {
        let mut v: Vec<char> = Vec::new();
        v.push('0');
        return v;
    }
    let secs = t / 1000;
    let d = radix_string(secs, 16);
    pad_zeros(d.as_slice(), 8)
}

impl ObjectIdService {
    pub fn new() -> ObjectIdService {
        ObjectIdService
    }

    /// Times after 1970 are represented.
    pub fn is_safe_t(&self, t: i64) -> (b: bool)
        ensures
            b == (t > 0),
    {
        t > 0
    }

    /// An ObjectId for `time`.
    pub fn gen(&self, time: i64) -> (s: String)
        ensures
            exists|r: Seq<char>|
                r.len() == 16 && drawn_from(r, hex_alphabet()) && s@ == object_id_time_str(time as int) + r,
    {
        let alphabet = hex_chars();
        let random = random_text(alphabet.as_slice(), 16);
        let t = get_time(time);
        let mut s = string_of(t.as_slice());
        let rv = crate::text::chars_of(random.as_str());
        push_chars(&mut s, rv.as_slice());
        s
    }

    /// The time that `id` holds, in whole seconds.
    pub fn parse(&self, id: &str) -> (r: Option<i64>)
        requires
            byte_range_ok(id, 0, 8),
        ensures
            r is Some <==> object_id_parse_result(id@) is Some,
            r matches Some(x) ==> object_id_parse_result(id@) == Some(x as int),
    {
        match take_ascii_window(id, 0, 8) {
            None => None,
            Some(w) => match parse_radix_chars(w.as_slice(), 16) {
                None => None,
                Some(v) => {
                    proof {
                        crate::radix::lemma_parse_radix_bound(w@, 16);
                        crate::radix::lemma_parse_radix_small(w@, 16);
                    }
                    Some(v * 1000)
                },
            },
        }
    }
}

/// An ObjectId gives back the time it was made for, rounded down to the second, for times
/// after 1970 whose seconds fit in eight hexadecimal digits.
pub proof fn lemma_object_id_roundtrip(t: int, rest: Seq<char>)
    requires
        0 < t < 4294967296000,
    ensures
        object_id_parse_result(object_id_time_str(t) + rest) == Some(t - t % 1000),
{
    assert(pow(16, 8) == 4294967296) by {
        reveal_with_fuel(pow, 9);
    }
    lemma_padded_roundtrip((t / 1000) as nat, 16, 8);
    let p = object_id_time_str(t);
    let id = p + rest;
    assert(id.take(8) =~= p);
    assert(id.subrange(0, 8) =~= p);
}

} // verus!
