//! AIDX: eight base-36 characters of the milliseconds elapsed since 2000-01-01, four
//! characters identifying the node, and four characters of a counter.
use vstd::prelude::*;
use crate::radix::{
    signed_radix_str, left_pad, last_n, all_radix_chars, radix_string, keep_last, pad_zeros,
    parse_radix_chars, fixed_digits, lemma_fixed_digits,
};
use crate::text::{string_of, push_chars, chars_of};
use super::aid::{TIME2000, aid_elapsed, aid_parse_result};
use super::window::{byte_range_ok, take_ascii_window};
use super::random::{random_text, drawn_from};
use vstd::arithmetic::power::pow;

verus! {

/// The characters a node identifier is drawn from.
pub open spec fn base36_alphabet() -> Seq<char> {
    seq!['0', '1', '2', '3', '4', '5', '6', '7', '8', '9', 'a', 'b', 'c', 'd', 'e', 'f', 'g', 'h',
         'i', 'j', 'k', 'l', 'm', 'n', 'o', 'p', 'q', 'r', 's', 't', 'u', 'v', 'w', 'x', 'y', 'z']
}

/// The time part of an AIDX: the last eight base-36 digits of the elapsed milliseconds,
/// zero-padded.
pub open spec fn aidx_time_str(t: int) -> Seq<char> {
    fixed_digits(aid_elapsed(t), 36, 8)
}

/// The counter part of an AIDX: the base-36 text of the counter zero-padded to four
/// characters, of which the last four are kept.
pub open spec fn aidx_noise_str(counter: int) -> Seq<char> {
    last_n(left_pad(signed_radix_str(counter, 36), '0', 4), 4)
}

pub struct AidxService {
    node_id: String,
    counter: std::sync::atomic::AtomicI32,
}

fn base36_chars() -> (v: Vec<char>)
    ensures
        v@ == base36_alphabet(),
{
    let v = vec!['0', '1', '2', '3', '4', '5', '6', '7', '8', '9', 'a', 'b', 'c', 'd', 'e', 'f', 'g',
        'h', 'i', 'j', 'k', 'l', 'm', 'n', 'o', 'p', 'q', 'r', 's', 't', 'u', 'v', 'w', 'x', 'y', 'z'];
    assert(v@ =~= base36_alphabet());
    v
}

/// The time part of an AIDX for `time`.
pub fn get_time(time: i64) -> (s: Vec<char>)
    requires
        time >= i64::MIN + TIME2000,
    ensures
        s@ == aidx_time_str(time as int),
{
    let e = time - TIME2000;
    let e = if e > 0 { e } else { 0 };
    let d = radix_string(e, 36);
    let p = pad_zeros(d.as_slice(), 8);
    keep_last(p.as_slice(), 8)
}

/// The counter part of an AIDX for a counter value.
pub fn noise_of(counter: i32) -> (s: Vec<char>)
    ensures
        s@ == aidx_noise_str(counter as int),
{
    let d = radix_string(counter as i64, 36);
    let p = pad_zeros(d.as_slice(), 4);
    keep_last(p.as_slice(), 4)
}

impl AidxService {
    /// A service with a random four-character node identifier and the counter at 0.
    pub fn new() -> (s: AidxService)
        ensures
            s.node_id()@.len() == 4,
            drawn_from(s.node_id()@, base36_alphabet()),
    {
        let alphabet = base36_chars();
        proof {
            assert forall|i: int| 0 <= i < alphabet@.len() implies (#[trigger] alphabet@[i] as u32) < 128 by {}
        }
        let id = random_text(alphabet.as_slice(), 4);
        AidxService { node_id: id, counter: std::sync::atomic::AtomicI32::new(0) }
    }

    pub closed spec fn node_id(&self) -> String {
        self.node_id
    }

    /// Times after 2000-01-01 are represented faithfully.
    pub fn is_safe_t(&self, t: i64) -> (b: bool)
        ensures
            b == (t > TIME2000),
    {
        t > TIME2000
    }

    /// The counter's value before this call, which adds one to it (wrapping).
    /// The value lives in a `std` atomic, of whose contents vstd states nothing,
    /// so no clause can say which `i32` comes back.
    fn next_counter(&self) -> i32 {
        self.counter.fetch_add(1, std::sync::atomic::Ordering::SeqCst)
    }

    /// An AIDX for `time`: time part, node identifier, counter part.
    pub fn gen(&self, time: i64) -> (s: String)
        requires
            time >= i64::MIN + TIME2000,
        ensures
            exists|c: i32| s@ == aidx_time_str(time as int) + self.node_id()@ + aidx_noise_str(c as int),
    {
        let t = get_time(time);
        let c = self.next_counter();
        let n = noise_of(c);
        let mut s = string_of(t.as_slice());
        let node = chars_of(self.node_id.as_str());
        push_chars(&mut s, node.as_slice());
        push_chars(&mut s, n.as_slice());
        s
    }

    /// The time that `id` holds: as for AID, its first eight characters in base 36 plus
    /// 2000-01-01.
    pub fn parse(&self, id: &str) -> (r: Option<i64>)
        requires
            byte_range_ok(id, 0, 8),
        ensures
            r is Some <==> aid_parse_result(id@) is Some,
            r matches Some(x) ==> aid_parse_result(id@) == Some(x as int),
    {
        match take_ascii_window(id, 0, 8) {
            None => None,
            Some(w) => match parse_radix_chars(w.as_slice(), 36) {
                None => None,
                Some(v) => {
                    proof {
                        crate::radix::lemma_parse_radix_bound(w@, 36);
                    }
                    Some(v + TIME2000)
                },
            },
        }
    }
}

/// An AIDX gives back its time modulo 36^8 milliseconds after 2000-01-01 (the time part
/// keeps the last eight digits); earlier times give 2000-01-01.
pub proof fn lemma_aidx_roundtrip(t: int, rest: Seq<char>)
    ensures
        aid_parse_result(aidx_time_str(t) + rest) == Some(
            (aid_elapsed(t) % 2821109907456) as int + TIME2000,
        ),
{
    assert(pow(36, 8) == 2821109907456) by {
        reveal_with_fuel(pow, 9);
    }
    lemma_fixed_digits(aid_elapsed(t), 36, 8);
    let p = aidx_time_str(t);
    let id = p + rest;
    assert(id.take(8) =~= p);
    assert(id.subrange(0, 8) =~= p);
}

} // verus!
