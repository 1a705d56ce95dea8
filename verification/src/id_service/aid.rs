//! AID: eight base-36 characters of the milliseconds elapsed since 2000-01-01, followed by
//! two characters of noise from a counter.
use vstd::prelude::*;
use crate::radix::{
    radix_str, signed_radix_str, left_pad, last_n, parse_radix, all_radix_chars, radix_string,
    fill_left, keep_last, parse_radix_chars, lemma_padded_roundtrip,
};
use crate::text::string_of;
use super::window::{ascii_window, byte_range_ok, take_ascii_window};
use vstd::arithmetic::power::pow;

verus! {

/// 2000-01-01T00:00:00Z in milliseconds since 1970.
pub const TIME2000: i64 = 946684800000;

/// Milliseconds from 2000-01-01 to `t`, or 0 before it.
pub open spec fn aid_elapsed(t: int) -> nat {
    if t - TIME2000 > 0 {
        (t - TIME2000) as nat
    } else {
        0
    }
}

/// The time part of an AID: the elapsed milliseconds in base 36, zero-padded to eight.
pub open spec fn aid_time_str(t: int) -> Seq<char> {
    left_pad(radix_str(aid_elapsed(t), 36), '0', 8)
}

/// The noise part of an AID for a counter value: its base-36 text zero-padded to two
/// characters, of which the last two are kept.
pub open spec fn aid_noise_str(counter: int) -> Seq<char> {
    last_n(left_pad(signed_radix_str(counter, 36), '0', 2), 2)
}

/// The time that an AID holds: its first eight characters read in base 36, plus 2000-01-01.
pub open spec fn aid_parse_result(id: Seq<char>) -> Option<int> {
    match ascii_window(id, 0, 8) {
        Some(w) => match parse_radix(w, 36) {
            Some(v) => Some(v + TIME2000),
            None => None,
        },
        None => None,
    }
}

/// A random `i16` from a freshly seeded `rand::rngs::StdRng` (`from_os_rng`, `random`).
///
/// Trusted, with nothing stated of the value: it is random. It panics only if the
/// operating system cannot supply randomness, which no input decides.
#[verifier::external_body]
fn random_i16() -> i16 {
    rand::Rng::random::<i16>(&mut <rand::rngs::StdRng as rand::SeedableRng>::from_os_rng())
}

pub struct AidService {
    counter: std::sync::atomic::AtomicI16,
}

/// The time part of an AID for `time`.
pub fn get_time(time: i64) -> (s: Vec<char>)
    requires
        time >= i64::MIN + TIME2000,
    ensures
        s@ == aid_time_str(time as int),
        all_radix_chars(s@),
{
    let e = time - TIME2000;
    let e = if e > 0 { e } else { 0 };
    let d = radix_string(e, 36);
    proof {
        crate::radix::lemma_radix_str_chars(e as nat, 36);
    }
    let r = fill_left(d.as_slice(), '0', 8);
    proof {
        assert forall|i: int| 0 <= i < r@.len() implies crate::radix::is_radix_char(#[trigger] r@[i]) by {
            if d@.len() < 8 && i >= 8 - d@.len() {
                assert(r@[i] == d@[i - (8 - d@.len())]);
            }
        }
    }
    r
}

/// The noise part of an AID for a counter value.
pub fn noise_of(counter: i16) -> (s: Vec<char>)
    ensures
        s@ == aid_noise_str(counter as int),
{
    let d = radix_string(counter as i64, 36);
    let p = fill_left(d.as_slice(), '0', 2);
    keep_last(p.as_slice(), 2)
}

impl AidService {
    /// A service whose counter starts at a random value. The counter is a
    /// `std` atomic, whose contents no contract here can see.
    pub fn new() -> AidService {
        let counter = random_i16();
        AidService { counter: std::sync::atomic::AtomicI16::new(counter) }
    }

    /// Times after 2000-01-01 are represented faithfully.
    pub fn is_safe_t(&self, t: i64) -> (b: bool)
        ensures
            b == (t > TIME2000),
    {
        t > TIME2000
    }

    /// The counter's value before this call, which adds one to it (wrapping).
    /// The value lives in a `std` atomic, of whose contents vstd states nothing,
    /// so no clause can say which `i16` comes back.
    fn next_counter(&self) -> i16 {
        self.counter.fetch_add(1, std::sync::atomic::Ordering::SeqCst)
    }

    /// The noise for the next counter value.
    fn get_noise(&self) -> (s: Vec<char>)
        ensures
            exists|c: i16| s@ == aid_noise_str(c as int),
    {
        let c = self.next_counter();
        noise_of(c)
    }

    /// An AID for `time`: its time part followed by noise from the counter.
    pub fn gen(&self, time: i64) -> (s: String)
        requires
            time >= i64::MIN + TIME2000,
        ensures
            exists|c: i16| s@ == aid_time_str(time as int) + aid_noise_str(c as int),
    {
        let t = get_time(time);
        let n = self.get_noise();
        let mut s = string_of(t.as_slice());
        crate::text::push_chars(&mut s, n.as_slice());
        s
    }

    /// The time that `id` holds (`None` when its first eight characters are no base-36
    /// number).
    pub fn parse(&self, id: &str) -> (r: Option<i64>)
        requires
            byte_range_ok(id, 0, 8),
        ensures
            r is Some <==> aid_parse_result(id@) is Some,
            r matches Some(x) ==> aid_parse_result(id@) == Some(x as int),
    {
        match take_ascii_window(id, 0, 8) {
            None => None,
            Some(w) => match parse_radix_chars(w.as_slice(), 36) {
                None => None,
                Some(v) => {
                    proof {
                        crate::radix::lemma_parse_radix_bound(w@, 36);
                    }
                    Some(v + TIME2000)
                },
            },
        }
    }
}

/// An AID gives back the time it was made for, from 2000-01-01 until the elapsed
/// milliseconds no longer fit in eight base-36 digits; earlier times give 2000-01-01.
pub proof fn lemma_aid_roundtrip(t: int, counter: int)
    requires
        t < TIME2000 + 2821109907456,
    ensures
        aid_parse_result(aid_time_str(t) + aid_noise_str(counter)) == Some(
            if t > TIME2000 { t } else { TIME2000 as int },
        ),
{
    assert(pow(36, 8) == 2821109907456) by {
        reveal_with_fuel(pow, 9);
    }
    let n = aid_elapsed(t);
    lemma_padded_roundtrip(n, 36, 8);
    let p = aid_time_str(t);
    let id = p + aid_noise_str(counter);
    assert(id.take(8) =~= p);
    assert(id.subrange(0, 8) =~= p);
}

} // verus!
