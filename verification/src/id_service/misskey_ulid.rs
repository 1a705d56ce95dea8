//! ULID (Misskey flavour): 26 characters of Crockford's base 32 for a 128-bit value whose
//! top 48 bits are the milliseconds since 1970 and whose other 80 bits are random.
use vstd::prelude::*;
use crate::text::{chars_of, position_of, lemma_position_bound, all_ascii};
use super::window::{ascii_window, byte_range_ok, take_ascii_window};
use vstd::arithmetic::power::pow;

verus! {

/// Crockford's base-32 alphabet.
pub open spec fn crockford_alphabet() -> Seq<char> {
    seq!['0', '1', '2', '3', '4', '5', '6', '7', '8', '9', 'A', 'B', 'C', 'D', 'E', 'F', 'G', 'H',
         'J', 'K', 'M', 'N', 'P', 'Q', 'R', 'S', 'T', 'V', 'W', 'X', 'Y', 'Z']
}

/// Whether every character of `s` is a Crockford digit.
pub open spec fn all_crockford(s: Seq<char>) -> bool {
    forall|i: int| 0 <= i < s.len() ==> position_of(crockford_alphabet(), #[trigger] s[i]) >= 0
}

/// The number written by Crockford digits.
pub open spec fn crockford_value(s: Seq<char>) -> int
    decreases s.len(),
{
    if s.len() == 0 {
        0
    } else {
        crockford_value(s.drop_last()) * 32 + position_of(crockford_alphabet(), s.last())
    }
}

/// The time that a ULID holds: its first ten characters read as Crockford digits.
pub open spec fn ulid_parse_result(id: Seq<char>) -> Option<int> {
    match ascii_window(id, 0, 10) {
        Some(w) => if all_crockford(w) { Some(crockford_value(w)) } else { None },
        None => None,
    }
}

/// The 26 Crockford characters that write `v` (most significant first).
pub open spec fn crockford26(v: nat) -> Seq<char> {
    Seq::new(26, |i: int| crockford_alphabet()[((v / (pow(32, (25 - i) as nat) as nat)) % 32) as int])
}

/// The 128-bit value of a ULID made at `t`: the low 48 bits of the milliseconds since 1970
/// (0 before), then `r16`, then `r64`.
pub open spec fn ulid_value(t: int, r16: u16, r64: u64) -> nat {
    ((if t > 0 { t } else { 0 }) % 0x1_0000_0000_0000) as nat * 0x1_0000_0000_0000_0000_0000
        + r16 as nat * 0x1_0000_0000_0000_0000 + r64 as nat
}

/// Whether chrono can represent the instant `t` milliseconds after 1970: from
/// January 1 of the year -262143 to the last millisecond of December 31, 262142
/// (the range of `NaiveDate`, which `DateTime::from_timestamp_millis` checks).
pub open spec fn chrono_millis_representable(t: int) -> bool {
    -8_334_601_228_800_000 <= t <= 8_210_266_876_799_999
}

#[verifier::external_type_specification]
#[verifier::external_body]
#[verifier::reject_recursive_types(T)]
pub struct ExMutex<T: ?Sized>(std::sync::Mutex<T>);

#[verifier::external_type_specification]
#[verifier::external_body]
pub struct ExStdRng(rand::rngs::StdRng);

/// A random `u16` from the service's generator (`lock`, then `Rng::random`).
///
/// Trusted, with nothing stated of the value. Panics only when the lock is poisoned,
/// which no code of this library can cause.
#[verifier::external_body]
fn random_u16(rng: &std::sync::Mutex<rand::rngs::StdRng>) -> u16 {
    rand::Rng::random::<u16>(&mut *rng.lock().unwrap())
}

/// A random `u64` from the service's generator (`lock`, then `Rng::random`).
///
/// Trusted, with nothing stated of the value. Panics only when the lock is poisoned,
/// which no code of this library can cause.
#[verifier::external_body]
fn random_u64(rng: &std::sync::Mutex<rand::rngs::StdRng>) -> u64 {
    rand::Rng::random::<u64>(&mut *rng.lock().unwrap())
}

/// A generator seeded from the operating system (`StdRng::from_os_rng`), in a mutex.
/// It panics only if the operating system cannot supply randomness, which no input
/// decides.
///
/// Trusted, with nothing stated.
#[verifier::external_body]
fn os_seeded_rng() -> std::sync::Mutex<rand::rngs::StdRng> {
    std::sync::Mutex::new(<rand::rngs::StdRng as rand::SeedableRng>::from_os_rng())
}

/// `ulid::Ulid::from((msb, lsb)).to_string()`.
///
/// Trusted: `From<(u64, u64)>` makes the value `msb * 2^64 + lsb`, and `to_string` writes
/// it as 26 characters of Crockford's base 32, most significant first.
#[verifier::external_body]
fn ulid_text(msb: u64, lsb: u64) -> (s: String)
    ensures
        s@ == crockford26(msb as nat * 0x1_0000_0000_0000_0000 + lsb as nat),
{
    ulid::Ulid::from((msb, lsb)).to_string()
}

pub struct UlidService {
    rng: std::sync::Mutex<rand::rngs::StdRng>,
}

/// The position of `c` in Crockford's alphabet, as `CHARS.find(c)` gives it.
pub fn crockford_position(c: char) -> (r: Option<u32>)
    ensures
        r is Some <==> position_of(crockford_alphabet(), c) >= 0,
        r matches Some(p) ==> p == position_of(crockford_alphabet(), c),
{
    let chars = vec!['0', '1', '2', '3', '4', '5', '6', '7', '8', '9', 'A', 'B', 'C', 'D', 'E', 'F',
        'G', 'H', 'J', 'K', 'M', 'N', 'P', 'Q', 'R', 'S', 'T', 'V', 'W', 'X', 'Y', 'Z'];
    assert(chars@ =~= crockford_alphabet());
    assert(chars@.skip(0) =~= chars@);
    let mut i: usize = 0;
    while i < chars.len()
        invariant
            i <= chars@.len(),
            chars@ == crockford_alphabet(),
            position_of(crockford_alphabet(), c) == (
                if position_of(chars@.skip(i as int), c) < 0 { -1 } else { position_of(chars@.skip(i as int), c) + i }),
        decreases chars@.len() - i,
    {
        let ghost rest = chars@.skip(i as int);
        assert(rest.drop_first() =~= chars@.skip(i + 1));
        if chars[i] == c {
            assert(rest[0] == c);
            return Some(i as u32);
        }
        i = i + 1;
    }
    assert(chars@.skip(i as int).len() == 0);
    None
}

proof fn lemma_crockford_value_bound(s: Seq<char>)
    requires
        all_crockford(s),
    ensures
        0 <= crockford_value(s) < pow(32, s.len()),
    decreases s.len(),
{
    vstd::arithmetic::power::lemma_pow_positive(32, s.len());
    if s.len() > 0 {
        let p = s.drop_last();
        assert(all_crockford(p)) by {
            assert forall|i: int| 0 <= i < p.len() implies position_of(crockford_alphabet(), #[trigger] p[i]) >= 0 by {
                assert(p[i] == s[i]);
            }
        }
        lemma_crockford_value_bound(p);
        lemma_position_bound(crockford_alphabet(), s.last());
        assert(position_of(crockford_alphabet(), s[s.len() - 1]) >= 0);
        vstd::arithmetic::power::lemma_pow_adds(32, p.len(), 1);
        vstd::arithmetic::power::lemma_pow1(32);
        let v = crockford_value(p);
        let d = position_of(crockford_alphabet(), s.last());
        assert(v * 32 + d < pow(32, p.len()) * 32) by (nonlinear_arith)
            requires 0 <= v < pow(32, p.len()), 0 <= d < 32;
        assert(0 <= v * 32) by (nonlinear_arith) requires 0 <= v;
    }
}

impl UlidService {
    /// A service with a random generator seeded from the operating system.
    pub fn new() -> UlidService {
        UlidService { rng: os_seeded_rng() }
    }

    /// Times after 1970 are represented.
    pub fn is_safe_t(&self, t: i64) -> (b: bool)
        ensures
            b == (t > 0),
    {
        t > 0
    }

    /// A ULID for `time`: the milliseconds since 1970 (0 before) keep their low 48 bits and
    /// fill the top of the value; 16 and then 64 random bits follow.
    pub fn gen(&self, time: i64) -> (s: String)
        requires
            chrono_millis_representable(time as int),
        ensures
            exists|r16: u16, r64: u64| s@ == crockford26(#[trigger] ulid_value(time as int, r16, r64)),
    {
        // The instant as a `SystemTime`, measured from the epoch (zero before it), in
        // whole milliseconds: exact, since chrono holds the instant to the nanosecond.
        let ts: u128 = if time > 0 { time as u128 } else { 0 };
        let timebits = (ts & 0xffff_ffff_ffff) as u64;
        assert(ts & 0xffff_ffff_ffff == ts % 0x1_0000_0000_0000) by (bit_vector);
        let r16 = random_u16(&self.rng);
        assert(timebits < 0x1_0000_0000_0000);
        let msb = timebits * 0x1_0000 + (r16 as u64);
        let lsb = random_u64(&self.rng);
        let s = ulid_text(msb, lsb);
        assert(msb as nat * 0x1_0000_0000_0000_0000 + lsb as nat == ulid_value(time as int, r16, lsb));
        s
    }

    /// The time that `id` holds and the big integer that its last sixteen
    /// characters write in Crockford digits (see `parse_big_int32`); `None` when
    /// either cannot be read.
    pub fn parse_full(&self, id: &str) -> (r: Option<(i64, num::BigInt)>)
        requires
            byte_range_ok(id, 0, 10),
            ulid_parse_result(id@) is Some ==> byte_range_ok(id, 10, 26),
        ensures
            r is Some <==> (ulid_parse_result(id@) is Some && (ascii_window(id@, 10, 26) matches Some(w)
                && super::bigint::in_alphabet(w, super::bigint::alphabet32()))),
            r matches Some((t, b)) ==> ulid_parse_result(id@) == Some(t as int)
                && super::bigint::big_value(b) == super::bigint::chunked_value(
                    super::bigint::chunks_of(ascii_window(id@, 10, 26).unwrap(), 10),
                    super::bigint::alphabet32(),
                    vstd::arithmetic::power::pow(32, 10),
                ),
    {
        let t = match self.parse(id) {
            Some(t) => t,
            None => return None,
        };
        let w = match take_ascii_window(id, 10, 26) {
            Some(w) => w,
            None => return None,
        };
        let s = crate::text::string_of(&w);
        match super::bigint::parse_big_int32(s.as_str()) {
            Ok(b) => Some((t, b)),
            Err(_) => None,
        }
    }

    /// The time that `id` holds: its first ten characters as Crockford digits (upper case
    /// only).
    pub fn parse(&self, id: &str) -> (r: Option<i64>)
        requires
            byte_range_ok(id, 0, 10),
        ensures
            r is Some <==> ulid_parse_result(id@) is Some,
            r matches Some(x) ==> ulid_parse_result(id@) == Some(x as int),
    {
        let w = match take_ascii_window(id, 0, 10) {
            None => return None,
            Some(w) => w,
        };
        let mut time: i64 = 0;
        let mut i: usize = 0;
        while i < w.len()
            invariant
                w@.len() == 10,
                ascii_window(id@, 0, 10) == Some(w@),
                i <= 10,
                all_crockford(w@.take(i as int)),
                time == crockford_value(w@.take(i as int)),
            decreases 10 - i,
        {
            let p = match crockford_position(w[i]) {
                Some(p) => p,
                None => {
                    assert(!all_crockford(w@)) by {
                        assert(position_of(crockford_alphabet(), w@[i as int]) < 0);
                    }
                    assert(ulid_parse_result(id@) is None);
                    return None;
                },
            };
            let ghost pre = w@.take(i as int);
            let ghost post = w@.take(i + 1);
            proof {
                assert(post.drop_last() =~= pre);
                assert(post.last() == w@[i as int]);
                assert(all_crockford(post)) by {
                    assert forall|j: int| 0 <= j < post.len() implies position_of(crockford_alphabet(), #[trigger] post[j]) >= 0 by {
                        if j < pre.len() {
                            assert(post[j] == pre[j]);
                        }
                    }
                }
                lemma_crockford_value_bound(post);
                vstd::arithmetic::power::lemma_pow_increases(32, post.len(), 10);
                assert(pow(32, 10) == 1125899906842624) by {
                    reveal_with_fuel(pow, 11);
                }
            }
            time = time * 32 + (p as i64);
            i = i + 1;
        }
        assert(w@.take(10) =~= w@);
        Some(time)
    }
}

} // verus!

verus! {

proof fn lemma_adjacent_increasing(s: Seq<char>)
    requires
        forall|i: int| 0 <= i < s.len() - 1 ==> (#[trigger] s[i] as u32) < (s[i + 1] as u32),
    ensures
        forall|i: int, j: int| 0 <= i < j < s.len() ==> (#[trigger] s[i] as u32) < (#[trigger] s[j] as u32),
    decreases s.len(),
{
    if s.len() > 1 {
        let t = s.drop_first();
        assert forall|i: int| 0 <= i < t.len() - 1 implies (#[trigger] t[i] as u32) < (t[i + 1] as u32) by {
            assert(t[i] == s[i + 1]);
            assert(t[i + 1] == s[i + 2]);
        }
        lemma_adjacent_increasing(t);
        assert forall|i: int, j: int| 0 <= i < j < s.len() implies (#[trigger] s[i] as u32) < (#[trigger] s[j] as u32) by {
            if i > 0 {
                assert(s[i] == t[i - 1]);
                assert(s[j] == t[j - 1]);
            } else if j > 1 {
                assert(s[1] == t[0]);
                assert(s[j] == t[j - 1]);
                assert((t[0] as u32) < (t[j - 1] as u32));
            }
        }
    }
}

proof fn lemma_position_of_distinct(s: Seq<char>, k: int)
    requires
        0 <= k < s.len(),
        forall|i: int| 0 <= i < k ==> #[trigger] s[i] != s[k],
    ensures
        position_of(s, s[k]) == k,
    decreases k,
{
    if k > 0 {
        let t = s.drop_first();
        assert(t[k - 1] == s[k]);
        assert forall|i: int| 0 <= i < k - 1 implies #[trigger] t[i] != t[k - 1] by {
            assert(t[i] == s[i + 1]);
        }
        lemma_position_of_distinct(t, k - 1);
    }
}

proof fn lemma_crockford_positions()
    ensures
        forall|d: int| 0 <= d < 32 ==> position_of(crockford_alphabet(), #[trigger] crockford_alphabet()[d]) == d,
        forall|d: int| 0 <= d < 32 ==> (#[trigger] crockford_alphabet()[d] as u32) < 128,
        forall|i: int, j: int| 0 <= i < j < 32 ==> (#[trigger] crockford_alphabet()[i] as u32) < (#[trigger] crockford_alphabet()[j] as u32),
{
    let a = crockford_alphabet();
    assert((a[0] as u32) < (a[1] as u32));
    assert((a[1] as u32) < (a[2] as u32));
    assert((a[2] as u32) < (a[3] as u32));
    assert((a[3] as u32) < (a[4] as u32));
    assert((a[4] as u32) < (a[5] as u32));
    assert((a[5] as u32) < (a[6] as u32));
    assert((a[6] as u32) < (a[7] as u32));
    assert((a[7] as u32) < (a[8] as u32));
    assert((a[8] as u32) < (a[9] as u32));
    assert((a[9] as u32) < (a[10] as u32));
    assert((a[10] as u32) < (a[11] as u32));
    assert((a[11] as u32) < (a[12] as u32));
    assert((a[12] as u32) < (a[13] as u32));
    assert((a[13] as u32) < (a[14] as u32));
    assert((a[14] as u32) < (a[15] as u32));
    assert((a[15] as u32) < (a[16] as u32));
    assert((a[16] as u32) < (a[17] as u32));
    assert((a[17] as u32) < (a[18] as u32));
    assert((a[18] as u32) < (a[19] as u32));
    assert((a[19] as u32) < (a[20] as u32));
    assert((a[20] as u32) < (a[21] as u32));
    assert((a[21] as u32) < (a[22] as u32));
    assert((a[22] as u32) < (a[23] as u32));
    assert((a[23] as u32) < (a[24] as u32));
    assert((a[24] as u32) < (a[25] as u32));
    assert((a[25] as u32) < (a[26] as u32));
    assert((a[26] as u32) < (a[27] as u32));
    assert((a[27] as u32) < (a[28] as u32));
    assert((a[28] as u32) < (a[29] as u32));
    assert((a[29] as u32) < (a[30] as u32));
    assert((a[30] as u32) < (a[31] as u32));
    assert((a[0] as u32) < 128);
    assert((a[1] as u32) < 128);
    assert((a[2] as u32) < 128);
    assert((a[3] as u32) < 128);
    assert((a[4] as u32) < 128);
    assert((a[5] as u32) < 128);
    assert((a[6] as u32) < 128);
    assert((a[7] as u32) < 128);
    assert((a[8] as u32) < 128);
    assert((a[9] as u32) < 128);
    assert((a[10] as u32) < 128);
    assert((a[11] as u32) < 128);
    assert((a[12] as u32) < 128);
    assert((a[13] as u32) < 128);
    assert((a[14] as u32) < 128);
    assert((a[15] as u32) < 128);
    assert((a[16] as u32) < 128);
    assert((a[17] as u32) < 128);
    assert((a[18] as u32) < 128);
    assert((a[19] as u32) < 128);
    assert((a[20] as u32) < 128);
    assert((a[21] as u32) < 128);
    assert((a[22] as u32) < 128);
    assert((a[23] as u32) < 128);
    assert((a[24] as u32) < 128);
    assert((a[25] as u32) < 128);
    assert((a[26] as u32) < 128);
    assert((a[27] as u32) < 128);
    assert((a[28] as u32) < 128);
    assert((a[29] as u32) < 128);
    assert((a[30] as u32) < 128);
    assert((a[31] as u32) < 128);
    lemma_adjacent_increasing(a);
    assert forall|d: int| 0 <= d < 32 implies position_of(a, #[trigger] a[d]) == d by {
        assert forall|i: int| 0 <= i < d implies #[trigger] a[i] != a[d] by {
            assert((a[i] as u32) < (a[d] as u32));
        }
        lemma_position_of_distinct(a, d);
    }
}

} // verus!

verus! {

proof fn lemma_prefix_value(v: nat, k: int)
    requires
        0 <= k <= 26,
        v < pow(32, 26),
    ensures
        crockford_value(crockford26(v).take(k)) == v / (pow(32, (26 - k) as nat) as nat),
    decreases k,
{
    let s = crockford26(v);
    vstd::arithmetic::power::lemma_pow_positive(32, (26 - k) as nat);
    if k == 0 {
        assert(s.take(0) =~= Seq::<char>::empty());
        vstd::arithmetic::div_mod::lemma_basic_div(v as int, pow(32, 26));
    } else {
        lemma_prefix_value(v, k - 1);
        lemma_crockford_positions();
        let p = pow(32, (26 - k) as nat);
        vstd::arithmetic::power::lemma_pow_positive(32, (26 - k) as nat);
        vstd::arithmetic::power::lemma_pow_adds(32, (26 - k) as nat, 1);
        vstd::arithmetic::power::lemma_pow1(32);
        assert(pow(32, (27 - k) as nat) == p * 32);
        let x = v / (p as nat);
        let d = x % 32;
        assert(s.take(k).drop_last() =~= s.take(k - 1));
        assert(s.take(k).last() == s[k - 1]);
        assert(s[k - 1] == crockford_alphabet()[d as int]);
        assert(0 <= d < 32);
        assert(position_of(crockford_alphabet(), s[k - 1]) == d);
        vstd::arithmetic::div_mod::lemma_div_denominator(v as int, p, 32);
        assert(v / ((p * 32) as nat) == x / 32);
        vstd::arithmetic::div_mod::lemma_fundamental_div_mod(x as int, 32);
    }
}

/// A ULID gives back the time it was made for: the milliseconds since 1970 (0
/// for earlier times) modulo 2^48, whatever its random part.
pub proof fn lemma_ulid_roundtrip(t: int, r16: u16, r64: u64)
    ensures
        ulid_parse_result(crockford26(ulid_value(t, r16, r64))) == Some(
            (if t > 0 { t } else { 0 }) % 0x1_0000_0000_0000,
        ),
{
    let v = ulid_value(t, r16, r64);
    let tt = (if t > 0 { t } else { 0 }) % 0x1_0000_0000_0000;
    let low = r16 as nat * 0x1_0000_0000_0000_0000 + r64 as nat;
    assert(v == tt * 0x1_0000_0000_0000_0000_0000 + low);
    assert(low < 0x1_0000_0000_0000_0000_0000);
    assert(pow(32, 16) == 0x1_0000_0000_0000_0000_0000) by {
        reveal_with_fuel(pow, 17);
    }
    assert(pow(32, 26) == 0x4_0000_0000_0000_0000_0000_0000_0000_0000) by {
        reveal_with_fuel(pow, 27);
    }
    assert(v < pow(32, 26));
    let s = crockford26(v);
    lemma_crockford_positions();
    assert(all_ascii(s.take(10))) by {
        assert forall|i: int| 0 <= i < 10 implies (#[trigger] s.take(10)[i] as u32) < 128 by {
            let d = (v / (pow(32, (25 - i) as nat) as nat)) % 32;
            assert(s.take(10)[i] == crockford_alphabet()[d as int]);
        }
    }
    let w = s.subrange(0, 10);
    assert(w =~= s.take(10));
    assert(all_crockford(w)) by {
        assert forall|i: int| 0 <= i < w.len() implies position_of(crockford_alphabet(), #[trigger] w[i]) >= 0 by {
            let d = (v / (pow(32, (25 - i) as nat) as nat)) % 32;
            assert(w[i] == crockford_alphabet()[d as int]);
        }
    }
    lemma_prefix_value(v, 10);
    vstd::arithmetic::div_mod::lemma_fundamental_div_mod_converse(
        v as int,
        0x1_0000_0000_0000_0000_0000,
        tt as int,
        low as int,
    );
}

} // verus!

verus! {

/// The position in Crockford's alphabet as a digit function.
pub open spec fn crockford_digit() -> spec_fn(char) -> int {
    |c: char| position_of(crockford_alphabet(), c)
}

proof fn lemma_crockford_positional(s: Seq<char>)
    ensures
        crockford_value(s) == crate::order::positional(s, crockford_digit(), 32),
    decreases s.len(),
{
    if s.len() > 0 {
        lemma_crockford_positional(s.drop_last());
    }
}

/// The first ten characters of a ULID write the time it holds.
proof fn lemma_ulid_time_prefix(t: int, r16: u16, r64: u64)
    ensures
        crockford_value(crockford26(ulid_value(t, r16, r64)).take(10)) == (if t > 0 { t } else { 0 }) % 0x1_0000_0000_0000,
        forall|i: int| 0 <= i < 26 ==> exists|d: int| 0 <= d < 32 && #[trigger] crockford26(ulid_value(t, r16, r64))[i] == crockford_alphabet()[d],
{
    let v = ulid_value(t, r16, r64);
    let tt = (if t > 0 { t } else { 0 }) % 0x1_0000_0000_0000;
    let low = r16 as nat * 0x1_0000_0000_0000_0000 + r64 as nat;
    assert(v == tt * 0x1_0000_0000_0000_0000_0000 + low);
    assert(low < 0x1_0000_0000_0000_0000_0000);
    assert(pow(32, 16) == 0x1_0000_0000_0000_0000_0000) by {
        reveal_with_fuel(pow, 17);
    }
    assert(pow(32, 26) == 0x4_0000_0000_0000_0000_0000_0000_0000_0000) by {
        reveal_with_fuel(pow, 27);
    }
    lemma_prefix_value(v, 10);
    vstd::arithmetic::div_mod::lemma_fundamental_div_mod_converse(
        v as int,
        0x1_0000_0000_0000_0000_0000,
        tt as int,
        low as int,
    );
    let s = crockford26(v);
    assert forall|i: int| 0 <= i < 26 implies exists|d: int| 0 <= d < 32 && #[trigger] s[i] == crockford_alphabet()[d] by {
        let d = ((v / (pow(32, (25 - i) as nat) as nat)) % 32) as int;
        assert(s[i] == crockford_alphabet()[d]);
    }
}

/// ULIDs sort by the times they hold: one holding an earlier time (milliseconds
/// since 1970 modulo 2^48) comes first, whatever their random parts.
pub proof fn lemma_ulid_order(t1: int, a16: u16, a64: u64, t2: int, b16: u16, b64: u64)
    requires
        (if t1 > 0 { t1 } else { 0 }) % 0x1_0000_0000_0000 < (if t2 > 0 { t2 } else { 0 }) % 0x1_0000_0000_0000,
    ensures
        crate::order::text_lt(crockford26(ulid_value(t1, a16, a64)), crockford26(ulid_value(t2, b16, b64))),
{
    let s1 = crockford26(ulid_value(t1, a16, a64));
    let s2 = crockford26(ulid_value(t2, b16, b64));
    lemma_ulid_time_prefix(t1, a16, a64);
    lemma_ulid_time_prefix(t2, b16, b64);
    lemma_crockford_positions();
    let p1 = s1.take(10);
    let p2 = s2.take(10);
    let d = crockford_digit();
    lemma_crockford_positional(p1);
    lemma_crockford_positional(p2);
    assert(crate::order::digits_below(p1, d, 32)) by {
        assert forall|i: int| 0 <= i < p1.len() implies 0 <= #[trigger] d(p1[i]) < 32 by {
            assert(p1[i] == s1[i]);
            let x = choose|x: int| 0 <= x < 32 && #[trigger] s1[i] == crockford_alphabet()[x];
        }
    }
    assert(crate::order::digits_below(p2, d, 32)) by {
        assert forall|i: int| 0 <= i < p2.len() implies 0 <= #[trigger] d(p2[i]) < 32 by {
            assert(p2[i] == s2[i]);
            let x = choose|x: int| 0 <= x < 32 && #[trigger] s2[i] == crockford_alphabet()[x];
        }
    }
    assert(crate::order::digits_follow_chars(p1, p2, d)) by {
        assert forall|i: int, j: int| 0 <= i < p1.len() && 0 <= j < p2.len() implies {
            &&& (d(#[trigger] p1[i]) < d(#[trigger] p2[j]) ==> (p1[i] as u32) < (p2[j] as u32))
            &&& (d(p1[i]) == d(p2[j]) ==> p1[i] == p2[j])
        } by {
            assert(p1[i] == s1[i]);
            assert(p2[j] == s2[j]);
            let x = choose|x: int| 0 <= x < 32 && #[trigger] s1[i] == crockford_alphabet()[x];
            let y = choose|y: int| 0 <= y < 32 && #[trigger] s2[j] == crockford_alphabet()[y];
            assert(d(p1[i]) == x);
            assert(d(p2[j]) == y);
        }
    }
    crate::order::lemma_positional_order(p1, p2, d, 32);
    crate::order::lemma_text_lt_extend(p1, p2, s1.skip(10), s2.skip(10));
    assert(p1 + s1.skip(10) =~= s1);
    assert(p2 + s2.skip(10) =~= s2);
}

} // verus!
