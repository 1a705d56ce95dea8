//! Reading long identifiers as big integers: the text is cut into chunks from
//! the right, each chunk is read digit by digit, and the chunks are put
//! together in a `num::BigInt`.
use vstd::prelude::*;
use crate::text::{chars_of, position_of, lemma_position_bound};

verus! {

#[verifier::external_type_specification]
#[verifier::external_body]
pub struct ExBigInt(num::BigInt);

/// The `u64` digits of the magnitude of a `BigInt`, least significant first, as
/// `BigInt::to_u64_digits` gives them.
pub uninterp spec fn big_int_digits(b: num::BigInt) -> Seq<u64>;

/// Whether the sign of a `BigInt` is `Sign::Minus`.
pub uninterp spec fn big_int_negative(b: num::BigInt) -> bool;

/// The number that little-endian base-2^64 digits write.
pub open spec fn limbs_value(d: Seq<u64>) -> nat
    decreases d.len(),
{
    if d.len() == 0 {
        0
    } else {
        d[0] as nat + 0x1_0000_0000_0000_0000 * limbs_value(d.drop_first())
    }
}

/// The integer that a `BigInt` holds: its magnitude, negated when its sign is minus.
pub open spec fn big_value(b: num::BigInt) -> int {
    if big_int_negative(b) {
        -limbs_value(big_int_digits(b))
    } else {
        limbs_value(big_int_digits(b)) as int
    }
}

/// `num::BigInt::from(i64)`.
///
/// Trusted: the `BigInt` holds `n` exactly (its sign is minus exactly when `n` is
/// negative, and its digits write the magnitude of `n`).
#[verifier::external_body]
fn big_from(n: i64) -> (r: num::BigInt)
    ensures
        big_int_negative(r) == (n < 0),
        limbs_value(big_int_digits(r)) == (if n < 0 { -n } else { n as int }),
{
    num::BigInt::from(n)
}

/// `num::BigInt::pow`.
///
/// Trusted: the result holds `base` raised to `exponent`, computed without
/// overflow as `BigInt` arithmetic is.
#[verifier::external_body]
fn big_pow(base: &num::BigInt, exponent: u32) -> (r: num::BigInt)
    ensures
        big_value(r) == vstd::arithmetic::power::pow(big_value(*base), exponent as nat),
{
    base.pow(exponent)
}

/// `num::BigInt * &num::BigInt`.
///
/// Trusted: the result holds the exact product.
#[verifier::external_body]
fn big_mul(a: num::BigInt, b: &num::BigInt) -> (r: num::BigInt)
    ensures
        big_value(r) == big_value(a) * big_value(*b),
{
    a * b
}

/// `num::BigInt + i64`.
///
/// Trusted: the result holds the exact sum.
#[verifier::external_body]
fn big_add(a: num::BigInt, n: i64) -> (r: num::BigInt)
    ensures
        big_value(r) == big_value(a) + n,
{
    a + n
}

/// `s` cut into chunks of `k` characters from the right, the most significant
/// (possibly shorter) chunk first.
pub open spec fn chunks_of(s: Seq<char>, k: nat) -> Seq<Seq<char>>
    decreases s.len(),
{
    if s.len() == 0 || k == 0 {
        Seq::empty()
    } else if s.len() <= k {
        seq![s]
    } else {
        chunks_of(s.take(s.len() - k), k).push(s.skip(s.len() - k))
    }
}

/// The number that chunks write: each chunk's value (see `chunk_value`) is a
/// digit of base `p`, the first chunk the most significant.
pub open spec fn chunked_value(chunks: Seq<Seq<char>>, alphabet: Seq<char>, p: int) -> int
    decreases chunks.len(),
{
    if chunks.len() == 0 {
        0
    } else {
        chunked_value(chunks.drop_last(), alphabet, p) * p + chunk_value(chunks.last(), alphabet)
    }
}

/// Every character of `s` is in `alphabet`.
pub open spec fn in_alphabet(s: Seq<char>, alphabet: Seq<char>) -> bool {
    forall|i: int| 0 <= i < s.len() ==> position_of(alphabet, #[trigger] s[i]) >= 0
}

/// The value of a chunk: each character's position in the alphabet, taken as a
/// digit of the base that the alphabet's size gives.
pub open spec fn chunk_value(s: Seq<char>, alphabet: Seq<char>) -> int
    decreases s.len(),
{
    if s.len() == 0 {
        0
    } else {
        chunk_value(s.drop_last(), alphabet) * alphabet.len() + position_of(alphabet, s.last())
    }
}

/// Reading a chunk stays within `i64`: every prefix whose characters are all in
/// the alphabet has a value that fits.
pub open spec fn chunk_fits(s: Seq<char>, alphabet: Seq<char>) -> bool {
    forall|j: int| 0 <= j <= s.len() && #[trigger] in_alphabet(s.take(j), alphabet) ==> chunk_value(s.take(j), alphabet) <= i64::MAX
}

/// The upper-case ASCII form: `a-z` become `A-Z`, everything else stays.
pub open spec fn ascii_upper(s: Seq<char>) -> Seq<char> {
    Seq::new(s.len(), |i: int| if 97 <= (s[i] as u32) <= 122 { ((s[i] as u32) - 32) as char } else { s[i] })
}

fn ascii_upper_of(v: &[char]) -> (r: Vec<char>)
    ensures
        r@ == ascii_upper(v@),
{
    let mut r: Vec<char> = Vec::new();
    let mut i: usize = 0;
    while i < v.len()
        invariant
            i <= v@.len(),
            r@ == ascii_upper(v@).take(i as int),
        decreases v@.len() - i,
    {
        let c = v[i];
        let u = c as u32;
        if 97 <= u && u <= 122 {
            let up = ((u - 32) as u8) as char;
            r.push(up);
        } else {
            r.push(c);
        }
        i = i + 1;
        assert(r@ =~= ascii_upper(v@).take(i as int));
    }
    assert(ascii_upper(v@).take(v@.len() as int) =~= ascii_upper(v@));
    r
}

fn position_in(alphabet: &[char], c: char) -> (r: Option<i64>)
    requires
        alphabet@.len() <= 64,
    ensures
        r is Some <==> position_of(alphabet@, c) >= 0,
        r matches Some(p) ==> p == position_of(alphabet@, c),
{
    let mut i: usize = 0;
    assert(alphabet@.skip(0) =~= alphabet@);
    while i < alphabet.len()
        invariant
            i <= alphabet@.len(),
            alphabet@.len() <= 64,
            position_of(alphabet@, c) == (if position_of(alphabet@.skip(i as int), c) < 0 {
                -1
            } else {
                position_of(alphabet@.skip(i as int), c) + i
            }),
        decreases alphabet@.len() - i,
    {
        let ghost rest = alphabet@.skip(i as int);
        assert(rest.drop_first() =~= alphabet@.skip(i + 1));
        if alphabet[i] == c {
            assert(rest[0] == c);
            return Some(i as i64);
        }
        i = i + 1;
    }
    None
}

fn read_chunk(chunk: &[char], alphabet: &[char]) -> (r: Result<i64, &'static str>)
    requires
        alphabet@.len() <= 64,
        chunk_fits(chunk@, alphabet@),
    ensures
        r is Ok <==> in_alphabet(chunk@, alphabet@),
        r matches Ok(n) ==> n == chunk_value(chunk@, alphabet@),
{
    let mut n: i64 = 0;
    let mut i: usize = 0;
    assert(chunk@.take(0) =~= Seq::<char>::empty());
    while i < chunk.len()
        invariant
            i <= chunk@.len(),
            alphabet@.len() <= 64,
            chunk_fits(chunk@, alphabet@),
            in_alphabet(chunk@.take(i as int), alphabet@),
            n == chunk_value(chunk@.take(i as int), alphabet@),
        decreases chunk@.len() - i,
    {
        let p = match position_in(alphabet, chunk[i]) {
            Some(p) => p,
            None => {
                assert(!in_alphabet(chunk@, alphabet@)) by {
                    assert(position_of(alphabet@, chunk@[i as int]) < 0);
                }
                return Err("parse_big_int_chunked");
            },
        };
        let ghost pre = chunk@.take(i as int);
        let ghost post = chunk@.take(i + 1);
        proof {
            assert(post.drop_last() =~= pre);
            assert(post.last() == chunk@[i as int]);
            assert(in_alphabet(post, alphabet@)) by {
                assert forall|j: int| 0 <= j < post.len() implies position_of(alphabet@, #[trigger] post[j]) >= 0 by {
                    if j < pre.len() {
                        assert(post[j] == pre[j]);
                    }
                }
            }
            assert(chunk_value(post, alphabet@) <= i64::MAX);
            lemma_position_bound(alphabet@, chunk@[i as int]);
            assert(chunk_value(pre, alphabet@) >= 0) by {
                lemma_chunk_value_nonneg(pre, alphabet@);
            }
        }
        n = n * (alphabet.len() as i64) + p;
        i = i + 1;
    }
    assert(chunk@.take(chunk@.len() as int) =~= chunk@);
    Ok(n)
}

proof fn lemma_chunk_value_nonneg(s: Seq<char>, alphabet: Seq<char>)
    requires
        in_alphabet(s, alphabet),
    ensures
        chunk_value(s, alphabet) >= 0,
    decreases s.len(),
{
    if s.len() > 0 {
        let p = s.drop_last();
        assert(in_alphabet(p, alphabet)) by {
            assert forall|i: int| 0 <= i < p.len() implies position_of(alphabet, #[trigger] p[i]) >= 0 by {
                assert(p[i] == s[i]);
            }
        }
        lemma_chunk_value_nonneg(p, alphabet);
        assert(position_of(alphabet, s[s.len() - 1]) >= 0);
    }
}

/// Whether every chunk of `s` is read within `i64`.
pub open spec fn chunks_fit(s: Seq<char>, alphabet: Seq<char>, k: nat) -> bool {
    forall|i: int| 0 <= i < chunks_of(s, k).len() ==> chunk_fits(#[trigger] chunks_of(s, k)[i], alphabet)
}

proof fn lemma_in_alphabet_split(s: Seq<char>, m: int, alphabet: Seq<char>)
    requires
        0 <= m <= s.len(),
    ensures
        in_alphabet(s, alphabet) <==> (in_alphabet(s.take(m), alphabet) && in_alphabet(s.skip(m), alphabet)),
{
    if in_alphabet(s.take(m), alphabet) && in_alphabet(s.skip(m), alphabet) {
        assert forall|i: int| 0 <= i < s.len() implies position_of(alphabet, #[trigger] s[i]) >= 0 by {
            if i < m {
                assert(s.take(m)[i] == s[i]);
            } else {
                assert(s.skip(m)[i - m] == s[i]);
            }
        }
    }
    if in_alphabet(s, alphabet) {
        assert forall|i: int| 0 <= i < s.take(m).len() implies position_of(alphabet, #[trigger] s.take(m)[i]) >= 0 by {
            assert(s.take(m)[i] == s[i]);
        }
        assert forall|i: int| 0 <= i < s.skip(m).len() implies position_of(alphabet, #[trigger] s.skip(m)[i]) >= 0 by {
            assert(s.skip(m)[i] == s[i + m]);
        }
    }
}

proof fn lemma_chunks_alphabet(s: Seq<char>, k: nat, alphabet: Seq<char>)
    requires
        k > 0,
    ensures
        in_alphabet(s, alphabet) <==> (forall|c: int| 0 <= c < chunks_of(s, k).len() ==> in_alphabet(#[trigger] chunks_of(s, k)[c], alphabet)),
    decreases s.len(),
{
    let ch = chunks_of(s, k);
    if s.len() == 0 {
    } else if s.len() <= k {
        assert(ch[0] == s);
    } else {
        let m = s.len() - k;
        let a = s.take(m);
        let b = s.skip(m);
        lemma_chunks_alphabet(a, k, alphabet);
        lemma_in_alphabet_split(s, m, alphabet);
        assert(ch == chunks_of(a, k).push(b));
        if in_alphabet(s, alphabet) {
            assert forall|c: int| 0 <= c < ch.len() implies in_alphabet(#[trigger] ch[c], alphabet) by {
                if c < ch.len() - 1 {
                    assert(ch[c] == chunks_of(a, k)[c]);
                }
            }
        }
        if forall|c: int| 0 <= c < ch.len() ==> in_alphabet(#[trigger] ch[c], alphabet) {
            assert forall|c: int| 0 <= c < chunks_of(a, k).len() implies in_alphabet(#[trigger] chunks_of(a, k)[c], alphabet) by {
                assert(ch[c] == chunks_of(a, k)[c]);
            }
            assert(ch[ch.len() - 1] == b);
        }
    }
}

fn chunks_exec(s: &[char], k: usize) -> (r: Vec<Vec<char>>)
    requires
        k > 0,
    ensures
        r@.len() == chunks_of(s@, k as nat).len(),
        forall|i: int| 0 <= i < r@.len() ==> #[trigger] r@[i]@ == chunks_of(s@, k as nat)[i],
    decreases s@.len(),
{
    let n = s.len();
    if n == 0 {
        return Vec::new();
    }
    if n <= k {
        let mut one: Vec<Vec<char>> = Vec::new();
        one.push(crate::text::sub_chars(s, 0, n));
        assert(s@.subrange(0, n as int) =~= s@);
        return one;
    }
    let head = crate::text::sub_chars(s, 0, n - k);
    let tail = crate::text::sub_chars(s, n - k, n);
    assert(head@ =~= s@.take(n - k));
    assert(tail@ =~= s@.skip(n - k));
    let mut r = chunks_exec(&head, k);
    let ghost before = r@;
    r.push(tail);
    proof {
        assert forall|i: int| 0 <= i < r@.len() implies #[trigger] r@[i]@ == chunks_of(s@, k as nat)[i] by {
            if i < before.len() {
                assert(r@[i] == before[i]);
            }
        }
    }
    r
}

/// Reads `s` (after the given upper-casing) chunk by chunk: `Ok` exactly when
/// every character is in the alphabet.
fn parse_big_int_chunked(s: &[char], alphabet: &[char], chunk_size: usize, power_of_chunk_size: num::BigInt) -> (r: Result<num::BigInt, &'static str>)
    requires
        chunk_size > 0,
        alphabet@.len() <= 64,
        chunks_fit(s@, alphabet@, chunk_size as nat),
    ensures
        r is Ok <==> in_alphabet(s@, alphabet@),
        r matches Ok(v) ==> big_value(v) == chunked_value(chunks_of(s@, chunk_size as nat), alphabet@, big_value(power_of_chunk_size)),
{
    let chunks = chunks_exec(s, chunk_size);
    proof {
        lemma_chunks_alphabet(s@, chunk_size as nat, alphabet@);
    }
    let mut result = big_from(0);
    let mut i: usize = 0;
    while i < chunks.len()
        invariant
            i <= chunks@.len(),
            chunks@.len() == chunks_of(s@, chunk_size as nat).len(),
            forall|c: int| 0 <= c < chunks@.len() ==> #[trigger] chunks@[c]@ == chunks_of(s@, chunk_size as nat)[c],
            chunks_fit(s@, alphabet@, chunk_size as nat),
            alphabet@.len() <= 64,
            chunk_size > 0,
            in_alphabet(s@, alphabet@) <==> (forall|c: int| 0 <= c < chunks_of(s@, chunk_size as nat).len() ==> in_alphabet(#[trigger] chunks_of(s@, chunk_size as nat)[c], alphabet@)),
            forall|c: int| 0 <= c < i ==> in_alphabet(#[trigger] chunks_of(s@, chunk_size as nat)[c], alphabet@),
            big_value(result) == chunked_value(chunks_of(s@, chunk_size as nat).take(i as int), alphabet@, big_value(power_of_chunk_size)),
        decreases chunks@.len() - i,
    {
        let ghost all = chunks_of(s@, chunk_size as nat);
        assert(all.take(i + 1).drop_last() =~= all.take(i as int));
        result = big_mul(result, &power_of_chunk_size);
        assert(chunks@[i as int]@ == chunks_of(s@, chunk_size as nat)[i as int]);
        let n = match read_chunk(&chunks[i], alphabet) {
            Ok(n) => n,
            Err(e) => {
                assert(!in_alphabet(chunks_of(s@, chunk_size as nat)[i as int], alphabet@));
                return Err(e);
            },
        };
        result = big_add(result, n);
        i = i + 1;
    }
    assert(chunks_of(s@, chunk_size as nat).take(i as int) =~= chunks_of(s@, chunk_size as nat));
    Ok(result)
}

proof fn lemma_chunk_value_below(s: Seq<char>, alphabet: Seq<char>)
    requires
        in_alphabet(s, alphabet),
    ensures
        0 <= chunk_value(s, alphabet) < vstd::arithmetic::power::pow(alphabet.len() as int, s.len()),
    decreases s.len(),
{
    let b = alphabet.len() as int;
    if s.len() > 0 {
        let p = s.drop_last();
        assert(in_alphabet(p, alphabet)) by {
            assert forall|i: int| 0 <= i < p.len() implies position_of(alphabet, #[trigger] p[i]) >= 0 by {
                assert(p[i] == s[i]);
            }
        }
        lemma_chunk_value_below(p, alphabet);
        lemma_position_bound(alphabet, s.last());
        assert(position_of(alphabet, s[s.len() - 1]) >= 0);
        let v = chunk_value(p, alphabet);
        let q = vstd::arithmetic::power::pow(b, p.len());
        vstd::arithmetic::power::lemma_pow_adds(b, p.len(), 1);
        vstd::arithmetic::power::lemma_pow1(b);
        let dd = position_of(alphabet, s.last());
        assert(v * b + dd < q * b) by (nonlinear_arith)
            requires
                0 <= v < q,
                0 <= dd < b;
        assert(v * b >= 0) by (nonlinear_arith)
            requires
                v >= 0,
                b >= 0;
    } else {
        vstd::arithmetic::power::lemma_pow0(b);
    }
}

proof fn lemma_chunks_short(s: Seq<char>, k: nat)
    requires
        k > 0,
    ensures
        forall|i: int| 0 <= i < chunks_of(s, k).len() ==> (#[trigger] chunks_of(s, k)[i]).len() <= k,
    decreases s.len(),
{
    if s.len() > k {
        let a = s.take(s.len() - k);
        lemma_chunks_short(a, k);
        assert forall|i: int| 0 <= i < chunks_of(s, k).len() implies (#[trigger] chunks_of(s, k)[i]).len() <= k by {
            if i < chunks_of(a, k).len() {
                assert(chunks_of(s, k)[i] == chunks_of(a, k)[i]);
            }
        }
    }
}

/// Chunks of at most `k` digits are always read within `i64` when `k` digits of
/// the alphabet's base stay within it.
proof fn lemma_short_chunks_fit(s: Seq<char>, alphabet: Seq<char>, k: nat)
    requires
        k > 0,
        alphabet.len() >= 1,
        vstd::arithmetic::power::pow(alphabet.len() as int, k) <= 0x8000_0000_0000_0000,
    ensures
        chunks_fit(s, alphabet, k),
{
    lemma_chunks_short(s, k);
    assert forall|i: int| 0 <= i < chunks_of(s, k).len() implies chunk_fits(#[trigger] chunks_of(s, k)[i], alphabet) by {
        let c = chunks_of(s, k)[i];
        assert forall|j: int| 0 <= j <= c.len() && #[trigger] in_alphabet(c.take(j), alphabet) implies chunk_value(c.take(j), alphabet) <= i64::MAX by {
            lemma_chunk_value_below(c.take(j), alphabet);
            vstd::arithmetic::power::lemma_pow_increases(alphabet.len() as nat, j as nat, k);
        }
    }
}

pub open spec fn alphabet36() -> Seq<char> {
    seq!['0', '1', '2', '3', '4', '5', '6', '7', '8', '9', 'A', 'B', 'C', 'D', 'E', 'F', 'G', 'H',
         'I', 'J', 'K', 'L', 'M', 'N', 'O', 'P', 'Q', 'R', 'S', 'T', 'U', 'V', 'W', 'X', 'Y', 'Z']
}

pub open spec fn alphabet16() -> Seq<char> {
    seq!['0', '1', '2', '3', '4', '5', '6', '7', '8', '9', 'A', 'B', 'C', 'D', 'E', 'F']
}

pub open spec fn alphabet32() -> Seq<char> {
    seq!['0', '1', '2', '3', '4', '5', '6', '7', '8', '9', 'A', 'B', 'C', 'D', 'E', 'F', 'G', 'H',
         'J', 'K', 'M', 'N', 'P', 'Q', 'R', 'S', 'T', 'V', 'W', 'X', 'Y', 'Z']
}

/// Reads a base-36 text (in either case) in chunks of ten characters; `Ok`
/// exactly when every character is a base-36 digit, with the number that the
/// chunks write in base 36^10.
pub fn parse_big_int36(s: &str) -> (r: Result<num::BigInt, &'static str>)
    ensures
        r is Ok <==> in_alphabet(ascii_upper(s@), alphabet36()),
        r matches Ok(v) ==> big_value(v) == chunked_value(chunks_of(ascii_upper(s@), 10), alphabet36(), vstd::arithmetic::power::pow(36, 10)),
{
    let a = vec!['0', '1', '2', '3', '4', '5', '6', '7', '8', '9', 'A', 'B', 'C', 'D', 'E', 'F',
        'G', 'H', 'I', 'J', 'K', 'L', 'M', 'N', 'O', 'P', 'Q', 'R', 'S', 'T', 'U', 'V', 'W', 'X', 'Y', 'Z'];
    assert(a@ =~= alphabet36());
    let up = ascii_upper_of(&chars_of(s));
    proof {
        assert(vstd::arithmetic::power::pow(36, 10) == 3656158440062976) by {
            reveal_with_fuel(vstd::arithmetic::power::pow, 11);
        }
        lemma_short_chunks_fit(up@, a@, 10);
    }
    let power = big_pow(&big_from(36), 10);
    parse_big_int_chunked(&up, &a, 10, power)
}

/// Reads a hexadecimal text (in either case) in chunks of thirteen characters;
/// `Ok` exactly when every character is a hexadecimal digit, with the number
/// that the chunks write in base 16^13.
pub fn parse_big_int16(s: &str) -> (r: Result<num::BigInt, &'static str>)
    ensures
        r is Ok <==> in_alphabet(ascii_upper(s@), alphabet16()),
        r matches Ok(v) ==> big_value(v) == chunked_value(chunks_of(ascii_upper(s@), 13), alphabet16(), vstd::arithmetic::power::pow(16, 13)),
{
    let a = vec!['0', '1', '2', '3', '4', '5', '6', '7', '8', '9', 'A', 'B', 'C', 'D', 'E', 'F'];
    assert(a@ =~= alphabet16());
    let up = ascii_upper_of(&chars_of(s));
    proof {
        assert(vstd::arithmetic::power::pow(16, 13) == 4503599627370496) by {
            reveal_with_fuel(vstd::arithmetic::power::pow, 14);
        }
        lemma_short_chunks_fit(up@, a@, 13);
    }
    let power = big_pow(&big_from(16), 13);
    parse_big_int_chunked(&up, &a, 13, power)
}

/// Reads a Crockford base-32 text (upper case only) in chunks of ten
/// characters; `Ok` exactly when every character is a Crockford digit, with the
/// number that the chunks write in base 32^10.
pub fn parse_big_int32(s: &str) -> (r: Result<num::BigInt, &'static str>)
    ensures
        r is Ok <==> in_alphabet(s@, alphabet32()),
        r matches Ok(v) ==> big_value(v) == chunked_value(chunks_of(s@, 10), alphabet32(), vstd::arithmetic::power::pow(32, 10)),
{
    let a = vec!['0', '1', '2', '3', '4', '5', '6', '7', '8', '9', 'A', 'B', 'C', 'D', 'E', 'F',
        'G', 'H', 'J', 'K', 'M', 'N', 'P', 'Q', 'R', 'S', 'T', 'V', 'W', 'X', 'Y', 'Z'];
    assert(a@ =~= alphabet32());
    let v = chars_of(s);
    proof {
        assert(vstd::arithmetic::power::pow(32, 10) == 1125899906842624) by {
            reveal_with_fuel(vstd::arithmetic::power::pow, 11);
        }
        lemma_short_chunks_fit(v@, a@, 10);
    }
    let power = big_pow(&big_from(32), 10);
    parse_big_int_chunked(&v, &a, 10, power)
}

} // verus!
