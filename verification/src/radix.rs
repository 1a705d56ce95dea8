use vstd::prelude::*;
use vstd::arithmetic::power::pow;
use crate::text::{push_char, chars_of};

verus! {

/// The character that writes digit `d` (0..36) in lower case: `0-9` then `a-z`.
pub open spec fn digit_char(d: nat) -> char {
    if d < 10 {
        (d + 48) as char
    } else {
        (d + 87) as char
    }
}

/// The digits of `n` in base `radix`, most significant first, without leading zeros
/// (`"0"` for zero).
pub open spec fn radix_str(n: nat, radix: nat) -> Seq<char>
    decreases n,
{
    if radix < 2 || n < radix {
        seq![digit_char(n)]
    } else {
        proof {
            vstd::arithmetic::div_mod::lemma_div_decreases(n as int, radix as int);
        }
        radix_str(n / radix, radix).push(digit_char(n % radix))
    }
}

/// `n` written in base `radix`, with a leading `-` when negative.
pub open spec fn signed_radix_str(n: int, radix: nat) -> Seq<char> {
    if n < 0 {
        seq!['-'] + radix_str((-n) as nat, radix)
    } else {
        radix_str(n as nat, radix)
    }
}

/// `s` preceded by as many `c` as make it `width` long (unchanged when already that long).
pub open spec fn left_pad(s: Seq<char>, c: char, width: nat) -> Seq<char> {
    if s.len() >= width {
        s
    } else {
        Seq::new((width - s.len()) as nat, |i: int| c) + s
    }
}

/// The last `k` characters of `s` (all of `s` when it is shorter).
pub open spec fn last_n(s: Seq<char>, k: nat) -> Seq<char> {
    if s.len() <= k {
        s
    } else {
        s.skip(s.len() - k)
    }
}

/// The value of `c` as a digit in the bases up to 36 (`0-9`, then `a-z` or `A-Z`);
/// 99 for any other character.
pub open spec fn char_value(c: char) -> int {
    let x = c as u32;
    if 48 <= x <= 57 {
        x - 48
    } else if 97 <= x <= 122 {
        x - 87
    } else if 65 <= x <= 90 {
        x - 55
    } else {
        99
    }
}

/// Whether every character of `s` is a digit of base `radix`.
pub open spec fn all_digits(s: Seq<char>, radix: int) -> bool {
    forall|i: int| 0 <= i < s.len() ==> #[trigger] char_value(s[i]) < radix
}

/// The number that the digits `s` write in base `radix`.
pub open spec fn digits_value(s: Seq<char>, radix: int) -> int
    decreases s.len(),
{
    if s.len() == 0 {
        0
    } else {
        digits_value(s.drop_last(), radix) * radix + char_value(s.last())
    }
}

/// What the standard library's `from_str_radix` gives for a signed integer type, when the
/// value fits: an optional `+` or `-`, then at least one digit of base `radix`.
pub open spec fn parse_radix(s: Seq<char>, radix: int) -> Option<int> {
    if s.len() > 0 && (s[0] == '+' || s[0] == '-') {
        let rest = s.drop_first();
        if rest.len() > 0 && all_digits(rest, radix) {
            Some(if s[0] == '-' { -digits_value(rest, radix) } else { digits_value(rest, radix) })
        } else {
            None
        }
    } else if s.len() > 0 && all_digits(s, radix) {
        Some(digits_value(s, radix))
    } else {
        None
    }
}

/// Characters that the radix conversions here produce: `0-9`, `a-z` and `-`.
pub open spec fn is_radix_char(c: char) -> bool {
    let x = c as u32;
    (48 <= x <= 57) || (97 <= x <= 122) || x == 45
}

pub open spec fn all_radix_chars(s: Seq<char>) -> bool {
    forall|i: int| 0 <= i < s.len() ==> is_radix_char(#[trigger] s[i])
}

/// `n` in base `radix` through `num::BigInt::to_str_radix`.
///
/// Trusted: `BigInt::to_str_radix` writes the magnitude in the given base with the digits
/// `0-9a-z`, most significant first, `"0"` for zero, and a leading `-` for a negative value.
#[verifier::external_body]
fn bigint_to_str_radix(n: i64, radix: u32) -> (s: String)
    requires
        2 <= radix <= 36,
    ensures
        s@ == signed_radix_str(n as int, radix as nat),
{
    num::BigInt::from(n).to_str_radix(radix)
}

/// `n` in base `radix` (lower-case digits, leading `-` when negative).
pub fn radix_string(n: i64, radix: u32) -> (s: Vec<char>)
    requires
        2 <= radix <= 36,
    ensures
        s@ == signed_radix_str(n as int, radix as nat),
        all_radix_chars(s@),
{
    let st = bigint_to_str_radix(n, radix);
    proof {
        lemma_signed_radix_chars(n as int, radix as nat);
    }
    chars_of(st.as_str())
}

/// Pads on the left to `width` characters with `pad_char` through `pad::PadStr::pad`
/// (right alignment, no truncation).
///
/// Trusted: `pad` measures `s` by its display width, which for the characters `0-9a-z-`
/// is their count, puts `width - count` copies of `pad_char` in front when `s` is
/// narrower, and gives `s` unchanged otherwise.
#[verifier::external_body]
fn pad_right_aligned(s: &str, width: usize, pad_char: char) -> (r: String)
    requires
        all_radix_chars(s@),
    ensures
        r@ == left_pad(s@, pad_char, width as nat),
{
    pad::PadStr::pad(s, width, pad_char, pad::Alignment::Right, false)
}

/// Zero-pads radix digits to `width` through the `pad` crate.
pub fn pad_zeros(v: &[char], width: usize) -> (r: Vec<char>)
    requires
        all_radix_chars(v@),
    ensures
        r@ == left_pad(v@, '0', width as nat),
        all_radix_chars(r@),
{
    let s = crate::text::string_of(v);
    let p = pad_right_aligned(s.as_str(), width, '0');
    let r = chars_of(p.as_str());
    assert(all_radix_chars(r@)) by {
        assert forall|i: int| 0 <= i < r@.len() implies is_radix_char(#[trigger] r@[i]) by {
            if v@.len() < width {
                let k = width - v@.len();
                if i >= k {
                    assert(r@[i] == v@[i - k]);
                }
            }
        }
    }
    r
}

/// Left-pads with `c` to `width` characters, as std formatting with `{:c>width}` does.
pub fn fill_left(v: &[char], c: char, width: usize) -> (r: Vec<char>)
    ensures
        r@ == left_pad(v@, c, width as nat),
{
    let mut r: Vec<char> = Vec::new();
    if v.len() < width {
        let k = width - v.len();
        let mut i: usize = 0;
        while i < k
            invariant
                i <= k,
                r@ == Seq::new(i as nat, |j: int| c),
            decreases k - i,
        {
            r.push(c);
            i = i + 1;
            assert(r@ == Seq::new(i as nat, |j: int| c));
        }
    }
    let mut j: usize = 0;
    let ghost prefix = r@;
    while j < v.len()
        invariant
            j <= v@.len(),
            r@ == prefix + v@.take(j as int),
        decreases v@.len() - j,
    {
        r.push(v[j]);
        j = j + 1;
        assert(r@ == prefix + v@.take(j as int));
    }
    assert(v@.take(v@.len() as int) == v@);
    r
}

/// The last `k` characters (as `String::drain(0..len - k)` keeps them).
pub fn keep_last(v: &[char], k: usize) -> (r: Vec<char>)
    ensures
        r@ == last_n(v@, k as nat),
{
    let start: usize = if v.len() <= k { 0 } else { v.len() - k };
    let mut r: Vec<char> = Vec::new();
    let mut i: usize = start;
    while i < v.len()
        invariant
            start <= i <= v@.len(),
            r@ == v@.subrange(start as int, i as int),
        decreases v@.len() - i,
    {
        r.push(v[i]);
        i = i + 1;
        assert(r@ == v@.subrange(start as int, i as int));
    }
    assert(v@.subrange(start as int, v@.len() as int) == last_n(v@, k as nat));
    r
}

/// The digit value of `c` (99 when it is no digit).
pub fn char_value_of(c: char) -> (d: u32)
    ensures
        d == char_value(c),
{
    let x = c as u32;
    if 48 <= x && x <= 57 {
        x - 48
    } else if 97 <= x && x <= 122 {
        x - 87
    } else if 65 <= x && x <= 90 {
        x - 55
    } else {
        99
    }
}

proof fn lemma_digits_value_bound(s: Seq<char>, radix: int)
    requires
        2 <= radix,
        all_digits(s, radix),
    ensures
        0 <= digits_value(s, radix) < pow(radix, s.len()),
    decreases s.len(),
{
    vstd::arithmetic::power::lemma_pow_positive(radix, s.len());
    if s.len() > 0 {
        let p = s.drop_last();
        assert(all_digits(p, radix)) by {
            assert forall|i: int| 0 <= i < p.len() implies #[trigger] char_value(p[i]) < radix by {
                assert(p[i] == s[i]);
            }
        }
        lemma_digits_value_bound(p, radix);
        let v = digits_value(p, radix);
        let d = char_value(s.last());
        assert(char_value(s[s.len() - 1]) < radix);
        vstd::arithmetic::power::lemma_pow_adds(radix, p.len(), 1);
        vstd::arithmetic::power::lemma_pow1(radix);
        assert(pow(radix, s.len()) == pow(radix, p.len()) * radix);
        assert(v * radix + d < pow(radix, s.len())) by (nonlinear_arith)
            requires
                0 <= v < pow(radix, p.len()),
                0 <= d < radix,
                pow(radix, s.len()) == pow(radix, p.len()) * radix,
        ;
        assert(0 <= v * radix) by (nonlinear_arith)
            requires 0 <= v, 0 <= radix;
    }
}

/// Parses digits like `i64::from_str_radix`, for inputs of at most twelve characters.
pub fn parse_radix_chars(v: &[char], radix: u32) -> (r: Option<i64>)
    requires
        v@.len() <= 12,
        2 <= radix <= 36,
    ensures
        r is Some <==> parse_radix(v@, radix as int) is Some,
        r matches Some(x) ==> parse_radix(v@, radix as int) == Some(x as int),
{
    let n = v.len();
    if n == 0 {
        return None;
    }
    let neg = v[0] == '-';
    let start: usize = if v[0] == '+' || v[0] == '-' { 1 } else { 0 };
    if start == n {
        return None;
    }
    let ghost digits = v@.subrange(start as int, n as int);
    proof {
        if start == 1 {
            assert(digits == v@.drop_first());
        } else {
            assert(digits == v@);
        }
    }
    let mut acc: i64 = 0;
    let mut i: usize = start;
    while i < n
        invariant
            start <= i <= n,
            n == v@.len(),
            n <= 12,
            2 <= radix <= 36,
            all_digits(v@.subrange(start as int, i as int), radix as int),
            acc == digits_value(v@.subrange(start as int, i as int), radix as int),
            0 <= acc < 4738381338321616896,
            start <= 1,
            start == 1 ==> (v@[0] == '+' || v@[0] == '-'),
            start == 0 ==> !(v@[0] == '+' || v@[0] == '-'),
            neg == (v@[0] == '-'),
        decreases n - i,
    {
        let d = char_value_of(v[i]);
        if d >= radix {
            proof {
                let rest = v@.subrange(start as int, n as int);
                assert(rest[i - start] == v@[i as int]);
                assert(!all_digits(rest, radix as int));
                if start == 1 {
                    assert(rest =~= v@.drop_first());
                } else {
                    assert(rest =~= v@);
                }
            }
            return None;
        }
        let ghost pre = v@.subrange(start as int, i as int);
        let ghost post = v@.subrange(start as int, i + 1);
        proof {
            assert(post.drop_last() == pre);
            assert(post.last() == v@[i as int]);
            assert(all_digits(post, radix as int)) by {
                assert forall|j: int| 0 <= j < post.len() implies #[trigger] char_value(post[j]) < radix by {
                    if j < pre.len() {
                        assert(post[j] == pre[j]);
                    }
                }
            }
            lemma_digits_value_bound(post, radix as int);
            vstd::arithmetic::power::lemma_pow_increases(radix as nat, post.len(), 12);
            assert(pow(radix as int, 12) <= pow(36, 12)) by {
                lemma_pow_base_mono(radix as int, 36, 12);
            }
            assert(pow(36, 12) == 4738381338321616896) by {
                reveal_with_fuel(pow, 13);
            }
        }
        acc = acc * (radix as i64) + (d as i64);
        i = i + 1;
    }
    proof {
        if start == 1 {
            assert(v@.subrange(1, n as int) == v@.drop_first());
        } else {
            assert(v@.subrange(0, n as int) == v@);
        }
    }
    if neg {
        Some(-acc)
    } else {
        Some(acc)
    }
}

proof fn lemma_pow_base_mono(a: int, b: int, e: nat)
    requires
        1 <= a <= b,
    ensures
        pow(a, e) <= pow(b, e),
    decreases e,
{
    vstd::arithmetic::power::lemma_pow_positive(b, e);
    if e > 0 {
        lemma_pow_base_mono(a, b, (e - 1) as nat);
        vstd::arithmetic::power::lemma_pow_adds(a, (e - 1) as nat, 1);
        vstd::arithmetic::power::lemma_pow_adds(b, (e - 1) as nat, 1);
        vstd::arithmetic::power::lemma_pow1(a);
        vstd::arithmetic::power::lemma_pow1(b);
        vstd::arithmetic::power::lemma_pow_positive(a, (e - 1) as nat);
        let x = pow(a, (e - 1) as nat);
        let y = pow(b, (e - 1) as nat);
        assert(pow(a, e) == x * a);
        assert(pow(b, e) == y * b);
        assert(x * a <= y * b) by (nonlinear_arith)
            requires 0 <= x <= y, 0 <= a <= b;
    } else {
        vstd::arithmetic::power::lemma_pow0(a);
        vstd::arithmetic::power::lemma_pow0(b);
    }
}

pub proof fn lemma_signed_radix_chars(n: int, radix: nat)
    requires
        2 <= radix <= 36,
    ensures
        all_radix_chars(signed_radix_str(n, radix)),
{
    if n < 0 {
        lemma_radix_str_chars((-n) as nat, radix);
        let s = signed_radix_str(n, radix);
        assert forall|i: int| 0 <= i < s.len() implies is_radix_char(#[trigger] s[i]) by {
            if i > 0 {
                assert(s[i] == radix_str((-n) as nat, radix)[i - 1]);
            }
        }
    } else {
        lemma_radix_str_chars(n as nat, radix);
    }
}

pub proof fn lemma_radix_str_chars(n: nat, radix: nat)
    requires
        2 <= radix <= 36,
    ensures
        all_radix_chars(radix_str(n, radix)),
        all_digits(radix_str(n, radix), radix as int),
        digits_value(radix_str(n, radix), radix as int) == n,
        radix_str(n, radix).len() >= 1,
    decreases n,
{
    let s = radix_str(n, radix);
    if n < radix {
        lemma_digit_char(n, radix);
        assert(s.drop_last() =~= Seq::<char>::empty());
        assert(digits_value(s.drop_last(), radix as int) == 0);
        assert(s.last() == digit_char(n));
    } else {
        vstd::arithmetic::div_mod::lemma_div_decreases(n as int, radix as int);
        lemma_radix_str_chars(n / radix, radix);
        let p = radix_str(n / radix, radix);
        lemma_digit_char(n % radix, radix);
        assert(s.drop_last() == p);
        assert forall|i: int| 0 <= i < s.len() implies is_radix_char(#[trigger] s[i]) && char_value(s[i]) < radix by {
            if i < p.len() {
                assert(s[i] == p[i]);
            }
        }
        vstd::arithmetic::div_mod::lemma_fundamental_div_mod(n as int, radix as int);
        assert(s.last() == digit_char(n % radix));
        let q = n / radix;
        let r = n % radix;
        assert(q * radix + r == n) by (nonlinear_arith)
            requires n == radix * q + r;
    }
}

proof fn lemma_digit_char(d: nat, radix: nat)
    requires
        d < radix <= 36,
    ensures
        is_radix_char(digit_char(d)),
        char_value(digit_char(d)) == d,
{
}

/// A run of `m` zero characters.
pub open spec fn zeros(m: nat) -> Seq<char> {
    Seq::new(m, |i: int| '0')
}

pub proof fn lemma_zeros_value(m: nat, radix: int)
    requires
        1 <= radix,
    ensures
        digits_value(zeros(m), radix) == 0,
        all_digits(zeros(m), radix),
    decreases m,
{
    if m > 0 {
        assert(zeros(m).drop_last() =~= zeros((m - 1) as nat));
        lemma_zeros_value((m - 1) as nat, radix);
    }
}

/// Leading zeros change neither the value nor the validity of digits.
pub proof fn lemma_zeros_prefix(m: nat, s: Seq<char>, radix: int)
    requires
        1 <= radix,
    ensures
        digits_value(zeros(m) + s, radix) == digits_value(s, radix),
        all_digits(zeros(m) + s, radix) == all_digits(s, radix),
    decreases s.len(),
{
    let z = zeros(m);
    if s.len() == 0 {
        assert(z + s =~= z);
        lemma_zeros_value(m, radix);
    } else {
        assert((z + s).drop_last() =~= z + s.drop_last());
        assert((z + s).last() == s.last());
        lemma_zeros_prefix(m, s.drop_last(), radix);
        lemma_zeros_value(m, radix);
        if all_digits(s, radix) {
            assert forall|i: int| 0 <= i < (z + s).len() implies #[trigger] char_value((z + s)[i]) < radix by {
                if i >= m {
                    assert((z + s)[i] == s[i - m]);
                }
            }
        }
        if all_digits(z + s, radix) {
            assert forall|i: int| 0 <= i < s.len() implies #[trigger] char_value(s[i]) < radix by {
                assert((z + s)[i + m] == s[i]);
            }
        }
    }
}

/// `radix_str(n)` has at most `k` digits when `n < radix^k`.
pub proof fn lemma_radix_str_len(n: nat, radix: nat, k: nat)
    requires
        2 <= radix <= 36,
        1 <= k,
        n < pow(radix as int, k),
    ensures
        1 <= radix_str(n, radix).len() <= k,
    decreases n,
{
    if n >= radix {
        vstd::arithmetic::div_mod::lemma_div_decreases(n as int, radix as int);
        if k == 1 {
            vstd::arithmetic::power::lemma_pow1(radix as int);
        } else {
            vstd::arithmetic::power::lemma_pow_adds(radix as int, (k - 1) as nat, 1);
            vstd::arithmetic::power::lemma_pow1(radix as int);
            let p = pow(radix as int, (k - 1) as nat);
            vstd::arithmetic::power::lemma_pow_positive(radix as int, (k - 1) as nat);
            vstd::arithmetic::div_mod::lemma_div_is_ordered(n as int, p * radix - 1, radix as int);
            assert((p * radix - 1) / (radix as int) < p) by (nonlinear_arith)
                requires radix >= 2, p >= 1;
            vstd::arithmetic::power::lemma_pow_positive(radix as int, (k - 1) as nat);
            lemma_radix_str_len(n / radix, radix, (k - 1) as nat);
        }
    }
}

/// Zero-padding the digits of `n` to `w` characters, where they fit, gives a text that
/// parses back to `n`, `w` characters long, ASCII and made of radix characters.
pub proof fn lemma_padded_roundtrip(n: nat, radix: nat, w: nat)
    requires
        2 <= radix <= 36,
        1 <= w,
        n < pow(radix as int, w),
    ensures
        left_pad(radix_str(n, radix), '0', w).len() == w,
        parse_radix(left_pad(radix_str(n, radix), '0', w), radix as int) == Some(n as int),
        all_radix_chars(left_pad(radix_str(n, radix), '0', w)),
        crate::text::all_ascii(left_pad(radix_str(n, radix), '0', w)),
{
    let d = radix_str(n, radix);
    lemma_radix_str_len(n, radix, w);
    lemma_radix_str_chars(n, radix);
    let m = (w - d.len()) as nat;
    let p = left_pad(d, '0', w);
    assert(p =~= zeros(m) + d);
    lemma_zeros_prefix(m, d, radix as int);
    assert forall|i: int| 0 <= i < p.len() implies is_radix_char(#[trigger] p[i]) by {
        if i >= m {
            assert(p[i] == d[i - m]);
        }
    }
    assert forall|i: int| 0 <= i < p.len() implies (#[trigger] p[i] as u32) < 128 by {
        assert(is_radix_char(p[i]));
    }
    assert(p[0] != '+' && p[0] != '-') by {
        assert(char_value(p[0]) < radix);
    }
}

/// A parsed text of at most twelve characters lies within twelve base-36 digits.
pub proof fn lemma_parse_radix_bound(s: Seq<char>, radix: int)
    requires
        2 <= radix <= 36,
        s.len() <= 12,
        parse_radix(s, radix) is Some,
    ensures
        -4738381338321616896 < parse_radix(s, radix).unwrap() < 4738381338321616896,
{
    let d = if s[0] == '+' || s[0] == '-' { s.drop_first() } else { s };
    lemma_digits_value_bound(d, radix);
    vstd::arithmetic::power::lemma_pow_increases(radix as nat, d.len(), 12);
    lemma_pow_base_mono(radix, 36, 12);
    assert(pow(36, 12) == 4738381338321616896) by {
        reveal_with_fuel(pow, 13);
    }
}

/// The last `k` digits of `n` in base `radix`, zero-padded to exactly `k` characters.
pub open spec fn fixed_digits(n: nat, radix: nat, k: nat) -> Seq<char> {
    last_n(left_pad(radix_str(n, radix), '0', k), k)
}

/// The last `k` digits of `radix_str(n)` are worth `n % radix^k`.
proof fn lemma_suffix_value(n: nat, radix: nat, k: nat)
    requires
        2 <= radix <= 36,
        k <= radix_str(n, radix).len(),
    ensures
        digits_value(radix_str(n, radix).skip(radix_str(n, radix).len() - k), radix as int)
            == n % (pow(radix as int, k) as nat),
    decreases n,
{
    let s = radix_str(n, radix);
    let l = s.len();
    lemma_radix_str_chars(n, radix);
    vstd::arithmetic::power::lemma_pow_positive(radix as int, k);
    if k == 0 {
        assert(s.skip(l as int) =~= Seq::<char>::empty());
        vstd::arithmetic::power::lemma_pow0(radix as int);
    } else if n < radix {
        assert(s.skip(0) =~= s);
        vstd::arithmetic::power::lemma_pow1(radix as int);
        vstd::arithmetic::div_mod::lemma_small_mod(n, radix);
    } else {
        vstd::arithmetic::div_mod::lemma_div_decreases(n as int, radix as int);
        let q = n / radix;
        let p = radix_str(q, radix);
        lemma_radix_str_chars(q, radix);
        assert(s == p.push(digit_char(n % radix)));
        let t = s.skip(l - k);
        assert(t.drop_last() =~= p.skip(p.len() - (k - 1)));
        assert(t.last() == digit_char(n % radix));
        lemma_suffix_value(q, radix, (k - 1) as nat);
        lemma_digit_char(n % radix, radix);
        let pk1 = pow(radix as int, (k - 1) as nat);
        vstd::arithmetic::power::lemma_pow_positive(radix as int, (k - 1) as nat);
        vstd::arithmetic::power::lemma_pow_adds(radix as int, 1, (k - 1) as nat);
        vstd::arithmetic::power::lemma_pow1(radix as int);
        assert(pow(radix as int, k) == radix * pk1);
        vstd::arithmetic::div_mod::lemma_breakdown(n as int, radix as int, pk1);
        let a = (q as int) % pk1;
        assert(a * radix == radix * a) by (nonlinear_arith);
    }
}

/// `fixed_digits(n, radix, k)` is `k` radix characters that parse back to `n % radix^k`.
pub proof fn lemma_fixed_digits(n: nat, radix: nat, k: nat)
    requires
        2 <= radix <= 36,
        1 <= k,
    ensures
        fixed_digits(n, radix, k).len() == k,
        all_radix_chars(fixed_digits(n, radix, k)),
        crate::text::all_ascii(fixed_digits(n, radix, k)),
        all_digits(fixed_digits(n, radix, k), radix as int),
        digits_value(fixed_digits(n, radix, k), radix as int) == n % (pow(radix as int, k) as nat),
        parse_radix(fixed_digits(n, radix, k), radix as int) == Some((n % (pow(radix as int, k) as nat)) as int),
{
    let s = radix_str(n, radix);
    let f = fixed_digits(n, radix, k);
    lemma_radix_str_chars(n, radix);
    vstd::arithmetic::power::lemma_pow_positive(radix as int, k);
    if s.len() <= k {
        let m = (k - s.len()) as nat;
        assert(left_pad(s, '0', k) =~= zeros(m) + s);
        assert(f =~= zeros(m) + s);
        lemma_zeros_prefix(m, s, radix as int);
        lemma_digits_value_bound(s, radix as int);
        vstd::arithmetic::power::lemma_pow_increases(radix as nat, s.len(), k);
        vstd::arithmetic::div_mod::lemma_small_mod(n, pow(radix as int, k) as nat);
        assert forall|i: int| 0 <= i < f.len() implies is_radix_char(#[trigger] f[i]) && char_value(f[i]) < radix by {
            if i >= m {
                assert(f[i] == s[i - m]);
            }
        }
    } else {
        assert(f =~= s.skip(s.len() - k));
        lemma_suffix_value(n, radix, k);
        assert forall|i: int| 0 <= i < f.len() implies is_radix_char(#[trigger] f[i]) && char_value(f[i]) < radix by {
            assert(f[i] == s[i + s.len() - k]);
        }
    }
    assert forall|i: int| 0 <= i < f.len() implies (#[trigger] f[i] as u32) < 128 by {
        assert(is_radix_char(f[i]));
    }
    assert(f[0] != '+' && f[0] != '-') by {
        assert(char_value(f[0]) < radix);
    }
}

/// A parsed text of at most eight hexadecimal digits is below 16^8 in magnitude.
pub proof fn lemma_parse_radix_small(s: Seq<char>, radix: int)
    requires
        2 <= radix <= 16,
        s.len() <= 8,
        parse_radix(s, radix) is Some,
    ensures
        -4294967296 < parse_radix(s, radix).unwrap() < 4294967296,
{
    let d = if s[0] == '+' || s[0] == '-' { s.drop_first() } else { s };
    lemma_digits_value_bound(d, radix);
    vstd::arithmetic::power::lemma_pow_increases(radix as nat, d.len(), 8);
    lemma_pow_base_mono(radix, 16, 8);
    assert(pow(16, 8) == 4294967296) by {
        reveal_with_fuel(pow, 9);
    }
}

} // verus!

verus! {

/// `char_value` as a digit function.
pub open spec fn char_digit() -> spec_fn(char) -> int {
    |c: char| char_value(c)
}

proof fn lemma_digits_positional(s: Seq<char>, radix: int)
    ensures
        digits_value(s, radix) == crate::order::positional(s, char_digit(), radix),
    decreases s.len(),
{
    if s.len() > 0 {
        lemma_digits_positional(s.drop_last(), radix);
    }
}

/// Texts of equal length written in lower-case digits of base `radix` compare
/// as the numbers they write.
pub proof fn lemma_radix_text_order(a: Seq<char>, b: Seq<char>, radix: int)
    requires
        2 <= radix <= 36,
        a.len() == b.len(),
        all_radix_chars(a),
        all_radix_chars(b),
        all_digits(a, radix),
        all_digits(b, radix),
        digits_value(a, radix) < digits_value(b, radix),
    ensures
        crate::order::text_lt(a, b),
{
    let d = char_digit();
    lemma_digits_positional(a, radix);
    lemma_digits_positional(b, radix);
    assert(crate::order::digits_below(a, d, radix)) by {
        assert forall|i: int| 0 <= i < a.len() implies 0 <= #[trigger] d(a[i]) < radix by {
            assert(char_value(a[i]) < radix);
            assert(is_radix_char(a[i]));
        }
    }
    assert(crate::order::digits_below(b, d, radix)) by {
        assert forall|i: int| 0 <= i < b.len() implies 0 <= #[trigger] d(b[i]) < radix by {
            assert(char_value(b[i]) < radix);
            assert(is_radix_char(b[i]));
        }
    }
    assert(crate::order::digits_follow_chars(a, b, d)) by {
        assert forall|i: int, j: int| 0 <= i < a.len() && 0 <= j < b.len() implies {
            &&& (d(#[trigger] a[i]) < d(#[trigger] b[j]) ==> (a[i] as u32) < (b[j] as u32))
            &&& (d(a[i]) == d(b[j]) ==> a[i] == b[j])
        } by {
            assert(char_value(a[i]) < radix && is_radix_char(a[i]));
            assert(char_value(b[j]) < radix && is_radix_char(b[j]));
            if (a[i] as u32) == (b[j] as u32) {
                vstd::utf8::char_u32_cast(a[i], a[i] as u32);
                vstd::utf8::char_u32_cast(b[j], b[j] as u32);
            }
        }
    }
    crate::order::lemma_positional_order(a, b, d, radix);
}

/// The zero-padded digits of `n`, where they fit in `w`, are `w` lower-case
/// digits of base `radix` that write `n`.
pub proof fn lemma_padded_digits(n: nat, radix: nat, w: nat)
    requires
        2 <= radix <= 36,
        1 <= w,
        n < pow(radix as int, w),
    ensures
        left_pad(radix_str(n, radix), '0', w).len() == w,
        all_radix_chars(left_pad(radix_str(n, radix), '0', w)),
        all_digits(left_pad(radix_str(n, radix), '0', w), radix as int),
        digits_value(left_pad(radix_str(n, radix), '0', w), radix as int) == n,
{
    let d = radix_str(n, radix);
    lemma_radix_str_len(n, radix, w);
    lemma_radix_str_chars(n, radix);
    lemma_padded_roundtrip(n, radix, w);
    let m = (w - d.len()) as nat;
    assert(left_pad(d, '0', w) =~= zeros(m) + d);
    lemma_zeros_prefix(m, d, radix as int);
}

} // verus!
