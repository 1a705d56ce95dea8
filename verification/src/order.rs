//! The order of identifiers: texts compared character by character (which for
//! UTF-8 text is the byte order of `str`), and sorting by it in either
//! direction.
use vstd::prelude::*;
use crate::text::chars_of;

verus! {

broadcast use vstd::seq_lib::to_multiset_insert;

/// `a` comes strictly before `b`: at the first differing character `a`'s is
/// smaller, or `a` is a proper prefix of `b`.
pub open spec fn text_lt(a: Seq<char>, b: Seq<char>) -> bool
    decreases a.len(),
{
    if a.len() == 0 {
        b.len() > 0
    } else if b.len() == 0 {
        false
    } else if a[0] != b[0] {
        (a[0] as u32) < (b[0] as u32)
    } else {
        text_lt(a.drop_first(), b.drop_first())
    }
}

pub proof fn lemma_text_lt_irreflexive(a: Seq<char>)
    ensures
        !text_lt(a, a),
    decreases a.len(),
{
    if a.len() > 0 {
        lemma_text_lt_irreflexive(a.drop_first());
    }
}

pub proof fn lemma_text_lt_trans(a: Seq<char>, b: Seq<char>, c: Seq<char>)
    requires
        text_lt(a, b),
        text_lt(b, c),
    ensures
        text_lt(a, c),
    decreases a.len(),
{
    if a.len() > 0 && b.len() > 0 && c.len() > 0 && a[0] == b[0] && b[0] == c[0] {
        lemma_text_lt_trans(a.drop_first(), b.drop_first(), c.drop_first());
    }
}

pub proof fn lemma_text_lt_total(a: Seq<char>, b: Seq<char>)
    ensures
        a == b || text_lt(a, b) || text_lt(b, a),
    decreases a.len(),
{
    if a.len() > 0 && b.len() > 0 && a[0] == b[0] {
        lemma_text_lt_total(a.drop_first(), b.drop_first());
        if a.drop_first() == b.drop_first() {
            assert(a =~= seq![a[0]] + a.drop_first());
            assert(b =~= seq![b[0]] + b.drop_first());
        }
    } else if a.len() > 0 && b.len() > 0 {
        if (a[0] as u32) == (b[0] as u32) {
            vstd::utf8::char_u32_cast(a[0], a[0] as u32);
            vstd::utf8::char_u32_cast(b[0], b[0] as u32);
        }
    } else if a.len() == 0 && b.len() == 0 {
        assert(a =~= b);
    }
}

pub proof fn lemma_text_lt_asym(a: Seq<char>, b: Seq<char>)
    requires
        text_lt(a, b),
    ensures
        !text_lt(b, a),
{
    if text_lt(b, a) {
        lemma_text_lt_trans(a, b, a);
        lemma_text_lt_irreflexive(a);
    }
}

/// Whether `a` comes strictly before `b`.
pub fn text_less(a: &[char], b: &[char]) -> (r: bool)
    ensures
        r == text_lt(a@, b@),
{
    let mut i: usize = 0;
    assert(a@.skip(0) =~= a@);
    assert(b@.skip(0) =~= b@);
    while i < a.len() && i < b.len()
        invariant
            i <= a@.len(),
            i <= b@.len(),
            text_lt(a@, b@) == text_lt(a@.skip(i as int), b@.skip(i as int)),
        decreases a@.len() - i,
    {
        if a[i] != b[i] {
            proof {
                assert(a@.skip(i as int)[0] == a@[i as int]);
                assert(b@.skip(i as int)[0] == b@[i as int]);
            }
            return (a[i] as u32) < (b[i] as u32);
        }
        proof {
            assert(a@.skip(i as int).drop_first() =~= a@.skip(i + 1));
            assert(b@.skip(i as int).drop_first() =~= b@.skip(i + 1));
        }
        i = i + 1;
    }
    i < b.len()
}

/// `a` may stand before `b` in the given direction (ascending or descending).
pub open spec fn in_order(a: Seq<char>, b: Seq<char>, ascending: bool) -> bool {
    if ascending {
        !text_lt(b, a)
    } else {
        !text_lt(a, b)
    }
}

/// Every earlier key may stand before every later one.
pub open spec fn sorted_keys(s: Seq<Seq<char>>, ascending: bool) -> bool {
    forall|i: int, j: int| 0 <= i < j < s.len() ==> in_order(#[trigger] s[i], #[trigger] s[j], ascending)
}

/// Something ordered by an identifier.
pub trait Keyed {
    spec fn key(&self) -> Seq<char>;

    fn key_chars(&self) -> (r: Vec<char>)
        ensures
            r@ == self.key(),
    ;
}

impl Keyed for String {
    open spec fn key(&self) -> Seq<char> {
        self@
    }

    fn key_chars(&self) -> (r: Vec<char>) {
        chars_of(self.as_str())
    }
}

/// The keys of a sequence of items.
pub open spec fn keys<T: Keyed>(s: Seq<T>) -> Seq<Seq<char>> {
    s.map_values(|x: T| x.key())
}

/// `idx` places `r` in `orig`: each item of `r` is the item of `orig` at its
/// index, no index is used twice, and items with equal keys stand in the order
/// they had in `orig`.
pub open spec fn stable_arrangement<T: Keyed>(orig: Seq<T>, r: Seq<T>, idx: Seq<int>) -> bool {
    &&& idx.len() == r.len()
    &&& forall|k: int| 0 <= k < r.len() ==> 0 <= #[trigger] idx[k] < orig.len() && r[k] == orig[idx[k]]
    &&& forall|a: int, b: int| 0 <= a < b < r.len() ==> #[trigger] idx[a] != #[trigger] idx[b]
    &&& forall|a: int, b: int| 0 <= a < b < r.len() && #[trigger] r[a].key() == #[trigger] r[b].key() ==> idx[a] < idx[b]
}

/// Sorts `items` by key, ascending or descending; items with equal keys keep
/// their order.
pub fn sort_by_key<T: Keyed>(items: Vec<T>, ascending: bool) -> (r: Vec<T>)
    ensures
        r@.to_multiset() == items@.to_multiset(),
        sorted_keys(keys(r@), ascending),
        exists|idx: Seq<int>| stable_arrangement(items@, r@, idx),
{
    let mut r: Vec<T> = Vec::new();
    let mut src = items;
    let ghost orig = src@;
    let ghost mut taken: Seq<T> = Seq::empty();
    let ghost mut idx: Seq<int> = Seq::empty();
    while src.len() > 0
        invariant
            orig == taken + src@,
            r@.to_multiset() == taken.to_multiset(),
            sorted_keys(keys(r@), ascending),
            stable_arrangement(taken, r@, idx),
        decreases src@.len(),
    {
        let ghost src0 = src@;
        let x = src.remove(0);
        let ghost xg = x;
        let xk = x.key_chars();
        let mut p: usize = 0;
        while p < r.len()
            invariant
                p <= r@.len(),
                xk@ == x.key(),
                forall|j: int| 0 <= j < p ==> in_order(#[trigger] keys(r@)[j], x.key(), ascending),
            ensures
                p <= r@.len(),
                forall|j: int| 0 <= j < p ==> in_order(#[trigger] keys(r@)[j], x.key(), ascending),
                p < r@.len() ==> (if ascending {
                    text_lt(x.key(), keys(r@)[p as int])
                } else {
                    text_lt(keys(r@)[p as int], x.key())
                }),
            decreases r@.len() - p,
        {
            let pk = r[p].key_chars();
            let after = if ascending {
                text_less(&xk, &pk)
            } else {
                text_less(&pk, &xk)
            };
            if after {
                assert(keys(r@)[p as int] == r@[p as int].key());
                break;
            }
            assert(keys(r@)[p as int] == r@[p as int].key());
            p = p + 1;
        }
        let ghost old_r = r@;
        let ghost xkey = x.key();
        proof {
            assert forall|j: int| p <= j < old_r.len() implies in_order(xkey, #[trigger] keys(old_r)[j], ascending) by {
                assert(keys(old_r)[j] == old_r[j].key());
                if p < old_r.len() {
                    assert(keys(old_r)[p as int] == old_r[p as int].key());
                    if j > p {
                        assert(in_order(keys(old_r)[p as int], keys(old_r)[j], ascending));
                    }
                    if ascending {
                        assert(text_lt(xkey, keys(old_r)[p as int]));
                        lemma_text_lt_asym(xkey, keys(old_r)[p as int]);
                        if text_lt(keys(old_r)[j], xkey) {
                            lemma_text_lt_trans(keys(old_r)[j], xkey, keys(old_r)[p as int]);
                            lemma_text_lt_total(keys(old_r)[p as int], keys(old_r)[j]);
                            if j > p {
                                lemma_text_lt_asym(keys(old_r)[j], keys(old_r)[p as int]);
                            } else {
                                lemma_text_lt_irreflexive(keys(old_r)[j]);
                            }
                        }
                    } else {
                        assert(text_lt(keys(old_r)[p as int], xkey));
                        if text_lt(xkey, keys(old_r)[j]) {
                            lemma_text_lt_trans(keys(old_r)[p as int], xkey, keys(old_r)[j]);
                            if j > p {
                                lemma_text_lt_asym(keys(old_r)[p as int], keys(old_r)[j]);
                            } else {
                                lemma_text_lt_irreflexive(keys(old_r)[j]);
                            }
                        }
                    }
                }
            }
        }
        proof {
            assert forall|j: int| p <= j < old_r.len() implies #[trigger] old_r[j].key() != xkey by {
                assert(keys(old_r)[j] == old_r[j].key());
                assert(keys(old_r)[p as int] == old_r[p as int].key());
                if old_r[j].key() == xkey {
                    if j > p {
                        assert(in_order(keys(old_r)[p as int], keys(old_r)[j], ascending));
                    }
                    if ascending {
                        lemma_text_lt_asym(xkey, keys(old_r)[p as int]);
                        lemma_text_lt_irreflexive(xkey);
                    } else {
                        lemma_text_lt_asym(keys(old_r)[p as int], xkey);
                        lemma_text_lt_irreflexive(xkey);
                    }
                }
            }
        }
        r.insert(p, x);
        proof {
            let t = taken.len() as int;
            let nt = taken.push(xg);
            let old_idx = idx;
            let nidx = idx.insert(p as int, t);
            assert(r@ =~= old_r.insert(p as int, xg));
            assert forall|k: int| 0 <= k < r@.len() implies 0 <= #[trigger] nidx[k] < nt.len() && r@[k] == nt[nidx[k]] by {
                if k < p {
                    assert(nidx[k] == old_idx[k]);
                    assert(r@[k] == old_r[k]);
                } else if k > p {
                    assert(nidx[k] == old_idx[k - 1]);
                    assert(r@[k] == old_r[k - 1]);
                }
            }
            assert forall|a: int, b: int| 0 <= a < b < r@.len() implies #[trigger] nidx[a] != #[trigger] nidx[b] by {
                if a == p {
                    assert(nidx[b] == old_idx[b - 1]);
                } else if b == p {
                    assert(nidx[a] == old_idx[a]);
                } else {
                    let oa = if a < p { a } else { a - 1 };
                    let ob = if b < p { b } else { b - 1 };
                    assert(nidx[a] == old_idx[oa]);
                    assert(nidx[b] == old_idx[ob]);
                }
            }
            assert forall|a: int, b: int| 0 <= a < b < r@.len() && #[trigger] r@[a].key() == #[trigger] r@[b].key() implies nidx[a] < nidx[b] by {
                if a == p {
                    assert(r@[b] == old_r[b - 1]);
                } else if b == p {
                    assert(nidx[a] == old_idx[a]);
                } else {
                    let oa = if a < p { a } else { a - 1 };
                    let ob = if b < p { b } else { b - 1 };
                    assert(nidx[a] == old_idx[oa]);
                    assert(nidx[b] == old_idx[ob]);
                    assert(r@[a] == old_r[oa]);
                    assert(r@[b] == old_r[ob]);
                }
            }
            idx = nidx;
        }
        proof {
            assert(keys(r@) =~= keys(old_r).insert(p as int, xkey));
            assert forall|i: int, j: int| 0 <= i < j < r@.len() implies in_order(
                #[trigger] keys(r@)[i],
                #[trigger] keys(r@)[j],
                ascending,
            ) by {
                if j < p {
                } else if i < p && j == p {
                } else if i < p && j > p {
                    assert(keys(r@)[j] == keys(old_r)[j - 1]);
                } else if i == p {
                    assert(keys(r@)[j] == keys(old_r)[j - 1]);
                } else {
                    assert(keys(r@)[i] == keys(old_r)[i - 1]);
                    assert(keys(r@)[j] == keys(old_r)[j - 1]);
                }
            }
        }
        proof {
            assert(src0 =~= seq![xg] + src@);
            assert(orig =~= taken.push(xg) + src@);
            vstd::seq_lib::to_multiset_build(taken, xg);
            taken = taken.push(xg);
        }
    }
    assert(taken =~= orig);
    assert(stable_arrangement(items@, r@, idx));
    r
}

} // verus!

verus! {

/// The number that the characters of `s` write as digits of base `base`, each
/// character worth `digit(c)`, the first the most significant.
pub open spec fn positional(s: Seq<char>, digit: spec_fn(char) -> int, base: int) -> int
    decreases s.len(),
{
    if s.len() == 0 {
        0
    } else {
        positional(s.drop_last(), digit, base) * base + digit(s.last())
    }
}

/// Every character of `s` is a digit below `base`.
pub open spec fn digits_below(s: Seq<char>, digit: spec_fn(char) -> int, base: int) -> bool {
    forall|i: int| 0 <= i < s.len() ==> 0 <= #[trigger] digit(s[i]) < base
}

/// Among the characters of `a` and `b`, a smaller digit is a smaller character
/// and equal digits are equal characters.
pub open spec fn digits_follow_chars(a: Seq<char>, b: Seq<char>, digit: spec_fn(char) -> int) -> bool {
    forall|i: int, j: int| 0 <= i < a.len() && 0 <= j < b.len() ==> {
        &&& (digit(#[trigger] a[i]) < digit(#[trigger] b[j]) ==> (a[i] as u32) < (b[j] as u32))
        &&& (digit(a[i]) == digit(b[j]) ==> a[i] == b[j])
    }
}

proof fn lemma_positional_bound(s: Seq<char>, digit: spec_fn(char) -> int, base: int)
    requires
        base >= 1,
        digits_below(s, digit, base),
    ensures
        0 <= positional(s, digit, base) < vstd::arithmetic::power::pow(base, s.len()),
    decreases s.len(),
{
    vstd::arithmetic::power::lemma_pow_positive(base, s.len());
    if s.len() > 0 {
        let p = s.drop_last();
        assert(digits_below(p, digit, base)) by {
            assert forall|i: int| 0 <= i < p.len() implies 0 <= #[trigger] digit(p[i]) < base by {
                assert(p[i] == s[i]);
            }
        }
        lemma_positional_bound(p, digit, base);
        let v = positional(p, digit, base);
        let d = digit(s.last());
        assert(0 <= digit(s[s.len() - 1]) < base);
        vstd::arithmetic::power::lemma_pow_adds(base, p.len(), 1);
        vstd::arithmetic::power::lemma_pow1(base);
        let q = vstd::arithmetic::power::pow(base, p.len());
        assert(v * base + d < q * base) by (nonlinear_arith)
            requires
                0 <= v < q,
                0 <= d < base;
        assert(0 <= v * base) by (nonlinear_arith)
            requires
                0 <= v,
                0 <= base;
    }
}

/// Reading from the front: the first digit is worth `base^(n-1)`.
proof fn lemma_positional_front(s: Seq<char>, digit: spec_fn(char) -> int, base: int)
    requires
        s.len() > 0,
    ensures
        positional(s, digit, base) == digit(s[0]) * vstd::arithmetic::power::pow(base, (s.len() - 1) as nat)
            + positional(s.drop_first(), digit, base),
    decreases s.len(),
{
    if s.len() == 1 {
        assert(s.drop_last() =~= Seq::<char>::empty());
        assert(s.drop_first() =~= Seq::<char>::empty());
        vstd::arithmetic::power::lemma_pow0(base);
    } else {
        let p = s.drop_last();
        lemma_positional_front(p, digit, base);
        assert(p[0] == s[0]);
        assert(p.drop_first() =~= s.drop_first().drop_last());
        assert(s.drop_first().last() == s.last());
        let n = s.len();
        let x = digit(s[0]);
        let q = vstd::arithmetic::power::pow(base, (n - 2) as nat);
        let y = positional(p.drop_first(), digit, base);
        vstd::arithmetic::power::lemma_pow_adds(base, (n - 2) as nat, 1);
        vstd::arithmetic::power::lemma_pow1(base);
        assert((x * q + y) * base == x * (q * base) + y * base) by (nonlinear_arith);
    }
}

/// Digits of equal length compare as the numbers they write, where the
/// characters are ordered as their digits are.
pub proof fn lemma_positional_order(a: Seq<char>, b: Seq<char>, digit: spec_fn(char) -> int, base: int)
    requires
        base >= 1,
        a.len() == b.len(),
        digits_below(a, digit, base),
        digits_below(b, digit, base),
        digits_follow_chars(a, b, digit),
        positional(a, digit, base) < positional(b, digit, base),
    ensures
        text_lt(a, b),
    decreases a.len(),
{
    if a.len() == 0 {
    } else {
        lemma_positional_front(a, digit, base);
        lemma_positional_front(b, digit, base);
        let ra = a.drop_first();
        let rb = b.drop_first();
        assert(digits_below(ra, digit, base)) by {
            assert forall|i: int| 0 <= i < ra.len() implies 0 <= #[trigger] digit(ra[i]) < base by {
                assert(ra[i] == a[i + 1]);
            }
        }
        assert(digits_below(rb, digit, base)) by {
            assert forall|i: int| 0 <= i < rb.len() implies 0 <= #[trigger] digit(rb[i]) < base by {
                assert(rb[i] == b[i + 1]);
            }
        }
        lemma_positional_bound(ra, digit, base);
        lemma_positional_bound(rb, digit, base);
        let q = vstd::arithmetic::power::pow(base, (a.len() - 1) as nat);
        let da = digit(a[0]);
        let db = digit(b[0]);
        let va = positional(ra, digit, base);
        let vb = positional(rb, digit, base);
        assert(0 <= da < base && 0 <= db < base);
        if da > db {
            assert(da * q + va >= db * q + vb) by (nonlinear_arith)
                requires
                    da >= db + 1,
                    0 <= va,
                    vb < q,
                    0 < q;
        } else if da < db {
            assert((a[0] as u32) < (b[0] as u32));
        } else {
            assert(a[0] == b[0]);
            assert(va < vb);
            assert(digits_follow_chars(ra, rb, digit)) by {
                assert forall|i: int, j: int| 0 <= i < ra.len() && 0 <= j < rb.len() implies {
                    &&& (digit(#[trigger] ra[i]) < digit(#[trigger] rb[j]) ==> (ra[i] as u32) < (rb[j] as u32))
                    &&& (digit(ra[i]) == digit(rb[j]) ==> ra[i] == rb[j])
                } by {
                    assert(ra[i] == a[i + 1]);
                    assert(rb[j] == b[j + 1]);
                }
            }
            lemma_positional_order(ra, rb, digit, base);
        }
    }
}

/// A text that comes before another of the same length still does with
/// anything after each.
pub proof fn lemma_text_lt_extend(a: Seq<char>, b: Seq<char>, x: Seq<char>, y: Seq<char>)
    requires
        a.len() == b.len(),
        text_lt(a, b),
    ensures
        text_lt(a + x, b + y),
    decreases a.len(),
{
    assert((a + x)[0] == a[0]);
    assert((b + y)[0] == b[0]);
    if a[0] == b[0] {
        assert((a + x).drop_first() =~= a.drop_first() + x);
        assert((b + y).drop_first() =~= b.drop_first() + y);
        lemma_text_lt_extend(a.drop_first(), b.drop_first(), x, y);
    }
}

} // verus!
