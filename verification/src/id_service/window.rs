use vstd::prelude::*;
use crate::text::{all_ascii, chars_of, chars_all_ascii};

verus! {

/// The characters at positions `start..end` of `s`, when the first `end` characters are
/// ASCII (so that character and byte positions agree); `None` otherwise.
///
/// For a byte range that the standard library can slice, this is `Some` exactly when the
/// slice holds no character outside ASCII, and then it is the slice.
pub open spec fn ascii_window(s: Seq<char>, start: int, end: int) -> Option<Seq<char>> {
    if 0 <= start <= end <= s.len() && all_ascii(s.take(end)) {
        Some(s.subrange(start, end))
    } else {
        None
    }
}

/// Whether `&s[start..end]` can be taken without a panic: both ends lie on character
/// boundaries of the UTF-8 bytes.
pub open spec fn byte_range_ok(s: &str, start: int, end: int) -> bool {
    byte_range_ok_chars(s@, start, end)
}

/// `byte_range_ok` for a text given by its characters.
pub open spec fn byte_range_ok_chars(s: Seq<char>, start: int, end: int) -> bool {
    let b = vstd::utf8::encode_utf8(s);
    &&& 0 <= start <= end <= b.len()
    &&& vstd::utf8::is_char_boundary(b, start)
    &&& vstd::utf8::is_char_boundary(b, end)
}

/// Computes `ascii_window`.
pub fn take_ascii_window(s: &str, start: usize, end: usize) -> (r: Option<Vec<char>>)
    requires
        start <= end,
    ensures
        r matches Some(v) ==> ascii_window(s@, start as int, end as int) == Some(v@),
        r is None <==> ascii_window(s@, start as int, end as int) is None,
{
    let v = chars_of(s);
    if v.len() < end {
        return None;
    }
    let mut head: Vec<char> = Vec::new();
    let mut i: usize = 0;
    while i < end
        invariant
            i <= end <= v@.len(),
            head@ == v@.take(i as int),
        decreases end - i,
    {
        head.push(v[i]);
        i = i + 1;
        assert(head@ == v@.take(i as int));
    }
    if !chars_all_ascii(head.as_slice()) {
        return None;
    }
    let mut w: Vec<char> = Vec::new();
    let mut j: usize = start;
    while j < end
        invariant
            start <= j <= end <= v@.len(),
            w@ == v@.subrange(start as int, j as int),
        decreases end - j,
    {
        w.push(v[j]);
        j = j + 1;
        assert(w@ == v@.subrange(start as int, j as int));
    }
    Some(w)
}

} // verus!

verus! {

proof fn lemma_ascii_boundary(s: Seq<char>, j: int)
    requires
        0 <= j <= s.len(),
        all_ascii(s.take(j)),
    ensures
        j <= vstd::utf8::encode_utf8(s).len(),
        vstd::utf8::is_char_boundary(vstd::utf8::encode_utf8(s), j),
    decreases j,
{
    let b = vstd::utf8::encode_utf8(s);
    vstd::utf8::encode_utf8_valid_utf8(s);
    if j > 0 {
        assert((s.take(j)[0] as u32) < 128);
        assert(s.take(j)[0] == s[0]);
        vstd::utf8::encode_utf8_first_scalar(s);
        assert(vstd::utf8::encode_scalar(s[0] as u32).len() == 1);
        assert(vstd::utf8::pop_first_scalar(b) =~= vstd::utf8::encode_utf8(s.drop_first()));
        assert(all_ascii(s.drop_first().take(j - 1))) by {
            assert forall|k: int| 0 <= k < s.drop_first().take(j - 1).len() implies (#[trigger] s.drop_first().take(j - 1)[k] as u32) < 128 by {
                assert(s.drop_first().take(j - 1)[k] == s.take(j)[k + 1]);
            }
        }
        lemma_ascii_boundary(s.drop_first(), j - 1);
    }
}

/// Where the characters `start..end` of `s` form an ASCII window, the byte range
/// `start..end` can be sliced.
pub proof fn lemma_window_byte_range(s: Seq<char>, start: int, end: int)
    requires
        ascii_window(s, start, end) is Some,
    ensures
        byte_range_ok_chars(s, start, end),
{
    lemma_ascii_boundary(s, end);
    assert(all_ascii(s.take(start))) by {
        assert forall|k: int| 0 <= k < s.take(start).len() implies (#[trigger] s.take(start)[k] as u32) < 128 by {
            assert(s.take(start)[k] == s.take(end)[k]);
        }
    }
    lemma_ascii_boundary(s, start);
}

} // verus!
