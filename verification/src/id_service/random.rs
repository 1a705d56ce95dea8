use vstd::prelude::*;
use crate::text::all_ascii;

verus! {

/// Whether every character of `s` is one of `alphabet`.
pub open spec fn drawn_from(s: Seq<char>, alphabet: Seq<char>) -> bool {
    forall|i: int| 0 <= i < s.len() ==> alphabet.contains(#[trigger] s[i])
}

/// A random text of `size` characters from `alphabet`, through `nanoid::format` with
/// `nanoid::rngs::default` (what the `nanoid!` macro expands to).
///
/// Trusted: `format` keeps drawing random bytes, masks each to the next power of two above
/// the alphabet's length, and pushes `alphabet[byte]` when it is in range, until the text
/// is `size` bytes long; for an ASCII alphabet that is `size` characters, each from the
/// alphabet. Which characters come is random and not stated. (A size of 0, or a non-ASCII
/// alphabet, can make it loop forever; an alphabet over 255 characters panics. It also
/// panics if the operating system cannot supply randomness, which no input decides.)
#[verifier::external_body]
pub(crate) fn random_text(alphabet: &[char], size: usize) -> (s: String)
    requires
        0 < size,
        0 < alphabet@.len() <= 255,
        all_ascii(alphabet@),
    ensures
        s@.len() == size,
        drawn_from(s@, alphabet@),
{
    nanoid::format(nanoid::rngs::default, alphabet, size)
}

} // verus!
