//! Custom emoji names and reactions: `name@host` parsing, host normalisation to
//! punycode, reaction normalisation and the cache key of a parsed emoji.
use vstd::prelude::*;
use crate::text::{all_ascii, chars_of, string_of, push_chars, push_char, position_of, lemma_position_bound, find_char_from, sub_chars};

verus! {

/// The pattern a custom emoji reference must match: a name of `0-9A-Za-z_.-`, optionally
/// followed by `@` and a host of word characters with at least one dot.
pub const PARSE_EMOJI_STR_REGEXP: &'static str = "^([0-9A-Za-z_\\.-]+){1}((@(\\w+\\.)+?)+(\\w{2,})){0,1}?$";

/// Whether `s` matches `PARSE_EMOJI_STR_REGEXP` (regex crate semantics, Unicode `\w`).
pub uninterp spec fn emoji_pattern_matches(s: Seq<char>) -> bool;

/// The punycode encoding of a label (`punycode::encode`), `None` when it overflows.
pub uninterp spec fn punycode_encoding(s: Seq<char>) -> Option<Seq<char>>;

#[verifier::external_type_specification]
#[verifier::external_body]
pub struct ExRegex(regex::Regex);

/// `punycode::encode`.
///
/// Trusted: the result is the name `punycode_encoding` of the label. From the source: the
/// output is ASCII (basic code points, `-`, and digits `a-z0-9`); for a non-empty ASCII
/// label it is the label followed by `-`; for the empty label it is empty. An ASCII label
/// never enters the encoding loop. In that loop `delta` is at most the label's length
/// plus `0x10FFFF` times it when the checked step is taken, and the unchecked
/// `delta += 1` adds at most the length again, so `u32` arithmetic cannot overflow on
/// labels of at most 3800 characters.
#[verifier::external_body]
fn punycode_encode(s: &str) -> (r: Option<String>)
    requires
        all_ascii(s@) || s@.len() <= 3800,
    ensures
        r is None <==> punycode_encoding(s@) is None,
        r matches Some(v) ==> punycode_encoding(s@) == Some(v@),
        r matches Some(v) ==> all_ascii(v@),
        all_ascii(s@) && s@.len() > 0 ==> r is Some && r.unwrap()@ == s@.push('-'),
        s@.len() == 0 ==> r is Some && r.unwrap()@.len() == 0,
{
    punycode::encode(s).ok()
}

/// `Regex::new(PARSE_EMOJI_STR_REGEXP).unwrap()`.
///
/// Trusted, with nothing stated; the pattern is valid, so the `unwrap` cannot panic.
#[verifier::external_body]
fn compile_emoji_pattern() -> regex::Regex {
    regex::Regex::new(PARSE_EMOJI_STR_REGEXP).unwrap()
}

/// `find` of the emoji pattern on `text`, as the matched text.
///
/// Trusted: the service's regex is always `PARSE_EMOJI_STR_REGEXP`; whether it matches is
/// the name `emoji_pattern_matches`, and since the pattern is anchored at both ends (`^`
/// and `$`, without the multi-line flag) a match is the whole text.
#[verifier::external_body]
fn find_emoji_pattern(svc: &EmojiService, text: &str) -> (r: Option<String>)
    ensures
        r is Some <==> emoji_pattern_matches(text@),
        r matches Some(m) ==> m@ == text@,
{
    svc.parse_emoji_str_regexp.find(text).map(|m| m.as_str().to_string())
}

/// One label written for DNS: unchanged when punycode only appends `-` to it (an ASCII
/// label), `xn--` and the encoding otherwise, unchanged when the encoding fails.
///
/// `punycode::encode` gives ASCII, so comparing its byte length and prefix with the label's
/// (as the code does) is the same as comparing characters.
pub open spec fn puny_label(l: Seq<char>) -> Seq<char> {
    match punycode_encoding(l) {
        Some(v) => if v.len() == l.len() + 1 && v.last() == '-' && v.take(l.len() as int) == l {
            l
        } else {
            seq!['x', 'n', '-', '-'] + v
        },
        None => l,
    }
}

/// A host written for DNS: each dot-separated label through `puny_label`, joined by dots.
pub open spec fn puny_text(s: Seq<char>) -> Seq<char>
    decreases s.len(),
{
    let i = position_of(s, '.');
    if i < 0 {
        puny_label(s)
    } else {
        proof {
            lemma_position_bound(s, '.');
        }
        puny_label(s.take(i)) + seq!['.'] + puny_text(s.skip(i + 1))
    }
}

fn puny_label_of(l: &[char]) -> (r: Vec<char>)
    requires
        all_ascii(l@) || l@.len() <= 3800,
    ensures
        r@ == puny_label(l@),
        all_ascii(l@) && l@.len() > 0 ==> r@ == l@,
{
    let s = string_of(l);
    match punycode_encode(s.as_str()) {
        None => {
            let mut r: Vec<char> = Vec::new();
            let mut i: usize = 0;
            while i < l.len()
                invariant
                    i <= l@.len(),
                    r@ == l@.take(i as int),
                decreases l@.len() - i,
            {
                r.push(l[i]);
                i = i + 1;
                assert(r@ == l@.take(i as int));
            }
            assert(l@.take(l@.len() as int) == l@);
            r
        },
        Some(v) => {
            let vc = chars_of(v.as_str());
            proof {
                if all_ascii(l@) && l@.len() > 0 {
                    assert(vc@ == l@.push('-'));
                    assert(vc@.take(l@.len() as int) =~= l@);
                }
            }
            let keep = vc.len() == l.len() + 1 && vc[vc.len() - 1] == '-' && {
                let head = sub_chars(vc.as_slice(), 0, l.len());
                assert(head@ =~= vc@.take(l@.len() as int));
                same(head.as_slice(), l)
            };
            if keep {
                let mut r: Vec<char> = Vec::new();
                let mut i: usize = 0;
                while i < l.len()
                    invariant
                        i <= l@.len(),
                        r@ == l@.take(i as int),
                    decreases l@.len() - i,
                {
                    r.push(l[i]);
                    i = i + 1;
                    assert(r@ == l@.take(i as int));
                }
                assert(l@.take(l@.len() as int) == l@);
                r
            } else {
                let mut r: Vec<char> = vec!['x', 'n', '-', '-'];
                let mut i: usize = 0;
                while i < vc.len()
                    invariant
                        i <= vc@.len(),
                        r@ == seq!['x', 'n', '-', '-'] + vc@.take(i as int),
                    decreases vc@.len() - i,
                {
                    r.push(vc[i]);
                    i = i + 1;
                    assert(r@ == seq!['x', 'n', '-', '-'] + vc@.take(i as int));
                }
                assert(vc@.take(vc@.len() as int) == vc@);
                r
            }
        },
    }
}


/// No dot in `s` from `i` up to (not including) `j`.
pub open spec fn dot_free(s: Seq<char>, i: int, j: int) -> bool {
    forall|k: int| i <= k < j ==> #[trigger] s[k] != '.'
}

/// Every run of more than 3800 characters without a dot is ASCII, so no label of
/// `s` is one that punycode's encoder cannot take (see `punycode_encode`).
pub open spec fn punycode_safe(s: Seq<char>) -> bool {
    forall|i: int, j: int| 0 <= i && i + 3800 < j && j <= s.len() && #[trigger] dot_free(s, i, j) ==> all_ascii(s.subrange(i, j))
}

/// What is safe stays safe in any part of it.
pub proof fn lemma_punycode_safe_part(s: Seq<char>, a: int, b: int)
    requires
        punycode_safe(s),
        0 <= a <= b <= s.len(),
    ensures
        punycode_safe(s.subrange(a, b)),
{
    let t = s.subrange(a, b);
    assert forall|i: int, j: int| 0 <= i && i + 3800 < j && j <= t.len() && #[trigger] dot_free(t, i, j) implies all_ascii(t.subrange(i, j)) by {
        assert(dot_free(s, a + i, a + j)) by {
            assert forall|k: int| a + i <= k < a + j implies #[trigger] s[k] != '.' by {
                assert(t[k - a] == s[k]);
            }
        }
        assert(t.subrange(i, j) =~= s.subrange(a + i, a + j));
    }
}

/// A text of ASCII characters is safe.
pub proof fn lemma_ascii_punycode_safe(s: Seq<char>)
    requires
        all_ascii(s),
    ensures
        punycode_safe(s),
{
    assert forall|i: int, j: int| 0 <= i && i + 3800 < j && j <= s.len() && #[trigger] dot_free(s, i, j) implies all_ascii(s.subrange(i, j)) by {
        assert forall|k: int| 0 <= k < s.subrange(i, j).len() implies (#[trigger] s.subrange(i, j)[k] as u32) < 128 by {
            assert(s.subrange(i, j)[k] == s[i + k]);
        }
    }
}

/// A text of at most 3800 characters is safe.
pub proof fn lemma_short_punycode_safe(s: Seq<char>)
    requires
        s.len() <= 3800,
    ensures
        punycode_safe(s),
{
}

/// A host name of ASCII labels, none of them empty.
pub open spec fn plain_host(s: Seq<char>) -> bool {
    &&& all_ascii(s)
    &&& s.len() > 0
    &&& s[0] != '.'
    &&& s.last() != '.'
    &&& forall|i: int| 0 <= i < s.len() - 1 && #[trigger] s[i] == '.' ==> s[i + 1] != '.'
}

/// Writes a host for DNS: every dot-separated label that is not plain ASCII becomes
/// `xn--` and its punycode. A host of ASCII labels, none empty, stays as it is.
pub fn to_puny_code(s: &str) -> (r: String)
    requires
        punycode_safe(s@),
    ensures
        r@ == puny_text(s@),
        plain_host(s@) ==> r@ == s@,
{
    let v = chars_of(s);
    let mut out: Vec<char> = Vec::new();
    let mut start: usize = 0;
    assert(v@.skip(0) =~= v@);
    assert(out@ + puny_text(v@.skip(0)) =~= puny_text(s@));
    loop
        invariant
            start <= v@.len(),
            v@ == s@,
            punycode_safe(s@),
            start == 0 || s@[start - 1] == '.',
            out@ + puny_text(v@.skip(start as int)) == puny_text(s@),
            plain_host(s@) ==> out@ == s@.take(start as int),
            plain_host(s@) ==> start < s@.len(),
            plain_host(s@) ==> (start == 0 || s@[start - 1] == '.'),
        decreases v@.len() - start,
    {
        proof {
            if plain_host(s@) {
                if start > 0 {
                    assert(s@[start - 1] == '.');
                    assert(s@[start as int] != '.');
                }
            }
        }
        let ghost rest = v@.skip(start as int);
        match find_char_from(v.as_slice(), '.', start) {
            None => {
                let label = sub_chars(v.as_slice(), start, v.len());
                assert(label@ == rest);
                proof {
                    lemma_position_bound(rest, '.');
                    if label@.len() > 3800 {
                        assert(dot_free(s@, start as int, s@.len() as int)) by {
                            assert forall|k: int| start <= k < s@.len() implies #[trigger] s@[k] != '.' by {
                                assert(rest[k - start] == s@[k]);
                            }
                        }
                        assert(s@.subrange(start as int, s@.len() as int) =~= label@);
                    }
                }
                proof {
                    if plain_host(s@) {
                        assert(label@[0] == s@[start as int]);
                        assert(all_ascii(label@)) by {
                            assert forall|k: int| 0 <= k < label@.len() implies (#[trigger] label@[k] as u32) < 128 by {
                                assert(label@[k] == s@[start + k]);
                            }
                        }
                    }
                }
                let p = puny_label_of(label.as_slice());
                let mut k: usize = 0;
                let ghost out0 = out@;
                while k < p.len()
                    invariant
                        k <= p@.len(),
                        out@ == out0 + p@.take(k as int),
                    decreases p@.len() - k,
                {
                    out.push(p[k]);
                    k = k + 1;
                    assert(out@ == out0 + p@.take(k as int));
                }
                assert(p@.take(p@.len() as int) == p@);
                proof {
                    if plain_host(s@) {
                        assert(out@ =~= s@);
                    }
                }
                return string_of(out.as_slice());
            },
            Some(i) => {
                proof {
                    lemma_position_bound(rest, '.');
                }
                let label = sub_chars(v.as_slice(), start, i);
                let ghost j = (i - start) as int;
                assert(label@ == rest.take(j));
                proof {
                    if label@.len() > 3800 {
                        assert(dot_free(s@, start as int, i as int)) by {
                            assert forall|k: int| start <= k < i implies #[trigger] s@[k] != '.' by {
                                assert(rest[k - start] == s@[k]);
                            }
                        }
                        assert(s@.subrange(start as int, i as int) =~= label@);
                    }
                }
                assert(rest.skip(j + 1) =~= v@.skip(i + 1));
                proof {
                    if plain_host(s@) {
                        assert(v@[i as int] == '.');
                        assert(i != start);
                        assert(label@[0] == s@[start as int]);
                        assert(all_ascii(label@)) by {
                            assert forall|k: int| 0 <= k < label@.len() implies (#[trigger] label@[k] as u32) < 128 by {
                                assert(label@[k] == s@[start + k]);
                            }
                        }
                    }
                }
                let p = puny_label_of(label.as_slice());
                let ghost out0 = out@;
                let mut k: usize = 0;
                while k < p.len()
                    invariant
                        k <= p@.len(),
                        out@ == out0 + p@.take(k as int),
                    decreases p@.len() - k,
                {
                    out.push(p[k]);
                    k = k + 1;
                    assert(out@ == out0 + p@.take(k as int));
                }
                assert(p@.take(p@.len() as int) == p@);
                out.push('.');
                assert(out@ == out0 + puny_label(rest.take(j)) + seq!['.']);
                proof {
                    if plain_host(s@) {
                        assert(out@ =~= s@.take(i + 1));
                        assert(i < s@.len() - 1);
                    }
                }
                assert(i < v.len());
                start = i + 1;
            },
        }
    }
}

/// A parsed custom emoji reference: its name and the host it belongs to (`None` for the
/// local host).
#[derive(Clone, Debug)]
pub struct ParsedEmoji {
    name: Option<String>,
    host: Option<String>,
}

pub open spec fn opt_view(o: Option<String>) -> Option<Seq<char>> {
    match o {
        Some(s) => Some(s@),
        None => None,
    }
}

/// The cache and lookup key of a parsed emoji: `name@host`, or `name@.` for the local
/// host; none without a name.
pub open spec fn emoji_key(name: Option<Seq<char>>, host: Option<Seq<char>>) -> Option<Seq<char>> {
    match name {
        None => None,
        Some(n) => match host {
            None => Some(n + seq!['@', '.']),
            Some(h) => Some(n + seq!['@'] + h),
        },
    }
}

impl ParsedEmoji {
    pub closed spec fn name(&self) -> Option<Seq<char>> {
        opt_view(self.name)
    }

    pub closed spec fn host(&self) -> Option<Seq<char>> {
        opt_view(self.host)
    }

    /// The key `name@host` (`name@.` for the local host); `Err(())` without a name.
    pub fn try_into(&self) -> (r: Result<String, ()>)
        ensures
            r is Err <==> emoji_key(self.name(), self.host()) is None,
            r matches Ok(k) ==> emoji_key(self.name(), self.host()) == Some(k@),
    {
        match (&self.name, &self.host) {
            (None, _) => Err(()),
            (Some(name), None) => {
                let mut s = name.clone();
                push_char(&mut s, '@');
                push_char(&mut s, '.');
                Ok(s)
            },
            (Some(name), Some(host)) => {
                let mut s = name.clone();
                push_char(&mut s, '@');
                let h = chars_of(host.as_str());
                push_chars(&mut s, h.as_slice());
                Ok(s)
            },
        }
    }
}

/// The name part of a matched reference: everything before the first `@`.
pub open spec fn name_part(m: Seq<char>) -> Seq<char> {
    let p = position_of(m, '@');
    if p < 0 { m } else { m.take(p) }
}

/// The host part of a matched reference: what lies between the first `@` and the next one
/// (or the end); none without an `@`.
pub open spec fn host_part(m: Seq<char>) -> Option<Seq<char>> {
    let p = position_of(m, '@');
    if p < 0 {
        None
    } else {
        let r = m.skip(p + 1);
        let q = position_of(r, '@');
        Some(if q < 0 { r } else { r.take(q) })
    }
}

/// The host to query for: the note owner's host when none is written, none for `.` or for
/// the local host, the written host otherwise; then written for DNS.
pub open spec fn normalized_host(local: Seq<char>, src: Option<Seq<char>>, note_user_host: Option<Seq<char>>) -> Option<Seq<char>> {
    let h = match src {
        None => note_user_host,
        Some(s) => if s == seq!['.'] || s == local { None } else { Some(s) },
    };
    match h {
        Some(x) => Some(puny_text(x)),
        None => None,
    }
}

/// The name and host that `parse_emoji_str` finds in `text`.
pub open spec fn parsed_emoji(local: Seq<char>, text: Seq<char>, note_user_host: Option<Seq<char>>) -> (Option<Seq<char>>, Option<Seq<char>>) {
    if emoji_pattern_matches(text) {
        (
            Some(name_part(text)),
            match host_part(text) {
                Some(h) => normalized_host(local, Some(h), note_user_host),
                None => match note_user_host {
                    Some(x) => Some(puny_text(x)),
                    None => None,
                },
            },
        )
    } else {
        (None, None)
    }
}

/// What `normalize_reaction` makes of a reaction: `:name@host:` for a custom emoji that
/// names a host (unchanged when it has no name), `:name@.:` for one that names none, and
/// any other reaction unchanged.
pub open spec fn normalized_reaction(local: Seq<char>, r: Seq<char>) -> Seq<char> {
    if r.len() >= 1 && r[0] == ':' && r.last() == ':' {
        let inner = r.subrange(1, r.len() - 1);
        if position_of(r, '@') >= 0 {
            let (n, h) = parsed_emoji(local, inner, None);
            match emoji_key(n, h) {
                Some(k) => seq![':'] + k + seq![':'],
                None => r,
            }
        } else {
            seq![':'] + inner + seq!['@', '.', ':']
        }
    } else {
        r
    }
}

/// The URL of a custom emoji: its public URL, or its original URL when it has
/// no public one.
pub fn emoji_url(public_url: String, original_url: String) -> (r: String)
    ensures
        r@ == (if public_url@.len() == 0 { original_url@ } else { public_url@ }),
{
    if public_url.as_str().unicode_len() == 0 {
        original_url
    } else {
        public_url
    }
}

pub struct EmojiService {
    host: String,
    parse_emoji_str_regexp: regex::Regex,
}


impl EmojiService {
    /// A service for the local host `host`.
    pub fn new(host: String) -> (s: EmojiService)
        ensures
            s.local_host() == host@,
    {
        EmojiService { host, parse_emoji_str_regexp: compile_emoji_pattern() }
    }

    /// The local host.
    pub closed spec fn local_host(&self) -> Seq<char> {
        self.host@
    }

    /// The host to query for (see `normalized_host`).
    pub fn normalize_host(&self, src: Option<&str>, note_user_host: Option<String>) -> (r: Option<String>)
        requires
            src matches Some(s) ==> punycode_safe(s@),
            note_user_host matches Some(h) ==> punycode_safe(h@),
        ensures
            opt_view(r) == normalized_host(
                self.local_host(),
                match src { Some(s) => Some(s@), None => None },
                opt_view(note_user_host),
            ),
    {
        proof {
            reveal_strlit(".");
        }
        let host: Option<String> = match src {
            None => note_user_host,
            Some(s) => {
                let sv = chars_of(s);
                let local = chars_of(self.host.as_str());
                if sv.len() == 1 && sv[0] == '.' {
                    assert(sv@ =~= seq!['.']);
                    None
                } else if same(sv.as_slice(), local.as_slice()) {
                    None
                } else {
                    assert(sv@ != seq!['.']);
                    Some(string_of(sv.as_slice()))
                }
            },
        };
        match host {
            Some(h) => Some(to_puny_code(h.as_str())),
            None => None,
        }
    }

    /// The name and host of a custom emoji reference (both `None` when it does not match
    /// the pattern).
    pub fn parse_emoji_str(&self, emoji_name: &str, note_user_host: Option<String>) -> (r: ParsedEmoji)
        requires
            punycode_safe(emoji_name@),
            note_user_host matches Some(h) ==> punycode_safe(h@),
        ensures
            (r.name(), r.host()) == parsed_emoji(self.local_host(), emoji_name@, opt_view(note_user_host)),
    {
        match find_emoji_pattern(self, emoji_name) {
            Some(m) => {
                let v = chars_of(m.as_str());
                let (name, host_src) = match find_char_from(v.as_slice(), '@', 0) {
                    None => {
                        assert(v@.skip(0) =~= v@);
                        (string_of(v.as_slice()), None)
                    },
                    Some(p) => {
                        assert(v@.skip(0) =~= v@);
                        let name = sub_chars(v.as_slice(), 0, p);
                        assert(name@ =~= v@.take(p as int));
                        assert(p < v.len());
                        let rest_end = match find_char_from(v.as_slice(), '@', p + 1) {
                            None => v.len(),
                            Some(q) => q,
                        };
                        let h = sub_chars(v.as_slice(), p + 1, rest_end);
                        proof {
                            lemma_position_bound(v@, '@');
                            let r = v@.skip(p + 1);
                            lemma_position_bound(r, '@');
                            if position_of(r, '@') < 0 {
                                assert(h@ =~= r);
                            } else {
                                assert(h@ =~= r.take(position_of(r, '@')));
                            }
                            assert(h@ =~= emoji_name@.subrange(p + 1, rest_end as int));
                            lemma_punycode_safe_part(emoji_name@, p + 1, rest_end as int);
                        }
                        (string_of(name.as_slice()), Some(string_of(h.as_slice())))
                    },
                };
                let host = match host_src {
                    Some(h) => self.normalize_host(Some(h.as_str()), note_user_host),
                    None => match note_user_host {
                        Some(x) => Some(to_puny_code(x.as_str())),
                        None => None,
                    },
                };
                ParsedEmoji { name: Some(name), host }
            },
            None => ParsedEmoji { name: None, host: None },
        }
    }

    /// What is looked up for a custom emoji used on content of a user on
    /// `user_host`: its name, its host and the cache key `name@host`. None when
    /// the reference does not parse or names no remote host: emoji of the local
    /// host are not resolved here.
    pub fn emoji_lookup(&self, emoji: &str, user_host: Option<String>) -> (r: Option<(String, String, String)>)
        requires
            punycode_safe(emoji@),
            user_host matches Some(h) ==> punycode_safe(h@),
        ensures
            match parsed_emoji(self.local_host(), emoji@, opt_view(user_host)) {
                (Some(n), Some(h)) => r matches Some((rn, rh, k)) && rn@ == n && rh@ == h && k@ == n + seq!['@'] + h,
                _ => r is None,
            },
    {
        let parsed = self.parse_emoji_str(emoji, user_host);
        let key = match ParsedEmoji::try_into(&parsed) {
            Ok(k) => k,
            Err(_) => return None,
        };
        match (parsed.name, parsed.host) {
            (Some(n), Some(h)) => Some((n, h, key)),
            _ => None,
        }
    }

    /// Normalises a reaction (see `normalized_reaction`).
    pub fn normalize_reaction(&self, reaction: String) -> (r: String)
        requires
            reaction@ != seq![':'],
            punycode_safe(reaction@),
        ensures
            r@ == normalized_reaction(self.local_host(), reaction@),
    {
        let v = chars_of(reaction.as_str());
        if v.len() >= 1 && v[0] == ':' && v[v.len() - 1] == ':' {
            assert(v.len() >= 2) by {
                if v.len() == 1 {
                    assert(v@ =~= seq![':']);
                }
            }
            let inner = sub_chars(v.as_slice(), 1, v.len() - 1);
            assert(v@.skip(0) =~= v@);
            if find_char_from(v.as_slice(), '@', 0).is_some() {
                let inner_s = string_of(inner.as_slice());
                proof {
                    assert(inner_s@ =~= reaction@.subrange(1, reaction@.len() - 1));
                    lemma_punycode_safe_part(reaction@, 1, reaction@.len() - 1);
                }
                let emoji = self.parse_emoji_str(inner_s.as_str(), None);
                match ParsedEmoji::try_into(&emoji) {
                    Ok(k) => {
                        let mut s = String::new();
                        push_char(&mut s, ':');
                        let kc = chars_of(k.as_str());
                        push_chars(&mut s, kc.as_slice());
                        push_char(&mut s, ':');
                        s
                    },
                    Err(_) => reaction,
                }
            } else {
                let mut s = String::new();
                push_char(&mut s, ':');
                push_chars(&mut s, inner.as_slice());
                push_char(&mut s, '@');
                push_char(&mut s, '.');
                push_char(&mut s, ':');
                s
            }
        } else {
            reaction
        }
    }
}

fn same(a: &[char], b: &[char]) -> (r: bool)
    ensures
        r == (a@ == b@),
{
    if a.len() != b.len() {
        return false;
    }
    let mut i: usize = 0;
    while i < a.len()
        invariant
            a@.len() == b@.len(),
            i <= a@.len(),
            a@.take(i as int) == b@.take(i as int),
        decreases a@.len() - i,
    {
        if a[i] != b[i] {
            return false;
        }
        i = i + 1;
        assert(a@.take(i as int) =~= a@.take(i - 1).push(a@[i - 1]));
        assert(b@.take(i as int) =~= b@.take(i - 1).push(b@[i - 1]));
    }
    assert(a@.take(a@.len() as int) =~= a@);
    assert(b@.take(b@.len() as int) =~= b@);
    true
}

} // verus!
