//! Rules of the drive: file-name validation and correction, the public view of
//! a file's properties, media-silenced hosts, the URLs under which a file is
//! served, and the checks made before a file is registered.
use vstd::prelude::*;
use crate::text::{
    chars_of, string_of, push_chars, has_char, contains_char, chars_eq, has_prefix, is_prefix,
    concat, opt_chars, opt_str, to_lowercase, lowercase, lower_text, ascii_lower, sub_chars,
};

verus! {

/// Image properties stored with a drive file.
#[derive(Clone, Copy, Debug, PartialEq, Eq, Structural)]
pub struct FileProperties {
    pub width: Option<u32>,
    pub height: Option<u32>,
    pub orientation: Option<u32>,
}

/// The fields of a drive file that the drive's rules read.
#[derive(Clone, Debug)]
pub struct MiDriveFile {
    pub id: String,
    pub user_id: Option<String>,
    pub name: String,
    pub md5: String,
    pub size: i32,
    pub size_long: i64,
    pub is_sensitive: bool,
    pub blurhash: Option<String>,
    pub comment: Option<String>,
    pub folder_id: Option<String>,
    pub properties: FileProperties,
    pub mime_type: String,
    pub url: String,
    pub uri: Option<String>,
    pub user_host: Option<String>,
    pub is_link: bool,
    pub thumbnail_url: Option<String>,
    pub webpublic_url: Option<String>,
    pub webpublic_access_key: Option<String>,
}

/// The public form of a file's properties: an orientation of 5 or more swaps
/// width and height, and the orientation itself is not shown.
pub open spec fn public_properties(p: FileProperties) -> FileProperties {
    match p.orientation {
        Some(o) => if o >= 5 {
            FileProperties { width: p.height, height: p.width, orientation: None }
        } else {
            FileProperties { width: p.width, height: p.height, orientation: None }
        },
        None => p,
    }
}

/// The properties of `file` as shown to others than its owner.
pub fn get_public_properties(file: &MiDriveFile) -> (r: FileProperties)
    ensures
        r == public_properties(file.properties),
        file.properties.orientation is None ==> r == file.properties,
        file.properties.orientation is Some ==> r.orientation is None,
        file.properties.orientation matches Some(o) && o >= 5
            ==> r.width == file.properties.height && r.height == file.properties.width,
        file.properties.orientation matches Some(o) && o < 5
            ==> r.width == file.properties.width && r.height == file.properties.height,
{
    let mut properties = file.properties;
    if let Some(orientation) = file.properties.orientation {
        if orientation >= 5 {
            let w = properties.width;
            properties.width = properties.height;
            properties.height = w;
        }
        properties.orientation = None;
        return properties;
    }
    properties
}

/// Whether `host`, lower-cased, is one of the silenced hosts.
pub open spec fn silenced(hosts: Seq<Seq<char>>, host: Option<Seq<char>>) -> bool {
    match host {
        Some(h) => hosts.len() > 0 && hosts.contains(lowercase(h)),
        None => false,
    }
}

/// Whether files of a user on `host` are marked sensitive because the host is
/// media-silenced. A local user (no host) never is.
#[verifier::loop_isolation(false)]
pub fn is_media_silenced_host(silenced_hosts: &Vec<String>, host: Option<&str>) -> (r: bool)
    ensures
        r == silenced(silenced_hosts@.map_values(|s: String| s@), opt_str(host)),
{
    let ghost hosts = silenced_hosts@.map_values(|s: String| s@);
    if silenced_hosts.len() == 0 || host.is_none() {
        return false;
    }
    let x = to_lowercase(host.unwrap());
    let mut i: usize = 0;
    while i < silenced_hosts.len()
        invariant
            i <= silenced_hosts@.len(),
            hosts == silenced_hosts@.map_values(|s: String| s@),
            forall|j: int| 0 <= j < i ==> hosts[j] != x@,
        decreases silenced_hosts@.len() - i,
    {
        if silenced_hosts[i] == x {
            assert(hosts[i as int] == x@);
            assert(hosts.contains(x@));
            return true;
        }
        i = i + 1;
    }
    assert(!hosts.contains(x@));
    false
}

/// Unicode `White_Space`, the characters that `str::trim` removes.
pub open spec fn is_white_space(c: char) -> bool {
    let u = c as u32;
    ||| 9 <= u <= 13
    ||| u == 32
    ||| u == 0x85
    ||| u == 0xA0
    ||| u == 0x1680
    ||| 0x2000 <= u <= 0x200A
    ||| u == 0x2028
    ||| u == 0x2029
    ||| u == 0x202F
    ||| u == 0x205F
    ||| u == 0x3000
}

fn white_space(c: char) -> (r: bool)
    ensures
        r == is_white_space(c),
{
    let u = c as u32;
    (9 <= u && u <= 13) || u == 32 || u == 0x85 || u == 0xA0 || u == 0x1680 || (0x2000 <= u && u
        <= 0x200A) || u == 0x2028 || u == 0x2029 || u == 0x202F || u == 0x205F || u == 0x3000
}

/// Whether two dots stand next to each other in `s`.
pub open spec fn has_double_dot(s: Seq<char>) -> bool {
    exists|i: int| 0 <= i < s.len() - 1 && #[trigger] dots_at(s, i)
}

/// Whether `s` holds a dot at `i` and at `i + 1`.
pub open spec fn dots_at(s: Seq<char>, i: int) -> bool {
    s[i] == '.' && s[i + 1] == '.'
}

/// A valid file name: not blank, at most 200 bytes in UTF-8, without `\`, `/`
/// or `..`.
pub open spec fn valid_file_name(s: Seq<char>) -> bool {
    &&& exists|i: int| 0 <= i < s.len() && !is_white_space(#[trigger] s[i])
    &&& vstd::utf8::encode_utf8(s).len() <= 200
    &&& !has_char(s, '\\')
    &&& !has_char(s, '/')
    &&& !has_double_dot(s)
}

/// The number of bytes of `c` in UTF-8.
pub open spec fn utf8_width(c: char) -> nat {
    let u = c as u32;
    if u < 0x80 {
        1
    } else if u < 0x800 {
        2
    } else if u < 0x10000 {
        3
    } else {
        4
    }
}

proof fn lemma_encode_scalar_len(c: char)
    ensures
        vstd::utf8::encode_scalar(c as u32).len() == utf8_width(c),
{
    let u = c as u32;
    assert(u <= 0x10FFFF && !(0xD800 <= u <= 0xDFFF)) by {
        vstd::utf8::char_is_scalar(c);
    }
}

proof fn lemma_encode_push(s: Seq<char>, c: char)
    ensures
        vstd::utf8::encode_utf8(s.push(c)).len() == vstd::utf8::encode_utf8(s).len() + utf8_width(c),
    decreases s.len(),
{
    let e = s.push(c);
    if s.len() == 0 {
        lemma_encode_scalar_len(c);
        assert(e.drop_first() =~= Seq::<char>::empty());
        assert(vstd::utf8::encode_utf8(e.drop_first()) == Seq::<u8>::empty());
        assert(vstd::utf8::encode_utf8(e) == vstd::utf8::encode_scalar(c as u32)
            + vstd::utf8::encode_utf8(e.drop_first()));
        assert(vstd::utf8::encode_utf8(s) == Seq::<u8>::empty());
    } else {
        lemma_encode_push(s.drop_first(), c);
        assert(e.drop_first() =~= s.drop_first().push(c));
        assert(e[0] == s[0]);
        assert(vstd::utf8::encode_utf8(e) == vstd::utf8::encode_scalar(s[0] as u32)
            + vstd::utf8::encode_utf8(s.drop_first().push(c)));
        assert(vstd::utf8::encode_utf8(s) == vstd::utf8::encode_scalar(s[0] as u32)
            + vstd::utf8::encode_utf8(s.drop_first()));
    }
}

proof fn lemma_encode_take_mono(s: Seq<char>, i: int)
    requires
        0 <= i <= s.len(),
    ensures
        vstd::utf8::encode_utf8(s.take(i)).len() <= vstd::utf8::encode_utf8(s).len(),
    decreases s.len() - i,
{
    if i < s.len() {
        lemma_encode_take_mono(s, i + 1);
        lemma_encode_push(s.take(i), s[i]);
        assert(s.take(i + 1) =~= s.take(i).push(s[i]));
    } else {
        assert(s.take(i) =~= s);
    }
}

fn utf8_len_at_most(v: &[char], limit: u64) -> (r: bool)
    requires
        limit <= 1000,
    ensures
        r == (vstd::utf8::encode_utf8(v@).len() <= limit),
{
    let mut count: u64 = 0;
    let mut i: usize = 0;
    while i < v.len()
        invariant
            i <= v@.len(),
            limit <= 1000,
            count <= limit,
            count == vstd::utf8::encode_utf8(v@.take(i as int)).len(),
        decreases v@.len() - i,
    {
        let u = v[i] as u32;
        let w: u64 = if u < 0x80 {
            1
        } else if u < 0x800 {
            2
        } else if u < 0x10000 {
            3
        } else {
            4
        };
        proof {
            lemma_encode_push(v@.take(i as int), v@[i as int]);
            assert(v@.take(i + 1) =~= v@.take(i as int).push(v@[i as int]));
        }
        count = count + w;
        i = i + 1;
        if count > limit {
            proof {
                lemma_encode_take_mono(v@, i as int);
            }
            return false;
        }
    }
    assert(v@.take(v@.len() as int) =~= v@);
    true
}

/// Checks a file name (see `valid_file_name`).
#[verifier::loop_isolation(false)]
pub fn validate_file_name(name: &str) -> (r: bool)
    ensures
        r == valid_file_name(name@),
{
    let v = chars_of(name);
    let mut blank = true;
    let mut i: usize = 0;
    while i < v.len()
        invariant
            i <= v@.len(),
            blank <==> forall|j: int| 0 <= j < i ==> is_white_space(#[trigger] v@[j]),
        decreases v@.len() - i,
    {
        if !white_space(v[i]) {
            blank = false;
        }
        i = i + 1;
    }
    if blank {
        assert(!(exists|j: int| 0 <= j < v@.len() && !is_white_space(#[trigger] v@[j])));
        return false;
    }
    if !utf8_len_at_most(&v, 200) {
        return false;
    }
    if contains_char(&v, '\\') || contains_char(&v, '/') {
        return false;
    }
    let mut k: usize = 0;
    while k < v.len()
        invariant
            k <= v@.len(),
            forall|j: int| 0 <= j < k && j < v@.len() - 1 ==> !#[trigger] dots_at(v@, j),
        decreases v@.len() - k,
    {
        if k + 1 < v.len() && v[k] == '.' && v[k + 1] == '.' {
            assert(dots_at(v@, k as int));
            return false;
        }
        k = k + 1;
    }
    true
}

} // verus!

verus! {

/// The position of the last dot in `s`, or -1.
pub open spec fn last_dot(s: Seq<char>) -> int
    decreases s.len(),
{
    if s.len() == 0 {
        -1
    } else if s.last() == '.' {
        s.len() - 1
    } else {
        last_dot(s.drop_last())
    }
}

proof fn lemma_last_dot_bound(s: Seq<char>)
    ensures
        -1 <= last_dot(s) < s.len(),
    decreases s.len(),
{
    if s.len() > 0 && s.last() != '.' {
        lemma_last_dot_bound(s.drop_last());
    }
}

fn find_last_dot(v: &[char]) -> (r: Option<usize>)
    ensures
        r is None <==> last_dot(v@) < 0,
        r matches Some(i) ==> i == last_dot(v@) && i < v@.len(),
{
    let mut i: usize = v.len();
    proof {
        assert(v@.take(i as int) =~= v@);
    }
    while i > 0
        invariant
            i <= v@.len(),
            last_dot(v@) == last_dot(v@.take(i as int)),
        decreases i,
    {
        proof {
            assert(v@.take(i as int).drop_last() =~= v@.take(i - 1));
        }
        if v[i - 1] == '.' {
            return Some(i - 1);
        }
        i = i - 1;
    }
    None
}

/// The file's extension with a leading dot; `.unknown` when the type is unknown.
pub open spec fn dotted_ext(ext: Option<Seq<char>>) -> Seq<char> {
    match ext {
        Some(e) => if e.len() > 0 && e[0] == '.' {
            e
        } else {
            seq!['.'] + e
        },
        None => seq!['.', 'u', 'n', 'k', 'n', 'o', 'w', 'n'],
    }
}

/// Archive extensions, which a name is never given in addition to its own.
pub open spec fn archive_ext(d: Seq<char>) -> bool {
    ||| d == seq!['.', '7', 'z']
    ||| d == seq!['.', 'b', 'z', '2']
    ||| d == seq!['.', 'g', 'z']
    ||| d == seq!['.', 't', 'a', 'r']
    ||| d == seq!['.', 't', 'g', 'z']
    ||| d == seq!['.', 'x', 'z']
    ||| d == seq!['.', 'z', 'i', 'p']
}

/// Whether the name's own extension `fe` stands for the detected one `d`.
pub open spec fn same_ext(fe: Seq<char>, d: Seq<char>) -> bool {
    ||| fe == d
    ||| d == seq!['.', 'j', 'p', 'g'] && fe == seq!['.', 'j', 'p', 'e', 'g']
    ||| d == seq!['.', 't', 'i', 'f'] && fe == seq!['.', 't', 'i', 'f', 'f']
    ||| d == seq!['.', 'e', 'x', 'e'] && fe == seq!['.', 'd', 'l', 'l']
}

/// The name a file is stored under: `name` as it is when it has an extension
/// that matches the detected one (or the type is unknown, or the detected type
/// is an archive), else `name` with the detected extension appended.
pub open spec fn corrected_filename(name: Seq<char>, ext: Option<Seq<char>>) -> Seq<char> {
    let d = dotted_ext(ext);
    let p = last_dot(name);
    if p < 0 {
        name + d
    } else {
        let fe = seq!['.'] + lower_text(name.skip(p + 1));
        if ext is None || same_ext(fe, d) || archive_ext(d) {
            name
        } else {
            name + d
        }
    }
}

fn is_archive_ext(d: &[char]) -> (r: bool)
    ensures
        r == archive_ext(d@),
{
    chars_eq(d, &vec!['.', '7', 'z']) || chars_eq(d, &vec!['.', 'b', 'z', '2']) || chars_eq(
        d,
        &vec!['.', 'g', 'z'],
    ) || chars_eq(d, &vec!['.', 't', 'a', 'r']) || chars_eq(d, &vec!['.', 't', 'g', 'z'])
        || chars_eq(d, &vec!['.', 'x', 'z']) || chars_eq(d, &vec!['.', 'z', 'i', 'p'])
}

fn is_same_ext(fe: &[char], d: &[char]) -> (r: bool)
    ensures
        r == same_ext(fe@, d@),
{
    chars_eq(fe, d) || (chars_eq(d, &vec!['.', 'j', 'p', 'g']) && chars_eq(
        fe,
        &vec!['.', 'j', 'p', 'e', 'g'],
    )) || (chars_eq(d, &vec!['.', 't', 'i', 'f']) && chars_eq(fe, &vec!['.', 't', 'i', 'f', 'f']))
        || (chars_eq(d, &vec!['.', 'e', 'x', 'e']) && chars_eq(fe, &vec!['.', 'd', 'l', 'l']))
}

/// Checks that the detected extension `ext` and the file name agree, and if
/// they do not, returns the name with the extension appended.
pub fn correct_filename(filename: &str, ext: Option<&str>) -> (r: String)
    ensures
        r@ == corrected_filename(filename@, opt_str(ext)),
{
    let dot_ext: Vec<char> = match ext {
        Some(e) => {
            let ev = chars_of(e);
            if ev.len() > 0 && ev[0] == '.' {
                ev
            } else {
                concat(&vec!['.'], &ev)
            }
        },
        None => vec!['.', 'u', 'n', 'k', 'n', 'o', 'w', 'n'],
    };
    assert(dot_ext@ == dotted_ext(opt_str(ext)));
    let name = chars_of(filename);
    let mut out = string_of(&name);
    let found = find_last_dot(&name);
    if found.is_none() {
        push_chars(&mut out, &dot_ext);
        return out;
    }
    let p = found.unwrap();
    let n = name.len();
    assert(p < n);
    let rest = string_of(&sub_chars(&name, p + 1, n));
    assert(rest@ =~= filename@.skip(p + 1));
    let low = to_lowercase(rest.as_str());
    let fe = concat(&vec!['.'], &chars_of(low.as_str()));
    assert(p == last_dot(filename@));
    assert(fe@ == seq!['.'] + lower_text(filename@.skip(p + 1)));
    assert(out@ == filename@);
    if ext.is_none() || is_same_ext(&fe, &dot_ext) || is_archive_ext(&dot_ext) {
        out
    } else {
        push_chars(&mut out, &dot_ext);
        out
    }
}

} // verus!

verus! {

/// The settings that decide under which URL a drive file is served.
#[derive(Clone, Debug)]
pub struct MediaUrlConfig {
    /// The server's own URL.
    pub url: String,
    pub media_proxy: Option<String>,
    pub proxy_remote_files: Option<bool>,
    pub remote_proxy: Option<String>,
    pub ap_file_base_url: Option<String>,
}

#[verifier::external_type_specification]
#[verifier::external_body]
pub struct ExUrl(reqwest::Url);

/// The serialization of a `reqwest::Url` (`url::Url`), the text that `as_str`
/// gives and from which every part of the URL is read.
pub uninterp spec fn url_serialization(u: reqwest::Url) -> Seq<char>;

/// The serialization of the URL that `Url::parse` makes of a text; `None` when it
/// does not parse.
pub uninterp spec fn parsed_url(s: Seq<char>) -> Option<Seq<char>>;

/// The host that `Url::host_str` reads from a serialization.
pub uninterp spec fn url_host(ser: Seq<char>) -> Option<Seq<char>>;

/// The scheme that `Url::scheme` reads from a serialization.
pub uninterp spec fn url_scheme(ser: Seq<char>) -> Seq<char>;

/// The path that `Url::path` reads from a serialization.
pub uninterp spec fn url_path(ser: Seq<char>) -> Seq<char>;

/// The serialization after `Url::set_host`; `None` when the setter fails.
pub uninterp spec fn url_with_host(ser: Seq<char>, host: Option<Seq<char>>) -> Option<Seq<char>>;

/// The serialization after `Url::set_scheme`; `None` when the setter fails.
pub uninterp spec fn url_with_scheme(ser: Seq<char>, scheme: Seq<char>) -> Option<Seq<char>>;

/// The serialization after `Url::set_path`.
pub uninterp spec fn url_with_path(ser: Seq<char>, path: Seq<char>) -> Seq<char>;

/// `reqwest::Url::parse`.
///
/// Trusted: the URL's serialization is named `parsed_url` of the text.
#[verifier::external_body]
fn url_parse(s: &str) -> (r: Option<reqwest::Url>)
    ensures
        match r {
            Some(u) => parsed_url(s@) == Some(url_serialization(u)),
            None => parsed_url(s@) is None,
        },
{
    reqwest::Url::parse(s).ok()
}

/// `Url::host_str`.
///
/// Trusted: the host is named `url_host` of the serialization.
#[verifier::external_body]
fn url_host_str(u: &reqwest::Url) -> (r: Option<String>)
    ensures
        opt_chars(r) == url_host(url_serialization(*u)),
{
    match u.host_str() {
        Some(h) => Some(h.to_string()),
        None => None,
    }
}

/// `Url::scheme`.
///
/// Trusted: the scheme is named `url_scheme` of the serialization.
#[verifier::external_body]
fn url_scheme_of(u: &reqwest::Url) -> (r: String)
    ensures
        r@ == url_scheme(url_serialization(*u)),
{
    u.scheme().to_string()
}

/// `Url::path`.
///
/// Trusted: the path is named `url_path` of the serialization.
#[verifier::external_body]
fn url_path_of(u: &reqwest::Url) -> (r: String)
    ensures
        r@ == url_path(url_serialization(*u)),
{
    u.path().to_string()
}

/// `Url::set_host`, with whether it succeeded.
///
/// Trusted: the new serialization is named `url_with_host`; on failure the setter
/// returns before it changes anything.
#[verifier::external_body]
fn url_set_host(u: &mut reqwest::Url, host: Option<&str>) -> (ok: bool)
    ensures
        ok == (url_with_host(url_serialization(*old(u)), opt_str(host)) is Some),
        url_serialization(*final(u)) == match url_with_host(url_serialization(*old(u)), opt_str(host)) {
            Some(x) => x,
            None => url_serialization(*old(u)),
        },
{
    u.set_host(host).is_ok()
}

/// `Url::set_scheme`, with whether it succeeded.
///
/// Trusted: the new serialization is named `url_with_scheme`; on failure the
/// setter returns before it changes anything.
#[verifier::external_body]
fn url_set_scheme(u: &mut reqwest::Url, scheme: &str) -> (ok: bool)
    ensures
        ok == (url_with_scheme(url_serialization(*old(u)), scheme@) is Some),
        url_serialization(*final(u)) == match url_with_scheme(url_serialization(*old(u)), scheme@) {
            Some(x) => x,
            None => url_serialization(*old(u)),
        },
{
    u.set_scheme(scheme).is_ok()
}

/// `Url::set_path`.
///
/// Trusted: the new serialization is named `url_with_path`. The setter panics
/// only when the serialization would pass `u32::MAX` bytes, which is not stated.
#[verifier::external_body]
fn url_set_path(u: &mut reqwest::Url, path: &str)
    ensures
        url_serialization(*final(u)) == url_with_path(url_serialization(*old(u)), path@),
{
    u.set_path(path)
}

/// `Url::to_string`.
///
/// Trusted: `Display` writes the serialization.
#[verifier::external_body]
fn url_text(u: &reqwest::Url) -> (r: String)
    ensures
        r@ == url_serialization(*u),
{
    u.to_string()
}

/// `url` moved onto the scheme and host of `base`, with the path of `base` put
/// before its own; `None` where a URL does not parse or the host or scheme
/// cannot be set.
pub open spec fn ap_file_url(base: Seq<char>, url: Seq<char>) -> Option<Seq<char>> {
    match (parsed_url(base), parsed_url(url)) {
        (Some(b), Some(u)) => {
            let h = url_with_host(u, url_host(b));
            let u1 = match h {
                Some(x) => x,
                None => u,
            };
            let sc = url_with_scheme(u1, url_scheme(b));
            let u2 = match sc {
                Some(x) => x,
                None => u1,
            };
            let u3 = url_with_path(u2, url_path(b) + url_path(u2));
            if h is Some && sc is Some {
                Some(u3)
            } else {
                None
            }
        },
        _ => None,
    }
}

fn opt_as_str(o: &Option<String>) -> (r: Option<&str>)
    ensures
        opt_str(r) == opt_chars(*o),
{
    match o {
        Some(s) => Some(s.as_str()),
        None => None,
    }
}

/// `url` rebased on `base` (see `ap_file_url`).
fn rebase_url(base: &str, url: &str) -> (r: Option<String>)
    ensures
        opt_chars(r) == ap_file_url(base@, url@),
{
    let b = match url_parse(base) {
        Some(b) => b,
        None => return None,
    };
    let mut u = match url_parse(url) {
        Some(u) => u,
        None => return None,
    };
    let host = url_host_str(&b);
    let host_ok = url_set_host(&mut u, opt_as_str(&host));
    let scheme = url_scheme_of(&b);
    let scheme_ok = url_set_scheme(&mut u, scheme.as_str());
    let mut path = url_path_of(&b);
    let own = url_path_of(&u);
    push_chars(&mut path, &chars_of(own.as_str()));
    url_set_path(&mut u, path.as_str());
    if host_ok && scheme_ok {
        Some(url_text(&u))
    } else {
        None
    }
}

pub open spec fn image_mode() -> Seq<char> {
    seq!['i', 'm', 'a', 'g', 'e']
}

pub open spec fn static_mode() -> Seq<char> {
    seq!['s', 't', 'a', 't', 'i', 'c']
}

pub open spec fn avatar_mode() -> Seq<char> {
    seq!['a', 'v', 'a', 't', 'a', 'r']
}

pub open spec fn webp_query() -> Seq<char> {
    seq!['.', 'w', 'e', 'b', 'p', '?', 'u', 'r', 'l', '=']
}

/// `url` through the media proxy: `{proxy}/{mode or image}.webp?url={url}`,
/// followed by `&{mode}=1` when a mode is given; `url` itself without a proxy.
pub open spec fn proxied_url(media_proxy: Option<Seq<char>>, url: Seq<char>, mode: Option<Seq<char>>) -> Seq<char> {
    match media_proxy {
        Some(p) => {
            let name = match mode {
                Some(m) => m,
                None => image_mode(),
            };
            let tail = match mode {
                Some(m) => seq!['&'] + m + seq!['=', '1'],
                None => Seq::<char>::empty(),
            };
            p + seq!['/'] + name + webp_query() + url + tail
        },
        None => url,
    }
}

/// Through a media proxy, a URL becomes `{proxy}/image.webp?url={url}`, or with
/// a mode `{proxy}/{mode}.webp?url={url}&{mode}=1`; without one it stays as it is.
pub proof fn lemma_proxied_url(media_proxy: Option<Seq<char>>, url: Seq<char>, mode: Option<Seq<char>>)
    ensures
        media_proxy is None ==> proxied_url(media_proxy, url, mode) == url,
        media_proxy is Some && mode is None ==> proxied_url(media_proxy, url, mode) == media_proxy->0
            + seq!['/', 'i', 'm', 'a', 'g', 'e', '.', 'w', 'e', 'b', 'p', '?', 'u', 'r', 'l', '='] + url,
        media_proxy is Some && mode is Some ==> proxied_url(media_proxy, url, mode) == media_proxy->0 + seq!['/']
            + mode->0 + seq!['.', 'w', 'e', 'b', 'p', '?', 'u', 'r', 'l', '='] + url + seq!['&'] + mode->0 + seq!['=', '1'],
{
    if media_proxy is Some && mode is None {
        assert(media_proxy->0 + seq!['/'] + seq!['i', 'm', 'a', 'g', 'e'] + seq!['.', 'w', 'e', 'b', 'p', '?', 'u', 'r', 'l', '='] + url
            + Seq::<char>::empty() =~= media_proxy->0
            + seq!['/', 'i', 'm', 'a', 'g', 'e', '.', 'w', 'e', 'b', 'p', '?', 'u', 'r', 'l', '='] + url);
    }
    if media_proxy is Some && mode is Some {
        let p = media_proxy->0;
        let m = mode->0;
        assert(p + seq!['/'] + m + seq!['.', 'w', 'e', 'b', 'p', '?', 'u', 'r', 'l', '='] + url + (seq!['&'] + m + seq!['=', '1'])
            =~= p + seq!['/'] + m + seq!['.', 'w', 'e', 'b', 'p', '?', 'u', 'r', 'l', '='] + url + seq!['&'] + m + seq!['=', '1']);
    }
}

/// The URL of `url` through the configured media proxy.
pub fn get_proxied_url(config: &MediaUrlConfig, url: &str, mode: Option<&str>) -> (r: String)
    ensures
        r@ == proxied_url(opt_chars(config.media_proxy), url@, opt_str(mode)),
        config.media_proxy is None ==> r@ == url@,
        config.media_proxy is Some && mode is None ==> r@ == config.media_proxy->0@
            + seq!['/', 'i', 'm', 'a', 'g', 'e', '.', 'w', 'e', 'b', 'p', '?', 'u', 'r', 'l', '='] + url@,
        config.media_proxy is Some && mode is Some ==> r@ == config.media_proxy->0@ + seq!['/'] + mode->0@
            + seq!['.', 'w', 'e', 'b', 'p', '?', 'u', 'r', 'l', '='] + url@ + seq!['&'] + mode->0@ + seq!['=', '1'],
{
    proof {
        lemma_proxied_url(opt_chars(config.media_proxy), url@, opt_str(mode));
    }
    match &config.media_proxy {
        Some(p) => {
            let mut s = string_of(&chars_of(p.as_str()));
            push_chars(&mut s, &vec!['/']);
            match mode {
                Some(m) => push_chars(&mut s, &chars_of(m)),
                None => push_chars(&mut s, &vec!['i', 'm', 'a', 'g', 'e']),
            }
            push_chars(&mut s, &vec!['.', 'w', 'e', 'b', 'p', '?', 'u', 'r', 'l', '=']);
            push_chars(&mut s, &chars_of(url));
            if let Some(m) = mode {
                push_chars(&mut s, &vec!['&']);
                push_chars(&mut s, &chars_of(m));
                push_chars(&mut s, &vec!['=', '1']);
            }
            s
        },
        None => string_of(&chars_of(url)),
    }
}

/// Image types of which a thumbnail can be made.
pub open spec fn convertible_type(m: Seq<char>) -> bool {
    ||| m == seq!['i', 'm', 'a', 'g', 'e', '/', 'j', 'p', 'e', 'g']
    ||| m == seq!['i', 'm', 'a', 'g', 'e', '/', 't', 'i', 'f', 'f']
    ||| m == seq!['i', 'm', 'a', 'g', 'e', '/', 'p', 'n', 'g']
    ||| m == seq!['i', 'm', 'a', 'g', 'e', '/', 'g', 'i', 'f']
    ||| m == seq!['i', 'm', 'a', 'g', 'e', '/', 'a', 'p', 'n', 'g']
    ||| m == seq!['i', 'm', 'a', 'g', 'e', '/', 'v', 'n', 'd', '.', 'm', 'o', 'z', 'i', 'l', 'l', 'a', '.', 'a', 'p', 'n', 'g']
    ||| m == seq!['i', 'm', 'a', 'g', 'e', '/', 'w', 'e', 'b', 'p']
    ||| m == seq!['i', 'm', 'a', 'g', 'e', '/', 'a', 'v', 'i', 'f']
    ||| m == seq!['i', 'm', 'a', 'g', 'e', '/', 's', 'v', 'g', '+', 'x', 'm', 'l']
}

fn is_convertible_type(m: &[char]) -> (r: bool)
    ensures
        r == convertible_type(m@),
{
    chars_eq(m, &vec!['i', 'm', 'a', 'g', 'e', '/', 'j', 'p', 'e', 'g'])
        || chars_eq(m, &vec!['i', 'm', 'a', 'g', 'e', '/', 't', 'i', 'f', 'f'])
        || chars_eq(m, &vec!['i', 'm', 'a', 'g', 'e', '/', 'p', 'n', 'g'])
        || chars_eq(m, &vec!['i', 'm', 'a', 'g', 'e', '/', 'g', 'i', 'f'])
        || chars_eq(m, &vec!['i', 'm', 'a', 'g', 'e', '/', 'a', 'p', 'n', 'g'])
        || chars_eq(
        m,
        &vec![
            'i', 'm', 'a', 'g', 'e', '/', 'v', 'n', 'd', '.', 'm', 'o', 'z', 'i', 'l', 'l', 'a',
            '.', 'a', 'p', 'n', 'g',
        ],
    ) || chars_eq(m, &vec!['i', 'm', 'a', 'g', 'e', '/', 'w', 'e', 'b', 'p'])
        || chars_eq(m, &vec!['i', 'm', 'a', 'g', 'e', '/', 'a', 'v', 'i', 'f'])
        || chars_eq(m, &vec!['i', 'm', 'a', 'g', 'e', '/', 's', 'v', 'g', '+', 'x', 'm', 'l'])
}

/// The file's own URL: its web-public variant where there is one.
pub open spec fn own_url(f: MiDriveFile) -> Seq<char> {
    match f.webpublic_url {
        Some(w) => w@,
        None => f.url@,
    }
}

/// The thumbnail URL of a file: a video's own thumbnail; a remote file through
/// the media proxy (or the local proxy when it is a link and remote files are
/// proxied); else the stored thumbnail, or the file itself for an image type
/// of which thumbnails are made.
pub open spec fn thumbnail_url(c: MediaUrlConfig, f: MiDriveFile) -> Option<Seq<char>> {
    if is_prefix(seq!['v', 'i', 'd', 'e', 'o'], f.mime_type@) {
        opt_chars(f.thumbnail_url)
    } else if f.uri is Some && f.user_host is Some && c.media_proxy is Some {
        Some(proxied_url(opt_chars(c.media_proxy), f.uri->0@, Some(static_mode())))
    } else if f.uri is Some && f.is_link && c.proxy_remote_files == Some(true) {
        Some(proxied_url(opt_chars(c.media_proxy), f.uri->0@, Some(static_mode())))
    } else if f.thumbnail_url is Some {
        opt_chars(f.thumbnail_url)
    } else if convertible_type(f.mime_type@) {
        Some(own_url(f))
    } else {
        None
    }
}

fn clone_opt(o: &Option<String>) -> (r: Option<String>)
    ensures
        opt_chars(r) == opt_chars(*o),
{
    match o {
        Some(s) => Some(s.clone()),
        None => None,
    }
}

/// The thumbnail URL of `file` (see `thumbnail_url`).
pub fn get_thumbnail_url(config: &MediaUrlConfig, file: &MiDriveFile) -> (r: Option<String>)
    ensures
        opt_chars(r) == thumbnail_url(*config, *file),
        is_prefix(seq!['v', 'i', 'd', 'e', 'o'], file.mime_type@) ==> opt_chars(r) == opt_chars(file.thumbnail_url),
        !is_prefix(seq!['v', 'i', 'd', 'e', 'o'], file.mime_type@) && file.uri is None ==> opt_chars(r) == (match file.thumbnail_url {
            Some(t) => Some(t@),
            None => if convertible_type(file.mime_type@) {
                Some(match file.webpublic_url {
                    Some(w) => w@,
                    None => file.url@,
                })
            } else {
                None
            },
        }),
        !is_prefix(seq!['v', 'i', 'd', 'e', 'o'], file.mime_type@) && file.uri is Some && file.user_host is Some
            && config.media_proxy is Some ==> r is Some
            && r->0@ == proxied_url(opt_chars(config.media_proxy), file.uri->0@, Some(seq!['s', 't', 'a', 't', 'i', 'c'])),
{
    let mime = chars_of(file.mime_type.as_str());
    if has_prefix(&mime, &vec!['v', 'i', 'd', 'e', 'o']) {
        return clone_opt(&file.thumbnail_url);
    }
    let proxy_remote = match config.proxy_remote_files {
        Some(b) => b,
        None => false,
    };
    if file.uri.is_some() && ((file.user_host.is_some() && config.media_proxy.is_some())
        || (file.is_link && proxy_remote)) {
        let uri = file.uri.as_ref().unwrap();
        proof {
            reveal_strlit("static");
        }
        return Some(get_proxied_url(config, uri.as_str(), Some("static")));
    }
    if file.thumbnail_url.is_some() {
        return clone_opt(&file.thumbnail_url);
    }
    if is_convertible_type(&mime) {
        match &file.webpublic_url {
            Some(w) => Some(w.clone()),
            None => Some(file.url.clone()),
        }
    } else {
        None
    }
}

} // verus!

verus! {

/// A web-public access key that names a file (older keys hold a storage path).
pub open spec fn usable_key(k: Option<String>) -> bool {
    k is Some && !has_char(k->0@, '/')
}

/// The URL under which a file is published: a remote file through the remote
/// proxy (for the plain mode) or the media proxy; an expired remote link
/// through the local `/files/` route; an avatar through the media proxy; an
/// ActivityPub copy under the configured file base URL; else its own URL.
pub open spec fn public_url(c: MediaUrlConfig, f: MiDriveFile, mode: Option<Seq<char>>, ap: bool) -> Seq<char> {
    let remote = f.uri is Some && f.user_host is Some;
    let key = f.webpublic_access_key;
    if remote && mode is None && c.remote_proxy is Some && usable_key(key) {
        let rp = c.remote_proxy->0@;
        if is_prefix(seq!['/'], rp) {
            c.url@ + rp + seq!['/'] + key->0@
        } else {
            rp + seq!['/'] + key->0@
        }
    } else if remote && c.media_proxy is Some {
        proxied_url(opt_chars(c.media_proxy), f.uri->0@, mode)
    } else if f.uri is Some && f.is_link && c.proxy_remote_files == Some(true) && usable_key(key) {
        if mode == Some(avatar_mode()) {
            proxied_url(opt_chars(c.media_proxy), f.uri->0@, Some(avatar_mode()))
        } else {
            c.url@ + seq!['/', 'f', 'i', 'l', 'e', 's', '/'] + key->0@
        }
    } else if mode == Some(avatar_mode()) {
        proxied_url(opt_chars(c.media_proxy), f.uri->0@, Some(avatar_mode()))
    } else if ap && c.ap_file_base_url is Some {
        match ap_file_url(c.ap_file_base_url->0@, own_url(f)) {
            Some(r) => r,
            None => own_url(f),
        }
    } else {
        own_url(f)
    }
}

/// A linked remote file served through this server's own `/files/` route: it
/// has a remote URI and is only linked, remote files are proxied locally, its
/// access key holds no `/`, no media or remote proxy is configured, and it is
/// not asked for as an avatar.
pub open spec fn local_files_route(c: MediaUrlConfig, f: MiDriveFile, mode: Option<Seq<char>>) -> bool {
    &&& f.uri is Some
    &&& f.is_link
    &&& c.proxy_remote_files == Some(true)
    &&& f.webpublic_access_key matches Some(k) && (forall|i: int| 0 <= i < k@.len() ==> k@[i] != '/')
    &&& c.media_proxy is None
    &&& c.remote_proxy is None
    &&& mode != Some(seq!['a', 'v', 'a', 't', 'a', 'r'])
}

/// Such a file is published as the server's URL, `/files/` and its access key,
/// whether or not the copy is for ActivityPub.
pub proof fn lemma_public_url_local_files(c: MediaUrlConfig, f: MiDriveFile, mode: Option<Seq<char>>, ap: bool)
    ensures
        local_files_route(c, f, mode) ==> public_url(c, f, mode, ap) == c.url@ + seq!['/', 'f', 'i', 'l', 'e', 's', '/']
            + f.webpublic_access_key->0@,
{
    if local_files_route(c, f, mode) {
        let k = f.webpublic_access_key->0@;
        assert(!has_char(k, '/'));
        assert(usable_key(f.webpublic_access_key));
    }
}

/// A remote file asked for as it is, served through the configured remote
/// proxy under its access key (which holds no `/`).
pub open spec fn remote_proxy_route(c: MediaUrlConfig, f: MiDriveFile, mode: Option<Seq<char>>) -> bool {
    &&& f.uri is Some
    &&& f.user_host is Some
    &&& mode is None
    &&& c.remote_proxy is Some
    &&& f.webpublic_access_key matches Some(k) && (forall|i: int| 0 <= i < k@.len() ==> k@[i] != '/')
}

/// Such a file is published as the remote proxy (put after the server's URL
/// when it is a path starting with `/`), `/` and its access key.
pub proof fn lemma_public_url_remote_proxy(c: MediaUrlConfig, f: MiDriveFile, mode: Option<Seq<char>>, ap: bool)
    ensures
        remote_proxy_route(c, f, mode) ==> public_url(c, f, mode, ap) == (if c.remote_proxy->0@.len() > 0
            && c.remote_proxy->0@[0] == '/' {
            c.url@ + c.remote_proxy->0@
        } else {
            c.remote_proxy->0@
        }) + seq!['/'] + f.webpublic_access_key->0@,
{
    if remote_proxy_route(c, f, mode) {
        let k = f.webpublic_access_key->0@;
        assert(!has_char(k, '/'));
        let rp = c.remote_proxy->0@;
        if rp.len() > 0 && rp[0] == '/' {
            assert(rp.take(1) =~= seq!['/']);
            assert(is_prefix(seq!['/'], rp));
        } else {
            assert(!is_prefix(seq!['/'], rp)) by {
                if is_prefix(seq!['/'], rp) {
                    assert(rp[0] == seq!['/'][0]);
                }
            }
        }
    }
}

fn key_usable(k: &Option<String>) -> (r: bool)
    ensures
        r == usable_key(*k),
{
    match k {
        Some(s) => !contains_char(&chars_of(s.as_str()), '/'),
        None => false,
    }
}

/// The published URL of `file` (see `public_url`). An avatar needs the file's
/// remote URI.
pub fn get_public_url(config: &MediaUrlConfig, file: &MiDriveFile, mode: Option<&str>, ap: bool) -> (r: String)
    requires
        opt_str(mode) == Some(avatar_mode()) ==> file.uri is Some,
    ensures
        r@ == public_url(*config, *file, opt_str(mode), ap),
        local_files_route(*config, *file, opt_str(mode)) ==> r@ == config.url@ + seq!['/', 'f', 'i', 'l', 'e', 's', '/']
            + file.webpublic_access_key->0@,
        remote_proxy_route(*config, *file, opt_str(mode)) ==> r@ == (if config.remote_proxy->0@.len() > 0
            && config.remote_proxy->0@[0] == '/' {
            config.url@ + config.remote_proxy->0@
        } else {
            config.remote_proxy->0@
        }) + seq!['/'] + file.webpublic_access_key->0@,
        file.uri is None && mode is None && !ap ==> r@ == (match file.webpublic_url {
            Some(w) => w@,
            None => file.url@,
        }),
{
    proof {
        lemma_public_url_local_files(*config, *file, opt_str(mode), ap);
        lemma_public_url_remote_proxy(*config, *file, opt_str(mode), ap);
    }
    let is_avatar = match mode {
        Some(m) => chars_eq(&chars_of(m), &vec!['a', 'v', 'a', 't', 'a', 'r']),
        None => false,
    };
    let remote = file.uri.is_some() && file.user_host.is_some();
    let key_ok = key_usable(&file.webpublic_access_key);
    if remote && mode.is_none() && config.remote_proxy.is_some() && key_ok {
        let rp = config.remote_proxy.as_ref().unwrap();
        let key = file.webpublic_access_key.as_ref().unwrap();
        let rpv = chars_of(rp.as_str());
        let mut s = String::new();
        let slash = vec!['/'];
        assert(slash@ =~= seq!['/']);
        let rooted = has_prefix(&rpv, &slash);
        assert(rooted == is_prefix(seq!['/'], config.remote_proxy->0@));
        assert(usable_key(file.webpublic_access_key));
        if rooted {
            push_chars(&mut s, &chars_of(config.url.as_str()));
        }
        push_chars(&mut s, &rpv);
        push_chars(&mut s, &vec!['/']);
        push_chars(&mut s, &chars_of(key.as_str()));
        proof {
            if rooted {
                assert(s@ =~= config.url@ + rp@ + seq!['/'] + key@);
            } else {
                assert(s@ =~= rp@ + seq!['/'] + key@);
            }
        }
        return s;
    }
    if remote && config.media_proxy.is_some() {
        return get_proxied_url(config, file.uri.as_ref().unwrap().as_str(), mode);
    }
    let proxy_remote = match config.proxy_remote_files {
        Some(b) => b,
        None => false,
    };
    if file.uri.is_some() && file.is_link && proxy_remote && key_ok {
        if is_avatar {
            proof {
                reveal_strlit("avatar");
            }
            return get_proxied_url(config, file.uri.as_ref().unwrap().as_str(), Some("avatar"));
        }
        let key = file.webpublic_access_key.as_ref().unwrap();
        let mut s = string_of(&chars_of(config.url.as_str()));
        push_chars(&mut s, &vec!['/', 'f', 'i', 'l', 'e', 's', '/']);
        push_chars(&mut s, &chars_of(key.as_str()));
        return s;
    }
    let url: &String = match &file.webpublic_url {
        Some(w) => w,
        None => &file.url,
    };
    if is_avatar {
        proof {
            reveal_strlit("avatar");
        }
        return get_proxied_url(config, file.uri.as_ref().unwrap().as_str(), Some("avatar"));
    }
    if ap && config.ap_file_base_url.is_some() {
        let base = config.ap_file_base_url.as_ref().unwrap();
        match rebase_url(base.as_str(), url.as_str()) {
            Some(r) => {
                return r;
            },
            None => {},
        }
    }
    url.clone()
}

} // verus!

verus! {

/// Who uploads a file: the system, a local user or a remote user.
#[derive(Clone, Copy, Debug, PartialEq, Eq, Structural)]
pub enum Uploader {
    System,
    Local,
    Remote,
}

/// For which users' files sensitive media detection runs.
#[derive(Clone, Copy, Debug, PartialEq, Eq, Structural)]
pub enum SensitiveMediaDetection {
    Off,
    All,
    Local,
    Remote,
}

/// How readily a file is judged sensitive.
#[derive(Clone, Copy, Debug, PartialEq, Eq, Structural)]
pub enum SensitiveMediaDetectionSensitivity {
    VeryHigh,
    High,
    Medium,
    Low,
    VeryLow,
}

/// Why a file may not be registered.
#[derive(Clone, Copy, Debug, PartialEq, Eq, Structural)]
pub enum RegisterPreflightError {
    InternalServerError,
    FileSizeLimitOver,
    ExtTooLarge,
    BadExt,
    NoFreeSpace,
    FolderNotFound,
}

/// What the checks before registering a file decide. The detection threshold
/// is given in tenths (see `sensitive_threshold_tenths`).
#[derive(Clone, Debug)]
pub struct RegisterPreflightResult {
    pub skip_sensitive_detection: bool,
    pub sensitive_threshold_tenths: u32,
    pub enable_sensitive_media_detection_for_videos: bool,
    pub detected_name: String,
}

/// Sensitive media detection is skipped for files of the system, of users whose
/// role marks everything sensitive anyway, and of users outside the detection's
/// scope.
pub open spec fn detection_skipped(u: Uploader, always_mark_nsfw: bool, d: SensitiveMediaDetection) -> bool {
    ||| u == Uploader::System
    ||| always_mark_nsfw
    ||| d == SensitiveMediaDetection::Off
    ||| d == SensitiveMediaDetection::Local && u == Uploader::Remote
    ||| d == SensitiveMediaDetection::Remote && u == Uploader::Local
}

/// Whether sensitive media detection is skipped (see `detection_skipped`).
pub fn skip_sensitive_detection(
    uploader: Uploader,
    always_mark_nsfw: bool,
    detection: SensitiveMediaDetection,
) -> (r: bool)
    ensures
        r == detection_skipped(uploader, always_mark_nsfw, detection),
{
    let mut skip = match uploader {
        Uploader::System => true,
        _ => always_mark_nsfw,
    };
    match detection {
        SensitiveMediaDetection::Off => {
            skip = true;
        },
        SensitiveMediaDetection::Local => {
            if uploader == Uploader::Remote {
                skip = true;
            }
        },
        SensitiveMediaDetection::Remote => {
            if uploader == Uploader::Local {
                skip = true;
            }
        },
        SensitiveMediaDetection::All => {},
    }
    skip
}

/// The detection threshold in tenths: 1, 3, 5, 7 or 9 from very high to very
/// low sensitivity.
pub open spec fn threshold_tenths(s: SensitiveMediaDetectionSensitivity) -> u32 {
    match s {
        SensitiveMediaDetectionSensitivity::VeryHigh => 1,
        SensitiveMediaDetectionSensitivity::High => 3,
        SensitiveMediaDetectionSensitivity::Medium => 5,
        SensitiveMediaDetectionSensitivity::Low => 7,
        SensitiveMediaDetectionSensitivity::VeryLow => 9,
    }
}

/// The detection threshold, in tenths, for a sensitivity setting.
pub fn sensitive_threshold_tenths(s: SensitiveMediaDetectionSensitivity) -> (r: u32)
    ensures
        r == threshold_tenths(s),
{
    match s {
        SensitiveMediaDetectionSensitivity::VeryHigh => 1,
        SensitiveMediaDetectionSensitivity::High => 3,
        SensitiveMediaDetectionSensitivity::Medium => 5,
        SensitiveMediaDetectionSensitivity::Low => 7,
        SensitiveMediaDetectionSensitivity::VeryLow => 9,
    }
}

/// `x` MiB in bytes, saturated to the range of `i64`.
pub open spec fn mib_saturated(x: i64) -> int {
    let b = x * 1048576;
    if b > i64::MAX {
        i64::MAX as int
    } else if b < i64::MIN {
        i64::MIN as int
    } else {
        b
    }
}

fn mib_saturating(x: i64) -> (r: i64)
    ensures
        r == mib_saturated(x),
{
    match x.checked_mul(1048576) {
        Some(b) => b,
        None => if x > 0 {
            i64::MAX
        } else {
            i64::MIN
        },
    }
}

pub open spec fn untitled() -> Seq<char> {
    seq!['u', 'n', 't', 'i', 't', 'l', 'e', 'd']
}

/// The checks on the file itself: the uploader's size limit (local users only),
/// the extension's length (at most 50 bytes) and form (a dot, and a valid file
/// name), then the name it is stored under.
pub open spec fn file_check(
    u: Uploader,
    file_size_limit_mb: Option<i64>,
    size: i64,
    name: Seq<char>,
    ext: Option<Seq<char>>,
) -> Result<Seq<char>, RegisterPreflightError> {
    if u == Uploader::Local && size > mib_saturated(file_size_limit_mb->0) {
        Err(RegisterPreflightError::FileSizeLimitOver)
    } else if ext is Some && vstd::utf8::encode_utf8(ext->0).len() > 50 {
        Err(RegisterPreflightError::ExtTooLarge)
    } else if ext is Some && (!has_char(ext->0, '.') || !valid_file_name(ext->0)) {
        Err(RegisterPreflightError::BadExt)
    } else {
        Ok(corrected_filename(if valid_file_name(name) { name } else { untitled() }, ext))
    }
}

/// The checks on the file (see `file_check`); gives the name it is stored under.
pub fn check_file(
    uploader: Uploader,
    file_size_limit_mb: Option<i64>,
    size: i64,
    name: &str,
    ext: Option<&str>,
) -> (r: Result<String, RegisterPreflightError>)
    requires
        uploader == Uploader::Local ==> file_size_limit_mb is Some,
    ensures
        match (r, file_check(uploader, file_size_limit_mb, size, name@, opt_str(ext))) {
            (Ok(a), Ok(b)) => a@ == b,
            (Err(a), Err(b)) => a == b,
            _ => false,
        },
{
    if uploader == Uploader::Local {
        let limit = file_size_limit_mb.unwrap();
        if size > mib_saturating(limit) {
            return Err(RegisterPreflightError::FileSizeLimitOver);
        }
    }
    if let Some(e) = ext {
        let ev = chars_of(e);
        if !utf8_len_at_most(&ev, 50) {
            return Err(RegisterPreflightError::ExtTooLarge);
        }
        if !contains_char(&ev, '.') || !validate_file_name(e) {
            return Err(RegisterPreflightError::BadExt);
        }
    }
    assert(ext is Some ==> !(vstd::utf8::encode_utf8(ext->0@).len() > 50));
    assert(ext is Some ==> has_char(ext->0@, '.') && valid_file_name(ext->0@));
    if validate_file_name(name) {
        Ok(correct_filename(name, ext))
    } else {
        let u = "untitled";
        proof {
            reveal_strlit("untitled");
            assert(u@ =~= untitled());
        }
        Ok(correct_filename(u, ext))
    }
}

/// Whether the drive's capacity check runs: for a stored (not linked) file of a
/// user.
pub open spec fn capacity_checked(u: Uploader, is_link: bool) -> bool {
    !is_link && u != Uploader::System
}

/// The checks on where the file goes: the user's drive capacity, then the
/// requested folder.
pub open spec fn storage_check(
    u: Uploader,
    is_link: bool,
    usage: i64,
    drive_capacity_mb: Option<i64>,
    size: i64,
    folder_requested: bool,
    folder_found: bool,
) -> Result<(), RegisterPreflightError> {
    let cap = match drive_capacity_mb {
        Some(c) => c as int,
        None => 0,
    };
    if capacity_checked(u, is_link) && 1048576 * cap < usage + size {
        Err(RegisterPreflightError::NoFreeSpace)
    } else if folder_requested && !folder_found {
        Err(RegisterPreflightError::FolderNotFound)
    } else {
        Ok(())
    }
}

/// Whether the capacity check's arithmetic stays within `i64`.
pub open spec fn capacity_in_range(usage: i64, drive_capacity_mb: Option<i64>, size: i64) -> bool {
    let cap = match drive_capacity_mb {
        Some(c) => c as int,
        None => 0,
    };
    &&& i64::MIN <= 1048576 * cap <= i64::MAX
    &&& i64::MIN <= usage + size <= i64::MAX
}

/// The checks on where the file goes (see `storage_check`).
pub fn check_storage(
    uploader: Uploader,
    is_link: bool,
    usage: i64,
    drive_capacity_mb: Option<i64>,
    size: i64,
    folder_requested: bool,
    folder_found: bool,
) -> (r: Result<(), RegisterPreflightError>)
    requires
        capacity_checked(uploader, is_link) ==> capacity_in_range(usage, drive_capacity_mb, size),
    ensures
        r == storage_check(
            uploader,
            is_link,
            usage,
            drive_capacity_mb,
            size,
            folder_requested,
            folder_found,
        ),
{
    if !is_link && uploader != Uploader::System {
        let cap = match drive_capacity_mb {
            Some(c) => c,
            None => 0,
        };
        let drive_capacity = 1048576 * cap;
        if drive_capacity < usage + size {
            return Err(RegisterPreflightError::NoFreeSpace);
        }
    }
    if folder_requested && !folder_found {
        return Err(RegisterPreflightError::FolderNotFound);
    }
    Ok(())
}

} // verus!

verus! {

/// The uploader's profile settings on sensitive media.
#[derive(Clone, Copy, Debug, PartialEq, Eq, Structural)]
pub struct SensitivityProfile {
    pub always_mark_nsfw: bool,
    pub auto_sensitive: bool,
}

/// Whether a new file is marked sensitive: when it was sent as sensitive, when
/// its owner's profile or role marks every file, when its owner's host is
/// media-silenced, or when it may be sensitive and the owner or the server
/// marks such files automatically.
pub open spec fn marked_sensitive(
    sensitive: bool,
    profile: Option<SensitivityProfile>,
    uploader_host: Option<Option<Seq<char>>>,
    silenced_hosts: Seq<Seq<char>>,
    maybe_sensitive: bool,
    set_sensitive_flag_automatically: bool,
    role_always_mark_nsfw: bool,
) -> bool {
    ||| sensitive
    ||| profile matches Some(p) && p.always_mark_nsfw
    ||| uploader_host matches Some(h) && silenced(silenced_hosts, h)
    ||| maybe_sensitive && (profile matches Some(p) && p.auto_sensitive)
    ||| maybe_sensitive && set_sensitive_flag_automatically
    ||| role_always_mark_nsfw
}

/// Whether a new file is marked sensitive (see `marked_sensitive`). The
/// uploader's host is `None` for the system and `Some(None)` for a local user.
pub fn file_marked_sensitive(
    sensitive: bool,
    profile: Option<SensitivityProfile>,
    uploader_host: Option<Option<&str>>,
    silenced_hosts: &Vec<String>,
    maybe_sensitive: bool,
    set_sensitive_flag_automatically: bool,
    role_always_mark_nsfw: bool,
) -> (r: bool)
    ensures
        r == marked_sensitive(
            sensitive,
            profile,
            match uploader_host {
                Some(h) => Some(opt_str(h)),
                None => None,
            },
            silenced_hosts@.map_values(|s: String| s@),
            maybe_sensitive,
            set_sensitive_flag_automatically,
            role_always_mark_nsfw,
        ),
{
    let mut s = sensitive;
    if let Some(p) = profile {
        if p.always_mark_nsfw {
            s = true;
        }
    }
    if let Some(h) = uploader_host {
        if is_media_silenced_host(silenced_hosts, h) {
            s = true;
        }
    }
    let auto = match profile {
        Some(p) => p.auto_sensitive,
        None => false,
    };
    if maybe_sensitive && auto {
        s = true;
    }
    if maybe_sensitive && set_sensitive_flag_automatically {
        s = true;
    }
    if role_always_mark_nsfw {
        s = true;
    }
    s
}

/// The properties a new file starts with: a width or height of 0 is unknown.
pub fn initial_properties(width: u32, height: u32) -> (r: FileProperties)
    ensures
        r.width == (if width != 0 { Some(width) } else { None::<u32> }),
        r.height == (if height != 0 { Some(height) } else { None::<u32> }),
        r.orientation is None,
{
    FileProperties {
        width: if width != 0 { Some(width) } else { None },
        height: if height != 0 { Some(height) } else { None },
        orientation: None,
    }
}

/// The URL of a stored file and of its thumbnail: the base URL followed by the
/// access key, and by the thumbnail's key where there is one.
pub fn stored_file_urls(base_url: &str, access_key: &str, thumbnail_key: Option<&str>) -> (r: (
    String,
    Option<String>,
))
    ensures
        r.0@ == base_url@ + access_key@,
        opt_chars(r.1) == (match thumbnail_key {
            Some(k) => Some(base_url@ + k@),
            None => None,
        }),
{
    let base = chars_of(base_url);
    let mut url = string_of(&base);
    push_chars(&mut url, &chars_of(access_key));
    let thumbnail = match thumbnail_key {
        Some(k) => {
            let mut t = string_of(&base);
            push_chars(&mut t, &chars_of(k));
            Some(t)
        },
        None => None,
    };
    (url, thumbnail)
}

/// The 32-bit size column of a file: its size, capped at `i32::MAX`.
pub fn size_column(size: i64) -> (r: i32)
    requires
        size >= i32::MIN,
    ensures
        r == (if size > i32::MAX { i32::MAX as int } else { size as int }),
{
    if size > i32::MAX as i64 {
        i32::MAX
    } else {
        size as i32
    }
}

} // verus!

verus! {

/// Showing a file's properties publicly twice changes nothing more: the public
/// form has no orientation left to apply.
pub proof fn lemma_public_properties_idempotent(p: FileProperties)
    ensures
        public_properties(public_properties(p)) == public_properties(p),
{
}

/// An extension as file-type detection gives it: lower-case ASCII letters and
/// digits, at least one, after an optional leading dot.
pub open spec fn file_type_ext(e: Seq<char>) -> bool {
    &&& ext_body(e).len() > 0
    &&& forall|i: int| 0 <= i < ext_body(e).len() ==> ext_char(#[trigger] ext_body(e)[i])
}

/// An extension without its leading dot, if it has one.
pub open spec fn ext_body(e: Seq<char>) -> Seq<char> {
    if e.len() > 0 && e[0] == '.' {
        e.skip(1)
    } else {
        e
    }
}

/// A lower-case ASCII letter or digit.
pub open spec fn ext_char(c: char) -> bool {
    ('a' <= c && c <= 'z') || ('0' <= c && c <= '9')
}

proof fn lemma_dotted_ext_body(ext: Option<Seq<char>>)
    requires
        ext matches Some(e) ==> file_type_ext(e),
    ensures
        dotted_ext(ext) == seq!['.'] + dotted_ext(ext).skip(1),
        dotted_ext(ext).skip(1).len() > 0,
        forall|i: int| 0 <= i < dotted_ext(ext).skip(1).len() ==> ext_char(#[trigger] dotted_ext(ext).skip(1)[i]),
{
    let d = dotted_ext(ext);
    let body = d.skip(1);
    assert(d =~= seq!['.'] + body);
    match ext {
        Some(e) => {
            let fb = ext_body(e);
            assert(body =~= fb);
            assert forall|i: int| 0 <= i < body.len() implies ext_char(#[trigger] body[i]) by {
                assert(ext_char(fb[i]));
            }
        },
        None => {
            assert(body =~= seq!['u', 'n', 'k', 'n', 'o', 'w', 'n']);
        },
    }
}

/// Correcting a file name twice changes nothing more: a name that has been
/// corrected for a detected extension (or for an unknown type) is kept as it is.
pub proof fn lemma_corrected_filename_idempotent(name: Seq<char>, ext: Option<Seq<char>>)
    requires
        ext matches Some(e) ==> file_type_ext(e),
    ensures
        corrected_filename(corrected_filename(name, ext), ext) == corrected_filename(name, ext),
{
    let r = corrected_filename(name, ext);
    let d = dotted_ext(ext);
    if r != name {
        lemma_dotted_ext_body(ext);
        let body = d.skip(1);
        assert(r == name + d);
        assert forall|i: int| 0 <= i < body.len() implies #[trigger] body[i] != '.' && (body[i] as u32) < 128 && !(65 <= (body[i] as u32) <= 90) by {
            assert(ext_char(body[i]));
        }
        assert(r =~= name + seq!['.'] + body);
        lemma_last_dot_suffix(name, body);
        assert(r.skip(name.len() + 1 as int) =~= body);
        assert(ascii_lower(body) =~= body);
        assert(lower_text(body) == body);
        assert(seq!['.'] + lower_text(body) =~= d);
    }
}

proof fn lemma_last_dot_suffix(name: Seq<char>, body: Seq<char>)
    requires
        forall|i: int| 0 <= i < body.len() ==> #[trigger] body[i] != '.',
    ensures
        last_dot(name + seq!['.'] + body) == name.len(),
    decreases body.len(),
{
    let s = name + seq!['.'] + body;
    if body.len() == 0 {
        assert(s.last() == '.');
    } else {
        assert(s.drop_last() =~= name + seq!['.'] + body.drop_last());
        assert(s.last() == body.last());
        lemma_last_dot_suffix(name, body.drop_last());
    }
}

/// A corrected file name keeps the name it was given as its beginning.
pub proof fn lemma_corrected_filename_extends(name: Seq<char>, ext: Option<Seq<char>>)
    ensures
        corrected_filename(name, ext).take(name.len() as int) == name,
{
    let r = corrected_filename(name, ext);
    assert(r.take(name.len() as int) =~= name);
}

} // verus!

verus! {

/// The fields of a packed drive file, before they are written as JSON.
#[derive(Clone, Debug)]
pub struct PackedFileFields {
    pub id: String,
    /// The creation time read from the id, in milliseconds since 1970.
    pub created_at: i64,
    pub name: String,
    pub mime_type: String,
    pub md5: String,
    pub size: i64,
    pub is_sensitive: bool,
    pub blurhash: Option<String>,
    pub properties: FileProperties,
    pub url: String,
    pub thumbnail_url: Option<String>,
    pub comment: Option<String>,
    pub folder_id: Option<String>,
    /// Whether the folder is packed as well (a detailed pack of a file in a
    /// folder); else the folder is `null`.
    pub with_folder: bool,
    /// The owner's id when the user is packed as well; else `null`.
    pub user_id: Option<String>,
}

fn clone_opt_string(o: &Option<String>) -> (r: Option<String>)
    ensures
        r == *o,
{
    match o {
        Some(s) => Some(s.clone()),
        None => None,
    }
}

/// The fields of a packed file: its owner sees its own properties and URL,
/// others the public ones; the size is the larger of the two size columns; the
/// folder is packed only in detail and the user only when asked. `None` when
/// the creation time cannot be read from the id.
pub fn pack_fields(
    config: &MediaUrlConfig,
    ids: &crate::id_service::IdService,
    file: &MiDriveFile,
    is_my_file: bool,
    detail: bool,
    with_user: bool,
) -> (r: Option<PackedFileFields>)
    requires
        ids.parse_ok_text(file.id@),
    ensures
        match ids.scheme_parse(file.id@) {
            Some(t) if crate::id_service::misskey_ulid::chrono_millis_representable(t) => r matches Some(p) && {
                &&& p.created_at == t
                &&& p.id == file.id
                &&& p.name == file.name
                &&& p.mime_type == file.mime_type
                &&& p.md5 == file.md5
                &&& p.size == (if file.size_long >= file.size { file.size_long as int } else { file.size as int })
                &&& p.is_sensitive == file.is_sensitive
                &&& p.blurhash == file.blurhash
                &&& p.properties == (if is_my_file { file.properties } else { public_properties(file.properties) })
                &&& p.url@ == (if is_my_file { file.url@ } else { public_url(*config, *file, None, false) })
                &&& opt_chars(p.thumbnail_url) == thumbnail_url(*config, *file)
                &&& p.comment == file.comment
                &&& p.folder_id == file.folder_id
                &&& p.with_folder == (detail && file.folder_id is Some)
                &&& p.user_id == (if with_user { file.user_id } else { None })
            },
            _ => r is None,
        },
{
    let created_at = match ids.parse(file.id.as_str()) {
        Some(t) => t,
        None => return None,
    };
    let size = if file.size_long >= file.size as i64 {
        file.size_long
    } else {
        file.size as i64
    };
    let properties = if is_my_file {
        file.properties
    } else {
        get_public_properties(file)
    };
    let url = if is_my_file {
        file.url.clone()
    } else {
        get_public_url(config, file, None, false)
    };
    Some(PackedFileFields {
        id: file.id.clone(),
        created_at,
        name: file.name.clone(),
        mime_type: file.mime_type.clone(),
        md5: file.md5.clone(),
        size,
        is_sensitive: file.is_sensitive,
        blurhash: clone_opt_string(&file.blurhash),
        properties,
        url,
        thumbnail_url: get_thumbnail_url(config, file),
        comment: clone_opt_string(&file.comment),
        folder_id: clone_opt_string(&file.folder_id),
        with_folder: detail && file.folder_id.is_some(),
        user_id: if with_user {
            clone_opt_string(&file.user_id)
        } else {
            None
        },
    })
}

} // verus!
