//! Signing of ActivityPub requests (HTTP signatures) and body digests.
use vstd::prelude::*;
use crate::text::{chars_of, string_of, push_chars};

verus! {

/// The SHA-256 hash of a byte string (`sha2::Sha256`).
pub uninterp spec fn sha256_of(b: Seq<u8>) -> Seq<u8>;

/// The character of a six-bit value in the standard Base64 alphabet:
/// `A-Z`, `a-z`, `0-9`, `+`, `/`.
pub open spec fn base64_char(v: int) -> char {
    if v < 26 {
        (65 + v) as char
    } else if v < 52 {
        (97 + v - 26) as char
    } else if v < 62 {
        (48 + v - 52) as char
    } else if v == 62 {
        '+'
    } else {
        '/'
    }
}

/// The standard Base64 text of a byte string, padded with `=`: every three bytes
/// become four characters of six bits each, most significant first.
pub open spec fn base64_text(b: Seq<u8>) -> Seq<char>
    decreases b.len(),
{
    if b.len() == 0 {
        Seq::empty()
    } else if b.len() == 1 {
        seq![base64_char((b[0] as int) / 4), base64_char(((b[0] as int) % 4) * 16), '=', '=']
    } else if b.len() == 2 {
        seq![
            base64_char((b[0] as int) / 4),
            base64_char(((b[0] as int) % 4) * 16 + (b[1] as int) / 16),
            base64_char(((b[1] as int) % 16) * 4),
            '=',
        ]
    } else {
        seq![
            base64_char((b[0] as int) / 4),
            base64_char(((b[0] as int) % 4) * 16 + (b[1] as int) / 16),
            base64_char(((b[1] as int) % 16) * 4 + (b[2] as int) / 64),
            base64_char((b[2] as int) % 64),
        ] + base64_text(b.skip(3))
    }
}

/// The parts of a URL as `reqwest::Url` parses it: host, path and query (empty
/// when there is none); `None` when it does not parse or has no host.
pub uninterp spec fn url_components(url: Seq<char>) -> Option<(Seq<char>, Seq<char>, Seq<char>)>;

/// The RSA PKCS#1 v1.5 signature with SHA-256 of a message under a private key
/// given in PKCS#8 PEM; `None` when the key does not parse or signing fails.
pub uninterp spec fn rsa_sha256_signature(pem: Seq<char>, msg: Seq<u8>) -> Option<Seq<u8>>;

/// `sha2::Sha256::digest`.
///
/// Trusted: the hash is named `sha256_of` of the bytes and is 32 bytes long.
#[verifier::external_body]
fn sha256_bytes(body: &[u8]) -> (r: Vec<u8>)
    ensures
        r@ == sha256_of(body@),
        r@.len() == 32,
{
    <sha2::Sha256 as sha2::Digest>::digest(body).to_vec()
}

/// `base64::Engine::encode` with the standard engine.
///
/// Trusted: the text is `base64_text` of the bytes (the standard alphabet, with
/// padding).
#[verifier::external_body]
fn base64_standard(bytes: &[u8]) -> (r: String)
    ensures
        r@ == base64_text(bytes@),
{
    base64::Engine::encode(&base64::engine::general_purpose::STANDARD, bytes)
}

/// `reqwest::Url::parse`, `host_str`, `path` and `query`.
///
/// Trusted: the parts are named `url_components` of the text.
#[verifier::external_body]
fn url_parts(url: &str) -> (r: Option<(String, String, String)>)
    ensures
        match r {
            Some((h, p, q)) => url_components(url@) == Some((h@, p@, q@)),
            None => url_components(url@) is None,
        },
{
    let u = reqwest::Url::parse(url).ok()?;
    let host = u.host_str()?.to_owned();
    Some((host, u.path().to_owned(), u.query().unwrap_or("").to_owned()))
}

/// `rsa::RsaPrivateKey::from_pkcs8_pem` and `pkcs1v15::SigningKey::<Sha256>`
/// `try_sign`, then `to_bytes`.
///
/// Trusted: the signature is named `rsa_sha256_signature` of the key text and
/// the message.
#[verifier::external_body]
fn rsa_sign(pem: &str, msg: &[u8]) -> (r: Option<Vec<u8>>)
    ensures
        match r {
            Some(s) => rsa_sha256_signature(pem@, msg@) == Some(s@),
            None => rsa_sha256_signature(pem@, msg@) is None,
        },
{
    let key = <rsa::RsaPrivateKey as rsa::pkcs8::DecodePrivateKey>::from_pkcs8_pem(pem).ok()?;
    let signing_key = rsa::pkcs1v15::SigningKey::<rsa::sha2::Sha256>::new(key);
    let sig = rsa::signature::Signer::try_sign(&signing_key, msg).ok()?;
    Some(rsa::signature::SignatureEncoding::to_vec(&sig))
}

pub open spec fn digest_prefix() -> Seq<char> {
    seq!['S', 'H', 'A', '-', '2', '5', '6', '=']
}

fn digest_prefix_chars() -> (r: Vec<char>)
    ensures
        r@ == digest_prefix(),
{
    let r = vec!['S', 'H', 'A', '-', '2', '5', '6', '='];
    assert(r@ =~= digest_prefix());
    r
}

/// The `Digest` header of a body: `SHA-256=` and the Base64 of its SHA-256 hash.
pub fn sha256_digest(body: &[u8]) -> (r: String)
    ensures
        r@ == digest_prefix() + base64_text(sha256_of(body@)),
{
    let h = sha256_bytes(body);
    let b = base64_standard(h.as_slice());
    let mut s = string_of(&digest_prefix_chars());
    push_chars(&mut s, &chars_of(b.as_str()));
    s
}

pub open spec fn accept_value() -> Seq<char> {
    seq!['a', 'p', 'p', 'l', 'i', 'c', 'a', 't', 'i', 'o', 'n', '/', 'a', 'c', 't', 'i', 'v', 'i', 't', 'y', '+', 'j', 's', 'o', 'n', ',', ' ', 'a', 'p', 'p', 'l', 'i', 'c', 'a', 't', 'i', 'o', 'n', '/', 'l', 'd', '+', 'j', 's', 'o', 'n', ';', ' ', 'p', 'r', 'o', 'f', 'i', 'l', 'e', '=', '"', 'h', 't', 't', 'p', 's', ':', '/', '/', 'w', 'w', 'w', '.', 'w', '3', '.', 'o', 'r', 'g', '/', 'n', 's', '/', 'a', 'c', 't', 'i', 'v', 'i', 't', 'y', 's', 't', 'r', 'e', 'a', 'm', 's', '"']
}

fn accept_value_chars() -> (r: Vec<char>)
    ensures
        r@ == accept_value(),
{
    let r = vec!['a', 'p', 'p', 'l', 'i', 'c', 'a', 't', 'i', 'o', 'n', '/', 'a', 'c', 't', 'i', 'v', 'i', 't', 'y', '+', 'j', 's', 'o', 'n', ',', ' ', 'a', 'p', 'p', 'l', 'i', 'c', 'a', 't', 'i', 'o', 'n', '/', 'l', 'd', '+', 'j', 's', 'o', 'n', ';', ' ', 'p', 'r', 'o', 'f', 'i', 'l', 'e', '=', '"', 'h', 't', 't', 'p', 's', ':', '/', '/', 'w', 'w', 'w', '.', 'w', '3', '.', 'o', 'r', 'g', '/', 'n', 's', '/', 'a', 'c', 't', 'i', 'v', 'i', 't', 'y', 's', 't', 'r', 'e', 'a', 'm', 's', '"'];
    assert(r@ =~= accept_value());
    r
}
pub open spec fn target_label() -> Seq<char> {
    seq!['(', 'r', 'e', 'q', 'u', 'e', 's', 't', '-', 't', 'a', 'r', 'g', 'e', 't', ')', ':', ' ']
}

fn target_label_chars() -> (r: Vec<char>)
    ensures
        r@ == target_label(),
{
    let r = vec!['(', 'r', 'e', 'q', 'u', 'e', 's', 't', '-', 't', 'a', 'r', 'g', 'e', 't', ')', ':', ' '];
    assert(r@ =~= target_label());
    r
}
pub open spec fn host_label() -> Seq<char> {
    seq!['\n', 'h', 'o', 's', 't', ':', ' ']
}

fn host_label_chars() -> (r: Vec<char>)
    ensures
        r@ == host_label(),
{
    let r = vec!['\n', 'h', 'o', 's', 't', ':', ' '];
    assert(r@ =~= host_label());
    r
}
pub open spec fn date_label() -> Seq<char> {
    seq!['\n', 'd', 'a', 't', 'e', ':', ' ']
}

fn date_label_chars() -> (r: Vec<char>)
    ensures
        r@ == date_label(),
{
    let r = vec!['\n', 'd', 'a', 't', 'e', ':', ' '];
    assert(r@ =~= date_label());
    r
}
pub open spec fn digest_label() -> Seq<char> {
    seq!['d', 'i', 'g', 'e', 's', 't', ':', ' ']
}

fn digest_label_chars() -> (r: Vec<char>)
    ensures
        r@ == digest_label(),
{
    let r = vec!['d', 'i', 'g', 'e', 's', 't', ':', ' '];
    assert(r@ =~= digest_label());
    r
}
pub open spec fn content_type_line() -> Seq<char> {
    seq!['c', 'o', 'n', 't', 'e', 'n', 't', '-', 't', 'y', 'p', 'e', ':', ' ', 'a', 'p', 'p', 'l', 'i', 'c', 'a', 't', 'i', 'o', 'n', '/', 'a', 'c', 't', 'i', 'v', 'i', 't', 'y', '+', 'j', 's', 'o', 'n']
}

fn content_type_line_chars() -> (r: Vec<char>)
    ensures
        r@ == content_type_line(),
{
    let r = vec!['c', 'o', 'n', 't', 'e', 'n', 't', '-', 't', 'y', 'p', 'e', ':', ' ', 'a', 'p', 'p', 'l', 'i', 'c', 'a', 't', 'i', 'o', 'n', '/', 'a', 'c', 't', 'i', 'v', 'i', 't', 'y', '+', 'j', 's', 'o', 'n'];
    assert(r@ =~= content_type_line());
    r
}
pub open spec fn accept_label() -> Seq<char> {
    seq!['a', 'c', 'c', 'e', 'p', 't', ':', ' ']
}

fn accept_label_chars() -> (r: Vec<char>)
    ensures
        r@ == accept_label(),
{
    let r = vec!['a', 'c', 'c', 'e', 'p', 't', ':', ' '];
    assert(r@ =~= accept_label());
    r
}
pub open spec fn base_headers() -> Seq<char> {
    seq!['(', 'r', 'e', 'q', 'u', 'e', 's', 't', '-', 't', 'a', 'r', 'g', 'e', 't', ')', ' ', 'h', 'o', 's', 't', ' ', 'd', 'a', 't', 'e']
}

fn base_headers_chars() -> (r: Vec<char>)
    ensures
        r@ == base_headers(),
{
    let r = vec!['(', 'r', 'e', 'q', 'u', 'e', 's', 't', '-', 't', 'a', 'r', 'g', 'e', 't', ')', ' ', 'h', 'o', 's', 't', ' ', 'd', 'a', 't', 'e'];
    assert(r@ =~= base_headers());
    r
}
pub open spec fn digest_headers() -> Seq<char> {
    seq![' ', 'd', 'i', 'g', 'e', 's', 't', ' ', 'c', 'o', 'n', 't', 'e', 'n', 't', '-', 't', 'y', 'p', 'e']
}

fn digest_headers_chars() -> (r: Vec<char>)
    ensures
        r@ == digest_headers(),
{
    let r = vec![' ', 'd', 'i', 'g', 'e', 's', 't', ' ', 'c', 'o', 'n', 't', 'e', 'n', 't', '-', 't', 'y', 'p', 'e'];
    assert(r@ =~= digest_headers());
    r
}
pub open spec fn accept_headers() -> Seq<char> {
    seq![' ', 'a', 'c', 'c', 'e', 'p', 't']
}

fn accept_headers_chars() -> (r: Vec<char>)
    ensures
        r@ == accept_headers(),
{
    let r = vec![' ', 'a', 'c', 'c', 'e', 'p', 't'];
    assert(r@ =~= accept_headers());
    r
}
pub open spec fn post_word() -> Seq<char> {
    seq!['p', 'o', 's', 't', ' ']
}

fn post_word_chars() -> (r: Vec<char>)
    ensures
        r@ == post_word(),
{
    let r = vec!['p', 'o', 's', 't', ' '];
    assert(r@ =~= post_word());
    r
}
pub open spec fn get_word() -> Seq<char> {
    seq!['g', 'e', 't', ' ']
}

fn get_word_chars() -> (r: Vec<char>)
    ensures
        r@ == get_word(),
{
    let r = vec!['g', 'e', 't', ' '];
    assert(r@ =~= get_word());
    r
}
pub open spec fn key_id_open() -> Seq<char> {
    seq!['k', 'e', 'y', 'I', 'd', '=', '"']
}

fn key_id_open_chars() -> (r: Vec<char>)
    ensures
        r@ == key_id_open(),
{
    let r = vec!['k', 'e', 'y', 'I', 'd', '=', '"'];
    assert(r@ =~= key_id_open());
    r
}
pub open spec fn users_infix() -> Seq<char> {
    seq!['u', 's', 'e', 'r', 's', '/']
}

fn users_infix_chars() -> (r: Vec<char>)
    ensures
        r@ == users_infix(),
{
    let r = vec!['u', 's', 'e', 'r', 's', '/'];
    assert(r@ =~= users_infix());
    r
}
pub open spec fn key_id_close() -> Seq<char> {
    seq!['#', 'm', 'a', 'i', 'n', '-', 'k', 'e', 'y', '"', ',', 'a', 'l', 'g', 'o', 'r', 'i', 't', 'h', 'm', '=', '"', 'r', 's', 'a', '-', 's', 'h', 'a', '2', '5', '6', '"', ',', 'h', 'e', 'a', 'd', 'e', 'r', 's', '=', '"']
}

fn key_id_close_chars() -> (r: Vec<char>)
    ensures
        r@ == key_id_close(),
{
    let r = vec!['#', 'm', 'a', 'i', 'n', '-', 'k', 'e', 'y', '"', ',', 'a', 'l', 'g', 'o', 'r', 'i', 't', 'h', 'm', '=', '"', 'r', 's', 'a', '-', 's', 'h', 'a', '2', '5', '6', '"', ',', 'h', 'e', 'a', 'd', 'e', 'r', 's', '=', '"'];
    assert(r@ =~= key_id_close());
    r
}
pub open spec fn signature_open() -> Seq<char> {
    seq!['"', ',', 's', 'i', 'g', 'n', 'a', 't', 'u', 'r', 'e', '=', '"']
}

fn signature_open_chars() -> (r: Vec<char>)
    ensures
        r@ == signature_open(),
{
    let r = vec!['"', ',', 's', 'i', 'g', 'n', 'a', 't', 'u', 'r', 'e', '=', '"'];
    assert(r@ =~= signature_open());
    r
}

/// What a signed request is made of: the host, the request target, the names
/// of the signed headers, and the text that is signed.
#[derive(Clone, Debug)]
pub struct SigningPlan {
    pub host: String,
    pub request_target: String,
    pub sign_headers: String,
    pub sign_target: String,
}

/// The request target: the method (`post` with a body, else `get`), a space,
/// the path and the query written right after it.
pub open spec fn request_target_of(has_body: bool, path: Seq<char>, query: Seq<char>) -> Seq<char> {
    (if has_body { post_word() } else { get_word() }) + path + query
}

/// The signed text: target, host and date lines; then for a body with a digest
/// the digest line and the content type, and for a request without a body the
/// accepted types.
pub open spec fn sign_target_of(target: Seq<char>, host: Seq<char>, date: Seq<char>, has_body: bool, digest: Option<Seq<char>>) -> Seq<char> {
    let head = target_label() + target + host_label() + host + date_label() + date + seq!['\n'];
    if has_body {
        match digest {
            Some(d) => head + digest_label() + d + seq!['\n'] + content_type_line(),
            None => head,
        }
    } else {
        head + accept_label() + accept_value()
    }
}

/// The names of the signed headers, in the order of the signed text.
pub open spec fn sign_headers_of(has_body: bool, digest: Option<Seq<char>>) -> Seq<char> {
    if has_body {
        match digest {
            Some(d) => base_headers() + digest_headers(),
            None => base_headers(),
        }
    } else {
        base_headers() + accept_headers()
    }
}

/// How a request to `url` at `date` is signed (see `request_target_of`,
/// `sign_target_of`, `sign_headers_of`); `None` when the URL has no host.
pub fn signing_plan(url: &str, date: &str, digest: Option<&String>, has_body: bool) -> (r: Option<SigningPlan>)
    ensures
        match url_components(url@) {
            Some((host, path, query)) => r matches Some(p) && {
                let t = request_target_of(has_body, path, query);
                let d = match digest {
                    Some(x) => Some(x@),
                    None => None,
                };
                &&& p.host@ == host
                &&& p.request_target@ == t
                &&& p.sign_target@ == sign_target_of(t, host, date@, has_body, d)
                &&& p.sign_headers@ == sign_headers_of(has_body, d)
            },
            None => r is None,
        },
{
    let (host, path, query) = match url_parts(url) {
        Some(x) => x,
        None => return None,
    };
    let mut target = if has_body {
        string_of(&post_word_chars())
    } else {
        string_of(&get_word_chars())
    };
    push_chars(&mut target, &chars_of(path.as_str()));
    push_chars(&mut target, &chars_of(query.as_str()));
    let mut st = string_of(&target_label_chars());
    push_chars(&mut st, &chars_of(target.as_str()));
    push_chars(&mut st, &host_label_chars());
    push_chars(&mut st, &chars_of(host.as_str()));
    push_chars(&mut st, &date_label_chars());
    push_chars(&mut st, &chars_of(date));
    push_chars(&mut st, &vec!['\n']);
    let mut sh = string_of(&base_headers_chars());
    if has_body {
        if let Some(d) = digest {
            push_chars(&mut st, &digest_label_chars());
            push_chars(&mut st, &chars_of(d.as_str()));
            push_chars(&mut st, &vec!['\n']);
            push_chars(&mut st, &content_type_line_chars());
            push_chars(&mut sh, &digest_headers_chars());
        }
    } else {
        push_chars(&mut st, &accept_label_chars());
        push_chars(&mut st, &accept_value_chars());
        push_chars(&mut sh, &accept_headers_chars());
    }
    proof {
        let d = match digest {
            Some(x) => Some(x@),
            None => None::<Seq<char>>,
        };
        let head = target_label() + target@ + host_label() + host@ + date_label() + date@ + seq!['\n'];
        if has_body {
            match digest {
                Some(x) => {
                    assert(st@ =~= head + digest_label() + x@ + seq!['\n'] + content_type_line());
                },
                None => {
                    assert(st@ =~= head);
                },
            }
        } else {
            assert(st@ =~= head + accept_label() + accept_value());
        }
    }
    Some(SigningPlan { host, request_target: target, sign_headers: sh, sign_target: st })
}

/// The `Signature` header: `keyId="{url}users/{user}#main-key",
/// algorithm="rsa-sha256",headers="{headers}",signature="{signature}"`.
pub open spec fn signature_header_of(url: Seq<char>, user_id: Seq<char>, headers: Seq<char>, signature: Seq<char>) -> Seq<char> {
    key_id_open() + url + users_infix() + user_id + key_id_close() + headers + signature_open() + signature + seq!['"']
}

/// Signs the plan's text with the user's private key; gives the `Signature`
/// header (see `signature_header_of`), or `None` when the key cannot sign.
pub fn signature_header(private_key_pem: &str, plan: &SigningPlan, url: &str, user_id: &str) -> (r: Option<String>)
    ensures
        match rsa_sha256_signature(private_key_pem@, vstd::utf8::encode_utf8(plan.sign_target@)) {
            Some(sig) => r matches Some(h) && h@ == signature_header_of(url@, user_id@, plan.sign_headers@, base64_text(sig)),
            None => r is None,
        },
{
    let bytes = plan.sign_target.as_str().as_bytes();
    let sig = match rsa_sign(private_key_pem, bytes) {
        Some(s) => s,
        None => return None,
    };
    let b = base64_standard(sig.as_slice());
    let mut h = string_of(&key_id_open_chars());
    push_chars(&mut h, &chars_of(url));
    push_chars(&mut h, &users_infix_chars());
    push_chars(&mut h, &chars_of(user_id));
    push_chars(&mut h, &key_id_close_chars());
    push_chars(&mut h, &chars_of(plan.sign_headers.as_str()));
    push_chars(&mut h, &signature_open_chars());
    push_chars(&mut h, &chars_of(b.as_str()));
    push_chars(&mut h, &vec!['"']);
    Some(h)
}

} // verus!
