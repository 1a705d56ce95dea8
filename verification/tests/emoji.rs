use yojo_backend::emoji::{to_puny_code, EmojiService, ParsedEmoji, PARSE_EMOJI_STR_REGEXP};

#[test]
fn test_to_puny_code() {
    assert_eq!(punycode::encode("幼女"), Ok("vusz0j".to_owned()));
    assert_eq!(to_puny_code("幼女.art"), "xn--vusz0j.art".to_owned());
    assert_eq!(
        to_puny_code("exampleドメイン名例.jp"),
        "xn--example-er4fyliikhu827avim.jp".to_owned()
    );
    assert_eq!(
        to_puny_code("foo.ドメイン名例.jp"),
        "foo.xn--eckwd4c7cu47r2wf.jp".to_owned()
    );
    assert_eq!(
        to_puny_code("exampleドメイン名例foo.jp"),
        "xn--examplefoo-qx4ixo7jviu903bscp.jp".to_owned()
    );
    assert_eq!(to_puny_code("example.com"), "example.com".to_owned());
}

#[test]
fn test_parse_emoji_str_regexp() {
    let parse_emoji_str_regexp = regex::Regex::new(PARSE_EMOJI_STR_REGEXP).unwrap();
    assert_eq!(
        parse_emoji_str_regexp.find("foo").map(|s| s.as_str().to_owned()),
        Some("foo".to_owned())
    );
    assert_eq!(
        parse_emoji_str_regexp
            .find("foo@example.com")
            .map(|s| s.as_str().to_owned()),
        Some("foo@example.com".to_owned())
    );
    assert_eq!(
        parse_emoji_str_regexp
            .find("yojoart@幼女.art")
            .map(|s| s.as_str().to_owned()),
        Some("yojoart@幼女.art".to_owned())
    );
    assert_eq!(
        parse_emoji_str_regexp
            .find("yojoart@m2.kzkr.xyz")
            .map(|s| s.as_str().to_owned()),
        Some("yojoart@m2.kzkr.xyz".to_owned())
    );
    assert_eq!(parse_emoji_str_regexp.find("yojoart@幼女"), None);
    assert_eq!(parse_emoji_str_regexp.find("無効@example.com"), None);
    assert_eq!(parse_emoji_str_regexp.find("無効"), None);
}

#[test]
fn puny_code_keeps_plain_ascii_hosts() {
    assert_eq!(to_puny_code("m2.kzkr.xyz"), "m2.kzkr.xyz");
    assert_eq!(to_puny_code("localhost"), "localhost");
}

#[test]
fn puny_code_writes_an_empty_label_as_xn() {
    assert_eq!(to_puny_code("a..b"), "a.xn--.b");
}

fn key(e: &ParsedEmoji) -> Result<String, ()> {
    ParsedEmoji::try_into(e)
}

#[test]
fn parse_emoji_str_with_host() {
    let s = EmojiService::new("local.example".to_owned());
    let e = s.parse_emoji_str("blob@幼女.art", None);
    assert_eq!(key(&e), Ok("blob@xn--vusz0j.art".to_owned()));
}

#[test]
fn parse_emoji_str_local() {
    let s = EmojiService::new("local.example".to_owned());
    let e = s.parse_emoji_str("blob", None);
    assert_eq!(key(&e), Ok("blob@.".to_owned()));
    let e = s.parse_emoji_str("blob", Some("remote.example".to_owned()));
    assert_eq!(key(&e), Ok("blob@remote.example".to_owned()));
}

#[test]
fn parse_emoji_str_rejects_bad_names() {
    let s = EmojiService::new("local.example".to_owned());
    let e = s.parse_emoji_str("無効", None);
    assert_eq!(key(&e), Err(()));
}

#[test]
fn normalize_host_cases() {
    let s = EmojiService::new("local.example".to_owned());
    assert_eq!(s.normalize_host(Some("."), None), None);
    assert_eq!(s.normalize_host(Some("local.example"), None), None);
    assert_eq!(s.normalize_host(Some("幼女.art"), None), Some("xn--vusz0j.art".to_owned()));
    assert_eq!(s.normalize_host(None, Some("remote.example".to_owned())), Some("remote.example".to_owned()));
    assert_eq!(s.normalize_host(None, None), None);
}

#[test]
fn normalize_reaction_cases() {
    let s = EmojiService::new("local.example".to_owned());
    assert_eq!(s.normalize_reaction(":blob:".to_owned()), ":blob@.:");
    assert_eq!(s.normalize_reaction(":blob@remote.example:".to_owned()), ":blob@remote.example:");
    assert_eq!(s.normalize_reaction(":blob@local.example:".to_owned()), ":blob@.:");
    assert_eq!(s.normalize_reaction("👍".to_owned()), "👍");
}

#[test]
fn emoji_lookups_and_urls() {
    let svc = yojo_backend::emoji::EmojiService::new("local.example".to_owned());
    assert_eq!(
        svc.emoji_lookup("blob", Some("remote.example".to_owned())),
        Some(("blob".to_owned(), "remote.example".to_owned(), "blob@remote.example".to_owned()))
    );
    assert_eq!(
        svc.emoji_lookup("blob@other.example", Some("remote.example".to_owned())),
        Some(("blob".to_owned(), "other.example".to_owned(), "blob@other.example".to_owned()))
    );
    assert_eq!(svc.emoji_lookup("blob", None), None);
    assert_eq!(svc.emoji_lookup("blob@.", Some("remote.example".to_owned())), None);
    assert_eq!(svc.emoji_lookup("not an emoji!", Some("remote.example".to_owned())), None);
    assert_eq!(yojo_backend::emoji::emoji_url(String::new(), "o".to_owned()), "o");
    assert_eq!(yojo_backend::emoji::emoji_url("p".to_owned(), "o".to_owned()), "p");
}

#[test]
fn long_ascii_hosts_stay_as_they_are() {
    let label = "a".repeat(1500);
    let host = format!("{label}.example.com");
    assert_eq!(to_puny_code(&host), host);
}
