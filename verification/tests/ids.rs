use yojo_backend::id_service::bigint::{parse_big_int16, parse_big_int32, parse_big_int36};
use yojo_backend::id_service::misskey_ulid::UlidService;
use yojo_backend::id_service::IdService;

const T: i64 = 1_700_000_000_123;

#[test]
fn aid_roundtrip() {
    let s = IdService::new("aid");
    let id = s.gen(Some(T));
    assert_eq!(id.len(), 10);
    assert_eq!(s.parse(&id), Some(T));
}

#[test]
fn aid_method_name_is_case_insensitive() {
    let s = IdService::new("AID");
    let id = s.gen(Some(T));
    assert_eq!(s.parse(&id), Some(T));
}

#[test]
fn aidx_roundtrip() {
    let s = IdService::new("aidx");
    let id = s.gen(Some(T));
    assert_eq!(id.len(), 16);
    assert_eq!(s.parse(&id), Some(T));
}

#[test]
fn meidg_roundtrip() {
    let s = IdService::new("meidg");
    let id = s.gen(Some(T));
    assert_eq!(id.len(), 24);
    assert!(id.starts_with('g'));
    assert_eq!(s.parse(&id), Some(T));
}

#[test]
fn ulid_roundtrip() {
    let s = IdService::new("ulid");
    let id = s.gen(Some(T));
    assert_eq!(id.len(), 26);
    assert_eq!(s.parse(&id), Some(T));
}

#[test]
fn object_id_roundtrip_drops_milliseconds() {
    let s = IdService::new("objectid");
    let id = s.gen(Some(T));
    assert_eq!(id.len(), 24);
    assert_eq!(s.parse(&id), Some(T - T % 1000));
}

#[test]
fn aid_time_is_written_in_base36() {
    let s = IdService::new("aid");
    let id = s.gen(Some(946_684_800_000 + 36));
    assert_eq!(&id[..8], "00000010");
}

#[test]
fn future_times_are_clamped_to_now() {
    let s = IdService::new("aid");
    let id = s.gen(Some(i64::MAX / 2));
    let t = s.parse(&id).unwrap();
    assert!(t < i64::MAX / 2);
}

#[test]
fn unknown_method_is_refused() {
    assert!(IdService::from_method("snowflake").is_none());
    assert!(IdService::from_method("aid").is_some());
}

#[test]
fn is_safe_t_per_scheme() {
    assert!(IdService::new("aid").is_safe_t(T));
    assert!(!IdService::new("aid").is_safe_t(0));
    assert!(IdService::new("ulid").is_safe_t(1));
}

#[test]
fn parse_rejects_garbage() {
    let s = IdService::new("aid");
    assert_eq!(s.parse("!!!!!!!!!!"), None);
}

#[test]
fn big_integers_from_ids() {
    use_big_integers();
}

fn use_big_integers() {
    assert_eq!(parse_big_int36("z").unwrap(), num::BigInt::from(35));
    assert_eq!(parse_big_int36("10").unwrap(), num::BigInt::from(36));
    assert_eq!(parse_big_int36("zz").unwrap(), num::BigInt::from(1295));
    assert_eq!(parse_big_int36("ZZ").unwrap(), num::BigInt::from(1295));
    assert!(parse_big_int36("!").is_err());
    assert_eq!(parse_big_int16("ff").unwrap(), num::BigInt::from(255));
    assert_eq!(
        parse_big_int16("10000000000000").unwrap(),
        num::BigInt::from(16).pow(13)
    );
    assert!(parse_big_int16("g").is_err());
    assert_eq!(parse_big_int32("Z").unwrap(), num::BigInt::from(31));
    assert!(parse_big_int32("z").is_err());
    let eleven = "10000000000";
    assert_eq!(
        parse_big_int36(eleven).unwrap(),
        num::BigInt::from(36).pow(10)
    );
}

#[test]
fn checked_generation() {
    let s = IdService::new("aid");
    assert_eq!(s.gen_checked(Some(i64::MIN)), None);
    let id = s.gen_checked(Some(T)).unwrap();
    assert_eq!(s.parse(&id), Some(T));
    let u = IdService::new("ulid");
    assert_eq!(u.gen_checked(Some(i64::MAX)), None);
}

#[test]
fn ulid_full_parse() {
    let u = UlidService::new();
    let id = u.gen(T);
    let (t, _) = u.parse_full(&id).unwrap();
    assert_eq!(t, T);
    assert!(u.parse_full("0000000000!!!!!!!!!!!!!!!!").is_none());
    let (t, b) = u.parse_full("000000000100000000000000ZZ").unwrap();
    assert_eq!(t, 1);
    assert_eq!(b, num::BigInt::from(31 * 32 + 31));
}

#[test]
fn identifiers_sort_by_time() {
    for method in ["aid", "aidx", "meidg", "ulid", "objectid"] {
        let s = IdService::new(method);
        let earlier = s.gen(Some(T));
        let later = s.gen(Some(T + 5_000));
        assert!(earlier < later, "{method}: {earlier} < {later}");
        let much_later = s.gen(Some(T + 86_400_000));
        assert!(later < much_later, "{method}: {later} < {much_later}");
    }
}

#[test]
fn generation_against_a_given_clock() {
    for method in ["aid", "aidx", "meidg", "ulid"] {
        let s = IdService::new(method);
        let past = s.gen_with_now(Some(T), T + 10_000);
        assert_eq!(s.parse(&past), Some(T), "{method}");
        let future = s.gen_with_now(Some(T + 10_000), T);
        assert_eq!(s.parse(&future), Some(T), "{method}");
        let unset = s.gen_with_now(None, T);
        assert_eq!(s.parse(&unset), Some(T), "{method}");
    }
    let o = IdService::new("objectid");
    let id = o.gen_with_now(Some(T), T + 10_000);
    assert_eq!(o.parse(&id), Some(T - T % 1000));
}

#[test]
fn chrono_range_bounds_ulid_times() {
    let u = IdService::new("ulid");
    assert!(u.gen_checked(Some(-8_334_601_228_800_000)).is_some());
    assert!(u.gen_checked(Some(-8_334_601_228_800_001)).is_none());
    assert!(u.gen_checked(Some(8_210_266_876_799_999)).is_some());
    assert!(u.gen_checked(Some(8_210_266_876_800_000)).is_none());
}
