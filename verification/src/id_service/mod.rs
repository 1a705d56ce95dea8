//! Identifier schemes: each encodes a creation time (milliseconds since 1970) at the
//! front of the identifier, followed by a node part and/or noise.
pub mod window;
pub mod random;
pub mod aid;
pub mod aidx;
pub mod meidg;
pub mod object_id;
pub mod misskey_ulid;
pub mod bigint;

use vstd::prelude::*;
use crate::text::{lowercase, to_lowercase, chars_of};
use self::aid::{AidService, TIME2000, aid_parse_result};
use self::aidx::AidxService;
use self::meidg::{MeidgService, meidg_parse_result};
use self::object_id::{ObjectIdService, object_id_parse_result};
use self::misskey_ulid::{UlidService, ulid_parse_result, chrono_millis_representable};
use self::window::byte_range_ok_chars;
use vstd::arithmetic::power::pow;

verus! {

/// The current time in milliseconds since 1970 (`chrono::Utc::now().timestamp_millis()`).
///
/// Trusted: the value is the clock's and not stated; a `DateTime<Utc>` always lies in
/// chrono's range (see `chrono_millis_representable`), which `from_timestamp_millis`
/// round-trips. It panics only if the system clock reads before 1970, which depends
/// on the machine, not on any input.
#[verifier::external_body]
pub(crate) fn now_millis() -> (t: i64)
    ensures
        chrono_millis_representable(t as int),
        -8_300_000_000_000_000 < t < 8_300_000_000_000_000,
{
    chrono::Utc::now().timestamp_millis()
}

/// Whether chrono can represent `t` (`DateTime::from_timestamp_millis(t).is_some()`).
///
/// Trusted: the answer is `chrono_millis_representable`, the range that
/// `from_timestamp_millis` accepts.
#[verifier::external_body]
pub(crate) fn representable(t: i64) -> (b: bool)
    ensures
        b == chrono_millis_representable(t as int),
{
    chrono::DateTime::from_timestamp_millis(t).is_some()
}

/// The time an identifier is made for when `time` is requested and the clock reads
/// `now`: the requested time, or `now` when none is requested or it lies in the future.
pub open spec fn time_used(time: Option<i64>, now: i64) -> i64 {
    match time {
        Some(x) => if x > now { now } else { x },
        None => now,
    }
}

/// The scheme an `IdService` uses.
pub enum IdMethod {
    Aid(AidService),
    Aidx(AidxService),
    Meidg(MeidgService),
    Ulid(UlidService),
    ObjectId(ObjectIdService),
}

/// The scheme named by a (lower-cased) configuration value, when it is one of `aid`,
/// `aidx`, `meidg`, `ulid`, `objectid`. MEID (`meid`) is not among the schemes this
/// library implements: a service for it cannot be made (`new` requires a known
/// scheme, `from_method` gives `None`).
pub open spec fn known_method(name: Seq<char>) -> bool {
    ||| name == seq!['a', 'i', 'd']
    ||| name == seq!['a', 'i', 'd', 'x']
    ||| name == seq!['m', 'e', 'i', 'd', 'g']
    ||| name == seq!['u', 'l', 'i', 'd']
    ||| name == seq!['o', 'b', 'j', 'e', 'c', 't', 'i', 'd']
}

pub struct IdService {
    method: String,
    inner: IdMethod,
}

fn same_chars(a: &[char], b: &[char]) -> (r: bool)
    ensures
        r == (a@ == b@),
{
    if a.len() != b.len() {
        return false;
    }
    let mut i: usize = 0;
    while i < a.len()
        invariant
            a@.len() == b@.len(),
            i <= a@.len(),
            a@.take(i as int) == b@.take(i as int),
        decreases a@.len() - i,
    {
        if a[i] != b[i] {
            return false;
        }
        i = i + 1;
        assert(a@.take(i as int) =~= a@.take(i - 1).push(a@[i - 1]));
        assert(b@.take(i as int) =~= b@.take(i - 1).push(b@[i - 1]));
    }
    assert(a@.take(a@.len() as int) =~= a@);
    assert(b@.take(b@.len() as int) =~= b@);
    true
}

/// Whether the lower-cased configuration value names the scheme `name`.
fn names(v: &[char], name: &str) -> (r: bool)
    ensures
        r == (v@ == name@),
{
    let n = chars_of(name);
    same_chars(v, n.as_slice())
}

impl IdService {
    /// The service for the scheme named `method` (compared after lower-casing).
    pub fn new(method: &str) -> (s: IdService)
        requires
            known_method(lowercase(method@)),
        ensures
            s.method() == lowercase(method@),
            lowercase(method@) == seq!['a', 'i', 'd'] ==> s.inner() is Aid,
            lowercase(method@) == seq!['a', 'i', 'd', 'x'] ==> s.inner() is Aidx,
            lowercase(method@) == seq!['m', 'e', 'i', 'd', 'g'] ==> s.inner() is Meidg,
            lowercase(method@) == seq!['u', 'l', 'i', 'd'] ==> s.inner() is Ulid,
            lowercase(method@) == seq!['o', 'b', 'j', 'e', 'c', 't', 'i', 'd'] ==> s.inner() is ObjectId,
    {
        match Self::from_method(method) {
            Some(s) => s,
            None => {
                assert(false);
                IdService { method: String::new(), inner: IdMethod::Meidg(MeidgService::new()) }
            },
        }
    }

    /// The service for the scheme named `method`, or `None` when it names no known scheme.
    pub fn from_method(method: &str) -> (r: Option<IdService>)
        ensures
            r is Some <==> known_method(lowercase(method@)),
            r matches Some(s) ==> {
                &&& s.method() == lowercase(method@)
                &&& lowercase(method@) == seq!['a', 'i', 'd'] ==> s.inner() is Aid
                &&& lowercase(method@) == seq!['a', 'i', 'd', 'x'] ==> s.inner() is Aidx
                &&& lowercase(method@) == seq!['m', 'e', 'i', 'd', 'g'] ==> s.inner() is Meidg
                &&& lowercase(method@) == seq!['u', 'l', 'i', 'd'] ==> s.inner() is Ulid
                &&& lowercase(method@) == seq!['o', 'b', 'j', 'e', 'c', 't', 'i', 'd'] ==> s.inner() is ObjectId
            },
    {
        let m = to_lowercase(method);
        let v = chars_of(m.as_str());
        proof {
            reveal_strlit("aid");
            reveal_strlit("aidx");
            reveal_strlit("meidg");
            reveal_strlit("ulid");
            reveal_strlit("objectid");
            assert("aid"@ =~= seq!['a', 'i', 'd']);
            assert("aidx"@ =~= seq!['a', 'i', 'd', 'x']);
            assert("meidg"@ =~= seq!['m', 'e', 'i', 'd', 'g']);
            assert("ulid"@ =~= seq!['u', 'l', 'i', 'd']);
            assert("objectid"@ =~= seq!['o', 'b', 'j', 'e', 'c', 't', 'i', 'd']);
        }
        let inner = if names(v.as_slice(), "aid") {
            IdMethod::Aid(AidService::new())
        } else if names(v.as_slice(), "aidx") {
            IdMethod::Aidx(AidxService::new())
        } else if names(v.as_slice(), "meidg") {
            IdMethod::Meidg(MeidgService::new())
        } else if names(v.as_slice(), "ulid") {
            IdMethod::Ulid(UlidService::new())
        } else if names(v.as_slice(), "objectid") {
            IdMethod::ObjectId(ObjectIdService::new())
        } else {
            return None;
        };
        Some(IdService { method: m, inner })
    }

    /// The lower-cased name of the scheme.
    pub closed spec fn method(&self) -> Seq<char> {
        self.method@
    }

    pub closed spec fn inner(&self) -> IdMethod {
        self.inner
    }

    /// Whether the scheme represents time `t` faithfully: after 2000-01-01 for AID and
    /// AIDX, after 1970 otherwise.
    pub fn is_safe_t(&self, t: i64) -> (b: bool)
        ensures
            b == (if self.inner() is Aid || self.inner() is Aidx { t > TIME2000 } else { t > 0 }),
    {
        match &self.inner {
            IdMethod::Aid(s) => s.is_safe_t(t),
            IdMethod::Aidx(s) => s.is_safe_t(t),
            IdMethod::Meidg(s) => s.is_safe_t(t),
            IdMethod::Ulid(s) => s.is_safe_t(t),
            IdMethod::ObjectId(s) => s.is_safe_t(t),
        }
    }

    /// What `gen` asks of the requested time.
    pub open spec fn gen_time_ok(&self, time: Option<i64>) -> bool {
        time matches Some(t) ==> {
            &&& t >= i64::MIN + TIME2000
            &&& (self.inner() is Ulid ==> chrono_millis_representable(t as int))
        }
    }

    /// An identifier for `time`, or for the current time when `time` is `None` or lies in
    /// the future: it is made for the time that `gen_with_now` takes when the clock
    /// reads some instant that chrono can represent.
    pub fn gen(&self, time: Option<i64>) -> (s: String)
        requires
            self.gen_time_ok(time),
        ensures
            exists|n: i64| chrono_millis_representable(n as int) && self.made_for(s@, #[trigger] time_used(time, n)),
    {
        let now = now_millis();
        let s = self.gen_with_now(time, now);
        s
    }

    /// An identifier for `time` when the clock reads `now`: made for `time`, or for `now`
    /// when `time` is `None` or later than `now` (see `time_used`).
    pub fn gen_with_now(&self, time: Option<i64>, now: i64) -> (s: String)
        requires
            self.gen_time_ok(time),
            self.gen_time_ok(Some(now)),
        ensures
            self.made_for(s@, time_used(time, now)),
    {
        let t = match time {
            Some(x) => if x > now { now } else { x },
            None => now,
        };
        self.gen_at(t)
    }

    /// `gen`, after checking that the requested time suits the scheme; `None` when it does
    /// not (a ULID time outside chrono's range, or a time too far before 2000-01-01 for
    /// subtracting it).
    pub fn gen_checked(&self, time: Option<i64>) -> (r: Option<String>)
        ensures
            r is Some <==> self.gen_time_ok(time),
            r matches Some(s) ==> exists|n: i64| chrono_millis_representable(n as int) && self.made_for(s@, #[trigger] time_used(time, n)),
    {
        match time {
            Some(x) => {
                if x < i64::MIN + TIME2000 {
                    return None;
                }
                if let IdMethod::Ulid(_) = &self.inner {
                    if !representable(x) {
                        return None;
                    }
                }
            },
            None => {},
        }
        let s = self.gen(time);
        Some(s)
    }

    /// Whether `id` is an identifier that this service's scheme makes for time `t`.
    pub open spec fn made_for(&self, id: Seq<char>, t: i64) -> bool {
        match self.inner() {
            IdMethod::Aid(_) => exists|c: i16| id == aid::aid_time_str(t as int) + #[trigger] aid::aid_noise_str(c as int),
            IdMethod::Aidx(a) => exists|c: i32| id == aidx::aidx_time_str(t as int) + a.node_id()@ + #[trigger] aidx::aidx_noise_str(c as int),
            IdMethod::Meidg(_) => exists|r: Seq<char>| r.len() == 12 && random::drawn_from(r, meidg::hex_alphabet())
                && id == seq!['g'] + meidg::meidg_time_str(t as int) + r,
            IdMethod::ObjectId(_) => exists|r: Seq<char>| r.len() == 16 && random::drawn_from(r, meidg::hex_alphabet())
                && id == object_id::object_id_time_str(t as int) + r,
            IdMethod::Ulid(_) => exists|r16: u16, r64: u64| id == misskey_ulid::crockford26(#[trigger] misskey_ulid::ulid_value(t as int, r16, r64)),
        }
    }

    fn gen_at(&self, t: i64) -> (s: String)
        requires
            t >= i64::MIN + TIME2000,
            self.inner() is Ulid ==> chrono_millis_representable(t as int),
        ensures
            self.made_for(s@, t),
    {
        match &self.inner {
            IdMethod::Aid(a) => a.gen(t),
            IdMethod::Aidx(a) => a.gen(t),
            IdMethod::Meidg(a) => a.gen(t),
            IdMethod::Ulid(a) => a.gen(t),
            IdMethod::ObjectId(a) => a.gen(t),
        }
    }

    /// What `parse` asks of an identifier: that the scheme's time characters can be sliced.
    pub open spec fn parse_ok(&self, id: &str) -> bool {
        self.parse_ok_text(id@)
    }

    /// `parse_ok` for an identifier given by its characters.
    pub open spec fn parse_ok_text(&self, id: Seq<char>) -> bool {
        match self.inner() {
            IdMethod::Aid(_) => byte_range_ok_chars(id, 0, 8),
            IdMethod::Aidx(_) => byte_range_ok_chars(id, 0, 8),
            IdMethod::Meidg(_) => byte_range_ok_chars(id, 1, 12),
            IdMethod::ObjectId(_) => byte_range_ok_chars(id, 0, 8),
            IdMethod::Ulid(_) => byte_range_ok_chars(id, 0, 10),
        }
    }

    /// The time (milliseconds since 1970) that the scheme reads from `id`.
    pub open spec fn scheme_parse(&self, id: Seq<char>) -> Option<int> {
        match self.inner() {
            IdMethod::Aid(_) => aid_parse_result(id),
            IdMethod::Aidx(_) => aid_parse_result(id),
            IdMethod::Meidg(_) => meidg_parse_result(id),
            IdMethod::ObjectId(_) => object_id_parse_result(id),
            IdMethod::Ulid(_) => ulid_parse_result(id),
        }
    }

    /// The creation time of `id` in milliseconds since 1970: what the scheme reads, when
    /// chrono can represent it as a date.
    pub fn parse(&self, id: &str) -> (r: Option<i64>)
        requires
            self.parse_ok(id),
        ensures
            r is Some <==> (self.scheme_parse(id@) matches Some(t) && chrono_millis_representable(t)),
            r matches Some(t) ==> self.scheme_parse(id@) == Some(t as int),
    {
        let t = match &self.inner {
            IdMethod::Aid(a) => a.parse(id),
            IdMethod::Aidx(a) => a.parse(id),
            IdMethod::Meidg(a) => a.parse(id),
            IdMethod::Ulid(a) => a.parse(id),
            IdMethod::ObjectId(a) => a.parse(id),
        };
        match t {
            Some(t) => if representable(t) { Some(t) } else { None },
            None => None,
        }
    }
}

} // verus!

verus! {

impl IdService {
    /// The times for which the scheme's identifiers hold the time exactly (up to
    /// its precision): AID until the elapsed milliseconds since 2000-01-01 no
    /// longer fit in eight base-36 digits, MEIDG between 1970 and 16^11 ms,
    /// ObjectId between 1970 and 16^8 seconds; AIDX and ULID always.
    pub open spec fn time_in_range(&self, t: int) -> bool {
        match self.inner() {
            IdMethod::Aid(_) => t < TIME2000 + 2821109907456,
            IdMethod::Aidx(_) => true,
            IdMethod::Meidg(_) => 0 < t < 17592186044416,
            IdMethod::ObjectId(_) => 0 < t < 4294967296000,
            IdMethod::Ulid(_) => true,
        }
    }

    /// The time that an identifier made for `t` gives back: AID counts from
    /// 2000-01-01 (earlier times give that instant); AIDX keeps the elapsed
    /// milliseconds modulo 36^8; ObjectId keeps whole seconds; ULID keeps the
    /// milliseconds since 1970 (0 before) modulo 2^48; MEIDG gives `t`.
    pub open spec fn time_read_back(&self, t: int) -> int {
        match self.inner() {
            IdMethod::Aid(_) => if t > TIME2000 { t } else { TIME2000 as int },
            IdMethod::Aidx(_) => (aid::aid_elapsed(t) % 2821109907456) as int + TIME2000,
            IdMethod::Meidg(_) => t,
            IdMethod::ObjectId(_) => t - t % 1000,
            IdMethod::Ulid(_) => (if t > 0 { t } else { 0 }) % 0x1_0000_0000_0000,
        }
    }
}

/// An identifier made for time `t` gives back the time it was made for, as far
/// as its scheme holds it (see `time_in_range` and `time_read_back`).
pub proof fn lemma_id_roundtrip(svc: &IdService, id: Seq<char>, t: i64)
    requires
        svc.made_for(id, t),
        svc.time_in_range(t as int),
    ensures
        svc.scheme_parse(id) == Some(svc.time_read_back(t as int)),
{
    match svc.inner() {
        IdMethod::Aid(_) => {
            let c = choose|c: i16| id == aid::aid_time_str(t as int) + #[trigger] aid::aid_noise_str(c as int);
            aid::lemma_aid_roundtrip(t as int, c as int);
        },
        IdMethod::Aidx(a) => {
            let c = choose|c: i32| id == aidx::aidx_time_str(t as int) + a.node_id()@ + #[trigger] aidx::aidx_noise_str(c as int);
            let rest = a.node_id()@ + aidx::aidx_noise_str(c as int);
            assert(id =~= aidx::aidx_time_str(t as int) + rest);
            aidx::lemma_aidx_roundtrip(t as int, rest);
        },
        IdMethod::Meidg(_) => {
            let r = choose|r: Seq<char>| r.len() == 12 && random::drawn_from(r, meidg::hex_alphabet())
                && id == seq!['g'] + meidg::meidg_time_str(t as int) + r;
            meidg::lemma_meidg_roundtrip(t as int, r);
        },
        IdMethod::ObjectId(_) => {
            let r = choose|r: Seq<char>| r.len() == 16 && random::drawn_from(r, meidg::hex_alphabet())
                && id == object_id::object_id_time_str(t as int) + r;
            object_id::lemma_object_id_roundtrip(t as int, r);
        },
        IdMethod::Ulid(_) => {
            let (r16, r64) = choose|r16: u16, r64: u64| id == misskey_ulid::crockford26(#[trigger] misskey_ulid::ulid_value(t as int, r16, r64));
            misskey_ulid::lemma_ulid_roundtrip(t as int, r16, r64);
        },
    }
}

} // verus!

verus! {

/// Two fixed-width time parts in lower-case digits of base `radix`, the first
/// writing the smaller number, put their identifiers in that order whatever
/// follows them.
proof fn lemma_time_parts_order(p1: Seq<char>, p2: Seq<char>, radix: int, rest1: Seq<char>, rest2: Seq<char>)
    requires
        2 <= radix <= 36,
        p1.len() == p2.len(),
        crate::radix::all_radix_chars(p1),
        crate::radix::all_radix_chars(p2),
        crate::radix::all_digits(p1, radix),
        crate::radix::all_digits(p2, radix),
        crate::radix::digits_value(p1, radix) < crate::radix::digits_value(p2, radix),
    ensures
        crate::order::text_lt(p1 + rest1, p2 + rest2),
{
    crate::radix::lemma_radix_text_order(p1, p2, radix);
    crate::order::lemma_text_lt_extend(p1, p2, rest1, rest2);
}

/// Identifiers sort as the times they hold: of two identifiers that one service
/// made for times within its range (see `time_in_range`), the one that gives
/// back the earlier time (see `time_read_back`) comes first in text order,
/// whatever their node and random parts.
pub proof fn lemma_ids_sort_by_time(svc: &IdService, id1: Seq<char>, t1: i64, id2: Seq<char>, t2: i64)
    requires
        svc.made_for(id1, t1),
        svc.made_for(id2, t2),
        svc.time_in_range(t1 as int),
        svc.time_in_range(t2 as int),
        svc.time_read_back(t1 as int) < svc.time_read_back(t2 as int),
    ensures
        crate::order::text_lt(id1, id2),
{
    match svc.inner() {
        IdMethod::Aid(_) => {
            let c1 = choose|c: i16| id1 == aid::aid_time_str(t1 as int) + #[trigger] aid::aid_noise_str(c as int);
            let c2 = choose|c: i16| id2 == aid::aid_time_str(t2 as int) + #[trigger] aid::aid_noise_str(c as int);
            assert(pow(36, 8) == 2821109907456) by {
                reveal_with_fuel(pow, 9);
            }
            crate::radix::lemma_padded_digits(aid::aid_elapsed(t1 as int), 36, 8);
            crate::radix::lemma_padded_digits(aid::aid_elapsed(t2 as int), 36, 8);
            lemma_time_parts_order(
                aid::aid_time_str(t1 as int),
                aid::aid_time_str(t2 as int),
                36,
                aid::aid_noise_str(c1 as int),
                aid::aid_noise_str(c2 as int),
            );
        },
        IdMethod::Aidx(a) => {
            let c1 = choose|c: i32| id1 == aidx::aidx_time_str(t1 as int) + a.node_id()@ + #[trigger] aidx::aidx_noise_str(c as int);
            let c2 = choose|c: i32| id2 == aidx::aidx_time_str(t2 as int) + a.node_id()@ + #[trigger] aidx::aidx_noise_str(c as int);
            assert(pow(36, 8) == 2821109907456) by {
                reveal_with_fuel(pow, 9);
            }
            crate::radix::lemma_fixed_digits(aid::aid_elapsed(t1 as int), 36, 8);
            crate::radix::lemma_fixed_digits(aid::aid_elapsed(t2 as int), 36, 8);
            let r1 = a.node_id()@ + aidx::aidx_noise_str(c1 as int);
            let r2 = a.node_id()@ + aidx::aidx_noise_str(c2 as int);
            assert(id1 =~= aidx::aidx_time_str(t1 as int) + r1);
            assert(id2 =~= aidx::aidx_time_str(t2 as int) + r2);
            lemma_time_parts_order(aidx::aidx_time_str(t1 as int), aidx::aidx_time_str(t2 as int), 36, r1, r2);
        },
        IdMethod::Meidg(_) => {
            let r1 = choose|r: Seq<char>| r.len() == 12 && random::drawn_from(r, meidg::hex_alphabet())
                && id1 == seq!['g'] + meidg::meidg_time_str(t1 as int) + r;
            let r2 = choose|r: Seq<char>| r.len() == 12 && random::drawn_from(r, meidg::hex_alphabet())
                && id2 == seq!['g'] + meidg::meidg_time_str(t2 as int) + r;
            assert(pow(16, 11) == 17592186044416) by {
                reveal_with_fuel(pow, 12);
            }
            let p1 = meidg::meidg_time_str(t1 as int);
            let p2 = meidg::meidg_time_str(t2 as int);
            crate::radix::lemma_padded_digits(t1 as nat, 16, 11);
            crate::radix::lemma_padded_digits(t2 as nat, 16, 11);
            lemma_time_parts_order(p1, p2, 16, r1, r2);
            let g = seq!['g'];
            assert((g + (p1 + r1)).drop_first() =~= p1 + r1);
            assert((g + (p2 + r2)).drop_first() =~= p2 + r2);
            assert((g + (p1 + r1))[0] == (g + (p2 + r2))[0]);
            assert(id1 =~= g + (p1 + r1));
            assert(id2 =~= g + (p2 + r2));
        },
        IdMethod::ObjectId(_) => {
            let r1 = choose|r: Seq<char>| r.len() == 16 && random::drawn_from(r, meidg::hex_alphabet())
                && id1 == object_id::object_id_time_str(t1 as int) + r;
            let r2 = choose|r: Seq<char>| r.len() == 16 && random::drawn_from(r, meidg::hex_alphabet())
                && id2 == object_id::object_id_time_str(t2 as int) + r;
            assert(pow(16, 8) == 4294967296) by {
                reveal_with_fuel(pow, 9);
            }
            let s1 = (t1 / 1000) as nat;
            let s2 = (t2 / 1000) as nat;
            vstd::arithmetic::div_mod::lemma_fundamental_div_mod(t1 as int, 1000);
            vstd::arithmetic::div_mod::lemma_fundamental_div_mod(t2 as int, 1000);
            assert(s1 < s2) by (nonlinear_arith)
                requires
                    t1 - t1 % 1000 < t2 - t2 % 1000,
                    t1 == 1000 * (t1 / 1000) + t1 % 1000,
                    t2 == 1000 * (t2 / 1000) + t2 % 1000,
                    s1 == t1 / 1000,
                    s2 == t2 / 1000;
            assert(s1 < 4294967296 && s2 < 4294967296) by (nonlinear_arith)
                requires
                    0 < t1 < 4294967296000,
                    0 < t2 < 4294967296000,
                    t1 == 1000 * (t1 / 1000) + t1 % 1000,
                    t2 == 1000 * (t2 / 1000) + t2 % 1000,
                    0 <= t1 % 1000,
                    0 <= t2 % 1000,
                    s1 == t1 / 1000,
                    s2 == t2 / 1000;
            crate::radix::lemma_padded_digits(s1, 16, 8);
            crate::radix::lemma_padded_digits(s2, 16, 8);
            lemma_time_parts_order(
                object_id::object_id_time_str(t1 as int),
                object_id::object_id_time_str(t2 as int),
                16,
                r1,
                r2,
            );
        },
        IdMethod::Ulid(_) => {
            let (a16, a64) = choose|r16: u16, r64: u64| id1 == misskey_ulid::crockford26(#[trigger] misskey_ulid::ulid_value(t1 as int, r16, r64));
            let (b16, b64) = choose|r16: u16, r64: u64| id2 == misskey_ulid::crockford26(#[trigger] misskey_ulid::ulid_value(t2 as int, r16, r64));
            misskey_ulid::lemma_ulid_order(t1 as int, a16, a64, t2 as int, b16, b64);
        },
    }
}

} // verus!

verus! {

/// An identifier that this service's scheme reads a time from can be parsed:
/// the characters the scheme reads can be sliced from it.
proof fn lemma_parsed_id_sliceable(svc: &IdService, id: Seq<char>)
    requires
        svc.scheme_parse(id) is Some,
    ensures
        svc.parse_ok_text(id),
{
    match svc.inner() {
        IdMethod::Meidg(_) => window::lemma_window_byte_range(id, 1, 12),
        IdMethod::Ulid(_) => window::lemma_window_byte_range(id, 0, 10),
        _ => window::lemma_window_byte_range(id, 0, 8),
    }
}

/// An identifier made for time `t` within the scheme's range is one that
/// `parse` accepts (`parse_ok_text`), and the scheme reads back
/// `time_read_back(t)` from it; so `parse` gives that time whenever chrono can
/// represent it. Made by `gen_with_now(Some(t), now)` with `t <= now`, the
/// identifier is made for `t` itself.
pub proof fn lemma_generated_id_parses(svc: &IdService, id: Seq<char>, t: i64)
    requires
        svc.made_for(id, t),
        svc.time_in_range(t as int),
    ensures
        svc.parse_ok_text(id),
        svc.scheme_parse(id) == Some(svc.time_read_back(t as int)),
{
    lemma_id_roundtrip(svc, id, t);
    lemma_parsed_id_sliceable(svc, id);
}

} // verus!

verus! {

/// The time an identifier is made for: a requested time no later than the
/// clock is kept, and a later one is made for the clock's time, as a request
/// with no time is.
pub proof fn lemma_time_used(t: i64, now: i64)
    ensures
        t <= now ==> time_used(Some(t), now) == t,
        t > now ==> time_used(Some(t), now) == time_used(None, now),
        time_used(None, now) == now,
{
}

/// Identifiers that `gen_with_now` makes sort as the times they are made for:
/// for requested times no later than the clocks', within the scheme's range,
/// the earlier time read back gives the earlier identifier in text order.
pub proof fn lemma_generated_ids_sort(svc: &IdService, id1: Seq<char>, t1: i64, now1: i64, id2: Seq<char>, t2: i64, now2: i64)
    requires
        svc.made_for(id1, time_used(Some(t1), now1)),
        svc.made_for(id2, time_used(Some(t2), now2)),
        t1 <= now1,
        t2 <= now2,
        svc.time_in_range(t1 as int),
        svc.time_in_range(t2 as int),
        svc.time_read_back(t1 as int) < svc.time_read_back(t2 as int),
    ensures
        crate::order::text_lt(id1, id2),
{
    lemma_ids_sort_by_time(svc, id1, t1, id2, t2);
}

} // verus!
