//! Timelines kept in Redis lists: which lists a timeline reads, how their
//! identifiers are windowed and ordered, and when the database fills in.
use vstd::prelude::*;
use crate::text::{chars_of, string_of, push_chars, views, opt_chars};
use crate::order::{text_lt, text_less, sort_by_key, sorted_keys, keys, in_order, stable_arrangement};
use crate::timeline::{TLOptions, TimelineNote, is_renote_spec, is_quote_spec};

verus! {

/// A timeline that is kept in Redis lists: the home timeline (with files
/// only?), the local timeline (with files only? with replies? of a viewer?)
/// and the social timeline (with files only? with replies?), each of a user.
pub enum FanoutTimelineName<'a> {
    Home(bool, &'a String),
    Local(bool, bool, Option<&'a String>),
    Hybrid(bool, bool, &'a String),
}

pub open spec fn list_infix() -> Seq<char> {
    seq![':', 'l', 'i', 's', 't', ':']
}

pub open spec fn home_files() -> Seq<char> {
    seq!['h', 'o', 'm', 'e', 'T', 'i', 'm', 'e', 'l', 'i', 'n', 'e', 'W', 'i', 't', 'h', 'F', 'i', 'l', 'e', 's', ':']
}

pub open spec fn home() -> Seq<char> {
    seq!['h', 'o', 'm', 'e', 'T', 'i', 'm', 'e', 'l', 'i', 'n', 'e', ':']
}

pub open spec fn local_files() -> Seq<char> {
    seq!['l', 'o', 'c', 'a', 'l', 'T', 'i', 'm', 'e', 'l', 'i', 'n', 'e', 'W', 'i', 't', 'h', 'F', 'i', 'l', 'e', 's']
}

pub open spec fn local() -> Seq<char> {
    seq!['l', 'o', 'c', 'a', 'l', 'T', 'i', 'm', 'e', 'l', 'i', 'n', 'e']
}

pub open spec fn local_replies() -> Seq<char> {
    seq!['l', 'o', 'c', 'a', 'l', 'T', 'i', 'm', 'e', 'l', 'i', 'n', 'e', 'W', 'i', 't', 'h', 'R', 'e', 'p', 'l', 'i', 'e', 's']
}

pub open spec fn local_reply_to() -> Seq<char> {
    seq!['l', 'o', 'c', 'a', 'l', 'T', 'i', 'm', 'e', 'l', 'i', 'n', 'e', 'W', 'i', 't', 'h', 'R', 'e', 'p', 'l', 'y', 'T', 'o', ':']
}

pub open spec fn hybrid_reply_to() -> Seq<char> {
    seq!['l', 'o', 'c', 'a', 'l', 'T', 'i', 'm', 'e', 'l', 'i', 'n', 'e', 'W', 'i', 't', 'h', 'R', 'e', 'p', 'l', 'y', 'T', 'o']
}

fn list_infix_chars() -> (r: Vec<char>)
    ensures
        r@ == list_infix(),
{
    let r = vec![':', 'l', 'i', 's', 't', ':'];
    assert(r@ =~= list_infix());
    r
}

fn home_files_chars() -> (r: Vec<char>)
    ensures
        r@ == home_files(),
{
    let r = vec!['h', 'o', 'm', 'e', 'T', 'i', 'm', 'e', 'l', 'i', 'n', 'e', 'W', 'i', 't', 'h', 'F', 'i', 'l', 'e', 's', ':'];
    assert(r@ =~= home_files());
    r
}

fn home_chars() -> (r: Vec<char>)
    ensures
        r@ == home(),
{
    let r = vec!['h', 'o', 'm', 'e', 'T', 'i', 'm', 'e', 'l', 'i', 'n', 'e', ':'];
    assert(r@ =~= home());
    r
}

fn local_files_chars() -> (r: Vec<char>)
    ensures
        r@ == local_files(),
{
    let r = vec!['l', 'o', 'c', 'a', 'l', 'T', 'i', 'm', 'e', 'l', 'i', 'n', 'e', 'W', 'i', 't', 'h', 'F', 'i', 'l', 'e', 's'];
    assert(r@ =~= local_files());
    r
}

fn local_chars() -> (r: Vec<char>)
    ensures
        r@ == local(),
{
    let r = vec!['l', 'o', 'c', 'a', 'l', 'T', 'i', 'm', 'e', 'l', 'i', 'n', 'e'];
    assert(r@ =~= local());
    r
}

fn local_replies_chars() -> (r: Vec<char>)
    ensures
        r@ == local_replies(),
{
    let r = vec!['l', 'o', 'c', 'a', 'l', 'T', 'i', 'm', 'e', 'l', 'i', 'n', 'e', 'W', 'i', 't', 'h', 'R', 'e', 'p', 'l', 'i', 'e', 's'];
    assert(r@ =~= local_replies());
    r
}

fn local_reply_to_chars() -> (r: Vec<char>)
    ensures
        r@ == local_reply_to(),
{
    let r = vec!['l', 'o', 'c', 'a', 'l', 'T', 'i', 'm', 'e', 'l', 'i', 'n', 'e', 'W', 'i', 't', 'h', 'R', 'e', 'p', 'l', 'y', 'T', 'o', ':'];
    assert(r@ =~= local_reply_to());
    r
}

fn hybrid_reply_to_chars() -> (r: Vec<char>)
    ensures
        r@ == hybrid_reply_to(),
{
    let r = vec!['l', 'o', 'c', 'a', 'l', 'T', 'i', 'm', 'e', 'l', 'i', 'n', 'e', 'W', 'i', 't', 'h', 'R', 'e', 'p', 'l', 'y', 'T', 'o'];
    assert(r@ =~= hybrid_reply_to());
    r
}

/// The name of a list: `{host}:list:{kind}`, followed by a user id where one
/// is given.
pub open spec fn list_name(host: Seq<char>, kind: Seq<char>, user: Seq<char>) -> Seq<char> {
    host + list_infix() + kind + user
}

/// The lists a timeline reads, in order.
pub open spec fn timeline_names(t: FanoutTimelineName, host: Seq<char>) -> Seq<Seq<char>> {
    let e = Seq::<char>::empty();
    match t {
        FanoutTimelineName::Home(with_files, u) => if with_files {
            seq![list_name(host, home_files(), u@)]
        } else {
            seq![list_name(host, home(), u@)]
        },
        FanoutTimelineName::Local(with_files, with_replies, u) => if with_files {
            seq![list_name(host, local_files(), e)]
        } else if with_replies {
            seq![list_name(host, local(), e), list_name(host, local_replies(), e)]
        } else if u is Some {
            seq![list_name(host, local(), e), list_name(host, local_reply_to(), u->0@)]
        } else {
            seq![list_name(host, local(), e)]
        },
        FanoutTimelineName::Hybrid(with_files, with_replies, u) => if with_files {
            seq![list_name(host, home_files(), u@), list_name(host, local_files(), e)]
        } else if with_replies {
            seq![
                list_name(host, home(), u@),
                list_name(host, local(), e),
                list_name(host, local_replies(), e),
            ]
        } else {
            seq![
                list_name(host, home(), u@),
                list_name(host, local(), e),
                list_name(host, hybrid_reply_to(), u@),
            ]
        },
    }
}

fn make_name(host: &[char], kind: &[char], user: &[char]) -> (r: String)
    ensures
        r@ == list_name(host@, kind@, user@),
{
    let mut s = string_of(host);
    push_chars(&mut s, &list_infix_chars());
    push_chars(&mut s, kind);
    push_chars(&mut s, user);
    s
}

impl FanoutTimelineName<'_> {
    /// The lists this timeline reads (see `timeline_names`).
    pub fn to_names(&self, host: &str) -> (r: Vec<String>)
        ensures
            views(r@) == timeline_names(*self, host@),
    {
        let h = chars_of(host);
        let e: Vec<char> = Vec::new();
        let mut r: Vec<String> = Vec::new();
        match self {
            FanoutTimelineName::Home(with_files, u) => {
                let uc = chars_of(u.as_str());
                if *with_files {
                    r.push(make_name(&h, &home_files_chars(), &uc));
                } else {
                    r.push(make_name(&h, &home_chars(), &uc));
                }
            },
            FanoutTimelineName::Local(with_files, with_replies, u) => {
                if *with_files {
                    r.push(make_name(&h, &local_files_chars(), &e));
                } else if *with_replies {
                    r.push(make_name(&h, &local_chars(), &e));
                    r.push(make_name(&h, &local_replies_chars(), &e));
                } else if let Some(u) = u {
                    r.push(make_name(&h, &local_chars(), &e));
                    r.push(make_name(&h, &local_reply_to_chars(), &chars_of(u.as_str())));
                } else {
                    r.push(make_name(&h, &local_chars(), &e));
                }
            },
            FanoutTimelineName::Hybrid(with_files, with_replies, u) => {
                let uc = chars_of(u.as_str());
                if *with_files {
                    r.push(make_name(&h, &home_files_chars(), &uc));
                    r.push(make_name(&h, &local_files_chars(), &e));
                } else if *with_replies {
                    r.push(make_name(&h, &home_chars(), &uc));
                    r.push(make_name(&h, &local_chars(), &e));
                    r.push(make_name(&h, &local_replies_chars(), &e));
                } else {
                    r.push(make_name(&h, &home_chars(), &uc));
                    r.push(make_name(&h, &local_chars(), &e));
                    r.push(make_name(&h, &hybrid_reply_to_chars(), &uc));
                }
            },
        }
        assert(views(r@) =~= timeline_names(*self, host@));
        r
    }
}

} // verus!

verus! {

/// An id lies strictly between the page's `since_id` and `until_id`, where
/// those are given.
pub open spec fn in_window(id: Seq<char>, since: Option<Seq<char>>, until: Option<Seq<char>>) -> bool {
    &&& (until matches Some(u) ==> text_lt(id, u))
    &&& (since matches Some(s) ==> text_lt(s, id))
}

fn opt_string_chars(o: Option<&String>) -> (r: Option<Vec<char>>)
    ensures
        match o {
            Some(s) => r matches Some(v) && v@ == s@,
            None => r is None,
        },
{
    match o {
        Some(s) => Some(chars_of(s.as_str())),
        None => None,
    }
}

pub open spec fn opt_ref_view(o: Option<&String>) -> Option<Seq<char>> {
    match o {
        Some(s) => Some(s@),
        None => None,
    }
}

/// The ids of one list that fall in the page's window, sorted in the
/// timeline's direction.
pub fn window_ids(tl: Vec<String>, since_id: Option<&String>, until_id: Option<&String>, ascending: bool) -> (r: Vec<String>)
    ensures
        r@.to_multiset() == tl@.filter(|s: String| in_window(s@, opt_ref_view(since_id), opt_ref_view(until_id))).to_multiset(),
        sorted_keys(keys(r@), ascending),
{
    let since = opt_string_chars(since_id);
    let until = opt_string_chars(until_id);
    let ghost sv = opt_ref_view(since_id);
    let ghost uv = opt_ref_view(until_id);
    let mut kept: Vec<String> = Vec::new();
    let mut src = tl;
    let ghost orig = src@;
    let ghost mut done: Seq<String> = Seq::empty();
    while src.len() > 0
        invariant
            orig == done + src@,
            kept@ == done.filter(|s: String| in_window(s@, sv, uv)),
            match since {
                Some(v) => sv == Some(v@),
                None => sv is None,
            },
            match until {
                Some(v) => uv == Some(v@),
                None => uv is None,
            },
        decreases src@.len(),
    {
        let ghost src0 = src@;
        let x = src.remove(0);
        proof {
            assert(src0 =~= seq![x] + src@);
            assert(orig =~= done.push(x) + src@);
            assert(done.push(x).drop_last() =~= done);
            reveal(Seq::filter);
        }
        let xc = chars_of(x.as_str());
        let below = match &until {
            Some(u) => text_less(&xc, u),
            None => true,
        };
        let above = match &since {
            Some(s) => text_less(s, &xc),
            None => true,
        };
        proof {
            done = done.push(x);
        }
        if below && above {
            kept.push(x);
        }
    }
    assert(done =~= orig);
    sort_by_key(kept, ascending)
}

/// Whether the database is read as well: the fallback is enabled and the lists
/// gave nothing, or (no partial page allowed) no more than the limit.
pub open spec fn db_fallback(enabled: bool, len: nat, allow_partial: bool, limit: u16) -> bool {
    enabled && (len == 0 || (!allow_partial && len <= limit))
}

/// Whether the database is read as well (see `db_fallback`).
pub fn needs_db_fallback(enabled: bool, len: usize, allow_partial: bool, limit: u16) -> (r: bool)
    ensures
        r == db_fallback(enabled, len as nat, allow_partial, limit),
{
    enabled && (len == 0 || (!allow_partial && len <= limit as usize))
}

fn clone_opt_string(o: &Option<String>) -> (r: Option<String>)
    ensures
        r == *o,
{
    match o {
        Some(s) => Some(s.clone()),
        None => None,
    }
}

/// The options for reading the database after the lists: they continue from
/// the last note found, as its `since_id` when the timeline runs oldest first
/// and as its `until_id` otherwise; unchanged when nothing was found.
pub fn fallback_options(opts: &TLOptions, last_id: Option<&String>) -> (r: TLOptions)
    ensures
        r.with_files == opts.with_files,
        r.with_renotes == opts.with_renotes,
        r.allow_partial == opts.allow_partial,
        r.with_cats == opts.with_cats,
        r.with_replies == opts.with_replies,
        r.limit == opts.limit,
        match last_id {
            Some(l) => if opts.since_id is Some && opts.until_id is None {
                r.since_id == Some(*l) && r.until_id == opts.until_id
            } else {
                r.until_id == Some(*l) && r.since_id == opts.since_id
            },
            None => r.since_id == opts.since_id && r.until_id == opts.until_id,
        },
{
    let mut since_id = clone_opt_string(&opts.since_id);
    let mut until_id = clone_opt_string(&opts.until_id);
    if let Some(l) = last_id {
        if opts.since_id.is_some() && opts.until_id.is_none() {
            since_id = Some(l.clone());
        } else {
            until_id = Some(l.clone());
        }
    }
    TLOptions {
        until_id,
        since_id,
        with_files: opts.with_files,
        with_renotes: opts.with_renotes,
        allow_partial: opts.allow_partial,
        with_cats: opts.with_cats,
        with_replies: opts.with_replies,
        limit: opts.limit,
    }
}

/// Takes the next batch of ids to load: at most `limit` from the front.
pub fn take_batch(merged: &mut Vec<String>, limit: u16) -> (r: Vec<String>)
    ensures
        r@.len() == (if old(merged)@.len() < limit { old(merged)@.len() as int } else { limit as int }),
        r@ == old(merged)@.take(r@.len() as int),
        final(merged)@ == old(merged)@.skip(r@.len() as int),
{
    let k: usize = if merged.len() < limit as usize {
        merged.len()
    } else {
        limit as usize
    };
    let ghost orig = merged@;
    let mut r: Vec<String> = Vec::new();
    while r.len() < k
        invariant
            k <= orig.len(),
            r@.len() <= k,
            r@ == orig.take(r@.len() as int),
            merged@ == orig.skip(r@.len() as int),
        decreases k - r@.len(),
    {
        let ghost before = merged@;
        let x = merged.remove(0);
        proof {
            assert(before[0] == orig[r@.len() as int]);
        }
        r.push(x);
        assert(r@ =~= orig.take(r@.len() as int));
        assert(merged@ =~= orig.skip(r@.len() as int));
    }
    r
}

/// A note that the renote setting keeps: renotes are wanted, or it is not a
/// plain renote.
pub open spec fn renote_kept(n: TimelineNote, with_renotes: bool) -> bool {
    with_renotes || !is_renote_spec(n) || is_quote_spec(n)
}

/// Keeps the notes that the renote setting keeps, in order.
pub fn retain_renotes(notes: Vec<TimelineNote>, with_renotes: bool) -> (r: Vec<TimelineNote>)
    ensures
        r@ == notes@.filter(|n: TimelineNote| renote_kept(n, with_renotes)),
{
    let mut r: Vec<TimelineNote> = Vec::new();
    let mut src = notes;
    let ghost orig = src@;
    let ghost mut done: Seq<TimelineNote> = Seq::empty();
    while src.len() > 0
        invariant
            orig == done + src@,
            r@ == done.filter(|n: TimelineNote| renote_kept(n, with_renotes)),
        decreases src@.len(),
    {
        let ghost src0 = src@;
        let x = src.remove(0);
        proof {
            assert(src0 =~= seq![x] + src@);
            assert(orig =~= done.push(x) + src@);
            assert(done.push(x).drop_last() =~= done);
            reveal(Seq::filter);
        }
        let keep = with_renotes || !x.is_renote() || x.is_quote();
        proof {
            done = done.push(x);
        }
        if keep {
            r.push(x);
        }
    }
    assert(done =~= orig);
    r
}

/// The page that is returned: the notes sorted by id in the timeline's
/// direction (notes with equal ids in the order they came), cut to the limit.
pub fn finish_page(notes: Vec<TimelineNote>, ascending: bool, limit: u16) -> (r: Vec<TimelineNote>)
    ensures
        exists|s: Seq<TimelineNote>, idx: Seq<int>|
            s.to_multiset() == notes@.to_multiset() && sorted_keys(keys(s), ascending)
                && stable_arrangement(notes@, s, idx) && r@ == s.take(r@.len() as int),
        r@.len() == (if notes@.len() < limit { notes@.len() as int } else { limit as int }),
{
    let ghost n = notes@;
    let mut sorted = sort_by_key(notes, ascending);
    let ghost s = sorted@;
    let ghost idx = choose|idx: Seq<int>| stable_arrangement(n, s, idx);
    proof {
        vstd::seq_lib::to_multiset_len(s);
        vstd::seq_lib::to_multiset_len(notes@);
    }
    sorted.truncate(limit as usize);
    assert(sorted@ =~= s.take(sorted@.len() as int));
    assert(stable_arrangement(n, s, idx));
    sorted
}

} // verus!
