//! Notes as packed for clients: reaction counts and names, the viewer's own
//! reaction, poll choices and the visibility old notes fall back to.
use vstd::prelude::*;
use crate::text::{chars_of, string_of, push_chars, sub_chars, is_prefix, has_prefix, opt_chars};
use crate::user::millis_in_range;

verus! {

/// Who may see a note.
#[derive(Clone, Copy, Debug, PartialEq, Eq, Structural)]
pub enum NoteVisibility {
    Public,
    Home,
    Followers,
    Specified,
}

/// The reactions of `s` with a positive count, in order.
pub open spec fn positive_reactions(s: Seq<(String, i32)>) -> Seq<(String, i32)> {
    s.filter(|r: (String, i32)| r.1 > 0)
}

/// The sum of the counts.
pub open spec fn count_sum(s: Seq<(String, i32)>) -> int
    decreases s.len(),
{
    if s.len() == 0 {
        0
    } else {
        count_sum(s.drop_last()) + s.last().1
    }
}

/// Exactly the reactions with a positive count are kept.
pub proof fn lemma_positive_reactions(s: Seq<(String, i32)>)
    ensures
        forall|k: int| 0 <= k < positive_reactions(s).len() ==> (#[trigger] positive_reactions(s)[k]).1 > 0,
        forall|i: int| 0 <= i < s.len() ==> (positive_reactions(s).contains(#[trigger] s[i]) <==> s[i].1 > 0),
{
    let p = |r: (String, i32)| r.1 > 0;
    assert(s.filter(p) == positive_reactions(s));
    s.filter_lemma(p);
    assert forall|k: int| 0 <= k < positive_reactions(s).len() implies (#[trigger] positive_reactions(s)[k]).1 > 0 by {
        assert(p(positive_reactions(s)[k]));
    }
    assert forall|i: int| 0 <= i < s.len() implies (positive_reactions(s).contains(#[trigger] s[i]) <==> s[i].1 > 0) by {
        if positive_reactions(s).contains(s[i]) {
            let k = choose|k: int| 0 <= k < positive_reactions(s).len() && positive_reactions(s)[k] == s[i];
            assert(p(positive_reactions(s)[k]));
        }
    }
}

/// The total of two runs of reactions is the sum of their totals; one reaction
/// counts its own count.
pub proof fn lemma_count_sum_append(a: Seq<(String, i32)>, b: Seq<(String, i32)>)
    ensures
        count_sum(a + b) == count_sum(a) + count_sum(b),
        b.len() == 1 ==> count_sum(b) == b[0].1,
    decreases b.len(),
{
    if b.len() > 0 {
        assert((a + b).drop_last() =~= a + b.drop_last());
        lemma_count_sum_append(a, b.drop_last());
        if b.len() == 1 {
            assert(b.drop_last().len() == 0);
        }
    }
}

/// Drops the reactions whose count is not positive.
pub fn retain_positive_reactions(reactions: Vec<(String, i32)>) -> (r: Vec<(String, i32)>)
    ensures
        r@ == positive_reactions(reactions@),
        forall|k: int| 0 <= k < r@.len() ==> (#[trigger] r@[k]).1 > 0,
        forall|i: int| 0 <= i < reactions@.len() ==> (r@.contains(#[trigger] reactions@[i]) <==> reactions@[i].1 > 0),
{
    proof {
        lemma_positive_reactions(reactions@);
    }
    let mut r: Vec<(String, i32)> = Vec::new();
    let mut src = reactions;
    let ghost orig = src@;
    let ghost mut done: Seq<(String, i32)> = Seq::empty();
    while src.len() > 0
        invariant
            orig == done + src@,
            r@ == positive_reactions(done),
        decreases src@.len(),
    {
        let ghost src0 = src@;
        let x = src.remove(0);
        proof {
            assert(src0 =~= seq![x] + src@);
            assert(orig =~= done.push(x) + src@);
            assert(done.push(x).drop_last() =~= done);
            reveal(Seq::filter);
        }
        let keep = x.1 > 0;
        proof {
            done = done.push(x);
        }
        if keep {
            r.push(x);
        }
    }
    assert(done =~= orig);
    r
}

/// The total of the reaction counts.
pub fn reaction_count(reactions: &Vec<(String, i32)>) -> (r: i32)
    requires
        forall|k: int| 0 <= k <= reactions@.len() ==> i32::MIN <= #[trigger] count_sum(reactions@.take(k)) <= i32::MAX,
    ensures
        r == count_sum(reactions@),
{
    let mut total: i32 = 0;
    let mut i: usize = 0;
    while i < reactions.len()
        invariant
            i <= reactions@.len(),
            total == count_sum(reactions@.take(i as int)),
            forall|k: int| 0 <= k <= reactions@.len() ==> i32::MIN <= #[trigger] count_sum(reactions@.take(k)) <= i32::MAX,
        decreases reactions@.len() - i,
    {
        proof {
            assert(reactions@.take(i + 1).drop_last() =~= reactions@.take(i as int));
            assert(i32::MIN <= count_sum(reactions@.take(i + 1)) <= i32::MAX);
        }
        total = total + reactions[i].1;
        i = i + 1;
    }
    assert(reactions@.take(reactions@.len() as int) =~= reactions@);
    total
}

/// An emoji name written `:name:` loses its colons; anything else stays.
pub open spec fn bare_emoji_name(s: Seq<char>) -> Seq<char> {
    if s.len() > 2 && s[0] == ':' && s.last() == ':' {
        s.subrange(1, s.len() - 1)
    } else {
        s
    }
}

/// The emoji name without its surrounding colons (see `bare_emoji_name`).
pub fn strip_colons(name: &str) -> (r: String)
    ensures
        r@ == bare_emoji_name(name@),
{
    let v = chars_of(name);
    let n = v.len();
    if n > 2 && v[0] == ':' && v[n - 1] == ':' {
        string_of(&sub_chars(&v, 1, n - 1))
    } else {
        string_of(&v)
    }
}

/// Where the viewer's own reaction is looked up.
#[derive(Clone, Copy, Debug, PartialEq, Eq, Structural)]
pub enum MyReactionSource {
    /// There is none to find: no reactions, or no viewer.
    NoReaction,
    /// The note's cache of reaction and user pairs covers every reaction.
    PairCache,
    /// The note was made within the last two seconds: no reaction is assumed.
    TooRecent,
    /// The database is asked.
    Database,
}

/// Where the viewer's reaction is looked up: nowhere without reactions or a
/// viewer; in the note's pair cache when it holds as many entries as there are
/// reactions; else in the database, unless the note is under two seconds old.
pub open spec fn reaction_source(count: i32, has_viewer: bool, cache_len: nat, created_at: i64, now: i64) -> MyReactionSource {
    if count < 1 || !has_viewer {
        MyReactionSource::NoReaction
    } else if count <= cache_len {
        MyReactionSource::PairCache
    } else if created_at > now - 2000 {
        MyReactionSource::TooRecent
    } else {
        MyReactionSource::Database
    }
}

/// Where the viewer's reaction is looked up (see `reaction_source`).
pub fn my_reaction_source(count: i32, has_viewer: bool, cache_len: usize, created_at: i64, now: i64) -> (r: MyReactionSource)
    requires
        millis_in_range(now),
    ensures
        r == reaction_source(count, has_viewer, cache_len as nat, created_at, now),
        count < 1 || !has_viewer ==> r == MyReactionSource::NoReaction,
        count >= 1 && has_viewer && count <= cache_len ==> r == MyReactionSource::PairCache,
        count >= 1 && has_viewer && count > cache_len ==> (r == MyReactionSource::TooRecent
            <==> now - created_at < 2000),
        count >= 1 && has_viewer && count > cache_len ==> (r == MyReactionSource::Database
            <==> now - created_at >= 2000),
{
    if count < 1 || !has_viewer {
        MyReactionSource::NoReaction
    } else if count as usize <= cache_len {
        MyReactionSource::PairCache
    } else if created_at > now - 2000 {
        MyReactionSource::TooRecent
    } else {
        MyReactionSource::Database
    }
}

/// The text between the first and second `/` of `s` (after the first `/`
/// when there is no second), if `s` has a `/`.
pub open spec fn second_segment(s: Seq<char>) -> Option<Seq<char>> {
    let p = crate::text::position_of(s, '/');
    if p < 0 {
        None
    } else {
        let rest = s.skip(p + 1);
        let q = crate::text::position_of(rest, '/');
        Some(if q < 0 { rest } else { rest.take(q) })
    }
}

/// The reaction in the first cache entry (`{user}/{reaction}`) that starts
/// with the viewer's id and has a reaction part, in order.
pub open spec fn first_cached_reaction(pairs: Seq<Seq<char>>, me: Seq<char>) -> Option<Seq<char>>
    decreases pairs.len(),
{
    if pairs.len() == 0 {
        None
    } else if is_prefix(me, pairs[0]) && second_segment(pairs[0]) is Some {
        second_segment(pairs[0])
    } else {
        first_cached_reaction(pairs.drop_first(), me)
    }
}

/// A cache entry that records a reaction by the viewer: it starts with the
/// viewer's id and has a part after its first `/`.
pub open spec fn viewer_entry(e: Seq<char>, me: Seq<char>) -> bool {
    is_prefix(me, e) && exists|p: int| 0 <= p < e.len() && e[p] == '/'
}

/// The viewer's cached reaction comes from the first entry that records one,
/// and there is none exactly when no entry does.
pub proof fn lemma_first_cached_reaction(pairs: Seq<Seq<char>>, me: Seq<char>)
    ensures
        first_cached_reaction(pairs, me) is None <==> forall|i: int| 0 <= i < pairs.len() ==> !viewer_entry(#[trigger] pairs[i], me),
        first_cached_reaction(pairs, me) is Some ==> exists|i: int| 0 <= i < pairs.len() && viewer_entry(#[trigger] pairs[i], me)
            && first_cached_reaction(pairs, me) == second_segment(pairs[i])
            && forall|j: int| 0 <= j < i ==> !viewer_entry(#[trigger] pairs[j], me),
    decreases pairs.len(),
{
    if pairs.len() > 0 {
        let t = pairs.drop_first();
        lemma_first_cached_reaction(t, me);
        lemma_second_segment_some(pairs[0]);
        assert forall|i: int| 0 < i < pairs.len() implies #[trigger] pairs[i] == t[i - 1] by {}
        if viewer_entry(pairs[0], me) {
        } else {
            if first_cached_reaction(t, me) is Some {
                let i = choose|i: int| 0 <= i < t.len() && viewer_entry(#[trigger] t[i], me)
                    && first_cached_reaction(t, me) == second_segment(t[i])
                    && forall|j: int| 0 <= j < i ==> !viewer_entry(#[trigger] t[j], me);
                assert(pairs[i + 1] == t[i]);
                assert forall|j: int| 0 <= j < i + 1 implies !viewer_entry(#[trigger] pairs[j], me) by {
                    if j > 0 {
                        assert(pairs[j] == t[j - 1]);
                    }
                }
            } else {
                assert forall|i: int| 0 <= i < pairs.len() implies !viewer_entry(#[trigger] pairs[i], me) by {
                    if i > 0 {
                        assert(pairs[i] == t[i - 1]);
                    }
                }
            }
        }
    }
}

proof fn lemma_second_segment_some(s: Seq<char>)
    ensures
        second_segment(s) is Some <==> exists|p: int| 0 <= p < s.len() && s[p] == '/',
{
    crate::text::lemma_position_bound(s, '/');
}

fn second_segment_of(v: &Vec<char>) -> (r: Option<Vec<char>>)
    ensures
        match r {
            Some(x) => second_segment(v@) == Some(x@),
            None => second_segment(v@) is None,
        },
{
    match crate::text::find_char_from(v, '/', 0) {
        None => {
            assert(v@.skip(0) =~= v@);
            None
        },
        Some(p) => {
            assert(v@.skip(0) =~= v@);
            let n = v.len();
            assert(p < n);
            let start = p + 1;
            match crate::text::find_char_from(v, '/', start) {
                None => {
                    let r = sub_chars(v, start, n);
                    assert(r@ =~= v@.skip(start as int));
                    Some(r)
                },
                Some(q) => {
                    let r = sub_chars(v, start, q);
                    assert(r@ =~= v@.skip(start as int).take(q - start));
                    Some(r)
                },
            }
        },
    }
}

/// The viewer's reaction as the note's pair cache records it, before
/// normalisation (see `first_cached_reaction`).
#[verifier::loop_isolation(false)]
pub fn my_cached_reaction(pairs: &Vec<String>, me_id: &str) -> (r: Option<String>)
    ensures
        opt_chars(r) == first_cached_reaction(crate::text::views(pairs@), me_id@),
        r is None <==> forall|i: int| 0 <= i < pairs@.len()
            ==> !viewer_entry(#[trigger] crate::text::views(pairs@)[i], me_id@),
        r is Some ==> exists|i: int| 0 <= i < pairs@.len() && viewer_entry(#[trigger] crate::text::views(pairs@)[i], me_id@)
            && opt_chars(r) == second_segment(crate::text::views(pairs@)[i])
            && forall|j: int| 0 <= j < i ==> !viewer_entry(#[trigger] crate::text::views(pairs@)[j], me_id@),
{
    proof {
        lemma_first_cached_reaction(crate::text::views(pairs@), me_id@);
        assert(crate::text::views(pairs@).len() == pairs@.len());
    }
    let me = chars_of(me_id);
    let ghost ps = crate::text::views(pairs@);
    let mut i: usize = 0;
    assert(ps.skip(0) =~= ps);
    while i < pairs.len()
        invariant
            i <= pairs@.len(),
            ps == crate::text::views(pairs@),
            me@ == me_id@,
            first_cached_reaction(ps, me_id@) == first_cached_reaction(ps.skip(i as int), me_id@),
        decreases pairs@.len() - i,
    {
        let e = chars_of(pairs[i].as_str());
        proof {
            assert(ps.skip(i as int)[0] == e@);
            assert(ps.skip(i as int).drop_first() =~= ps.skip(i + 1));
        }
        if has_prefix(&e, &me) {
            if let Some(s) = second_segment_of(&e) {
                return Some(string_of(&s));
            }
        }
        i = i + 1;
    }
    None
}

/// One choice of a poll as shown.
#[derive(Clone, Debug)]
pub struct PackedPollChoices {
    pub text: String,
    pub votes: i32,
    pub is_voted: bool,
}

/// The choices of a poll: texts paired with vote counts (as far as both go),
/// none voted yet.
pub fn poll_choices(texts: &Vec<String>, votes: &Vec<i32>) -> (r: Vec<PackedPollChoices>)
    ensures
        r@.len() == (if texts@.len() < votes@.len() { texts@.len() } else { votes@.len() }),
        forall|i: int| 0 <= i < r@.len() ==> #[trigger] r@[i] == (PackedPollChoices { text: texts@[i], votes: votes@[i], is_voted: false }),
{
    let n = if texts.len() < votes.len() {
        texts.len()
    } else {
        votes.len()
    };
    let mut r: Vec<PackedPollChoices> = Vec::new();
    let mut i: usize = 0;
    while i < n
        invariant
            n <= texts@.len(),
            n <= votes@.len(),
            i <= n,
            r@.len() == i,
            forall|k: int| 0 <= k < i ==> #[trigger] r@[k] == (PackedPollChoices { text: texts@[k], votes: votes@[k], is_voted: false }),
        decreases n - i,
    {
        r.push(PackedPollChoices { text: texts[i].clone(), votes: votes[i], is_voted: false });
        i = i + 1;
    }
    r
}

/// The total of the votes.
pub open spec fn vote_total(s: Seq<PackedPollChoices>) -> int
    decreases s.len(),
{
    if s.len() == 0 {
        0
    } else {
        vote_total(s.drop_last()) + s.last().votes
    }
}

/// The total of the votes of a poll's choices.
pub fn total_votes(choices: &Vec<PackedPollChoices>) -> (r: i32)
    requires
        forall|k: int| 0 <= k <= choices@.len() ==> i32::MIN <= #[trigger] vote_total(choices@.take(k)) <= i32::MAX,
    ensures
        r == vote_total(choices@),
{
    let mut total: i32 = 0;
    let mut i: usize = 0;
    while i < choices.len()
        invariant
            i <= choices@.len(),
            total == vote_total(choices@.take(i as int)),
            forall|k: int| 0 <= k <= choices@.len() ==> i32::MIN <= #[trigger] vote_total(choices@.take(k)) <= i32::MAX,
        decreases choices@.len() - i,
    {
        proof {
            assert(choices@.take(i + 1).drop_last() =~= choices@.take(i as int));
            assert(i32::MIN <= vote_total(choices@.take(i + 1)) <= i32::MAX);
        }
        total = total + choices[i].votes;
        i = i + 1;
    }
    assert(choices@.take(choices@.len() as int) =~= choices@);
    total
}

/// The viewer's votes that count: all of them for a multiple-choice poll, else
/// only the first.
pub open spec fn counted_votes(my_choices: Seq<i32>, multiple: bool) -> Seq<i32> {
    if multiple || my_choices.len() <= 1 {
        my_choices
    } else {
        my_choices.take(1)
    }
}

/// Whether `s` holds a vote for choice `i`.
pub open spec fn voted_for(s: Seq<i32>, i: int) -> bool {
    exists|j: int| 0 <= j < s.len() && s[j] as int == i
}

fn votes_include(my_choices: &Vec<i32>, limit: usize, i: usize) -> (r: bool)
    requires
        limit <= my_choices@.len(),
    ensures
        r == voted_for(my_choices@.take(limit as int), i as int),
{
    let mut k: usize = 0;
    while k < limit
        invariant
            limit <= my_choices@.len(),
            k <= limit,
            forall|j: int| 0 <= j < k ==> my_choices@[j] as int != i as int,
        decreases limit - k,
    {
        let c = my_choices[k];
        if c >= 0 && c as usize == i {
            assert(my_choices@.take(limit as int)[k as int] == my_choices@[k as int]);
            assert(my_choices@.take(limit as int)[k as int] as int == i as int);
            return true;
        }
        k = k + 1;
    }
    proof {
        if voted_for(my_choices@.take(limit as int), i as int) {
            let j = choose|j: int| 0 <= j < limit && #[trigger] my_choices@.take(limit as int)[j] as int == i as int;
            assert(my_choices@.take(limit as int)[j] == my_choices@[j]);
        }
    }
    false
}

/// A vote counts for a choice when some vote of the viewer names it: any of
/// them for a multiple-choice poll, else only the first.
pub proof fn lemma_counted_vote(m: Seq<i32>, multiple: bool, i: int)
    ensures
        voted_for(counted_votes(m, multiple), i)
            <==> exists|j: int| 0 <= j < m.len() && (multiple || j == 0) && #[trigger] m[j] as int == i,
{
    let c = counted_votes(m, multiple);
    if voted_for(c, i) {
        let j = choose|j: int| 0 <= j < c.len() && c[j] as int == i;
        assert(c[j] == m[j]);
        assert(multiple || j == 0);
    }
    if exists|j: int| 0 <= j < m.len() && (multiple || j == 0) && #[trigger] m[j] as int == i {
        let j = choose|j: int| 0 <= j < m.len() && (multiple || j == 0) && #[trigger] m[j] as int == i;
        assert(c[j] == m[j]);
    }
}

/// A choice as marked: voted when it already was, or when it has an index
/// above 0 and `counted` holds a vote for it.
pub open spec fn marked_choice(c: PackedPollChoices, i: int, counted: Seq<i32>) -> PackedPollChoices {
    PackedPollChoices { text: c.text, votes: c.votes, is_voted: c.is_voted || (i > 0 && voted_for(counted, i)) }
}

/// Marks the choices the viewer voted for: each counted vote (see
/// `counted_votes`) for a choice index above 0 that exists; an index of 0 is
/// not marked.
pub fn mark_voted(choices: Vec<PackedPollChoices>, my_choices: &Vec<i32>, multiple: bool) -> (r: Vec<PackedPollChoices>)
    ensures
        r@.len() == choices@.len(),
        forall|i: int| 0 <= i < choices@.len() ==> #[trigger] r@[i] == marked_choice(choices@[i], i, counted_votes(my_choices@, multiple)),
        forall|i: int| 0 <= i < choices@.len() ==> (#[trigger] r@[i]).text == choices@[i].text && r@[i].votes == choices@[i].votes,
        forall|i: int| 0 <= i < choices@.len() ==> ((#[trigger] r@[i]).is_voted <==> (choices@[i].is_voted
            || (i > 0 && exists|j: int| 0 <= j < my_choices@.len() && (multiple || j == 0) && my_choices@[j] as int == i))),
{
    let limit: usize = if multiple || my_choices.len() <= 1 {
        my_choices.len()
    } else {
        1
    };
    let ghost counted = counted_votes(my_choices@, multiple);
    assert(counted =~= my_choices@.take(limit as int));
    proof {
        assert forall|i: int| 0 <= i < choices@.len() implies (#[trigger] voted_for(counted, i)
            <==> exists|j: int| 0 <= j < my_choices@.len() && (multiple || j == 0) && #[trigger] my_choices@[j] as int == i) by {
            lemma_counted_vote(my_choices@, multiple, i);
        }
    }
    let mut r: Vec<PackedPollChoices> = Vec::new();
    let mut i: usize = 0;
    while i < choices.len()
        invariant
            limit <= my_choices@.len(),
            counted == my_choices@.take(limit as int),
            counted == counted_votes(my_choices@, multiple),
            i <= choices@.len(),
            r@.len() == i,
            forall|k: int| 0 <= k < i ==> #[trigger] r@[k] == marked_choice(choices@[k], k, counted),
        decreases choices@.len() - i,
    {
        let v = choices[i].is_voted || (i > 0 && votes_include(my_choices, limit, i));
        r.push(PackedPollChoices { text: choices[i].text.clone(), votes: choices[i].votes, is_voted: v });
        i = i + 1;
    }
    r
}

/// The visibility a packed note is shown with: a public or home note becomes
/// followers-only when its author set `makeNotesFollowersOnlyBefore` and the
/// note is older than that many seconds (a value of 0 or less), or was made
/// before that time in seconds (a positive value).
pub open spec fn treated_visibility(v: NoteVisibility, followers_only_before: Option<i32>, created_at: i64, now: i64) -> NoteVisibility {
    match followers_only_before {
        Some(f) => if (v == NoteVisibility::Public || v == NoteVisibility::Home) && (if f <= 0 {
            now - created_at > 0 - f * 1000
        } else {
            created_at < f * 1000
        }) {
            NoteVisibility::Followers
        } else {
            v
        },
        None => v,
    }
}

/// Only public and home notes are ever made followers-only, and only when the
/// author set a cut-off: a positive one turns every note made before that many
/// seconds after 1970 followers-only, one of 0 or less every note older than
/// that many seconds; any other note keeps its visibility.
pub proof fn lemma_treated_visibility(v: NoteVisibility, followers_only_before: Option<i32>, created_at: i64, now: i64)
    ensures
        treated_visibility(v, followers_only_before, created_at, now) == v
            || treated_visibility(v, followers_only_before, created_at, now) == NoteVisibility::Followers,
        followers_only_before is None ==> treated_visibility(v, followers_only_before, created_at, now) == v,
        !(v == NoteVisibility::Public || v == NoteVisibility::Home) ==> treated_visibility(v, followers_only_before, created_at, now) == v,
        (v == NoteVisibility::Public || v == NoteVisibility::Home) && followers_only_before is Some
            && followers_only_before->0 > 0
            ==> (treated_visibility(v, followers_only_before, created_at, now) == NoteVisibility::Followers
                <==> created_at < followers_only_before->0 * 1000),
        (v == NoteVisibility::Public || v == NoteVisibility::Home) && followers_only_before is Some
            && followers_only_before->0 <= 0
            ==> (treated_visibility(v, followers_only_before, created_at, now) == NoteVisibility::Followers
                <==> now - created_at > -followers_only_before->0 * 1000),
{
}

/// The visibility a packed note is shown with (see `treated_visibility`); the
/// note's creation time and the current time are in milliseconds.
pub fn visibility_at(visibility: NoteVisibility, followers_only_before: Option<i32>, created_at: i64, now: i64) -> (r: NoteVisibility)
    requires
        millis_in_range(now),
        millis_in_range(created_at),
    ensures
        r == treated_visibility(visibility, followers_only_before, created_at, now),
        r == visibility || r == NoteVisibility::Followers,
        followers_only_before is None ==> r == visibility,
        !(visibility == NoteVisibility::Public || visibility == NoteVisibility::Home) ==> r == visibility,
        (visibility == NoteVisibility::Public || visibility == NoteVisibility::Home) && followers_only_before is Some
            && followers_only_before->0 > 0
            ==> (r == NoteVisibility::Followers <==> created_at < followers_only_before->0 * 1000),
        (visibility == NoteVisibility::Public || visibility == NoteVisibility::Home) && followers_only_before is Some
            && followers_only_before->0 <= 0
            ==> (r == NoteVisibility::Followers <==> now - created_at > -followers_only_before->0 * 1000),
{
    proof {
        lemma_treated_visibility(visibility, followers_only_before, created_at, now);
    }
    match visibility {
        NoteVisibility::Public | NoteVisibility::Home => {
            if let Some(f) = followers_only_before {
                let limit = f as i64 * 1000;
                if f <= 0 {
                    if now - created_at > 0 - limit {
                        return NoteVisibility::Followers;
                    }
                } else {
                    if created_at < limit {
                        return NoteVisibility::Followers;
                    }
                }
            }
            visibility
        },
        _ => visibility,
    }
}

} // verus!

verus! {

/// The position of the first entry with key `k`, or -1.
pub open spec fn key_index(m: Seq<(Seq<char>, i32)>, k: Seq<char>) -> int
    decreases m.len(),
{
    if m.len() == 0 {
        -1
    } else if m[0].0 == k {
        0
    } else {
        let i = key_index(m.drop_first(), k);
        if i < 0 { -1 } else { i + 1 }
    }
}

/// `m` with `k` set to `v`: in place when `k` is there, at the end otherwise.
pub open spec fn with_entry(m: Seq<(Seq<char>, i32)>, k: Seq<char>, v: i32) -> Seq<(Seq<char>, i32)> {
    let i = key_index(m, k);
    if i >= 0 {
        m.update(i, (k, v))
    } else {
        m.push((k, v))
    }
}

/// The reactions under their normalised names, in order; when two names
/// normalise alike, the later count replaces the earlier.
pub open spec fn normalized_reactions(local: Seq<char>, s: Seq<(String, i32)>) -> Seq<(Seq<char>, i32)>
    decreases s.len(),
{
    if s.len() == 0 {
        Seq::empty()
    } else {
        with_entry(
            normalized_reactions(local, s.drop_last()),
            crate::emoji::normalized_reaction(local, s.last().0@),
            s.last().1,
        )
    }
}

/// The view of a list of reactions.
pub open spec fn reaction_views(v: Seq<(String, i32)>) -> Seq<(Seq<char>, i32)> {
    v.map_values(|e: (String, i32)| (e.0@, e.1))
}

proof fn lemma_key_index_bound(m: Seq<(Seq<char>, i32)>, k: Seq<char>)
    ensures
        -1 <= key_index(m, k) < m.len(),
        key_index(m, k) >= 0 ==> m[key_index(m, k)].0 == k,
        key_index(m, k) < 0 ==> forall|j: int| 0 <= j < m.len() ==> m[j].0 != k,
        key_index(m, k) >= 0 ==> forall|j: int| 0 <= j < key_index(m, k) ==> m[j].0 != k,
    decreases m.len(),
{
    if m.len() > 0 && m[0].0 != k {
        lemma_key_index_bound(m.drop_first(), k);
        assert forall|j: int| 0 < j < m.len() implies m[j] == m.drop_first()[j - 1] by {}
    }
}

fn find_key(m: &Vec<(String, i32)>, k: &String) -> (r: Option<usize>)
    ensures
        match r {
            Some(i) => i == key_index(reaction_views(m@), k@) && i < m@.len(),
            None => key_index(reaction_views(m@), k@) < 0,
        },
{
    let ghost mv = reaction_views(m@);
    let mut i: usize = 0;
    while i < m.len()
        invariant
            i <= m@.len(),
            mv == reaction_views(m@),
            forall|j: int| 0 <= j < i ==> mv[j].0 != k@,
        decreases m@.len() - i,
    {
        if m[i].0 == *k {
            proof {
                lemma_key_index_bound(mv, k@);
                lemma_key_index_at(mv, k@, i as int);
            }
            return Some(i);
        }
        assert(mv[i as int].0 == m@[i as int].0@);
        i = i + 1;
    }
    proof {
        lemma_key_index_bound(mv, k@);
        if key_index(mv, k@) >= 0 {
            assert(mv[key_index(mv, k@)].0 == k@);
        }
    }
    None
}

proof fn lemma_key_index_at(m: Seq<(Seq<char>, i32)>, k: Seq<char>, i: int)
    requires
        0 <= i < m.len(),
        m[i].0 == k,
        forall|j: int| 0 <= j < i ==> m[j].0 != k,
    ensures
        key_index(m, k) == i,
    decreases i,
{
    if i > 0 {
        lemma_key_index_at(m.drop_first(), k, i - 1);
    }
}

/// What packing a note reads of it.
#[derive(Clone, Debug)]
pub struct NoteFacts {
    pub visibility: NoteVisibility,
    pub visible_user_ids: Vec<String>,
    pub reactions: Vec<(String, i32)>,
    pub emojis: Vec<String>,
    pub tags: Vec<String>,
    pub mentions: Vec<String>,
    pub disable_right_click: bool,
}

/// The fields of a packed note that follow from the note alone.
#[derive(Clone, Debug)]
pub struct PackedNoteFields {
    pub visible_user_ids: Option<Vec<String>>,
    pub reactions: Vec<(String, i32)>,
    pub reaction_count: i32,
    pub reaction_emoji_names: Vec<String>,
    pub emojis: Option<Vec<String>>,
    pub tags: Option<Vec<String>>,
    pub mentions: Option<Vec<String>>,
    pub disable_right_click: Option<bool>,
}

/// A reaction name that normalisation accepts.
pub open spec fn normalizable(s: Seq<(String, i32)>) -> bool {
    forall|i: int| 0 <= i < s.len() ==> (#[trigger] s[i]).0@ != seq![':'] && crate::emoji::punycode_safe(s[i].0@)
}

/// The reaction counts add up within `i32`.
pub open spec fn counts_fit(s: Seq<(String, i32)>) -> bool {
    forall|k: int| 0 <= k <= s.len() ==> i32::MIN <= #[trigger] count_sum(s.take(k)) <= i32::MAX
}

fn strip_all(names: &Vec<String>) -> (r: Vec<String>)
    ensures
        r@.len() == names@.len(),
        forall|i: int| 0 <= i < r@.len() ==> #[trigger] r@[i]@ == bare_emoji_name(names@[i]@),
{
    let mut r: Vec<String> = Vec::new();
    let mut i: usize = 0;
    while i < names.len()
        invariant
            i <= names@.len(),
            r@.len() == i,
            forall|j: int| 0 <= j < i ==> #[trigger] r@[j]@ == bare_emoji_name(names@[j]@),
        decreases names@.len() - i,
    {
        r.push(strip_colons(names[i].as_str()));
        i = i + 1;
    }
    r
}

/// The fields of a packed note: the addressed users of a note for specified
/// users only; the reactions with a positive count, under their normalised
/// names (see `normalized_reactions`), with their total and their names
/// without colons; the note's emoji names without colons when the author is
/// remote; tags and mentions only when there are some; the right-click flag
/// only when set.
pub fn pack_note_fields(emoji: &crate::emoji::EmojiService, note: NoteFacts, author_is_remote: bool) -> (r: PackedNoteFields)
    requires
        normalizable(positive_reactions(note.reactions@)),
        counts_fit(positive_reactions(note.reactions@)),
    ensures
        r.visible_user_ids == (if note.visibility == NoteVisibility::Specified {
            Some(note.visible_user_ids)
        } else {
            None
        }),
        reaction_views(r.reactions@) == normalized_reactions(emoji.local_host(), positive_reactions(note.reactions@)),
        r.reaction_count == count_sum(positive_reactions(note.reactions@)),
        r.reaction_emoji_names@.len() == positive_reactions(note.reactions@).len(),
        forall|i: int| 0 <= i < r.reaction_emoji_names@.len() ==> #[trigger] r.reaction_emoji_names@[i]@
            == bare_emoji_name(positive_reactions(note.reactions@)[i].0@),
        match r.emojis {
            Some(e) => author_is_remote && e@.len() == note.emojis@.len() && forall|i: int| 0 <= i < e@.len() ==> #[trigger] e@[i]@ == bare_emoji_name(note.emojis@[i]@),
            None => !author_is_remote,
        },
        r.tags == (if note.tags@.len() == 0 { None } else { Some(note.tags) }),
        r.mentions == (if note.mentions@.len() == 0 { None } else { Some(note.mentions) }),
        r.disable_right_click == (if note.disable_right_click { Some(true) } else { None::<bool> }),
{
    let visible_user_ids = if note.visibility == NoteVisibility::Specified {
        Some(note.visible_user_ids)
    } else {
        None
    };
    let positives = retain_positive_reactions(note.reactions);
    let count = reaction_count(&positives);
    let mut names: Vec<String> = Vec::new();
    let mut i: usize = 0;
    while i < positives.len()
        invariant
            i <= positives@.len(),
            names@.len() == i,
            forall|j: int| 0 <= j < i ==> #[trigger] names@[j]@ == bare_emoji_name(positives@[j].0@),
        decreases positives@.len() - i,
    {
        names.push(strip_colons(positives[i].0.as_str()));
        i = i + 1;
    }
    let ghost local = emoji.local_host();
    let mut normalized: Vec<(String, i32)> = Vec::new();
    let mut k: usize = 0;
    while k < positives.len()
        invariant
            k <= positives@.len(),
            local == emoji.local_host(),
            normalizable(positives@),
            reaction_views(normalized@) == normalized_reactions(local, positives@.take(k as int)),
        decreases positives@.len() - k,
    {
        proof {
            assert(positives@.take(k + 1).drop_last() =~= positives@.take(k as int));
            assert(positives@.take(k + 1).last() == positives@[k as int]);
            assert(positives@[k as int].0@ != seq![':'] && crate::emoji::punycode_safe(positives@[k as int].0@));
        }
        let key = emoji.normalize_reaction(positives[k].0.clone());
        let v = positives[k].1;
        let ghost before = reaction_views(normalized@);
        match find_key(&normalized, &key) {
            Some(j) => {
                normalized.set(j, (key, v));
                proof {
                    assert(reaction_views(normalized@) =~= before.update(j as int, (crate::emoji::normalized_reaction(local, positives@[k as int].0@), v)));
                }
            },
            None => {
                normalized.push((key, v));
                proof {
                    assert(reaction_views(normalized@) =~= before.push((crate::emoji::normalized_reaction(local, positives@[k as int].0@), v)));
                }
            },
        }
        k = k + 1;
    }
    assert(positives@.take(positives@.len() as int) =~= positives@);
    let emojis = if author_is_remote {
        Some(strip_all(&note.emojis))
    } else {
        None
    };
    let tags = if note.tags.len() == 0 {
        None
    } else {
        Some(note.tags)
    };
    let mentions = if note.mentions.len() == 0 {
        None
    } else {
        Some(note.mentions)
    };
    PackedNoteFields {
        visible_user_ids,
        reactions: normalized,
        reaction_count: count,
        reaction_emoji_names: names,
        emojis,
        tags,
        mentions,
        disable_right_click: if note.disable_right_click {
            Some(true)
        } else {
            None
        },
    }
}

} // verus!
