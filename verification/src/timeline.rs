//! Timeline assembly: the options of a timeline request, the caches kept
//! between pages, and the rules by which notes are kept or dropped.
use vstd::prelude::*;
use crate::text::{views, strings_contain, opt_chars};
use crate::order::Keyed;

verus! {

/// The options of a timeline request.
#[derive(Clone, Debug)]
pub struct TLOptions {
    pub until_id: Option<String>,
    pub since_id: Option<String>,
    pub with_files: bool,
    pub with_renotes: bool,
    pub allow_partial: bool,
    pub with_cats: bool,
    pub with_replies: bool,
    pub limit: u16,
}

/// A timeline runs upwards (oldest first) only when it starts from a
/// `since_id` and has no `until_id`.
pub open spec fn ascending_spec(o: TLOptions) -> bool {
    o.since_id is Some && o.until_id is None
}

impl TLOptions {
    /// Whether the timeline runs oldest first.
    pub fn ascending(&self) -> (r: bool)
        ensures
            r == ascending_spec(*self),
    {
        self.since_id.is_some() && self.until_id.is_none()
    }
}

/// The fields of a note that the timeline rules read.
#[derive(Clone, Debug)]
pub struct TimelineNote {
    pub id: String,
    pub user_id: String,
    pub user_host: Option<String>,
    pub reply_id: Option<String>,
    pub renote_id: Option<String>,
    pub has_text: bool,
    pub has_cw: bool,
    pub has_poll: bool,
    pub has_files: bool,
    /// Whether the viewer may see the note at all (its visibility, the
    /// viewer's follows and the addressed users, as the note model decides).
    pub visible: bool,
}

impl Keyed for TimelineNote {
    open spec fn key(&self) -> Seq<char> {
        self.id@
    }

    fn key_chars(&self) -> (r: Vec<char>) {
        crate::text::chars_of(self.id.as_str())
    }
}

/// A renote refers to another note.
pub open spec fn is_renote_spec(n: TimelineNote) -> bool {
    n.renote_id is Some
}

/// A quote is a renote with content of its own.
pub open spec fn is_quote_spec(n: TimelineNote) -> bool {
    n.renote_id is Some && (n.has_text || n.has_cw || n.reply_id is Some || n.has_poll
        || n.has_files)
}

impl TimelineNote {
    pub fn is_renote(&self) -> (r: bool)
        ensures
            r == is_renote_spec(*self),
    {
        self.renote_id.is_some()
    }

    pub fn is_quote(&self) -> (r: bool)
        ensures
            r == is_quote_spec(*self),
    {
        self.renote_id.is_some() && (self.has_text || self.has_cw || self.reply_id.is_some()
            || self.has_poll || self.has_files)
    }
}

/// What is known of a user whose notes appear on a timeline.
#[derive(Clone, Debug)]
pub struct CachedUser {
    pub id: String,
    pub host: Option<String>,
    pub is_cat: bool,
}

/// Facts gathered while building a timeline, kept between its pages: notes
/// replied to or renoted, the viewer's follows, muted instances and renote
/// mutes, whom the viewer mutes, and users already loaded.
#[derive(Clone, Debug)]
pub struct TimelineHints {
    pub note_relation_note: Vec<TimelineNote>,
    pub followings_user: Option<Vec<String>>,
    pub muted_instances: Option<Vec<String>>,
    pub renote_muting_user: Option<Vec<String>>,
    pub is_muting_user: Vec<(String, bool)>,
    pub user_cache: Vec<CachedUser>,
}

impl TimelineHints {
    /// The hints stand for maps keyed by id: no user has two muting states, no
    /// user is cached twice and no related note is held twice.
    pub open spec fn wf(&self) -> bool {
        &&& unique_users(self.is_muting_user@)
        &&& forall|a: int, b: int| 0 <= a < b < self.user_cache@.len()
            ==> (#[trigger] self.user_cache@[a]).id@ != (#[trigger] self.user_cache@[b]).id@
        &&& forall|a: int, b: int| 0 <= a < b < self.note_relation_note@.len()
            ==> (#[trigger] self.note_relation_note@[a]).id@ != (#[trigger] self.note_relation_note@[b]).id@
    }
}

impl Default for TimelineHints {
    fn default() -> (r: Self)
        ensures
            r.wf(),
            r.note_relation_note@.len() == 0,
            r.followings_user is None,
            r.muted_instances is None,
            r.renote_muting_user is None,
            r.is_muting_user@.len() == 0,
            r.user_cache@.len() == 0,
    {
        TimelineHints {
            note_relation_note: Vec::new(),
            followings_user: None,
            muted_instances: None,
            renote_muting_user: None,
            is_muting_user: Vec::new(),
            user_cache: Vec::new(),
        }
    }
}

/// Builds timelines from the database.
#[derive(Clone, Debug)]
pub struct TimelineService {}

impl TimelineService {
    pub fn new() -> Self {
        TimelineService {}
    }
}

/// `s` as a list without repeats, each string where it first occurs.
pub open spec fn dedup(s: Seq<Seq<char>>) -> Seq<Seq<char>>
    decreases s.len(),
{
    if s.len() == 0 {
        s
    } else {
        let d = dedup(s.drop_last());
        if d.contains(s.last()) {
            d
        } else {
            d.push(s.last())
        }
    }
}

proof fn lemma_dedup(s: Seq<Seq<char>>)
    ensures
        dedup(s).no_duplicates(),
        forall|x: Seq<char>| dedup(s).contains(x) <==> s.contains(x),
    decreases s.len(),
{
    if s.len() > 0 {
        lemma_dedup(s.drop_last());
        let d = dedup(s.drop_last());
        assert forall|x: Seq<char>| s.contains(x) <==> (s.drop_last().contains(x) || x == s.last()) by {
            if s.contains(x) {
                let i = choose|i: int| 0 <= i < s.len() && s[i] == x;
                if i < s.len() - 1 {
                    assert(s.drop_last()[i] == x);
                }
            }
            if s.drop_last().contains(x) {
                let i = choose|i: int| 0 <= i < s.drop_last().len() && s.drop_last()[i] == x;
                assert(s[i] == x);
            }
            if x == s.last() {
                assert(s[s.len() - 1] == x);
            }
        }
        if !d.contains(s.last()) {
            assert forall|x: Seq<char>| d.push(s.last()).contains(x) <==> (d.contains(x) || x == s.last()) by {
                if d.push(s.last()).contains(x) {
                    let i = choose|i: int| 0 <= i < d.push(s.last()).len() && d.push(s.last())[i] == x;
                    if i < d.len() {
                        assert(d[i] == x);
                    }
                }
                if d.contains(x) {
                    let i = choose|i: int| 0 <= i < d.len() && d[i] == x;
                    assert(d.push(s.last())[i] == x);
                }
                if x == s.last() {
                    assert(d.push(s.last())[d.len() as int] == x);
                }
            }
        }
    }
}

/// The distinct strings of `v`, each once, in the order they first occur.
pub fn to_set(v: Vec<String>) -> (r: Vec<String>)
    ensures
        views(r@) == dedup(views(v@)),
        views(r@).no_duplicates(),
        forall|x: Seq<char>| views(r@).contains(x) <==> views(v@).contains(x),
{
    let mut r: Vec<String> = Vec::new();
    let mut i: usize = 0;
    while i < v.len()
        invariant
            i <= v@.len(),
            views(r@) == dedup(views(v@).take(i as int)),
        decreases v@.len() - i,
    {
        let s = &v[i];
        proof {
            assert(views(v@).take(i + 1).drop_last() =~= views(v@).take(i as int));
            assert(views(v@).take(i + 1).last() == s@);
        }
        if !strings_contain(&r, s.as_str()) {
            r.push(s.clone());
            assert(views(r@) =~= dedup(views(v@).take(i as int)).push(s@));
        }
        i = i + 1;
    }
    proof {
        assert(views(v@).take(v@.len() as int) =~= views(v@));
        lemma_dedup(views(v@));
    }
    r
}

/// Whether a note's id is the one a page started from (`since_id` or
/// `until_id`).
pub open spec fn is_boundary(id: Seq<char>, o: TLOptions) -> bool {
    opt_chars(o.since_id) == Some(id) || opt_chars(o.until_id) == Some(id)
}

/// A page as read from the database, without the note at either end that is
/// the page's own starting point: first the last note is dropped if it is one,
/// then the first.
pub open spec fn trimmed(s: Seq<TimelineNote>, o: TLOptions) -> Seq<TimelineNote> {
    let a = if s.len() > 0 && is_boundary(s.last().id@, o) {
        s.drop_last()
    } else {
        s
    };
    if a.len() > 0 && is_boundary(a[0].id@, o) {
        a.drop_first()
    } else {
        a
    }
}

fn is_boundary_id(id: &String, opts: &TLOptions) -> (r: bool)
    ensures
        r == is_boundary(id@, *opts),
{
    let a = match &opts.since_id {
        Some(s) => *s == *id,
        None => false,
    };
    let b = match &opts.until_id {
        Some(u) => *u == *id,
        None => false,
    };
    a || b
}

/// Drops the page's starting note from either end (see `trimmed`).
pub fn trim_boundary_notes(raw: Vec<TimelineNote>, opts: &TLOptions) -> (r: Vec<TimelineNote>)
    ensures
        r@ == trimmed(raw@, *opts),
{
    let mut raw = raw;
    let n = raw.len();
    if n > 0 && is_boundary_id(&raw[n - 1].id, opts) {
        raw.pop();
    }
    if raw.len() > 0 && is_boundary_id(&raw[0].id, opts) {
        raw.remove(0);
    }
    raw
}

/// Whether enough has been gathered: something, and either a partial page is
/// allowed or there is more than the limit.
pub open spec fn page_done(len: nat, allow_partial: bool, limit: u16) -> bool {
    len > 0 && (allow_partial || len > limit)
}

/// Whether gathering pages stops (see `page_done`).
pub fn page_complete(len: usize, allow_partial: bool, limit: u16) -> (r: bool)
    ensures
        r == page_done(len as nat, allow_partial, limit),
{
    len > 0 && (allow_partial || len > limit as usize)
}

/// The filters that the viewer's settings apply to every note.
pub struct NoteFilters {
    pub exclude_users: Vec<String>,
    pub renote_muting: Vec<String>,
    pub muted_instances: Vec<String>,
}

/// A note passes when its author is not excluded, the viewer may see it, it
/// is not a plain renote by a renote-muted user, and its author's instance is
/// not muted.
pub open spec fn passes(n: TimelineNote, f: NoteFilters) -> bool {
    &&& !views(f.exclude_users@).contains(n.user_id@)
    &&& n.visible
    &&& !(is_renote_spec(n) && !is_quote_spec(n) && views(f.renote_muting@).contains(n.user_id@))
    &&& !(n.user_host matches Some(h) && views(f.muted_instances@).contains(h@))
}

/// What the viewer's filters let through, condition by condition: the author
/// is not excluded (blocked or muted), the viewer may see the note, it is not a
/// renote without content of its own by a renote-muted author, and the author's
/// instance is not muted.
pub open spec fn filters_allow(n: TimelineNote, f: NoteFilters) -> bool {
    &&& forall|i: int| 0 <= i < f.exclude_users@.len() ==> (#[trigger] f.exclude_users@[i])@ != n.user_id@
    &&& n.visible
    &&& (n.renote_id is Some && !n.has_text && !n.has_cw && n.reply_id is None && !n.has_poll && !n.has_files
        ==> forall|i: int| 0 <= i < f.renote_muting@.len() ==> (#[trigger] f.renote_muting@[i])@ != n.user_id@)
    &&& (n.user_host is Some ==> forall|i: int| 0 <= i < f.muted_instances@.len()
        ==> (#[trigger] f.muted_instances@[i])@ != n.user_host->0@)
}

/// A note passes the viewer's filters exactly when every one of them lets it
/// through (see `filters_allow`).
pub proof fn lemma_passes(n: TimelineNote, f: NoteFilters)
    ensures
        passes(n, f) <==> filters_allow(n, f),
{
    assert(views(f.exclude_users@).contains(n.user_id@) <==> exists|i: int| 0 <= i < f.exclude_users@.len()
        && (#[trigger] f.exclude_users@[i])@ == n.user_id@) by {
        if views(f.exclude_users@).contains(n.user_id@) {
            let j = choose|j: int| 0 <= j < views(f.exclude_users@).len() && views(f.exclude_users@)[j] == n.user_id@;
            assert(f.exclude_users@[j]@ == n.user_id@);
        }
        if exists|i: int| 0 <= i < f.exclude_users@.len() && (#[trigger] f.exclude_users@[i])@ == n.user_id@ {
            let i = choose|i: int| 0 <= i < f.exclude_users@.len() && (#[trigger] f.exclude_users@[i])@ == n.user_id@;
            assert(views(f.exclude_users@)[i] == n.user_id@);
        }
    }
    assert(views(f.renote_muting@).contains(n.user_id@) <==> exists|i: int| 0 <= i < f.renote_muting@.len()
        && (#[trigger] f.renote_muting@[i])@ == n.user_id@) by {
        if views(f.renote_muting@).contains(n.user_id@) {
            let j = choose|j: int| 0 <= j < views(f.renote_muting@).len() && views(f.renote_muting@)[j] == n.user_id@;
            assert(f.renote_muting@[j]@ == n.user_id@);
        }
        if exists|i: int| 0 <= i < f.renote_muting@.len() && (#[trigger] f.renote_muting@[i])@ == n.user_id@ {
            let i = choose|i: int| 0 <= i < f.renote_muting@.len() && (#[trigger] f.renote_muting@[i])@ == n.user_id@;
            assert(views(f.renote_muting@)[i] == n.user_id@);
        }
    }
    if n.user_host is Some {
        let h = n.user_host->0@;
        assert(views(f.muted_instances@).contains(h) <==> exists|i: int| 0 <= i < f.muted_instances@.len()
            && (#[trigger] f.muted_instances@[i])@ == h) by {
            if views(f.muted_instances@).contains(h) {
                let j = choose|j: int| 0 <= j < views(f.muted_instances@).len() && views(f.muted_instances@)[j] == h;
                assert(f.muted_instances@[j]@ == h);
            }
            if exists|i: int| 0 <= i < f.muted_instances@.len() && (#[trigger] f.muted_instances@[i])@ == h {
                let i = choose|i: int| 0 <= i < f.muted_instances@.len() && (#[trigger] f.muted_instances@[i])@ == h;
                assert(views(f.muted_instances@)[i] == h);
            }
        }
    }
}

/// Whether a note passes the viewer's filters (see `passes`).
pub fn note_passes(note: &TimelineNote, filters: &NoteFilters) -> (r: bool)
    ensures
        r == passes(*note, *filters),
        r <==> filters_allow(*note, *filters),
{
    proof {
        lemma_passes(*note, *filters);
    }
    if strings_contain(&filters.exclude_users, note.user_id.as_str()) {
        return false;
    }
    if !note.visible {
        return false;
    }
    if note.is_renote() && !note.is_quote() && strings_contain(
        &filters.renote_muting,
        note.user_id.as_str(),
    ) {
        return false;
    }
    if let Some(h) = &note.user_host {
        if strings_contain(&filters.muted_instances, h.as_str()) {
            return false;
        }
    }
    true
}

/// The first note with the given id among `related`, if any.
pub open spec fn related_note(related: Seq<TimelineNote>, id: Seq<char>) -> Option<TimelineNote>
    decreases related.len(),
{
    if related.len() == 0 {
        None
    } else if related[0].id@ == id {
        Some(related[0])
    } else {
        related_note(related.drop_first(), id)
    }
}

fn find_related(related: &Vec<TimelineNote>, id: &String) -> (r: Option<usize>)
    ensures
        match r {
            Some(i) => i < related@.len() && related_note(related@, id@) == Some(related@[i as int]),
            None => related_note(related@, id@) is None,
        },
{
    let mut i: usize = 0;
    assert(related@.skip(0) =~= related@);
    while i < related.len()
        invariant
            i <= related@.len(),
            related_note(related@, id@) == related_note(related@.skip(i as int), id@),
        decreases related@.len() - i,
    {
        proof {
            assert(related@.skip(i as int)[0] == related@[i as int]);
            assert(related@.skip(i as int).drop_first() =~= related@.skip(i + 1));
        }
        if related[i].id == *id {
            return Some(i);
        }
        i = i + 1;
    }
    None
}

/// A note stays on the timeline when it passes, and so do the note it replies
/// to and the note it renotes, where those are known.
pub open spec fn kept(n: TimelineNote, related: Seq<TimelineNote>, f: NoteFilters) -> bool {
    &&& passes(n, f)
    &&& (n.reply_id matches Some(r) ==> (related_note(related, r@) matches Some(x) ==> passes(x, f)))
    &&& (n.renote_id matches Some(r) ==> (related_note(related, r@) matches Some(x) ==> passes(x, f)))
}

/// The notes of `s` that are kept, in order.
pub open spec fn kept_notes(s: Seq<TimelineNote>, related: Seq<TimelineNote>, f: NoteFilters) -> Seq<TimelineNote> {
    s.filter(|n: TimelineNote| kept(n, related, f))
}

/// The note passes the viewer's filters, and so do the note it replies to and
/// the note it renotes, where `related` holds them: an excluded, renote-muted or
/// instance-muted author hides the note and every reply to or renote of it.
pub open spec fn note_and_related_pass(n: TimelineNote, related: Seq<TimelineNote>, f: NoteFilters) -> bool {
    &&& passes(n, f)
    &&& n.reply_id is Some && related_note(related, n.reply_id->0@) is Some
        ==> passes(related_note(related, n.reply_id->0@)->0, f)
    &&& n.renote_id is Some && related_note(related, n.renote_id->0@) is Some
        ==> passes(related_note(related, n.renote_id->0@)->0, f)
}

/// Filtering keeps exactly the notes that pass together with their
/// replied-to and renoted notes: every kept note does, and every note of the
/// page that does is kept.
pub proof fn lemma_kept_notes_pass(notes: Seq<TimelineNote>, related: Seq<TimelineNote>, f: NoteFilters)
    ensures
        forall|k: int| 0 <= k < kept_notes(notes, related, f).len()
            ==> note_and_related_pass(#[trigger] kept_notes(notes, related, f)[k], related, f),
        forall|i: int| 0 <= i < notes.len() && note_and_related_pass(#[trigger] notes[i], related, f)
            ==> kept_notes(notes, related, f).contains(notes[i]),
{
    let pred = |n: TimelineNote| kept(n, related, f);
    assert forall|k: int| 0 <= k < kept_notes(notes, related, f).len()
        implies note_and_related_pass(#[trigger] kept_notes(notes, related, f)[k], related, f) by {
        notes.lemma_filter_pred(pred, k);
    }
    assert forall|i: int| 0 <= i < notes.len() && note_and_related_pass(#[trigger] notes[i], related, f)
        implies kept_notes(notes, related, f).contains(notes[i]) by {
        assert(pred(notes[i]));
        notes.lemma_filter_contains(pred, i);
    }
}

proof fn lemma_related_note_first(related: Seq<TimelineNote>, j: int)
    requires
        0 <= j < related.len(),
        forall|m: int| 0 <= m < j ==> (#[trigger] related[m]).id@ != related[j].id@,
    ensures
        related_note(related, related[j].id@) == Some(related[j]),
    decreases j,
{
    if j > 0 {
        let t = related.drop_first();
        assert forall|m: int| 0 <= m < j - 1 implies (#[trigger] t[m]).id@ != t[j - 1].id@ by {
            assert(t[m] == related[m + 1]);
        }
        assert(related[0].id@ != related[j].id@);
        lemma_related_note_first(t, j - 1);
        assert(t[j - 1] == related[j]);
    }
}

/// What filtering keeps is cleared by every filter, and so is the note each kept
/// note replies to or renotes, where `related` knows it (the first related note
/// with its id): a reply to or a renote of a note by an excluded, renote-muted
/// or instance-muted author never stays on the timeline.
pub proof fn lemma_kept_notes_allowed(notes: Seq<TimelineNote>, related: Seq<TimelineNote>, f: NoteFilters)
    ensures
        forall|k: int| 0 <= k < kept_notes(notes, related, f).len()
            ==> filters_allow(#[trigger] kept_notes(notes, related, f)[k], f),
        forall|k: int, j: int| 0 <= k < kept_notes(notes, related, f).len() && 0 <= j < related.len()
            && (forall|m: int| 0 <= m < j ==> (#[trigger] related[m]).id@ != related[j].id@)
            && (#[trigger] kept_notes(notes, related, f)[k]).renote_id is Some
            && kept_notes(notes, related, f)[k].renote_id->0@ == (#[trigger] related[j]).id@
            ==> filters_allow(related[j], f),
        forall|k: int, j: int| 0 <= k < kept_notes(notes, related, f).len() && 0 <= j < related.len()
            && (forall|m: int| 0 <= m < j ==> (#[trigger] related[m]).id@ != related[j].id@)
            && (#[trigger] kept_notes(notes, related, f)[k]).reply_id is Some
            && kept_notes(notes, related, f)[k].reply_id->0@ == (#[trigger] related[j]).id@
            ==> filters_allow(related[j], f),
{
    let r = kept_notes(notes, related, f);
    lemma_kept_notes_pass(notes, related, f);
    assert forall|k: int| 0 <= k < r.len() implies filters_allow(#[trigger] r[k], f) by {
        lemma_passes(r[k], f);
    }
    assert forall|k: int, j: int| 0 <= k < r.len() && 0 <= j < related.len()
        && (forall|m: int| 0 <= m < j ==> (#[trigger] related[m]).id@ != related[j].id@)
        && (#[trigger] r[k]).renote_id is Some && r[k].renote_id->0@ == (#[trigger] related[j]).id@
        implies filters_allow(related[j], f) by {
        lemma_related_note_first(related, j);
        lemma_passes(related[j], f);
    }
    assert forall|k: int, j: int| 0 <= k < r.len() && 0 <= j < related.len()
        && (forall|m: int| 0 <= m < j ==> (#[trigger] related[m]).id@ != related[j].id@)
        && (#[trigger] r[k]).reply_id is Some && r[k].reply_id->0@ == (#[trigger] related[j]).id@
        implies filters_allow(related[j], f) by {
        lemma_related_note_first(related, j);
        lemma_passes(related[j], f);
    }
}

fn is_kept(note: &TimelineNote, related: &Vec<TimelineNote>, filters: &NoteFilters) -> (r: bool)
    ensures
        r == kept(*note, related@, *filters),
{
    if !note_passes(note, filters) {
        return false;
    }
    if let Some(reply_id) = &note.reply_id {
        if let Some(i) = find_related(related, reply_id) {
            if !note_passes(&related[i], filters) {
                return false;
            }
        }
    }
    if let Some(renote_id) = &note.renote_id {
        if let Some(i) = find_related(related, renote_id) {
            if !note_passes(&related[i], filters) {
                return false;
            }
        }
    }
    true
}

/// Keeps the notes that pass the viewer's filters, with their replied-to and
/// renoted notes (see `kept`).
pub fn filter_notes(notes: Vec<TimelineNote>, related: &Vec<TimelineNote>, filters: &NoteFilters) -> (r: Vec<TimelineNote>)
    ensures
        r@ == kept_notes(notes@, related@, *filters),
        forall|k: int| 0 <= k < r@.len() ==> note_and_related_pass(#[trigger] r@[k], related@, *filters),
        forall|i: int| 0 <= i < notes@.len() && note_and_related_pass(#[trigger] notes@[i], related@, *filters)
            ==> r@.contains(notes@[i]),
        forall|k: int| 0 <= k < r@.len() ==> filters_allow(#[trigger] r@[k], *filters),
        forall|k: int, j: int| 0 <= k < r@.len() && 0 <= j < related@.len()
            && (forall|m: int| 0 <= m < j ==> (#[trigger] related@[m]).id@ != related@[j].id@)
            && (#[trigger] r@[k]).renote_id is Some && r@[k].renote_id->0@ == (#[trigger] related@[j]).id@
            ==> filters_allow(related@[j], *filters),
        forall|k: int, j: int| 0 <= k < r@.len() && 0 <= j < related@.len()
            && (forall|m: int| 0 <= m < j ==> (#[trigger] related@[m]).id@ != related@[j].id@)
            && (#[trigger] r@[k]).reply_id is Some && r@[k].reply_id->0@ == (#[trigger] related@[j]).id@
            ==> filters_allow(related@[j], *filters),
{
    proof {
        lemma_kept_notes_pass(notes@, related@, *filters);
        lemma_kept_notes_allowed(notes@, related@, *filters);
    }
    let mut r: Vec<TimelineNote> = Vec::new();
    let mut src = notes;
    let ghost orig = src@;
    let ghost mut done: Seq<TimelineNote> = Seq::empty();
    while src.len() > 0
        invariant
            orig == done + src@,
            r@ == kept_notes(done, related@, *filters),
        decreases src@.len(),
    {
        let ghost src0 = src@;
        let x = src.remove(0);
        proof {
            assert(src0 =~= seq![x] + src@);
            assert(orig =~= done.push(x) + src@);
            assert(done.push(x).drop_last() =~= done);
            reveal(Seq::filter);
        }
        let keep = is_kept(&x, related, filters);
        proof {
            done = done.push(x);
        }
        if keep {
            r.push(x);
        }
    }
    assert(done =~= orig);
    r
}

} // verus!

verus! {

/// The first cached user with the given id.
pub open spec fn cached_user(cache: Seq<CachedUser>, id: Seq<char>) -> Option<CachedUser>
    decreases cache.len(),
{
    if cache.len() == 0 {
        None
    } else if cache[0].id@ == id {
        Some(cache[0])
    } else {
        cached_user(cache.drop_first(), id)
    }
}

fn find_cached(cache: &Vec<CachedUser>, id: &str) -> (r: Option<usize>)
    ensures
        match r {
            Some(i) => i < cache@.len() && cached_user(cache@, id@) == Some(cache@[i as int]),
            None => cached_user(cache@, id@) is None,
        },
{
    let target = id.to_owned();
    let mut i: usize = 0;
    assert(cache@.skip(0) =~= cache@);
    while i < cache.len()
        invariant
            i <= cache@.len(),
            target@ == id@,
            cached_user(cache@, id@) == cached_user(cache@.skip(i as int), id@),
        decreases cache@.len() - i,
    {
        proof {
            assert(cache@.skip(i as int)[0] == cache@[i as int]);
            assert(cache@.skip(i as int).drop_first() =~= cache@.skip(i + 1));
        }
        if cache[i].id == target {
            return Some(i);
        }
        i = i + 1;
    }
    None
}

/// The first recorded muting state of a user, if any.
pub open spec fn muting_state(m: Seq<(String, bool)>, id: Seq<char>) -> Option<bool>
    decreases m.len(),
{
    if m.len() == 0 {
        None
    } else if m[0].0@ == id {
        Some(m[0].1)
    } else {
        muting_state(m.drop_first(), id)
    }
}

fn find_muting(m: &Vec<(String, bool)>, id: &str) -> (r: Option<bool>)
    ensures
        r == muting_state(m@, id@),
{
    let target = id.to_owned();
    let mut i: usize = 0;
    assert(m@.skip(0) =~= m@);
    while i < m.len()
        invariant
            i <= m@.len(),
            target@ == id@,
            muting_state(m@, id@) == muting_state(m@.skip(i as int), id@),
        decreases m@.len() - i,
    {
        proof {
            assert(m@.skip(i as int)[0] == m@[i as int]);
            assert(m@.skip(i as int).drop_first() =~= m@.skip(i + 1));
        }
        if m[i].0 == target {
            return Some(m[i].1);
        }
        i = i + 1;
    }
    None
}

/// A note's author is known to be a cat.
pub open spec fn by_cat(n: TimelineNote, cache: Seq<CachedUser>) -> bool {
    cached_user(cache, n.user_id@) matches Some(u) && u.is_cat
}

/// Keeps the notes whose author is known to be a cat.
pub fn retain_cats(notes: Vec<TimelineNote>, cache: &Vec<CachedUser>) -> (r: Vec<TimelineNote>)
    ensures
        r@ == notes@.filter(|n: TimelineNote| by_cat(n, cache@)),
{
    let mut r: Vec<TimelineNote> = Vec::new();
    let mut src = notes;
    let ghost orig = src@;
    let ghost mut done: Seq<TimelineNote> = Seq::empty();
    while src.len() > 0
        invariant
            orig == done + src@,
            r@ == done.filter(|n: TimelineNote| by_cat(n, cache@)),
        decreases src@.len(),
    {
        let ghost src0 = src@;
        let x = src.remove(0);
        proof {
            assert(src0 =~= seq![x] + src@);
            assert(orig =~= done.push(x) + src@);
            assert(done.push(x).drop_last() =~= done);
            reveal(Seq::filter);
        }
        let keep = match find_cached(cache, x.user_id.as_str()) {
            Some(i) => cache[i].is_cat,
            None => false,
        };
        proof {
            done = done.push(x);
        }
        if keep {
            r.push(x);
        }
    }
    assert(done =~= orig);
    r
}

/// The authors of `s` that are not in the cache, in order, with repeats.
pub open spec fn uncached_authors(s: Seq<TimelineNote>, cache: Seq<CachedUser>) -> Seq<Seq<char>>
    decreases s.len(),
{
    if s.len() == 0 {
        Seq::empty()
    } else {
        let rest = uncached_authors(s.drop_last(), cache);
        if cached_user(cache, s.last().user_id@) is None {
            rest.push(s.last().user_id@)
        } else {
            rest
        }
    }
}

/// The ids of the notes' authors that still have to be loaded.
pub fn uncached_user_ids(notes: &Vec<TimelineNote>, cache: &Vec<CachedUser>) -> (r: Vec<String>)
    ensures
        views(r@) == uncached_authors(notes@, cache@),
{
    let mut r: Vec<String> = Vec::new();
    let mut i: usize = 0;
    while i < notes.len()
        invariant
            i <= notes@.len(),
            views(r@) == uncached_authors(notes@.take(i as int), cache@),
        decreases notes@.len() - i,
    {
        proof {
            assert(notes@.take(i + 1).drop_last() =~= notes@.take(i as int));
        }
        if find_cached(cache, notes[i].user_id.as_str()).is_none() {
            r.push(notes[i].user_id.clone());
            assert(views(r@) =~= uncached_authors(notes@.take(i as int), cache@).push(
                notes@[i as int].user_id@,
            ));
        }
        i = i + 1;
    }
    assert(notes@.take(notes@.len() as int) =~= notes@);
    r
}

/// A followed user whose notes a home or social timeline reads: not known to be
/// a non-cat when only cats are wanted, and not muted.
pub open spec fn author_kept(f: Seq<char>, cache: Seq<CachedUser>, muting: Seq<(String, bool)>, with_cats: bool) -> bool {
    &&& with_cats ==> !(cached_user(cache, f) matches Some(u) && !u.is_cat)
    &&& muting_state(muting, f) != Some(true)
}

/// The authors whose notes a home or social timeline reads: the kept followed
/// users (see `author_kept`), in order, then the viewer.
pub fn timeline_authors(
    following: &Vec<String>,
    cache: &Vec<CachedUser>,
    muting: &Vec<(String, bool)>,
    with_cats: bool,
    me_id: &str,
) -> (r: Vec<String>)
    ensures
        views(r@) == views(following@).filter(|f: Seq<char>| author_kept(f, cache@, muting@, with_cats)).push(me_id@),
{
    let mut r: Vec<String> = Vec::new();
    let mut i: usize = 0;
    while i < following.len()
        invariant
            i <= following@.len(),
            views(r@) == views(following@).take(i as int).filter(|f: Seq<char>| author_kept(f, cache@, muting@, with_cats)),
        decreases following@.len() - i,
    {
        let f = following[i].as_str();
        proof {
            assert(views(following@).take(i + 1).drop_last() =~= views(following@).take(i as int));
            assert(views(following@).take(i + 1).last() == f@);
            reveal(Seq::filter);
        }
        let not_cat = with_cats && match find_cached(cache, f) {
            Some(k) => !cache[k].is_cat,
            None => false,
        };
        let muted = match find_muting(muting, f) {
            Some(b) => b,
            None => false,
        };
        if !not_cat && !muted {
            r.push(following[i].clone());
        }
        i = i + 1;
    }
    assert(views(following@).take(following@.len() as int) =~= views(following@));
    r.push(me_id.to_owned());
    r
}

/// A cached user whose notes the local timeline leaves out: a local user who is
/// muted, or, when only cats are wanted, known not to be a cat.
pub open spec fn local_excluded(u: CachedUser, muting: Seq<(String, bool)>, with_cats: bool) -> bool {
    u.host is None && (muting_state(muting, u.id@) == Some(true) || (with_cats && !u.is_cat))
}

/// The users the local timeline leaves out (see `local_excluded`); none unless
/// only cats are wanted or there is a viewer.
pub fn local_excluded_users(
    cache: &Vec<CachedUser>,
    muting: &Vec<(String, bool)>,
    with_cats: bool,
    has_viewer: bool,
) -> (r: Vec<String>)
    ensures
        views(r@) == (if with_cats || has_viewer {
            cache@.filter(|u: CachedUser| local_excluded(u, muting@, with_cats)).map_values(|u: CachedUser| u.id@)
        } else {
            Seq::empty()
        }),
{
    let mut r: Vec<String> = Vec::new();
    if !(with_cats || has_viewer) {
        assert(views(r@) =~= Seq::<Seq<char>>::empty());
        return r;
    }
    let mut i: usize = 0;
    while i < cache.len()
        invariant
            i <= cache@.len(),
            views(r@) == cache@.take(i as int).filter(|u: CachedUser| local_excluded(u, muting@, with_cats)).map_values(|u: CachedUser| u.id@),
        decreases cache@.len() - i,
    {
        proof {
            assert(cache@.take(i + 1).drop_last() =~= cache@.take(i as int));
            reveal(Seq::filter);
        }
        let u = &cache[i];
        if u.host.is_none() {
            let muted = match find_muting(muting, u.id.as_str()) {
                Some(b) => b,
                None => false,
            };
            if muted || (with_cats && !u.is_cat) {
                let ghost prev = cache@.take(i as int).filter(|u: CachedUser| local_excluded(u, muting@, with_cats));
                proof {
                    assert(cache@.take(i + 1).last() == cache@[i as int]);
                    assert(local_excluded(cache@[i as int], muting@, with_cats));
                    assert(cache@.take(i + 1).filter(|u: CachedUser| local_excluded(u, muting@, with_cats)) == prev.push(cache@[i as int]));
                }
                let ghost old_r = r@;
                let id = u.id.clone();
                r.push(id);
                assert(views(r@) =~= views(old_r).push(id@));
                assert(prev.push(cache@[i as int]).map_values(|u: CachedUser| u.id@) =~= prev.map_values(|u: CachedUser| u.id@).push(cache@[i as int].id@));
            }
        }
        i = i + 1;
    }
    assert(cache@.take(cache@.len() as int) =~= cache@);
    r
}

} // verus!

verus! {

/// How far gathering a timeline has come: the notes kept so far and the pages
/// read.
#[derive(Clone, Copy, Debug, PartialEq, Eq, Structural)]
pub struct Gathering {
    pub gathered: usize,
    pub pages: u32,
}

/// What reading one more page gave.
#[derive(Clone, Copy, Debug, PartialEq, Eq, Structural)]
pub enum PageOutcome {
    /// The database could not be read.
    Failed,
    /// The page held no notes.
    Empty,
    /// The page held notes, of which this many passed the filters.
    Kept(usize),
}

/// What to do after a page.
#[derive(Clone, Copy, Debug, PartialEq, Eq, Structural)]
pub enum PageDecision {
    /// Read another page.
    Continue(Gathering),
    /// Return what was gathered.
    Finish,
    /// Return the error: nothing was gathered.
    Fail,
}

/// The most pages one timeline request reads.
pub const MAX_PAGES: u32 = 100;

/// After a page: a failure returns the error when nothing was gathered and what
/// was gathered otherwise; an empty page ends the request; else the kept notes
/// are added, and the request ends when the page is complete (see
/// `page_done`) or the hundredth page was read.
pub open spec fn decision_after(s: Gathering, o: PageOutcome, allow_partial: bool, limit: u16) -> PageDecision {
    match o {
        PageOutcome::Failed => if s.gathered == 0 {
            PageDecision::Fail
        } else {
            PageDecision::Finish
        },
        PageOutcome::Empty => PageDecision::Finish,
        PageOutcome::Kept(k) => {
            let g = s.gathered + k;
            if page_done(g as nat, allow_partial, limit) || s.pages + 1 >= MAX_PAGES {
                PageDecision::Finish
            } else {
                PageDecision::Continue(Gathering { gathered: g as usize, pages: (s.pages + 1) as u32 })
            }
        },
    }
}

/// What to do after a page (see `decision_after`).
pub fn after_page(state: Gathering, outcome: PageOutcome, allow_partial: bool, limit: u16) -> (r: PageDecision)
    requires
        state.pages < MAX_PAGES,
        outcome matches PageOutcome::Kept(k) ==> state.gathered + k <= usize::MAX,
    ensures
        r == decision_after(state, outcome, allow_partial, limit),
        r matches PageDecision::Continue(s) ==> s.pages < MAX_PAGES,
{
    match outcome {
        PageOutcome::Failed => if state.gathered == 0 {
            PageDecision::Fail
        } else {
            PageDecision::Finish
        },
        PageOutcome::Empty => PageDecision::Finish,
        PageOutcome::Kept(k) => {
            let g = state.gathered + k;
            if page_complete(g, allow_partial, limit) || state.pages + 1 >= MAX_PAGES {
                PageDecision::Finish
            } else {
                PageDecision::Continue(Gathering { gathered: g, pages: state.pages + 1 })
            }
        },
    }
}

/// A timeline request reads at most `MAX_PAGES` pages: each decision to go on
/// counts one more page, and none is taken at the last.
pub proof fn lemma_pages_bounded(s: Gathering, o: PageOutcome, allow_partial: bool, limit: u16)
    requires
        s.pages < MAX_PAGES,
        o matches PageOutcome::Kept(k) ==> s.gathered + k <= usize::MAX,
    ensures
        decision_after(s, o, allow_partial, limit) matches PageDecision::Continue(n) ==> n.pages == s.pages + 1 && n.pages < MAX_PAGES,
{
}

} // verus!

verus! {

proof fn lemma_muting_state_update(m: Seq<(String, bool)>, i: int, e: (String, bool), x: Seq<char>)
    requires
        0 <= i < m.len(),
        m[i].0@ == e.0@,
        forall|j: int| 0 <= j < i ==> m[j].0@ != e.0@,
    ensures
        muting_state(m.update(i, e), x) == (if x == e.0@ { Some(e.1) } else { muting_state(m, x) }),
    decreases i,
{
    let u = m.update(i, e);
    if i > 0 {
        assert(u.drop_first() =~= m.drop_first().update(i - 1, e));
        assert(u[0] == m[0]);
        assert(m[0].0@ != e.0@);
        lemma_muting_state_update(m.drop_first(), i - 1, e, x);
    } else {
        assert(u.drop_first() =~= m.drop_first());
        assert(u[0] == e);
    }
}

proof fn lemma_muting_state_push(m: Seq<(String, bool)>, e: (String, bool), x: Seq<char>)
    requires
        forall|j: int| 0 <= j < m.len() ==> m[j].0@ != e.0@,
    ensures
        muting_state(m.push(e), x) == (if x == e.0@ { Some(e.1) } else { muting_state(m, x) }),
    decreases m.len(),
{
    let p = m.push(e);
    if m.len() > 0 {
        assert(p.drop_first() =~= m.drop_first().push(e));
        assert(p[0] == m[0]);
        assert(m[0].0@ != e.0@);
        lemma_muting_state_push(m.drop_first(), e, x);
    } else {
        assert(p.drop_first() =~= Seq::<(String, bool)>::empty());
        assert(p[0] == e);
        assert(muting_state(p.drop_first(), x) is None);
    }
}

/// No user occurs twice among the muting states: the list stands for a map
/// from users to whether the viewer mutes them.
pub open spec fn unique_users(m: Seq<(String, bool)>) -> bool {
    forall|a: int, b: int| 0 <= a < b < m.len() ==> (#[trigger] m[a]).0@ != (#[trigger] m[b]).0@
}

/// Records whether the viewer mutes a user: afterwards that user's state is
/// `muted`, every other user's state is as it was, and no user occurs twice
/// when none did before.
pub fn set_muting(m: &mut Vec<(String, bool)>, id: &String, muted: bool)
    ensures
        muting_state(final(m)@, id@) == Some(muted),
        forall|x: Seq<char>| x != id@ ==> muting_state(final(m)@, x) == muting_state(old(m)@, x),
        unique_users(old(m)@) ==> unique_users(final(m)@),
{
    let mut i: usize = 0;
    while i < m.len()
        invariant
            i <= m@.len(),
            m@ == old(m)@,
            forall|j: int| 0 <= j < i ==> m@[j].0@ != id@,
        decreases m@.len() - i,
    {
        if m[i].0 == *id {
            let ghost before = m@;
            let e = (id.clone(), muted);
            m.set(i, e);
            proof {
                assert forall|x: Seq<char>| true implies muting_state(m@, x) == (if x == id@ { Some(muted) } else { muting_state(before, x) }) by {
                    lemma_muting_state_update(before, i as int, e, x);
                }
                if unique_users(before) {
                    assert forall|a: int, b: int| 0 <= a < b < m@.len() implies (#[trigger] m@[a]).0@ != (#[trigger] m@[b]).0@ by {
                        assert(m@[a].0@ == before[a].0@);
                        assert(m@[b].0@ == before[b].0@);
                    }
                }
            }
            return;
        }
        i = i + 1;
    }
    let ghost before = m@;
    let e = (id.clone(), muted);
    m.push(e);
    proof {
        assert forall|x: Seq<char>| true implies muting_state(m@, x) == (if x == id@ { Some(muted) } else { muting_state(before, x) }) by {
            lemma_muting_state_push(before, e, x);
        }
        if unique_users(before) {
            assert forall|a: int, b: int| 0 <= a < b < m@.len() implies (#[trigger] m@[a]).0@ != (#[trigger] m@[b]).0@ by {
                assert(m@[a] == before[a]);
                if b < before.len() {
                    assert(m@[b] == before[b]);
                }
            }
        }
    }
}

proof fn lemma_take_contains(v: Seq<Seq<char>>, i: int, x: Seq<char>)
    requires
        0 <= i < v.len(),
    ensures
        v.take(i + 1).contains(x) <==> (v.take(i).contains(x) || v[i] == x),
{
    if v.take(i + 1).contains(x) {
        let k = choose|k: int| 0 <= k < v.take(i + 1).len() && #[trigger] v.take(i + 1)[k] == x;
        if k < i {
            assert(v.take(i)[k] == x);
        }
    }
    if v.take(i).contains(x) {
        let k = choose|k: int| 0 <= k < v.take(i).len() && #[trigger] v.take(i)[k] == x;
        assert(v.take(i + 1)[k] == x);
    }
    if v[i] == x {
        assert(v.take(i + 1)[i] == x);
    }
}

/// Records what a page learnt of the viewer's mutes: the users found muted are
/// muted, then the followed users kept on the timeline are known not to be;
/// every other user's state is as it was.
pub fn record_mutes(m: &mut Vec<(String, bool)>, muted: &Vec<String>, kept: &Vec<String>)
    ensures
        unique_users(old(m)@) ==> unique_users(final(m)@),
        forall|x: Seq<char>| #[trigger] views(kept@).contains(x) ==> muting_state(final(m)@, x) == Some(false),
        forall|x: Seq<char>| !views(kept@).contains(x) && #[trigger] views(muted@).contains(x) ==> muting_state(final(m)@, x) == Some(true),
        forall|x: Seq<char>| !views(kept@).contains(x) && !views(muted@).contains(x) ==> #[trigger] muting_state(final(m)@, x) == muting_state(old(m)@, x),
{
    let mut i: usize = 0;
    while i < muted.len()
        invariant
            i <= muted@.len(),
            forall|x: Seq<char>| #[trigger] views(muted@).take(i as int).contains(x) ==> muting_state(m@, x) == Some(true),
            forall|x: Seq<char>| !views(muted@).take(i as int).contains(x) ==> #[trigger] muting_state(m@, x) == muting_state(old(m)@, x),
            unique_users(old(m)@) ==> unique_users(m@),
        decreases muted@.len() - i,
    {
        let ghost before = m@;
        set_muting(m, &muted[i], true);
        proof {
            assert(views(muted@)[i as int] == muted@[i as int]@);
            assert forall|x: Seq<char>| #[trigger] views(muted@).take(i + 1).contains(x) implies muting_state(m@, x) == Some(true) by {
                lemma_take_contains(views(muted@), i as int, x);
                if x != muted@[i as int]@ {
                    assert(muting_state(m@, x) == muting_state(before, x));
                }
            }
            assert forall|x: Seq<char>| !views(muted@).take(i + 1).contains(x) implies #[trigger] muting_state(m@, x) == muting_state(old(m)@, x) by {
                lemma_take_contains(views(muted@), i as int, x);
                assert(muting_state(m@, x) == muting_state(before, x));
            }
        }
        i = i + 1;
    }
    assert(views(muted@).take(muted@.len() as int) =~= views(muted@));
    let ghost mid = m@;
    let mut j: usize = 0;
    while j < kept.len()
        invariant
            j <= kept@.len(),
            forall|x: Seq<char>| #[trigger] views(kept@).take(j as int).contains(x) ==> muting_state(m@, x) == Some(false),
            forall|x: Seq<char>| !views(kept@).take(j as int).contains(x) ==> #[trigger] muting_state(m@, x) == muting_state(mid, x),
            unique_users(old(m)@) ==> unique_users(m@),
        decreases kept@.len() - j,
    {
        let ghost before = m@;
        set_muting(m, &kept[j], false);
        proof {
            assert(views(kept@)[j as int] == kept@[j as int]@);
            assert forall|x: Seq<char>| #[trigger] views(kept@).take(j + 1).contains(x) implies muting_state(m@, x) == Some(false) by {
                lemma_take_contains(views(kept@), j as int, x);
                if x != kept@[j as int]@ {
                    assert(muting_state(m@, x) == muting_state(before, x));
                }
            }
            assert forall|x: Seq<char>| !views(kept@).take(j + 1).contains(x) implies #[trigger] muting_state(m@, x) == muting_state(mid, x) by {
                lemma_take_contains(views(kept@), j as int, x);
                assert(muting_state(m@, x) == muting_state(before, x));
            }
        }
        j = j + 1;
    }
    assert(views(kept@).take(kept@.len() as int) =~= views(kept@));
}

/// The viewer is known to mute the user `x`.
pub open spec fn known_muted(m: Seq<(String, bool)>, x: Seq<char>) -> bool {
    exists|i: int| 0 <= i < m.len() && #[trigger] m[i].0@ == x && m[i].1
}

proof fn lemma_known_muted_step(m: Seq<(String, bool)>, k: int, x: Seq<char>)
    requires
        0 <= k < m.len(),
    ensures
        known_muted(m.take(k + 1), x) <==> (known_muted(m.take(k), x) || (m[k].0@ == x && m[k].1)),
{
    if known_muted(m.take(k + 1), x) {
        let i = choose|i: int| 0 <= i < m.take(k + 1).len() && #[trigger] m.take(k + 1)[i].0@ == x && m.take(k + 1)[i].1;
        if i < k {
            assert(m.take(k)[i] == m[i]);
        }
    }
    if known_muted(m.take(k), x) {
        let i = choose|i: int| 0 <= i < m.take(k).len() && #[trigger] m.take(k)[i].0@ == x && m.take(k)[i].1;
        assert(m.take(k + 1)[i] == m[i]);
    }
    if m[k].0@ == x && m[k].1 {
        assert(m.take(k + 1)[k] == m[k]);
    }
}

proof fn lemma_views_push(v: Seq<String>, s: String, x: Seq<char>)
    ensures
        views(v.push(s)).contains(x) <==> (views(v).contains(x) || x == s@),
        views(v.push(s)) == views(v).push(s@),
{
    assert(views(v.push(s)) =~= views(v).push(s@));
    if views(v.push(s)).contains(x) {
        let j = choose|j: int| 0 <= j < views(v.push(s)).len() && views(v.push(s))[j] == x;
        if j < v.len() {
            assert(views(v)[j] == x);
        }
    }
    if views(v).contains(x) {
        let j = choose|j: int| 0 <= j < views(v).len() && views(v)[j] == x;
        assert(views(v.push(s))[j] == x);
    }
    if x == s@ {
        assert(views(v.push(s))[v.len() as int] == x);
    }
}

/// Adds to the excluded users every user the viewer is known to mute, each
/// once.
pub fn exclude_muted(exclude: &mut Vec<String>, muting: &Vec<(String, bool)>)
    ensures
        forall|x: Seq<char>| #[trigger] views(final(exclude)@).contains(x) <==> (views(old(exclude)@).contains(x)
            || known_muted(muting@, x)),
        views(old(exclude)@).no_duplicates() ==> views(final(exclude)@).no_duplicates(),
{
    let mut k: usize = 0;
    assert(muting@.take(0) =~= Seq::<(String, bool)>::empty());
    while k < muting.len()
        invariant
            k <= muting@.len(),
            forall|x: Seq<char>| #[trigger] views(exclude@).contains(x) <==> (views(old(exclude)@).contains(x)
                || known_muted(muting@.take(k as int), x)),
            views(old(exclude)@).no_duplicates() ==> views(exclude@).no_duplicates(),
        decreases muting@.len() - k,
    {
        let uid = &muting[k].0;
        let is_mute = muting[k].1;
        let ghost before = exclude@;
        if is_mute && !strings_contain(exclude, uid.as_str()) {
            let c = uid.clone();
            exclude.push(c);
            proof {
                assert forall|x: Seq<char>| #[trigger] views(exclude@).contains(x) <==> (views(before).contains(x) || x == uid@) by {
                    lemma_views_push(before, c, x);
                }
                lemma_views_push(before, c, uid@);
                if views(old(exclude)@).no_duplicates() {
                    assert(views(exclude@).no_duplicates()) by {
                        assert forall|a: int, b: int| 0 <= a < b < views(exclude@).len() implies views(exclude@)[a] != views(exclude@)[b] by {
                            if b == before.len() {
                                assert(views(exclude@)[a] == views(before)[a]);
                            } else {
                                assert(views(exclude@)[a] == views(before)[a]);
                                assert(views(exclude@)[b] == views(before)[b]);
                            }
                        }
                    }
                }
            }
        }
        proof {
            assert forall|x: Seq<char>| #[trigger] views(exclude@).contains(x) <==> (views(old(exclude)@).contains(x)
                || known_muted(muting@.take(k + 1), x)) by {
                lemma_known_muted_step(muting@, k as int, x);
            }
        }
        k = k + 1;
    }
    assert(muting@.take(muting@.len() as int) =~= muting@);
}

} // verus!

verus! {

/// The id that an optional reference holds, as a list of at most one.
pub open spec fn ref_seq(o: Option<String>) -> Seq<Seq<char>> {
    match o {
        Some(r) => seq![r@],
        None => Seq::empty(),
    }
}

/// The ids a note refers to: the note it replies to, then the note it renotes.
pub open spec fn note_refs(n: TimelineNote) -> Seq<Seq<char>> {
    ref_seq(n.reply_id) + ref_seq(n.renote_id)
}

/// The ids that the notes of `s` refer to and that `related` does not hold,
/// in order, with repeats.
pub open spec fn unknown_refs(s: Seq<TimelineNote>, related: Seq<TimelineNote>) -> Seq<Seq<char>>
    decreases s.len(),
{
    if s.len() == 0 {
        Seq::empty()
    } else {
        unknown_refs(s.drop_last(), related) + note_refs(s.last()).filter(
            |x: Seq<char>| related_note(related, x) is None,
        )
    }
}

fn push_unknown(out: &mut Vec<String>, id: &Option<String>, related: &Vec<TimelineNote>)
    ensures
        views(final(out)@) == views(old(out)@) + ref_seq(*id).filter(|x: Seq<char>| related_note(related@, x) is None),
{
    proof {
        reveal(Seq::filter);
    }
    match id {
        Some(r) => {
            let ghost one = seq![r@];
            assert(one.drop_last() =~= Seq::<Seq<char>>::empty());
            assert(one.last() == r@);
            assert(ref_seq(*id) == one);
            let found = find_related(related, r);
            if found.is_none() {
                assert(one.filter(|x: Seq<char>| related_note(related@, x) is None) =~= one);
                out.push(r.clone());
                assert(views(out@) =~= views(old(out)@) + one);
            } else {
                assert(related_note(related@, r@) is Some);
                assert(one.drop_last().filter(|x: Seq<char>| related_note(related@, x) is None) =~= Seq::<Seq<char>>::empty());
                assert(one.filter(|x: Seq<char>| related_note(related@, x) is None) =~= Seq::<Seq<char>>::empty());
                assert(views(out@) =~= views(old(out)@) + Seq::<Seq<char>>::empty());
            }
        },
        None => {
            assert(views(out@) =~= views(old(out)@) + Seq::<Seq<char>>::empty());
        },
    }
}

/// The ids of the replied-to and renoted notes that still have to be loaded:
/// those that `related` does not hold, each once, in the order the notes name
/// them (for each note its reply first, then its renote).
pub fn missing_related_ids(notes: &Vec<TimelineNote>, related: &Vec<TimelineNote>) -> (r: Vec<String>)
    ensures
        views(r@) == dedup(unknown_refs(notes@, related@)),
        views(r@).no_duplicates(),
        forall|x: Seq<char>| views(r@).contains(x) <==> unknown_refs(notes@, related@).contains(x),
{
    let mut refs: Vec<String> = Vec::new();
    let mut i: usize = 0;
    while i < notes.len()
        invariant
            i <= notes@.len(),
            views(refs@) == unknown_refs(notes@.take(i as int), related@),
        decreases notes@.len() - i,
    {
        let n = &notes[i];
        let ghost before = views(refs@);
        push_unknown(&mut refs, &n.reply_id, related);
        let ghost mid = views(refs@);
        push_unknown(&mut refs, &n.renote_id, related);
        proof {
            let t = notes@.take(i + 1);
            assert(t.drop_last() =~= notes@.take(i as int));
            assert(t.last() == *n);
            let a = ref_seq(n.reply_id);
            let b = ref_seq(n.renote_id);
            let pred = |x: Seq<char>| related_note(related@, x) is None;
            Seq::filter_distributes_over_add(a, b, pred);
            assert(note_refs(*n) == a + b);
            assert(views(refs@) =~= before + (a + b).filter(pred));
        }
        i = i + 1;
    }
    assert(notes@.take(notes@.len() as int) =~= notes@);
    to_set(refs)
}

/// The authors of the notes of `s` whose blocks and mutes are looked up: not
/// already excluded and not yet known to be muted or not, in order, with
/// repeats.
pub open spec fn authors_to_check(s: Seq<TimelineNote>, exclude: Seq<Seq<char>>, muting: Seq<(String, bool)>) -> Seq<Seq<char>>
    decreases s.len(),
{
    if s.len() == 0 {
        Seq::empty()
    } else {
        let rest = authors_to_check(s.drop_last(), exclude, muting);
        let u = s.last().user_id@;
        if !exclude.contains(u) && muting_state(muting, u) is None {
            rest.push(u)
        } else {
            rest
        }
    }
}

fn push_if_unchecked(cands: &mut Vec<String>, n: &TimelineNote, exclude: &Vec<String>, muting: &Vec<(String, bool)>)
    ensures
        views(final(cands)@) == (if !views(exclude@).contains(n.user_id@) && muting_state(muting@, n.user_id@) is None {
            views(old(cands)@).push(n.user_id@)
        } else {
            views(old(cands)@)
        }),
{
    let u = n.user_id.as_str();
    if !strings_contain(exclude, u) && find_muting(muting, u).is_none() {
        cands.push(n.user_id.clone());
        assert(views(cands@) =~= views(old(cands)@).push(n.user_id@));
    }
}

/// The users whose blocks and mutes by the viewer are looked up for a page:
/// the authors of the replied-to and renoted notes just loaded and of the
/// page's notes (see `authors_to_check`), each once.
pub fn relation_user_ids(
    loaded: &Vec<TimelineNote>,
    notes: &Vec<TimelineNote>,
    exclude: &Vec<String>,
    muting: &Vec<(String, bool)>,
) -> (r: Vec<String>)
    ensures
        views(r@) == dedup(authors_to_check(loaded@ + notes@, views(exclude@), muting@)),
        views(r@).no_duplicates(),
        forall|x: Seq<char>| views(r@).contains(x) <==> authors_to_check(loaded@ + notes@, views(exclude@), muting@).contains(x),
{
    let ghost all = loaded@ + notes@;
    let ghost ex = views(exclude@);
    let mut cands: Vec<String> = Vec::new();
    let mut i: usize = 0;
    while i < loaded.len()
        invariant
            i <= loaded@.len(),
            all == loaded@ + notes@,
            ex == views(exclude@),
            views(cands@) == authors_to_check(all.take(i as int), ex, muting@),
        decreases loaded@.len() - i,
    {
        let n = &loaded[i];
        proof {
            assert(all.take(i + 1).drop_last() =~= all.take(i as int));
            assert(all.take(i + 1).last() == *n);
        }
        push_if_unchecked(&mut cands, n, exclude, muting);
        i = i + 1;
    }
    let mut j: usize = 0;
    while j < notes.len()
        invariant
            j <= notes@.len(),
            all == loaded@ + notes@,
            ex == views(exclude@),
            views(cands@) == authors_to_check(all.take(loaded@.len() + j as int), ex, muting@),
        decreases notes@.len() - j,
    {
        let n = &notes[j];
        let ghost k: int = loaded@.len() + j;
        proof {
            assert(all.take(k + 1).drop_last() =~= all.take(k));
            assert(all.take(k + 1).last() == *n);
        }
        push_if_unchecked(&mut cands, n, exclude, muting);
        j = j + 1;
    }
    assert(all.take(all.len() as int) =~= all);
    to_set(cands)
}

} // verus!

verus! {

proof fn lemma_related_note_found(related: Seq<TimelineNote>, x: Seq<char>)
    ensures
        related_note(related, x) is Some <==> exists|i: int| 0 <= i < related.len() && (#[trigger] related[i]).id@ == x,
    decreases related.len(),
{
    if related.len() > 0 {
        lemma_related_note_found(related.drop_first(), x);
        if exists|i: int| 0 <= i < related.len() && (#[trigger] related[i]).id@ == x {
            let i = choose|i: int| 0 <= i < related.len() && (#[trigger] related[i]).id@ == x;
            if i > 0 && related[0].id@ != x {
                assert(related.drop_first()[i - 1] == related[i]);
            }
        }
        if related_note(related.drop_first(), x) is Some {
            let i = choose|i: int| 0 <= i < related.drop_first().len() && (#[trigger] related.drop_first()[i]).id@ == x;
            assert(related[i + 1] == related.drop_first()[i]);
        }
    }
}

proof fn lemma_unknown_refs_member(s: Seq<TimelineNote>, related: Seq<TimelineNote>, x: Seq<char>)
    requires
        s.len() > 0,
        note_refs(s.last()).contains(x),
        related_note(related, x) is None,
    ensures
        unknown_refs(s, related).contains(x),
{
    let refs = note_refs(s.last());
    let pred = |y: Seq<char>| related_note(related, y) is None;
    let f = refs.filter(pred);
    let j = choose|j: int| 0 <= j < refs.len() && refs[j] == x;
    refs.lemma_filter_contains(pred, j);
    let k = choose|k: int| 0 <= k < f.len() && f[k] == x;
    let rest = unknown_refs(s.drop_last(), related);
    assert((rest + f)[rest.len() + k] == x);
}

/// Loading the notes that `missing_related_ids` names completes the related
/// notes: once `loaded` holds a note for each id that the page's notes refer to
/// and `related` lacks, no referenced id is unknown any more.
pub proof fn lemma_loading_completes_related(notes: Seq<TimelineNote>, related: Seq<TimelineNote>, loaded: Seq<TimelineNote>)
    requires
        forall|x: Seq<char>| #[trigger] unknown_refs(notes, related).contains(x) ==> exists|i: int| 0 <= i < loaded.len() && (#[trigger] loaded[i]).id@ == x,
    ensures
        unknown_refs(notes, related + loaded).len() == 0,
    decreases notes.len(),
{
    if notes.len() > 0 {
        let prefix = notes.drop_last();
        assert forall|x: Seq<char>| #[trigger] unknown_refs(prefix, related).contains(x) implies exists|i: int| 0 <= i < loaded.len() && (#[trigger] loaded[i]).id@ == x by {
            let k = choose|k: int| 0 <= k < unknown_refs(prefix, related).len() && unknown_refs(prefix, related)[k] == x;
            let f = note_refs(notes.last()).filter(|y: Seq<char>| related_note(related, y) is None);
            assert(unknown_refs(notes, related) == unknown_refs(prefix, related) + f);
            assert((unknown_refs(prefix, related) + f)[k] == x);
            assert(unknown_refs(notes, related).contains(x));
        }
        lemma_loading_completes_related(prefix, related, loaded);
        let all = related + loaded;
        let pred = |y: Seq<char>| related_note(all, y) is None;
        let refs = note_refs(notes.last());
        assert forall|k: int| 0 <= k < refs.len() implies !pred(#[trigger] refs[k]) by {
            let x = refs[k];
            assert(refs.contains(x));
            lemma_related_note_found(related, x);
            lemma_related_note_found(all, x);
            lemma_related_note_found(loaded, x);
            if related_note(related, x) is Some {
                let i = choose|i: int| 0 <= i < related.len() && (#[trigger] related[i]).id@ == x;
                assert(all[i] == related[i]);
            } else {
                lemma_unknown_refs_member(notes, related, x);
                let i = choose|i: int| 0 <= i < loaded.len() && (#[trigger] loaded[i]).id@ == x;
                assert(all[related.len() + i] == loaded[i]);
            }
        }
        if refs.filter(pred).len() > 0 {
            let y = refs.filter(pred)[0];
            refs.lemma_filter_pred(pred, 0);
            assert(refs.filter(pred).contains(y));
            refs.lemma_filter_contains_rev(pred, y);
            let k = choose|k: int| 0 <= k < refs.len() && refs[k] == y;
            assert(!pred(refs[k]));
        }
        assert(unknown_refs(notes, all) =~= unknown_refs(prefix, all) + refs.filter(pred));
    }
}

} // verus!
