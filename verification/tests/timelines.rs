use yojo_backend::fanout_timeline::{
    fallback_options, finish_page, needs_db_fallback, retain_renotes, take_batch, window_ids,
    FanoutTimelineName,
};
use yojo_backend::timeline::{
    record_mutes, missing_related_ids, relation_user_ids, after_page, exclude_muted, set_muting, Gathering, PageDecision, PageOutcome, MAX_PAGES, filter_notes, local_excluded_users, page_complete, retain_cats, timeline_authors, to_set,
    trim_boundary_notes, uncached_user_ids, CachedUser, NoteFilters, TLOptions, TimelineHints,
    TimelineNote, TimelineService,
};

fn s(x: &str) -> String {
    x.to_owned()
}

fn note(id: &str, user: &str) -> TimelineNote {
    TimelineNote {
        id: s(id),
        user_id: s(user),
        user_host: None,
        reply_id: None,
        renote_id: None,
        has_text: true,
        has_cw: false,
        has_poll: false,
        has_files: false,
        visible: true,
    }
}

fn opts() -> TLOptions {
    TLOptions {
        until_id: None,
        since_id: None,
        with_files: false,
        with_renotes: true,
        allow_partial: false,
        with_cats: false,
        with_replies: false,
        limit: 10,
    }
}

#[test]
fn list_names_of_timelines() {
    let u = s("u1");
    assert_eq!(FanoutTimelineName::Home(false, &u).to_names("h"), vec![s("h:list:homeTimeline:u1")]);
    assert_eq!(
        FanoutTimelineName::Home(true, &u).to_names("h"),
        vec![s("h:list:homeTimelineWithFiles:u1")]
    );
    assert_eq!(
        FanoutTimelineName::Local(false, false, Some(&u)).to_names("h"),
        vec![s("h:list:localTimeline"), s("h:list:localTimelineWithReplyTo:u1")]
    );
    assert_eq!(
        FanoutTimelineName::Local(false, true, None).to_names("h"),
        vec![s("h:list:localTimeline"), s("h:list:localTimelineWithReplies")]
    );
    assert_eq!(
        FanoutTimelineName::Local(true, true, None).to_names("h"),
        vec![s("h:list:localTimelineWithFiles")]
    );
    assert_eq!(FanoutTimelineName::Local(false, false, None).to_names("h"), vec![s("h:list:localTimeline")]);
    assert_eq!(
        FanoutTimelineName::Hybrid(false, false, &u).to_names("h"),
        vec![s("h:list:homeTimeline:u1"), s("h:list:localTimeline"), s("h:list:localTimelineWithReplyTou1")]
    );
    assert_eq!(
        FanoutTimelineName::Hybrid(true, false, &u).to_names("h"),
        vec![s("h:list:homeTimelineWithFiles:u1"), s("h:list:localTimelineWithFiles")]
    );
}

#[test]
fn window_and_order_of_ids() {
    let ids = vec![s("3"), s("1"), s("2"), s("5"), s("4")];
    let since = s("1");
    let until = s("5");
    assert_eq!(window_ids(ids.clone(), Some(&since), Some(&until), true), vec![s("2"), s("3"), s("4")]);
    assert_eq!(window_ids(ids.clone(), Some(&since), Some(&until), false), vec![s("4"), s("3"), s("2")]);
    assert_eq!(window_ids(ids.clone(), None, None, false), vec![s("5"), s("4"), s("3"), s("2"), s("1")]);
    assert_eq!(window_ids(vec![s("ab"), s("a"), s("b")], None, None, true), vec![s("a"), s("ab"), s("b")]);
}

#[test]
fn fallback_to_the_database() {
    assert!(needs_db_fallback(true, 0, true, 10));
    assert!(needs_db_fallback(true, 10, false, 10));
    assert!(!needs_db_fallback(true, 11, false, 10));
    assert!(!needs_db_fallback(true, 5, true, 10));
    assert!(!needs_db_fallback(false, 0, false, 10));
    let mut o = opts();
    let last = s("9");
    let f = fallback_options(&o, Some(&last));
    assert_eq!(f.until_id, Some(s("9")));
    assert_eq!(f.since_id, None);
    o.since_id = Some(s("1"));
    let f = fallback_options(&o, Some(&last));
    assert_eq!(f.since_id, Some(s("9")));
    assert_eq!(f.until_id, None);
    let f = fallback_options(&o, None);
    assert_eq!(f.since_id, Some(s("1")));
}

#[test]
fn batches_of_ids() {
    let mut m = vec![s("a"), s("b"), s("c")];
    assert_eq!(take_batch(&mut m, 2), vec![s("a"), s("b")]);
    assert_eq!(m, vec![s("c")]);
    assert_eq!(take_batch(&mut m, 2), vec![s("c")]);
    assert!(m.is_empty());
}

#[test]
fn renote_setting() {
    let mut plain = note("2", "u");
    plain.renote_id = Some(s("1"));
    plain.has_text = false;
    let mut quote = note("3", "u");
    quote.renote_id = Some(s("1"));
    let ordinary = note("4", "u");
    let kept = retain_renotes(vec![plain.clone(), quote.clone(), ordinary.clone()], false);
    let ids: Vec<String> = kept.iter().map(|n| n.id.clone()).collect();
    assert_eq!(ids, vec![s("3"), s("4")]);
    assert_eq!(retain_renotes(vec![plain, quote, ordinary], true).len(), 3);
}

#[test]
fn pages_are_sorted_and_cut() {
    let notes = vec![note("2", "u"), note("5", "u"), note("1", "u"), note("4", "u")];
    let page = finish_page(notes.clone(), false, 3);
    let ids: Vec<String> = page.iter().map(|n| n.id.clone()).collect();
    assert_eq!(ids, vec![s("5"), s("4"), s("2")]);
    let page = finish_page(notes, true, 10);
    let ids: Vec<String> = page.iter().map(|n| n.id.clone()).collect();
    assert_eq!(ids, vec![s("1"), s("2"), s("4"), s("5")]);
}

#[test]
fn sets_keep_first_occurrences() {
    assert_eq!(to_set(vec![s("a"), s("b"), s("a"), s("c"), s("b")]), vec![s("a"), s("b"), s("c")]);
    assert!(to_set(vec![]).is_empty());
}

#[test]
fn boundary_notes_are_trimmed() {
    let mut o = opts();
    o.since_id = Some(s("1"));
    o.until_id = Some(s("5"));
    let raw = vec![note("5", "u"), note("3", "u"), note("1", "u")];
    let ids: Vec<String> = trim_boundary_notes(raw, &o).iter().map(|n| n.id.clone()).collect();
    assert_eq!(ids, vec![s("3")]);
    let raw = vec![note("4", "u"), note("3", "u")];
    assert_eq!(trim_boundary_notes(raw, &o).len(), 2);
}

#[test]
fn page_completion() {
    assert!(!page_complete(0, true, 10));
    assert!(page_complete(1, true, 10));
    assert!(!page_complete(10, false, 10));
    assert!(page_complete(11, false, 10));
}

#[test]
fn viewer_filters() {
    let filters = NoteFilters {
        exclude_users: vec![s("blocked")],
        renote_muting: vec![s("noisy")],
        muted_instances: vec![s("muted.example")],
    };
    let a = note("1", "friend");
    let b = note("2", "blocked");
    let mut c = note("3", "noisy");
    c.renote_id = Some(s("1"));
    c.has_text = false;
    let mut d = note("4", "friend");
    d.user_host = Some(s("muted.example"));
    let mut e = note("5", "friend");
    e.visible = false;
    let mut f = note("6", "friend");
    f.reply_id = Some(s("2"));
    let related = vec![b.clone()];
    let kept = filter_notes(vec![a, b, c, d, e, f], &related, &filters);
    let ids: Vec<String> = kept.iter().map(|n| n.id.clone()).collect();
    assert_eq!(ids, vec![s("1")]);
}

#[test]
fn cat_filters_and_cache() {
    let cache = vec![
        CachedUser { id: s("cat"), host: None, is_cat: true },
        CachedUser { id: s("dog"), host: None, is_cat: false },
    ];
    let notes = vec![note("1", "cat"), note("2", "dog"), note("3", "unknown")];
    assert_eq!(uncached_user_ids(&notes, &cache), vec![s("unknown")]);
    let kept = retain_cats(notes, &cache);
    assert_eq!(kept.len(), 1);
    assert_eq!(kept[0].user_id, "cat");
}

#[test]
fn authors_of_home_timeline() {
    let cache = vec![CachedUser { id: s("dog"), host: None, is_cat: false }];
    let muting = vec![(s("muted"), true), (s("ok"), false)];
    let following = vec![s("dog"), s("muted"), s("ok"), s("new")];
    assert_eq!(
        timeline_authors(&following, &cache, &muting, false, "me"),
        vec![s("dog"), s("ok"), s("new"), s("me")]
    );
    assert_eq!(
        timeline_authors(&following, &cache, &muting, true, "me"),
        vec![s("ok"), s("new"), s("me")]
    );
}

#[test]
fn local_timeline_exclusions() {
    let cache = vec![
        CachedUser { id: s("muted"), host: None, is_cat: true },
        CachedUser { id: s("dog"), host: None, is_cat: false },
        CachedUser { id: s("remote"), host: Some(s("r.example")), is_cat: false },
        CachedUser { id: s("cat"), host: None, is_cat: true },
    ];
    let muting = vec![(s("muted"), true)];
    assert_eq!(local_excluded_users(&cache, &muting, true, false), vec![s("muted"), s("dog")]);
    assert_eq!(local_excluded_users(&cache, &muting, false, true), vec![s("muted")]);
    assert!(local_excluded_users(&cache, &muting, false, false).is_empty());
}

#[test]
fn defaults_and_services() {
    let h = TimelineHints::default();
    assert!(h.followings_user.is_none() && h.user_cache.is_empty());
    let _ = TimelineService::new();
    assert!(!opts().ascending());
}

#[test]
fn page_decisions() {
    use_page_decisions();
}

fn use_page_decisions() {
    let start = Gathering { gathered: 0, pages: 0 };
    assert_eq!(after_page(start, PageOutcome::Failed, false, 10), PageDecision::Fail);
    let some = Gathering { gathered: 3, pages: 4 };
    assert_eq!(after_page(some, PageOutcome::Failed, false, 10), PageDecision::Finish);
    assert_eq!(after_page(some, PageOutcome::Empty, false, 10), PageDecision::Finish);
    assert_eq!(
        after_page(some, PageOutcome::Kept(2), false, 10),
        PageDecision::Continue(Gathering { gathered: 5, pages: 5 })
    );
    assert_eq!(after_page(some, PageOutcome::Kept(8), false, 10), PageDecision::Finish);
    assert_eq!(after_page(some, PageOutcome::Kept(1), true, 10), PageDecision::Finish);
    assert_eq!(after_page(start, PageOutcome::Kept(0), true, 10), PageDecision::Continue(Gathering { gathered: 0, pages: 1 }));
    let last = Gathering { gathered: 0, pages: MAX_PAGES - 1 };
    assert_eq!(after_page(last, PageOutcome::Kept(0), false, 10), PageDecision::Finish);
}

#[test]
fn muting_records() {
    let mut m: Vec<(String, bool)> = vec![(s("a"), false), (s("b"), true)];
    set_muting(&mut m, &s("a"), true);
    set_muting(&mut m, &s("c"), false);
    assert_eq!(m, vec![(s("a"), true), (s("b"), true), (s("c"), false)]);
    let mut exclude = vec![s("b")];
    exclude_muted(&mut exclude, &m);
    assert_eq!(exclude, vec![s("b"), s("a")]);
}

#[test]
fn related_notes_to_load() {
    let mut a = note("a", "u1");
    a.reply_id = Some(s("r1"));
    a.renote_id = Some(s("q1"));
    let mut b = note("b", "u2");
    b.reply_id = Some(s("q1"));
    let mut c = note("c", "u3");
    c.renote_id = Some(s("known"));
    let related = vec![note("known", "u9")];
    let notes = vec![a, b, c];
    assert_eq!(missing_related_ids(&notes, &related), vec![s("r1"), s("q1")]);
    assert!(missing_related_ids(&vec![], &related).is_empty());
    let mut completed = related.clone();
    completed.push(note("r1", "u5"));
    completed.push(note("q1", "u6"));
    assert!(missing_related_ids(&notes, &completed).is_empty());
}

#[test]
fn users_whose_relations_are_looked_up() {
    let loaded = vec![note("r1", "u5"), note("q1", "u1")];
    let notes = vec![note("a", "u1"), note("b", "u2"), note("c", "u3"), note("d", "u4")];
    let exclude = vec![s("u2")];
    let muting = vec![(s("u3"), false), (s("u4"), true)];
    assert_eq!(relation_user_ids(&loaded, &notes, &exclude, &muting), vec![s("u5"), s("u1")]);
}

#[test]
fn mutes_learnt_from_a_page() {
    let mut m = vec![(s("u1"), false), (s("u9"), true)];
    record_mutes(&mut m, &vec![s("u1"), s("u2")], &vec![s("u3")]);
    assert_eq!(m, vec![(s("u1"), true), (s("u9"), true), (s("u2"), true), (s("u3"), false)]);
}
