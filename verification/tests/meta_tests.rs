use monk::meta::{generate_id, id_from_clock, id_from_sample, IndexStatus, Meta, MetaBuilder, Timestamp};
use monk::strset::StrSet;

fn ts(secs: i64, nanos: u32) -> Timestamp {
    Timestamp { secs, nanos }
}

#[test]
fn builder_sets_given_fields() {
    let m = MetaBuilder::new()
        .id("abc".to_string())
        .name("n".to_string())
        .url("https://x/".to_string())
        .comment("c".to_string())
        .found(ts(5, 0))
        .last_read(ts(6, 0))
        .build();
    assert_eq!(m.id(), "abc");
    assert_eq!(m.name(), Some("n"));
    assert_eq!(m.url(), Some("https://x/"));
    assert_eq!(m.comment(), Some("c"));
    assert_eq!(*m.found(), ts(5, 0));
    assert_eq!(m.last_read(), Some(&ts(6, 0)));
    assert!(m.tags().is_empty());
    assert_eq!(m.index_status, None);
}

#[test]
fn builder_generates_id() {
    let m = Meta::builder().build();
    assert_eq!(m.id().len(), 10);
    assert!(m.id().chars().all(|c| c.is_ascii_lowercase() || c.is_ascii_digit()));
}

#[test]
fn generated_ids_are_lowercase_alphanumeric() {
    for _ in 0..20 {
        let id = generate_id();
        assert_eq!(id.chars().count(), 10);
        assert!(id.chars().all(|c| c.is_ascii_lowercase() || c.is_ascii_digit()));
    }
}

#[test]
fn union_prefers_newer_and_merges_tags() {
    let mut a = Meta::builder()
        .id("a".to_string())
        .name("old name".to_string())
        .found(ts(10, 0))
        .tags(StrSet::from_vec(vec!["x".to_string()]))
        .build();
    a.last_updated = ts(20, 0);
    let mut b = Meta::builder()
        .id("b".to_string())
        .name("new name".to_string())
        .comment("from b".to_string())
        .found(ts(5, 0))
        .tags(StrSet::from_vec(vec!["y".to_string()]))
        .build();
    b.last_updated = ts(30, 0);
    a.union_at(&b, ts(99, 1));
    assert_eq!(a.id(), "a");
    assert_eq!(a.name(), Some("new name"));
    assert_eq!(a.comment(), Some("from b"));
    assert_eq!(a.tags().to_vec(), vec!["x".to_string(), "y".to_string()]);
    assert_eq!(a.last_updated, ts(99, 1));
}

#[test]
fn timestamps_order() {
    assert!(ts(2, 0).at_or_after(&ts(1, 999)));
    assert!(ts(1, 5).at_or_after(&ts(1, 5)));
    assert!(!ts(1, 4).at_or_after(&ts(1, 5)));
}

#[test]
fn index_status_predicates() {
    assert!(IndexStatus::Indexing.is_indexing());
    assert!(IndexStatus::Indexed.is_indexed());
    assert!(IndexStatus::Old.is_old());
    assert!(!IndexStatus::Old.is_indexed());
}

#[test]
fn meta_reads_as_text() {
    let m = Meta::builder()
        .id("a1".to_string())
        .name("n".to_string())
        .url("https://x/".to_string())
        .comment("c".to_string())
        .found(ts(0, 0))
        .tags(StrSet::from_vec(vec!["b".to_string(), "a".to_string()]))
        .build();
    assert_eq!(m.to_text(), "[a1] n: https://x/ @ Thu 01, 1970\n\ta\n\tb\n\tc");
    let bare = Meta::builder().id("z".to_string()).found(ts(86400 * 31, 0)).build();
    assert_eq!(bare.to_text(), "[z]n/a: @ Sun 01, 1970");
}

#[test]
fn found_dates_follow_the_calendar() {
    let at = |secs: i64| Meta::builder().id("d".to_string()).found(ts(secs, 0)).build().to_text();
    assert_eq!(at(1609804800), "[d]n/a: @ Tue 05, 2021");
    assert_eq!(at(951782400), "[d]n/a: @ Tue 29, 2000");
    assert_eq!(at(253402300799), "[d]n/a: @ Fri 31, 9999");
}

#[test]
fn ids_come_from_the_drawn_bytes() {
    assert_eq!(id_from_sample(&b"AbZ09qRstU".to_vec()), "abz09qrstu");
    assert_eq!(id_from_clock(ts(36 + 35, 0)), "z100000000");
    assert_eq!(id_from_clock(ts(-5, 3)), "3000000000");
}
