use monk::error::Error;
use monk::web::UrlError;
use monk::file_store::FileStore;
use monk::meta::{Meta, Timestamp};
use monk::offline_store::{OfflineData, OfflineStore, Status};
use monk::request::Edit;
use monk::status::{FileStoreStatus, MetaStatus, OfflineStoreStatus, TIndexStatus};
use monk::strset::StrSet;

fn ts(secs: i64) -> Timestamp {
    Timestamp { secs, nanos: 0 }
}

fn meta(id: &str, name: Option<&str>, url: Option<&str>, tags: &[&str]) -> Meta {
    let mut b = Meta::builder().id(id.to_string()).found(ts(100));
    if let Some(n) = name {
        b = b.name(n.to_string());
    }
    if let Some(u) = url {
        b = b.url(u.to_string());
    }
    let t: Vec<String> = tags.iter().map(|s| s.to_string()).collect();
    b.tags(StrSet::from_vec(t)).build()
}

fn strings(v: &[&str]) -> Vec<String> {
    v.iter().map(|s| s.to_string()).collect()
}

fn ids(v: &[Meta]) -> Vec<String> {
    v.iter().map(|m| m.id().to_string()).collect()
}

fn store(metas: Vec<Meta>) -> FileStore {
    let mut s = FileStore::empty();
    for m in metas {
        s.push(m);
    }
    s
}

#[test]
fn empty_store_is_clean_and_current() {
    let s = FileStore::empty();
    assert_eq!(s.version(), "0.1.0");
    assert!(s.data().is_empty());
    assert!(!s.is_dirty());
    assert_eq!(s.file(), "");
    assert_eq!(s.tags().len(), 0);
}

#[test]
fn push_indexes_tags_and_marks_dirty() {
    let s = store(vec![meta("a1", None, None, &["rust", "web"]), meta("b2", None, None, &["rust"])]);
    assert!(s.is_dirty());
    let rust = s.tags().get("rust").unwrap();
    assert_eq!(rust.to_vec(), strings(&["a1", "b2"]));
    assert_eq!(s.tags().get("web").unwrap().to_vec(), strings(&["a1"]));
    assert!(s.tags().get("go").is_none());
    assert_eq!(s.index(1).id(), "b2");
}

#[test]
fn get_by_id_prefix_or_name_prefix() {
    let s = store(vec![meta("abc123", Some("Rust book"), None, &[]), meta("xyz789", Some("Go tour"), None, &[])]);
    assert_eq!(s.get("abc").unwrap().id(), "abc123");
    assert_eq!(s.get("Go").unwrap().id(), "xyz789");
    assert!(matches!(s.get("q"), Err(Error::IdNotFound(x)) if x == "q"));
    assert!(matches!(s.get(""), Err(Error::TooManyMetas(x, ms)) if x.is_empty() && ms.len() == 2));
}

#[test]
fn get_mut_changes_in_place() {
    let mut s = store(vec![meta("a1", None, None, &[])]);
    s.mark_clean();
    s.get_mut("a1").unwrap().comment = Some("seen".to_string());
    assert_eq!(s.get("a1").unwrap().comment(), Some("seen"));
    assert!(s.is_dirty());
}

#[test]
fn update_requires_equal_ids() {
    let mut s = store(vec![meta("a1", Some("one"), None, &[])]);
    assert!(matches!(s.update("a1", meta("b2", None, None, &[])), Err(Error::UnequalIds)));
    assert!(s.update("a1", meta("a1", Some("uno"), None, &[])).is_ok());
    assert_eq!(s.get("a1").unwrap().name(), Some("uno"));
    assert!(matches!(s.update("zz", meta("zz", None, None, &[])), Err(Error::IdNotFound(_))));
}

#[test]
fn delete_swaps_last_in_and_unindexes() {
    let mut s = store(vec![
        meta("a1", None, None, &["t"]),
        meta("b2", None, None, &["t"]),
        meta("c3", None, None, &[]),
    ]);
    let removed = s.delete("a1").unwrap();
    assert_eq!(removed.id(), "a1");
    assert_eq!(ids(s.data()), strings(&["c3", "b2"]));
    assert_eq!(s.tags().get("t").unwrap().to_vec(), strings(&["b2"]));
    assert!(matches!(s.delete("a1"), Err(Error::IdNotFound(_))));
}

#[test]
fn edit_applies_fields_and_tags() {
    let mut s = store(vec![meta("a1", Some("n"), None, &["old"])]);
    let e = Edit {
        url: Some("http://example.com".to_string()),
        name: None,
        comment: Some("c".to_string()),
        add_tags: strings(&["new"]),
        remove_tags: strings(&["old"]),
    };
    let m = s.edit("a1", &e).unwrap();
    assert_eq!(m.url(), Some("http://example.com/"));
    assert_eq!(m.name(), Some("n"));
    assert_eq!(m.comment(), Some("c"));
    assert_eq!(m.tags().to_vec(), strings(&["new"]));
    assert_eq!(s.tags().get("new").unwrap().to_vec(), strings(&["a1"]));
    assert!(s.tags().get("old").unwrap().is_empty());
    let bad = Edit { url: Some("::".to_string()), name: None, comment: None, add_tags: vec![], remove_tags: vec![] };
    assert!(matches!(s.edit("a1", &bad), Err(Error::UrlParse(UrlError::RelativeUrlWithoutBase))));
}

#[test]
fn lists_by_ids_and_tags() {
    let s = store(vec![
        meta("a1", None, None, &["x", "y"]),
        meta("b2", None, None, &["y"]),
        meta("c3", None, None, &["z"]),
    ]);
    assert_eq!(ids(&s.get_list(&strings(&["c3", "nope", "a1"]))), strings(&["c3", "a1"]));
    assert_eq!(ids(&s.get_union_tags(&strings(&["x", "z"]))), strings(&["a1", "c3"]));
    assert_eq!(ids(&s.get_intersection_tags(&strings(&["x", "y"]))), strings(&["a1"]));
    assert_eq!(ids(&s.get_intersection_tags(&strings(&["y"]))), strings(&["a1", "b2"]));
    // A tag that no item carries leaves nothing.
    assert!(s.get_intersection_tags(&strings(&["x", "q"])).is_empty());
    assert!(s.get_intersection_tags(&strings(&["q", "x"])).is_empty());
    assert!(s.get_intersection_tags(&vec![]).is_empty());
    assert!(s.get_intersection_tags(&strings(&["x", "z"])).is_empty());
}

#[test]
fn import_appends_new_links_and_merges_known_ones() {
    let mut s = store(vec![meta("a1", Some("mine"), Some("https://a/"), &["t"])]);
    let other = store(vec![
        meta("zz", None, Some("https://a/"), &["u"]),
        meta("b2", Some("new"), Some("https://b/"), &[]),
    ]);
    assert!(s.import(other).is_ok());
    assert_eq!(ids(s.data()), strings(&["a1", "b2"]));
    let merged = s.get("a1").unwrap();
    assert_eq!(merged.tags().to_vec(), strings(&["t", "u"]));
    assert_eq!(merged.name(), Some("mine"));
    // The merged tag is indexed under the item it was merged into.
    assert_eq!(s.tags().get("u").unwrap().to_vec(), strings(&["a1"]));
    assert_eq!(s.tags().get("t").unwrap().to_vec(), strings(&["a1"]));
}

#[test]
fn offline_store_sorts_finds_and_edits() {
    let mut o = OfflineStore::from_parts(
        vec![
            OfflineData { id: "b2".to_string(), name: None, url: None, file: None, status: Status::Ready },
            OfflineData { id: "a1".to_string(), name: Some("first".to_string()), url: None, file: None, status: Status::Downloading },
        ],
        "dir".to_string(),
    );
    assert_eq!(o.data()[0].id(), "a1");
    assert_eq!(o.file(), "dir");
    assert!(!o.is_dirty());
    assert_eq!(o.get("fir").unwrap().id(), "a1");
    assert!(matches!(o.get(""), Err(Error::TooManyIds(x, v)) if x.is_empty() && v == vec![0, 1]));
    let e = Edit { url: Some("https://n.example".to_string()), name: Some("renamed".to_string()), comment: None, add_tags: vec![], remove_tags: vec![] };
    let d = o.edit("b2", &e).unwrap();
    assert_eq!(d.name(), Some("renamed"));
    assert_eq!(d.status, Status::Error("Url Changed, new download required".to_string()));
    assert!(o.is_dirty());
    let removed = o.delete("a1").unwrap();
    assert_eq!(removed.id(), "a1");
    assert_eq!(o.data().len(), 1);
}

#[test]
fn offline_update_replaces_or_adds() {
    let mut o = OfflineStore::new();
    let e = OfflineData { id: "a1".to_string(), name: None, url: None, file: None, status: Status::Downloading };
    assert!(o.update("a1", e.duplicate()).is_ok());
    assert_eq!(o.data().len(), 1);
    let mut done = e.duplicate();
    done.status = Status::Ready;
    assert!(o.update("a1", done).is_ok());
    assert_eq!(o.data().len(), 1);
    assert_eq!(o.get("a1").unwrap().status, Status::Ready);
    assert!(matches!(o.update("b2", e), Err(Error::UnequalIds)));
}

#[test]
fn status_reports() {
    let s = store(vec![meta("a1", None, None, &[])]);
    let mut o = OfflineStore::new();
    o.update("a1", OfflineData { id: "a1".to_string(), name: None, url: None, file: None, status: Status::Ready }).unwrap();
    let m = MetaStatus::new(s.get("a1").unwrap(), &o, 42);
    assert_eq!(m.id, "a1");
    assert_eq!(m.bytes_on_disk, 42);
    assert_eq!(m.offline_status, Some(Status::Ready));
    assert_eq!(m.index_status, None);
    let f = FileStoreStatus::new(&s, 7);
    assert_eq!((f.item_count, f.bytes_on_disk, f.version.as_str()), (1, 7, "0.1.0"));
    let os = OfflineStoreStatus::new(&o, 9);
    assert_eq!((os.item_count, os.bytes_on_disk), (1, 9));
    let t = TIndexStatus::new(3, 4);
    assert_eq!((t.item_count, t.bytes_on_disk), (3, 4));
}

#[test]
fn status_helpers() {
    assert!(Status::Error("x".to_string()).is_error());
    assert!(!Status::Ready.is_error());
    assert!(Status::Ready.is_ready());
    assert_eq!(Status::default(), Status::Downloading);
}
