use monk::adapter::AdapterType;
use monk::daemon::{client_answer, search_count, Action, Daemon, Measures, Outcome};
use monk::error::Error;
use monk::web::UrlError;
use monk::file_store::FileStore;
use monk::meta::{IndexStatus, Meta, Timestamp};
use monk::offline_store::{OfflineData, OfflineStore, Status};
use monk::request::{Edit, Request, StatusKind};
use monk::response::Response;
use monk::settings::DaemonSettings;
use monk::strset::StrSet;

fn ts(secs: i64) -> Timestamp {
    Timestamp { secs, nanos: 0 }
}

fn meta(id: &str, name: Option<&str>, url: Option<&str>, tags: &[&str]) -> Meta {
    let mut b = Meta::builder().id(id.to_string()).found(ts(100));
    if let Some(n) = name {
        b = b.name(n.to_string());
    }
    if let Some(u) = url {
        b = b.url(u.to_string());
    }
    let t: Vec<String> = tags.iter().map(|s| s.to_string()).collect();
    b = b.tags(StrSet::from_vec(t));
    b.build()
}

fn entry(id: &str, url: Option<&str>, file: Option<&str>, status: Status) -> OfflineData {
    OfflineData {
        id: id.to_string(),
        name: None,
        url: url.map(|u| u.to_string()),
        file: file.map(|f| f.to_string()),
        status,
    }
}

fn daemon_with(metas: Vec<Meta>, entries: Vec<OfflineData>) -> Daemon {
    let mut store = FileStore::empty();
    for m in metas {
        store.push(m);
    }
    let offline = OfflineStore::from_parts(entries, "offline".to_string());
    Daemon::new(store, offline, DaemonSettings::default(), vec![AdapterType::Http, AdapterType::Youtube])
}

fn no_edit() -> Edit {
    Edit { url: None, name: None, comment: None, add_tags: vec![], remove_tags: vec![] }
}

#[test]
fn add_stores_item_and_plans_download_and_index() {
    let mut d = daemon_with(vec![], vec![]);
    let (resp, actions) = d.handle_add(Some("Rust".to_string()), Some("https://www.rust-lang.org/".to_string()), None);
    let m = match resp {
        Response::Item(m) => m,
        r => panic!("unexpected {:?}", r),
    };
    assert_eq!(m.name(), Some("Rust"));
    assert_eq!(m.url(), Some("https://www.rust-lang.org/"));
    assert_eq!(m.comment(), None);
    assert_eq!(m.id().len(), 10);
    assert!(m.id().chars().all(|c| c.is_ascii_lowercase() || c.is_ascii_digit()));
    assert_eq!(d.store.data().len(), 1);
    assert_eq!(actions.len(), 2);
    assert_eq!(actions[0], Action::RequestDownload(m.id().to_string()));
    assert!(matches!(&actions[1], Action::IndexInsert(x) if x.id() == m.id()));
    // The item is found again by its id.
    assert_eq!(d.handle_get(m.id()), Response::Item(m.duplicate()));
}

#[test]
fn add_without_auto_download_only_indexes() {
    let mut d = daemon_with(vec![], vec![]);
    d.settings.download_after_add = false;
    let (_, actions) = d.handle_add(None, None, Some("a note".to_string()));
    assert_eq!(actions.len(), 1);
    assert!(matches!(actions[0], Action::IndexInsert(_)));
}

#[test]
fn get_answers_item_not_found_or_ambiguity() {
    let d = daemon_with(
        vec![meta("abc111", Some("first"), None, &[]), meta("abc222", Some("second"), None, &[])],
        vec![],
    );
    assert!(matches!(d.handle_get("abc1"), Response::Item(m) if m.id() == "abc111"));
    assert!(matches!(d.handle_get("sec"), Response::Item(m) if m.id() == "abc222"));
    assert_eq!(d.handle_get("zzz"), Response::NotFound("zzz".to_string()));
    match d.handle_get("abc") {
        Response::Error(t) => assert!(t.starts_with("Too many ids for: `abc`, ")),
        r => panic!("unexpected {:?}", r),
    }
}

#[test]
fn list_truncates_to_count() {
    let d = daemon_with(vec![meta("a1", None, None, &[]), meta("b2", None, None, &[]), meta("c3", None, None, &[])], vec![]);
    match d.handle_list(Some(2)) {
        Response::List(v) => {
            assert_eq!(v.len(), 2);
            assert_eq!(v[0].id(), "a1");
            assert_eq!(v[1].id(), "b2");
        }
        r => panic!("unexpected {:?}", r),
    }
    assert!(matches!(d.handle_list(None), Response::List(v) if v.len() == 3));
    assert!(matches!(d.handle_list(Some(10)), Response::List(v) if v.len() == 3));
    assert!(matches!(d.handle_list(Some(0)), Response::List(v) if v.is_empty()));
}

#[test]
fn edit_changes_item_and_requests_download_on_new_link() {
    let mut d = daemon_with(
        vec![meta("id1", Some("old"), Some("https://a.example/"), &["x"])],
        vec![entry("id1", Some("https://a.example/"), Some("/f.html"), Status::Ready)],
    );
    let edit = Edit {
        url: Some("https://b.example/page".to_string()),
        name: Some("new".to_string()),
        comment: None,
        add_tags: vec!["y".to_string()],
        remove_tags: vec!["x".to_string()],
    };
    let (r, actions) = d.handle_edit("id1", &edit);
    match r {
        Ok(Response::Item(m)) => {
            assert_eq!(m.name(), Some("new"));
            assert_eq!(m.url(), Some("https://b.example/page"));
            assert!(m.tags().contains("y"));
            assert!(!m.tags().contains("x"));
        }
        r => panic!("unexpected {:?}", r),
    }
    assert_eq!(actions, vec![Action::RequestDownload("id1".to_string())]);
    assert!(matches!(d.handle_get("id1"), Response::Item(m) if m.name() == Some("new")));
    let o = d.offline.get("id1").unwrap();
    assert_eq!(o.url.as_deref(), Some("https://b.example/page"));
    assert_eq!(o.status, Status::Error("Url Changed, new download required".to_string()));
}

#[test]
fn edit_with_bad_link_fails_with_url_parse() {
    let mut d = daemon_with(vec![meta("id1", None, None, &[])], vec![]);
    let mut edit = no_edit();
    edit.url = Some("not a url".to_string());
    let (r, _) = d.handle_edit("id1", &edit);
    assert!(matches!(r, Err(Error::UrlParse(UrlError::RelativeUrlWithoutBase))));
    assert_eq!(d.store.data()[0].url(), None);
}

#[test]
fn edit_unknown_item_fails() {
    let mut d = daemon_with(vec![meta("id1", None, None, &[])], vec![]);
    let (r, actions) = d.handle_edit("nope", &no_edit());
    assert!(matches!(r, Err(Error::IdNotFound(x)) if x == "nope"));
    assert!(actions.is_empty());
}

#[test]
fn delete_removes_item_entry_and_file() {
    let mut d = daemon_with(
        vec![meta("id1", Some("one"), None, &["t"]), meta("id2", None, None, &[])],
        vec![entry("id1", None, Some("/data/id1.html"), Status::Ready)],
    );
    let (r, actions) = d.handle_delete("one");
    assert!(matches!(r, Ok(Response::Item(m)) if m.id() == "id1"));
    assert_eq!(
        actions,
        vec![Action::RemoveFile("/data/id1.html".to_string()), Action::IndexDelete("id1".to_string())]
    );
    assert_eq!(d.store.data().len(), 1);
    assert!(d.offline.data().is_empty());
    assert_eq!(d.handle_get("id1"), Response::NotFound("id1".to_string()));
    let (r, actions) = d.handle_delete("id1");
    assert!(matches!(r, Err(Error::IdNotFound(_))));
    assert!(actions.is_empty());
}

#[test]
fn index_marks_indexing_and_picks_video_adapter() {
    let mut d = daemon_with(
        vec![meta("vid", None, Some("https://www.youtube.com/watch?v=x"), &[]), meta("web", None, Some("https://example.com/"), &[])],
        vec![entry("vid", Some("https://www.youtube.com/watch?v=x"), Some("/v.mkv"), Status::Ready)],
    );
    let (r, actions) = d.handle_index("vid");
    assert!(matches!(r, Ok(Response::Done)));
    assert_eq!(actions.len(), 1);
    assert!(matches!(&actions[0], Action::Index(AdapterType::Youtube, m, Some(o)) if m.id() == "vid" && o.id == "vid"));
    assert_eq!(
        d.handle_index_status("vid").unwrap(),
        Response::IndexStatus("vid".to_string(), Some(IndexStatus::Indexing))
    );
    let (r, actions) = d.handle_index("web");
    assert_eq!(r.unwrap(), Response::NoAdapterFound("web".to_string()));
    assert!(actions.is_empty());
}

#[test]
fn index_all_reports_indexing_all() {
    let mut d = daemon_with(vec![meta("a1", None, None, &[]), meta("b2", None, None, &[])], vec![]);
    let (r, actions) = d.handle_index_all();
    assert_eq!(r, Response::Indexing("all".to_string()));
    assert!(actions.is_empty());
    assert!(d.store.data().iter().all(|m| m.index_status == Some(IndexStatus::Indexing)));
}

#[test]
fn index_all_reports_ambiguous_ids() {
    let mut d = daemon_with(vec![meta("ab", None, None, &[]), meta("abc", None, None, &[])], vec![]);
    let (r, _) = d.handle_index_all();
    match r {
        Response::Many(v) => {
            assert_eq!(v.len(), 1);
            assert!(matches!(&v[0], Response::Error(t) if t.starts_with("Too many ids for: `ab`")));
        }
        r => panic!("unexpected {:?}", r),
    }
    assert_eq!(d.store.data()[0].index_status, None);
    assert_eq!(d.store.data()[1].index_status, Some(IndexStatus::Indexing));
}

#[test]
fn download_one_starts_or_answers_ready() {
    let d = daemon_with(
        vec![meta("web", None, Some("https://example.com/"), &[]), meta("done", None, Some("https://example.org/"), &[]), meta("note", None, None, &[])],
        vec![entry("done", Some("https://example.org/"), Some("/d.html"), Status::Ready)],
    );
    let (r, actions) = d.handle_download(Some("web"));
    assert_eq!(r.unwrap(), Response::Done);
    assert_eq!(actions.len(), 1);
    match &actions[0] {
        Action::Download(a, m, o) => {
            assert_eq!(*a, AdapterType::Http);
            assert_eq!(m.id(), "web");
            assert_eq!(o.id, "web");
            assert_eq!(o.status, Status::Downloading);
            assert_eq!(o.file, None);
        }
        a => panic!("unexpected {:?}", a),
    }
    let (r, actions) = d.handle_download(Some("done"));
    assert_eq!(r.unwrap(), Response::MetaOfflineStatus("done".to_string(), Status::Ready));
    assert!(actions.is_empty());
    let (r, _) = d.handle_download(Some("note"));
    assert_eq!(r.unwrap(), Response::Unhandled);
    let (r, _) = d.handle_download(Some("missing"));
    assert!(matches!(r, Err(Error::IdNotFound(_))));
}

#[test]
fn download_all_counts_items_without_copy() {
    let d = daemon_with(vec![], vec![]);
    let (r, a) = d.handle_download(None);
    assert_eq!(r.unwrap(), Response::Custom("no items to download".to_string()));
    assert!(a.is_empty());

    let d = daemon_with(vec![meta("a1", None, None, &[]), meta("b2", None, None, &[])], vec![entry("a1", None, None, Status::Ready)]);
    let (r, a) = d.handle_download(None);
    assert_eq!(r.unwrap(), Response::Custom("downloading 1 item".to_string()));
    assert_eq!(a, vec![Action::RequestDownload("b2".to_string())]);

    let metas: Vec<Meta> = (0..12).map(|i| meta(&format!("item{:02}", i), None, None, &[])).collect();
    let d = daemon_with(metas, vec![]);
    let (r, a) = d.handle_download(None);
    assert_eq!(r.unwrap(), Response::Custom("downloading 12 items".to_string()));
    assert_eq!(a.len(), 12);
}

#[test]
fn open_offline_copy_marks_read() {
    let mut d = daemon_with(
        vec![meta("a1", None, Some("https://e.example/"), &[]), meta("b2", None, None, &[])],
        vec![entry("a1", Some("https://e.example/"), Some("/a1.html"), Status::Ready), entry("b2", None, None, Status::Downloading)],
    );
    let (r, _) = d.handle_open_at("a1", false, ts(500));
    assert_eq!(r.unwrap(), Response::Open("/a1.html".to_string()));
    assert_eq!(d.store.get("a1").unwrap().last_read, Some(ts(500)));
    let (r, _) = d.handle_open_at("a1", true, ts(600));
    assert_eq!(r.unwrap(), Response::Open("https://e.example/".to_string()));
    let (r, _) = d.handle_open_at("b2", false, ts(700));
    assert_eq!(r.unwrap(), Response::OpenStatus("b2".to_string(), Status::Downloading));
    let (r, _) = d.handle_open_at("b2", true, ts(700));
    assert_eq!(r.unwrap(), Response::Error("No Url Found".to_string()));
}

#[test]
fn open_without_copy_requests_download() {
    let mut d = daemon_with(vec![meta("a1", None, Some("https://e.example/"), &[])], vec![]);
    let (r, a) = d.handle_open("a1", false);
    assert_eq!(r.unwrap(), Response::MetaOfflineStatus("a1".to_string(), Status::Downloading));
    assert_eq!(a, vec![Action::RequestDownload("a1".to_string())]);
    let (r, a) = d.handle_open("zz", false);
    assert_eq!(r.unwrap(), Response::NotFound("zz".to_string()));
    assert!(a.is_empty());
    d.settings.download_on_open = false;
    let (r, _) = d.handle_open("a1", false);
    assert_eq!(r.unwrap(), Response::NotFound("a1".to_string()));
}

#[test]
fn search_collects_found_items() {
    let d = daemon_with(vec![meta("a1", None, None, &[]), meta("b2", None, None, &[])], vec![]);
    let r = d.handle_search(&vec!["b2".to_string(), "a1".to_string()]).unwrap();
    match r {
        Response::SearchResult(v) => {
            assert_eq!(v.len(), 2);
            assert_eq!(v[0].id(), "b2");
            assert_eq!(v[1].id(), "a1");
        }
        r => panic!("unexpected {:?}", r),
    }
    assert!(matches!(d.handle_search(&vec!["a1".to_string(), "x".to_string()]), Err(Error::IdNotFound(x)) if x == "x"));
    assert_eq!(search_count(None), 1);
    assert_eq!(search_count(Some(0)), 1);
    assert_eq!(search_count(Some(7)), 7);
}

#[test]
fn status_reports_requested_parts() {
    let d = daemon_with(vec![meta("a1", None, None, &[])], vec![entry("a1", None, None, Status::Ready)]);
    let sizes = Measures { meta_bytes: 10, store_bytes: 20, offline_bytes: 30, index_items: 4, index_bytes: 50 };
    match d.handle_status(&StatusKind::All, &sizes) {
        Response::Status(s) => {
            assert!(s.meta.is_none());
            let f = s.file_store.unwrap();
            assert_eq!((f.item_count, f.bytes_on_disk, f.version.as_str()), (1, 20, "0.1.0"));
            let o = s.offline_store.unwrap();
            assert_eq!((o.item_count, o.bytes_on_disk), (1, 30));
            let i = s.index_status.unwrap();
            assert_eq!((i.item_count, i.bytes_on_disk), (4, 50));
        }
        r => panic!("unexpected {:?}", r),
    }
    match d.handle_status(&StatusKind::Id("a1".to_string()), &sizes) {
        Response::Status(s) => {
            let m = s.meta.unwrap();
            assert_eq!(m.id, "a1");
            assert_eq!(m.bytes_on_disk, 10);
            assert_eq!(m.offline_status, Some(Status::Ready));
            assert!(s.file_store.is_none() && s.offline_store.is_none() && s.index_status.is_none());
        }
        r => panic!("unexpected {:?}", r),
    }
    assert_eq!(d.handle_status(&StatusKind::Id("q".to_string()), &sizes), Response::NotFound("q".to_string()));
    assert!(matches!(d.handle_status(&StatusKind::Index, &sizes), Response::Status(s) if s.file_store.is_none() && s.index_status.is_some()));
}

#[test]
fn updates_replace_meta_and_offline_entry() {
    let mut d = daemon_with(vec![meta("a1", None, None, &[])], vec![]);
    let mut m = d.store.get("a1").unwrap().duplicate();
    m.index_status = Some(IndexStatus::Indexed);
    assert_eq!(d.handle_update_meta(m).unwrap(), Response::Done);
    assert_eq!(d.store.get("a1").unwrap().index_status, Some(IndexStatus::Indexed));
    let stray = meta("zz", None, None, &[]);
    assert!(matches!(d.handle_update_meta(stray), Err(Error::IdNotFound(_))));
    assert_eq!(d.handle_update_offline(entry("a1", None, Some("/f"), Status::Ready)).unwrap(), Response::Done);
    assert_eq!(d.offline.get("a1").unwrap().file.as_deref(), Some("/f"));
}

#[test]
fn request_dispatch() {
    let mut d = daemon_with(vec![meta("a1", None, None, &[])], vec![]);
    assert!(matches!(d.handle_request(Request::Stop), Outcome::Stop));
    assert!(matches!(d.handle_request(Request::Status { kind: StatusKind::Store }), Outcome::Measure(StatusKind::Store)));
    assert!(matches!(d.handle_request(Request::Search { count: None, query: "q".to_string() }), Outcome::Search(q, 1) if q == "q"));
    assert!(matches!(d.handle_request(Request::Export), Outcome::Reply(Ok(Response::Unhandled), a) if a.is_empty()));
    assert!(matches!(d.handle_request(Request::Get { id: "a1".to_string() }), Outcome::Reply(Ok(Response::Item(_)), _)));
    assert!(matches!(d.handle_request(Request::List { count: Some(1) }), Outcome::Reply(Ok(Response::List(v)), _) if v.len() == 1));
}

#[test]
fn client_errors_become_answers() {
    assert_eq!(
        client_answer(Err(Error::IdNotFound("x".to_string()))).unwrap(),
        Response::Error("ID Not found: `x`".to_string())
    );
    assert_eq!(
        client_answer(Err(Error::AlreadyExists("x".to_string()))).unwrap(),
        Response::Error("`x` already exists".to_string())
    );
    assert!(matches!(client_answer(Err(Error::FileStoreNoPath)), Err(Error::FileStoreNoPath)));
    assert_eq!(client_answer(Ok(Response::Done)).unwrap(), Response::Done);
}
