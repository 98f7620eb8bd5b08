use monk::adapter::{
    adapter_download_folder, finish_download, http_download_target, http_init_download, init_download, plan_download_with, score_meta, subtitle_option,
    will_index, youtube_download_target, youtube_init_download, AdapterType, DownloadPlan,
};
use monk::config::{config_file_path, get_or_create_config, MonkConfig};
use monk::error::Error;
use monk::meta::{Meta, Timestamp};
use monk::models::{AddItem, ExtractedInfo, Item, ListItem, Search, Tag};
use monk::offline_store::{OfflineData, Status};
use monk::pipeline::{add_plan, added_item, add_step, search_limit, take_listed, wants_summary, AddAction, AddEvent, AddState};
use monk::summary::{clean_text, join_sentences, sentence_stems, stem_counts, summary_sentences, summary_text, top_sentences};
use monk::response::{Response, SnippetDef};
use monk::settings::{settings_file, DaemonSettings, Settings};
use monk::strset::StrSet;
use monk::tagmap::TagMap;
use monk::text::{append_decimal, compare_text, concat_text, contains_text, ends_with, starts_with, Order};
use monk::web::{valid_http_url, valid_video_url, UrlError};
use std::path::Path;

fn meta(id: &str, name: Option<&str>, url: Option<&str>) -> Meta {
    let mut b = Meta::builder().id(id.to_string()).found(Timestamp { secs: 1, nanos: 0 });
    if let Some(n) = name {
        b = b.name(n.to_string());
    }
    if let Some(u) = url {
        b = b.url(u.to_string());
    }
    b.build()
}

fn joined(a: &str, b: &str) -> String {
    Path::new(a).join(b).to_string_lossy().into_owned()
}

#[test]
fn text_comparisons() {
    assert_eq!(compare_text("abc", "abd"), Order::Less);
    assert_eq!(compare_text("abc", "abc"), Order::Equal);
    assert_eq!(compare_text("b", "abc"), Order::Greater);
    assert_eq!(compare_text("ab", "abc"), Order::Less);
    assert!(starts_with("hello", "he"));
    assert!(!starts_with("he", "hello"));
    assert!(ends_with("youtube.com", "tube.com"));
    assert!(contains_text("a needle here", "needle"));
    assert!(!contains_text("a needle here", "pin"));
    assert!(contains_text("x", ""));
}

#[test]
fn text_building() {
    let mut s = String::from("n=");
    append_decimal(&mut s, 0);
    assert_eq!(s, "n=0");
    let mut s = String::new();
    append_decimal(&mut s, 1234567);
    assert_eq!(s, "1234567");
    assert_eq!(concat_text("ab", "cd"), "abcd");
}

#[test]
fn string_sets_stay_sorted_and_unique() {
    let mut s = StrSet::from_vec(vec!["b".to_string(), "a".to_string(), "b".to_string()]);
    assert_eq!(s.to_vec(), vec!["a".to_string(), "b".to_string()]);
    assert!(s.insert("c".to_string()));
    assert!(!s.insert("a".to_string()));
    assert!(s.remove("b"));
    assert!(!s.remove("zz"));
    assert_eq!(s.len(), 2);
    let t = StrSet::from_vec(vec!["c".to_string(), "d".to_string()]);
    assert_eq!(s.intersect(&t).to_vec(), vec!["c".to_string()]);
    assert_eq!(s.minus(&t).to_vec(), vec!["a".to_string()]);
    s.union_with(&t);
    assert_eq!(s.to_vec(), vec!["a".to_string(), "c".to_string(), "d".to_string()]);
}

#[test]
fn tag_map_adds_and_removes_ids() {
    let mut m = TagMap::new();
    m.add_id(&"t".to_string(), &"x".to_string());
    m.add_id(&"s".to_string(), &"y".to_string());
    m.add_id(&"t".to_string(), &"z".to_string());
    assert_eq!(m.len(), 2);
    assert_eq!(m.tag_at(0), "s");
    assert_eq!(m.get("t").unwrap().to_vec(), vec!["x".to_string(), "z".to_string()]);
    m.remove_id("t", "x");
    assert_eq!(m.get("t").unwrap().to_vec(), vec!["z".to_string()]);
    m.remove_id("q", "x");
    assert!(m.get("q").is_none());
}

#[test]
fn link_checks() {
    assert!(valid_http_url(Some("anything")));
    assert!(!valid_http_url(None));
    assert!(valid_video_url(Some("https://www.youtube.com/watch?v=abc")));
    assert!(valid_video_url(Some("https://youtu.be/abc")));
    assert!(!valid_video_url(Some("https://example.com/youtube.com")));
    assert!(!valid_video_url(Some("not a link")));
    assert!(!valid_video_url(None));
}

#[test]
fn config_defaults_and_paths() {
    let c = MonkConfig::default();
    assert!(!c.log);
    assert_eq!(c.data_dir, "data");
    assert_eq!(c.store.path, "sqlite:monk.sqlite");
    assert_eq!(c.index.path, "index");
    assert!(c.index.index_on_add && c.index.summarize_on_add);
    assert_eq!(c.download.path, "downloads");
    assert!(c.download.download_on_add);
    assert_eq!(c.index_path("/cfg"), joined("/cfg", "index"));
    assert_eq!(c.store_path("/cfg"), joined("/cfg", "sqlite:monk.sqlite"));
    assert_eq!(c.download_path("/cfg"), joined("/cfg", "downloads"));
    assert_eq!(config_file_path("/cfg", true), joined("/cfg", "monk.yml"));
    assert_eq!(config_file_path("/cfg", false), joined("/cfg", "monk.yaml"));
    let made = get_or_create_config(None, "/home/u/data".to_string());
    assert_eq!(made.data_dir, "/home/u/data");
    assert_eq!(made.index.path, "index");
    let mut mine = MonkConfig::default();
    mine.log = true;
    assert!(get_or_create_config(Some(mine), "x".to_string()).log);
}

#[test]
fn settings_defaults() {
    let d = DaemonSettings::default();
    assert_eq!(d.address, "127.0.0.1");
    assert_eq!(d.port, 41562);
    assert_eq!(d.timeout, 1000);
    assert!(d.download_after_add && d.download_on_open);
    assert_eq!(d.commit_delay_ms(), 3000);
    let long = DaemonSettings { timeout: 10000, ..DaemonSettings::default() };
    assert_eq!(long.commit_delay_ms(), 3333);
    let s = Settings::default_in(&Some("/data".to_string()));
    assert_eq!(s.store().path, joined("/data", "store.json"));
    assert_eq!(s.offline().data_folder, joined("/data", "offline"));
    assert_eq!(s.offline().store_file, joined("/data", "offline.json"));
    assert_eq!(s.index().path, joined("/data", "index"));
    assert_eq!(s.log_dir(), joined("/data", "logs"));
    assert_eq!(s.adapters(), &[AdapterType::Http, AdapterType::Youtube]);
    let local = Settings::default_in(&None);
    assert_eq!(local.store().path, "./store.json");
    assert_eq!(local.offline().data_folder, "./offline");
    assert_eq!(local.offline().store_file, "offline.json");
    assert_eq!(local.index().path, "./index");
    assert_eq!(local.log_dir(), "./logs");
    assert_eq!(settings_file(Some("/my.yaml".to_string()), Some("/cfg".to_string())), Some("/my.yaml".to_string()));
    assert_eq!(settings_file(None, Some("/cfg".to_string())), Some(joined("/cfg", "monkd.yaml")));
    assert_eq!(settings_file(None, None), None);
    assert_eq!(AdapterType::default(), AdapterType::Http);
}

#[test]
fn adapters_start_downloads() {
    let web = meta("w1", Some("page"), Some("https://example.com/"));
    let fresh = http_init_download(Some(&web), None).unwrap();
    assert_eq!(fresh.id, "w1");
    assert_eq!(fresh.name, None);
    assert_eq!(fresh.url.as_deref(), Some("https://example.com/"));
    assert_eq!(fresh.status, Status::Downloading);
    assert!(youtube_init_download(Some(&web), None).is_none());
    let vid = meta("v1", Some("clip"), Some("https://youtu.be/x"));
    let fresh = youtube_init_download(Some(&vid), None).unwrap();
    assert_eq!(fresh.name.as_deref(), Some("clip"));
    let failed = OfflineData { id: "w1".to_string(), name: None, url: Some("https://example.com/".to_string()), file: None, status: Status::Error("x".to_string()) };
    assert!(init_download(AdapterType::Http, Some(&web), Some(failed)).is_none());
    assert!(matches!(plan_download_with(AdapterType::Youtube, Some(&web), None), DownloadPlan::NotHandled));
    assert!(matches!(plan_download_with(AdapterType::Http, Some(&web), None), DownloadPlan::Start(o) if o.id == "w1"));
    let ready = OfflineData { id: "w1".to_string(), name: None, url: None, file: Some("/f".to_string()), status: Status::Ready };
    assert!(matches!(
        plan_download_with(AdapterType::Http, Some(&web), Some(ready)),
        DownloadPlan::Respond(Response::MetaOfflineStatus(id, Status::Ready)) if id == "w1"
    ));
}

#[test]
fn adapters_finish_and_index() {
    let data = OfflineData { id: "v1".to_string(), name: None, url: None, file: None, status: Status::Downloading };
    let done = finish_download(data.duplicate(), Ok("/v1.mkv".to_string()));
    assert_eq!(done.status, Status::Ready);
    assert_eq!(done.file.as_deref(), Some("/v1.mkv"));
    let failed = finish_download(data, Err("boom".to_string()));
    assert_eq!(failed.status, Status::Error("boom".to_string()));
    assert_eq!(failed.file, None);
    let vid = meta("v1", None, Some("https://www.youtube.com/watch?v=1"));
    assert!(will_index(AdapterType::Youtube, &vid, Some(&done)));
    assert!(!will_index(AdapterType::Youtube, &vid, Some(&failed)));
    assert!(!will_index(AdapterType::Http, &vid, Some(&done)));
    assert_eq!(subtitle_option("...Available subtitles for x..."), "--write-sub");
    assert_eq!(subtitle_option("Available automatic captions for x"), "--write-auto-sub");
    assert_eq!(subtitle_option("nothing"), "-q");
}

#[test]
fn download_targets() {
    let web = meta("w1", None, Some("https://example.com/"));
    let (u, p) = http_download_target(&web, "/off").unwrap();
    assert_eq!(u, "https://example.com/");
    assert_eq!(p, joined("/off", "w1.html"));
    let note = meta("n1", None, None);
    assert!(matches!(http_download_target(&note, "/off"), Err(Error::NoUrl(x)) if x == "n1"));
    let vid = meta("v1", None, Some("https://youtu.be/x"));
    let (_, p) = youtube_download_target(&vid, "/off").unwrap();
    assert_eq!(p, joined(&joined("/off", "v1"), "v1.mkv"));
    assert!(matches!(youtube_download_target(&note, "/off"), Err(Error::Custom(x)) if x == "Youtube-dl error"));
    assert_eq!(adapter_download_folder(AdapterType::Http, "/data"), joined("/data", "offline"));
    assert_eq!(adapter_download_folder(AdapterType::Youtube, "/data"), "/data");
    assert_eq!(monk::paths::join_path("/a/", "b"), "/a/b");
    assert_eq!(monk::paths::join_path("", "b"), "b");
    assert_eq!(monk::paths::join_path("/a", "/b"), "/b");
}

#[test]
fn error_messages() {
    assert_eq!(Error::FileStoreNoPath.message(), "Metastore has no path");
    assert_eq!(Error::AlreadyExists("a".to_string()).message(), "Meta with ID already exists: a");
    assert_eq!(Error::UnequalIds.message(), "Attempted to update with unequal IDs");
    assert_eq!(Error::IdNotFound("a".to_string()).message(), "ID Not found: `a`");
    assert_eq!(Error::TooManyIds("a".to_string(), vec![1, 22]).message(), "Too many ids for: `a`, [1, 22]");
    assert_eq!(Error::TooManyIds("a".to_string(), vec![]).message(), "Too many ids for: `a`, []");
    assert_eq!(Error::Tantivy("t".to_string()).message(), "Tantivy Error: t");
    assert_eq!(Error::NoUrl("a".to_string()).message(), "No url for: `a`");
    assert_eq!(Error::Custom("c".to_string()).message(), "Custom: c");
    assert_eq!(Error::UrlParse(UrlError::RelativeUrlWithoutBase).message(), "Url Parsing Error: relative URL without a base");
    assert_eq!(Error::UrlParse(UrlError::InvalidPort).message(), "Url Parsing Error: invalid port number");
    let kinds = [
        (UrlError::EmptyHost, url::ParseError::EmptyHost),
        (UrlError::IdnaError, url::ParseError::IdnaError),
        (UrlError::InvalidPort, url::ParseError::InvalidPort),
        (UrlError::InvalidIpv4Address, url::ParseError::InvalidIpv4Address),
        (UrlError::InvalidIpv6Address, url::ParseError::InvalidIpv6Address),
        (UrlError::InvalidDomainCharacter, url::ParseError::InvalidDomainCharacter),
        (UrlError::RelativeUrlWithoutBase, url::ParseError::RelativeUrlWithoutBase),
        (UrlError::RelativeUrlWithCannotBeABaseBase, url::ParseError::RelativeUrlWithCannotBeABaseBase),
        (UrlError::SetHostOnCannotBeABaseUrl, url::ParseError::SetHostOnCannotBeABaseUrl),
        (UrlError::Overflow, url::ParseError::Overflow),
    ];
    for (k, e) in kinds {
        assert_eq!(Error::UrlParse(k).message(), format!("Url Parsing Error: {}", e));
    }
    assert!(Error::IdNotFound(String::new()).is_client_error());
    assert!(Error::NoUrl(String::new()).is_client_error());
    assert!(!Error::UnequalIds.is_client_error());
    assert!(!Error::Custom(String::new()).is_client_error());
    let ms = vec![meta("a1", None, None)];
    assert!(matches!(Response::from_error(Error::TooManyMetas("a".to_string(), ms)), Response::TooManyMeta(x, v) if x == "a" && v.len() == 1));
}

#[test]
fn pipeline_decisions() {
    let c = MonkConfig::default();
    let p = add_plan(&c, true);
    assert!(p.download && p.index);
    assert!(!add_plan(&c, false).download);
    let mut quiet = MonkConfig::default();
    quiet.download.download_on_add = false;
    quiet.index.index_on_add = false;
    let p = add_plan(&quiet, true);
    assert!(!p.download && !p.index);
    let with_body = Some(ExtractedInfo { title: None, body: Some("text".to_string()), extra: None });
    assert!(wants_summary(&c, &with_body));
    assert!(!wants_summary(&c, &Some(ExtractedInfo::default())));
    assert!(!wants_summary(&c, &None));
    let names = |v: Vec<Item>| v.into_iter().map(|i| i.id).collect::<Vec<String>>();
    let list = ListItem { count: Some(2), tags: vec![] };
    assert_eq!(names(take_listed(items(), &list)), vec!["i1", "i2"]);
    let all = ListItem { count: None, tags: vec![] };
    assert_eq!(names(take_listed(items(), &all)), vec!["i1", "i2", "i3"]);
    let rust = ListItem { count: None, tags: vec!["rust".to_string()] };
    assert_eq!(names(take_listed(items(), &rust)), vec!["i1", "i3"]);
    let both = ListItem { count: Some(5), tags: vec!["rust".to_string(), "web".to_string()] };
    assert_eq!(names(take_listed(items(), &both)), vec!["i3"]);
    let one = ListItem { count: Some(1), tags: vec!["rust".to_string()] };
    assert_eq!(names(take_listed(items(), &one)), vec!["i1"]);
    let none = ListItem { count: None, tags: vec!["go".to_string()] };
    assert!(take_listed(items(), &none).is_empty());
    assert_eq!(search_limit(&Search { count: None, query: String::new() }), 10);
    assert_eq!(search_limit(&Search { count: Some(3), query: String::new() }), 3);
}

#[test]
fn snippets_keep_fragment_and_spans() {
    let s = SnippetDef::new("some text".to_string(), &vec![(0, 4), (5, 9)]);
    assert_eq!(s.fragment(), "some text");
    let spans: Vec<(usize, usize)> = s.highlighted().iter().map(|h| h.bounds()).collect();
    assert_eq!(spans, vec![(0, 4), (5, 9)]);
}

#[test]
fn item_update_sets_given_fields() {
    let t = Timestamp { secs: 3, nanos: 0 };
    let mut item = Item {
        id: "i".to_string(),
        name: "old".to_string(),
        url: None,
        body: Some("b".to_string()),
        comment: Some("c".to_string()),
        summary: None,
        tags: vec![Tag { id: "t".to_string(), tag: "x".to_string(), created_at: t }],
        blob: None,
        created_at: t,
    };
    item.apply_update(Some("new".to_string()), Some("https://u/".to_string()), None, Some("s".to_string()), None);
    assert_eq!(item.name, "new");
    assert_eq!(item.url.as_deref(), Some("https://u/"));
    assert_eq!(item.body.as_deref(), Some("b"));
    assert_eq!(item.summary.as_deref(), Some("s"));
    assert_eq!(item.comment.as_deref(), Some("c"));
    assert_eq!(item.tags.len(), 1);
}

fn items() -> Vec<Item> {
    let t = Timestamp { secs: 1, nanos: 0 };
    let tag = |l: &str| Tag { id: format!("t-{}", l), tag: l.to_string(), created_at: t };
    let item = |id: &str, tags: Vec<Tag>| Item {
        id: id.to_string(),
        name: id.to_string(),
        url: None,
        body: None,
        comment: None,
        summary: None,
        tags,
        blob: None,
        created_at: t,
    };
    vec![item("i1", vec![tag("rust")]), item("i2", vec![tag("web")]), item("i3", vec![tag("web"), tag("rust")])]
}

#[test]
fn add_steps_follow_the_configuration() {
    let c = MonkConfig::default();
    let (s, a) = add_step(&c, AddState::Storing, AddEvent::Stored { has_url: true });
    assert_eq!((s, a), (AddState::Downloading, AddAction::Download));
    assert_eq!(add_step(&c, s, AddEvent::Downloaded { ok: false }), (AddState::Done, AddAction::Finish));
    let (s, a) = add_step(&c, s, AddEvent::Downloaded { ok: true });
    assert_eq!((s, a), (AddState::Extracting, AddAction::Extract));
    let (s, a) = add_step(&c, s, AddEvent::Extracted { found: true, has_body: true });
    assert_eq!(a, AddAction::RemoveFromIndex);
    let (s, a) = add_step(&c, s, AddEvent::Removed);
    assert_eq!(a, AddAction::IndexFull);
    let (s, a) = add_step(&c, s, AddEvent::Indexed);
    assert_eq!((s, a), (AddState::Summarizing, AddAction::Summarize));
    let (s, a) = add_step(&c, s, AddEvent::Summarized);
    assert_eq!((s, a), (AddState::Updating, AddAction::Update { with_summary: true }));
    assert_eq!(add_step(&c, s, AddEvent::Updated), (AddState::Done, AddAction::Finish));
    assert_eq!(add_step(&c, AddState::Updating, AddEvent::Removed), (AddState::Updating, AddAction::Wait));
    let mut quiet = MonkConfig::default();
    quiet.index.index_on_add = false;
    quiet.index.summarize_on_add = false;
    assert_eq!(add_step(&quiet, AddState::Storing, AddEvent::Stored { has_url: false }), (AddState::Done, AddAction::Finish));
    assert_eq!(add_step(&quiet, AddState::Downloading, AddEvent::Downloaded { ok: true }), (AddState::Done, AddAction::Finish));
    let s = AddState::Indexing { found: true, has_body: true };
    assert_eq!(add_step(&quiet, s, AddEvent::Indexed), (AddState::Updating, AddAction::Update { with_summary: false }));
    let s = AddState::Indexing { found: false, has_body: false };
    assert_eq!(add_step(&c, s, AddEvent::Indexed), (AddState::Done, AddAction::Finish));
}

#[test]
fn summaries_keep_the_best_three_in_text_order() {
    assert_eq!(top_sentences(&vec![4, 0, 2, 5, 1]), vec![1, 2, 5]);
    assert_eq!(top_sentences(&vec![1, 0]), vec![0, 1]);
    assert!(top_sentences(&vec![]).is_empty());
}

#[test]
fn config_once_made_is_kept() {
    let first = get_or_create_config(None, "/home/u/data".to_string());
    let expected = get_or_create_config(None, "/home/u/data".to_string());
    let again = get_or_create_config(Some(first), "/elsewhere".to_string());
    assert_eq!(again, expected);
    assert_eq!(again.data_dir, "/home/u/data");
}

#[test]
fn summary_text_is_prepared_and_joined() {
    assert_eq!(clean_text("a [1] \"b\"\nc [x\ny] z"), "a  bc [xy] z");
    assert_eq!(clean_text("[a][b]c"), "c");
    assert_eq!(summary_sentences("He is Walter. He is William. He isn't Peter or September."),
        vec!["He is Walter.", "He is William.", "He isn't Peter or September."]);
    assert_eq!(summary_sentences("Monk is here.[3] He \"stays\"."), vec!["Monk is here.", "He stays."]);
    assert_eq!(sentence_stems("The Dogs were Running"), vec!["dog", "run"]);
    let stems: Vec<String> = vec!["a".to_string(), "b".to_string(), "a".to_string()];
    assert_eq!(stem_counts(&stems), (vec!["a".to_string(), "b".to_string()], vec![2, 1]));
    let ss: Vec<String> = vec!["s0".to_string(), "s1".to_string(), "s2".to_string(), "s3".to_string()];
    assert_eq!(join_sentences(&ss, &vec![3, 1]), "s3 s1");
    assert_eq!(summary_text(&ss, &vec![3, 0, 2, 1]), "s0 s1 s2");
    assert_eq!(summary_text(&ss, &vec![]), "");
}

#[test]
fn ambiguity_lists_each_meta_in_full() {
    let m = Meta {
        id: "a1".to_string(),
        name: Some("n \"q\"".to_string()),
        url: Some("https://example.com/p?x=1".to_string()),
        comment: None,
        found: Timestamp { secs: 1609804800, nanos: 0 },
        last_read: None,
        last_updated: Timestamp { secs: 1609804801, nanos: 500_000_000 },
        index_status: Some(monk::meta::IndexStatus::Indexed),
        tags: StrSet::from_vec(vec!["web".to_string(), "a b".to_string()]),
    };
    let url = url::Url::parse("https://example.com/p?x=1").unwrap();
    let found = chrono::DateTime::from_timestamp(1609804800, 0).unwrap();
    let updated = chrono::DateTime::from_timestamp(1609804801, 500_000_000).unwrap();
    let expected = format!(
        "Too many ids for: `a`, [Meta {{ id: \"a1\", name: Some(\"n \\\"q\\\"\"), url: Some({:?}), comment: None, found: {:?}, last_read: None, last_updated: {:?}, index_status: Some(Indexed), tags: {{\"a b\", \"web\"}} }}]",
        url, found, updated
    );
    assert_eq!(Error::TooManyMetas("a".to_string(), vec![m]).message(), expected);
    assert!(expected.contains("2021-01-05T00:00:00Z"));
    assert!(expected.contains("host: Some(Domain(\"example.com\"))"));
}

#[test]
fn adapters_score_what_they_handle() {
    let video = meta("v", None, Some("https://www.youtube.com/watch?v=dQw4w9WgXcQ"));
    let page = meta("p", None, Some("https://example.com/"));
    let bare = meta("b", None, None);
    assert_eq!(score_meta(AdapterType::Http, &video), 1);
    assert_eq!(score_meta(AdapterType::Youtube, &video), 5);
    assert_eq!(score_meta(AdapterType::Youtube, &page), 0);
    assert_eq!(score_meta(AdapterType::Http, &bare), 0);
}

#[test]
fn an_added_item_keeps_the_given_body() {
    let add = AddItem {
        name: "n".to_string(),
        url: None,
        body: Some("the text".to_string()),
        comment: Some("c".to_string()),
        tags: vec!["t".to_string()],
    };
    let item = added_item(add, "i1".to_string(), vec![], Timestamp { secs: 3, nanos: 0 });
    assert_eq!(item.body.as_deref(), Some("the text"));
    assert_eq!(item.comment.as_deref(), Some("c"));
    assert_eq!(item.name, "n");
    assert!(item.summary.is_none() && item.blob.is_none());
}
