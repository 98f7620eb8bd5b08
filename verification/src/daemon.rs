//! The daemon's decisions. Each request changes the two stores and yields an
//! answer and the work that follows it (downloads, indexing, removing files,
//! asking itself for more downloads); the caller carries that work out and
//! feeds its results back as requests.

use vstd::prelude::*;
use crate::adapter::{
    adapter_names, adapter_takes, adapter_will_index, download_plan_view, init_download, init_download_view,
    opt_data, opt_meta, plan_download_with, plan_view, will_index, AdapterType, DownloadPlan, PlanView,
};
use crate::error::{metas_debug_text, spec_is_client_error, Error};
use crate::file_store::{
    all_matching, describes, edit_url, edit_view, find_outcome, lookup, matching, meta_views, metas_at,
    push_view, remove_id_from_tags, swap_remove_view, FileStore, FileStoreView,
};
use crate::meta::{is_clock_reading, is_generated_id, now, opt_text, IndexStatus, Meta, MetaView, Timestamp};
use crate::offline_store::{
    data_lookup, edit_data, OfflineData, OfflineDataView, OfflineStore, OfflineStoreView, Status,
};
use crate::request::{Edit, Request, StatusKind};
use crate::response::{error_response, Response};
use crate::settings::DaemonSettings;
use crate::status::{FileStoreStatus, MetaStatus, OfflineStoreStatus, StatusResponse, TIndexStatus};
use crate::text::{append_decimal, append_text, decimal_text};
use crate::web::{url_parse_result, UrlError};

verus! {

/// Work that follows a request, for the caller to carry out.
#[derive(Debug, PartialEq, Eq)]
pub enum Action {
    /// Send the daemon a download request for the item with this id.
    RequestDownload(String),
    /// Put the meta into the full-text index.
    IndexInsert(Meta),
    /// Take the item with this id out of the full-text index.
    IndexDelete(String),
    /// Delete the downloaded file at this path.
    RemoveFile(String),
    /// Have the adapter download the item into the entry, then send the
    /// finished entry back as `UpdateOffline`.
    Download(AdapterType, Meta, OfflineData),
    /// Have the adapter index the item, then, on success, send the meta back
    /// marked indexed as `UpdateMeta`.
    Index(AdapterType, Meta, Option<OfflineData>),
}

/// The abstract value of an `Action`.
pub enum ActionView {
    RequestDownload(Seq<char>),
    IndexInsert(MetaView),
    IndexDelete(Seq<char>),
    RemoveFile(Seq<char>),
    Download(AdapterType, MetaView, OfflineDataView),
    Index(AdapterType, MetaView, Option<OfflineDataView>),
}

impl View for Action {
    type V = ActionView;

    open spec fn view(&self) -> ActionView {
        match self {
            Action::RequestDownload(id) => ActionView::RequestDownload(id@),
            Action::IndexInsert(m) => ActionView::IndexInsert(m@),
            Action::IndexDelete(id) => ActionView::IndexDelete(id@),
            Action::RemoveFile(p) => ActionView::RemoveFile(p@),
            Action::Download(a, m, o) => ActionView::Download(*a, m@, o@),
            Action::Index(a, m, o) => ActionView::Index(*a, m@, opt_data(*o)),
        }
    }
}

/// The views of a list of actions.
pub open spec fn actions_view(v: Seq<Action>) -> Seq<ActionView> {
    v.map_values(|a: Action| a@)
}

/// The sizes a status report needs, measured by the caller: the serialized
/// length of the item asked about, the size of the store file, of the offline
/// folder and of the index, and the number of items in the index.
#[derive(Debug, PartialEq, Eq)]
pub struct Measures {
    pub meta_bytes: usize,
    pub store_bytes: usize,
    pub offline_bytes: usize,
    pub index_items: usize,
    pub index_bytes: usize,
}

/// What the daemon makes of a request.
#[derive(Debug)]
pub enum Outcome {
    /// The answer, and the work that follows it.
    Reply(Result<Response, Error>, Vec<Action>),
    /// Search the index for at most this many ids matching the query, and
    /// hand them to `handle_search`.
    Search(String, usize),
    /// Measure what a status report of this kind needs, and hand it to
    /// `handle_status`.
    Measure(StatusKind),
    /// Answer `Done` and stop serving.
    Stop,
}

/// The daemon: the metadata store, the offline store, its settings and the
/// adapters it asks, in order.
#[derive(Debug)]
pub struct Daemon {
    pub store: FileStore,
    pub offline: OfflineStore,
    pub settings: DaemonSettings,
    pub adapters: Vec<AdapterType>,
}


/// `f` reports the metadata store `s` with the measured file size.
pub open spec fn store_status_is(f: Option<FileStoreStatus>, s: FileStoreView, sizes: Measures) -> bool {
    f matches Some(x) && x.item_count == s.metas.len() && x.bytes_on_disk == sizes.store_bytes && x.version@ == s.version
}

/// `o` reports the offline store `s` with the measured folder size.
pub open spec fn offline_status_is(o: Option<OfflineStoreStatus>, s: OfflineStoreView, sizes: Measures) -> bool {
    o matches Some(x) && x.item_count == s.data.len() && x.bytes_on_disk == sizes.offline_bytes
}

/// `t` reports the index with the measured count and size.
pub open spec fn index_status_is(t: Option<TIndexStatus>, sizes: Measures) -> bool {
    t matches Some(x) && x.item_count == sizes.index_items && x.bytes_on_disk == sizes.index_bytes
}

/// `m` reports the item `meta`: its id, measured size, index status, and the
/// status of the offline entry its id finds.
pub open spec fn meta_status_is(m: Option<MetaStatus>, meta: MetaView, off: OfflineStoreView, sizes: Measures) -> bool {
    m matches Some(x) && x.id@ == meta.id && x.bytes_on_disk == sizes.meta_bytes && x.index_status == meta.index_status
        && match data_lookup(off.data, meta.id) {
            Some(k) => x.offline_status matches Some(st) && st@ == off.data[k].status,
            None => x.offline_status.is_none(),
        }
}

/// The message of the error for a description `d` that finds several metas.
pub open spec fn ambiguous_text(metas: Seq<MetaView>, d: Seq<char>) -> Seq<char> {
    "Too many ids for: `"@ + d + "`, "@ + metas_debug_text(metas_at(metas, all_matching(metas, d)))
}


/// The offline entry that `d` describes, if exactly one.
pub open spec fn offline_entry(s: OfflineStoreView, d: Seq<char>) -> Option<OfflineDataView> {
    match data_lookup(s.data, d) {
        Some(k) => Some(s.data[k]),
        None => None,
    }
}

/// The first of the adapters `ads` that indexes the item.
pub open spec fn first_indexer(ads: Seq<AdapterType>, m: MetaView, o: Option<OfflineDataView>) -> Option<AdapterType>
    decreases ads.len(),
{
    if ads.len() == 0 {
        None
    } else if adapter_will_index(ads[0], m, o) {
        Some(ads[0])
    } else {
        first_indexer(ads.drop_first(), m, o)
    }
}

/// The entry adapter `a` downloads into: the existing entry `o`, else the
/// one its start of a download makes.
pub open spec fn download_entry(a: AdapterType, m: MetaView, o: Option<OfflineDataView>) -> Option<OfflineDataView> {
    match o {
        Some(x) => Some(x),
        None => init_download_view(Some(m), None, |u: Option<Seq<char>>| adapter_takes(a, u), adapter_names(a)),
    }
}

/// What adapter `a` does with a download request for `m` with entry `o`.
pub open spec fn adapter_plan(a: AdapterType, m: MetaView, o: Option<OfflineDataView>) -> PlanView {
    download_plan_view(Some(m), download_entry(a, m, o), |u: Option<Seq<char>>| adapter_takes(a, u), adapter_names(a))
}

/// The first of the adapters `ads` that handles a download request for `m`.
pub open spec fn first_downloader(ads: Seq<AdapterType>, m: MetaView, o: Option<OfflineDataView>) -> Option<AdapterType>
    decreases ads.len(),
{
    if ads.len() == 0 {
        None
    } else if !(adapter_plan(ads[0], m, o) is NotHandled) {
        Some(ads[0])
    } else {
        first_downloader(ads.drop_first(), m, o)
    }
}

/// The ids, in store order, of the first `n` metas whose id finds no offline entry.
pub open spec fn undownloaded(metas: Seq<MetaView>, data: Seq<OfflineDataView>, n: int) -> Seq<Seq<char>>
    decreases n,
{
    if n <= 0 {
        Seq::empty()
    } else {
        let prev = undownloaded(metas, data, n - 1);
        if data_lookup(data, metas[n - 1].id).is_none() { prev.push(metas[n - 1].id) } else { prev }
    }
}

/// The answer to a request to download everything, for `c` items to download.
pub open spec fn download_count_text(c: nat) -> Seq<char> {
    if c == 0 {
        "no items to download"@
    } else if c == 1 {
        "downloading 1 item"@
    } else {
        "downloading "@ + decimal_text(c) + " items"@
    }
}

/// Download requests for each of the ids.
pub open spec fn download_requests(ids: Seq<Seq<char>>) -> Seq<ActionView> {
    ids.map_values(|x: Seq<char>| ActionView::RequestDownload(x))
}


/// What opening the offline copy `o` answers: its link when `online` (an
/// error when it has none), else its file, or its download status while it
/// has no file.
pub open spec fn open_answer(o: OfflineDataView, online: bool, r: Result<Response, Error>) -> bool {
    if online {
        match o.url {
            Some(u) => r matches Ok(x) && x matches Response::Open(p) && p@ == u,
            None => r matches Ok(x) && x matches Response::Error(t) && t@ == "No Url Found"@,
        }
    } else {
        match o.file {
            Some(f) => r matches Ok(x) && x matches Response::Open(p) && p@ == f,
            None => r matches Ok(x) && x matches Response::OpenStatus(y, st) && y@ == o.id && st@ == o.status,
        }
    }
}

/// What an open request for `id` at time `now` does, from the metadata store
/// `s` and offline store `off` to the metadata store `s2`, the answer `r` and
/// the work `acts`. With an offline entry: the item is marked read at `now`
/// and the entry opened. Without one: a download is requested and announced
/// when the settings ask for downloads on open and `id` finds an item, else
/// the answer is `NotFound`.
pub open spec fn open_outcome(
    s: FileStoreView,
    off: OfflineStoreView,
    download_on_open: bool,
    id: Seq<char>,
    online: bool,
    now: Timestamp,
    s2: FileStoreView,
    r: Result<Response, Error>,
    acts: Seq<ActionView>,
) -> bool {
    match offline_entry(off, id) {
        Some(o) => match lookup(s.metas, id) {
            None => r matches Err(e) && find_outcome(s.metas, id, Err(e)) && s2 == s && acts.len() == 0,
            Some(i) => {
                &&& s2 == (FileStoreView {
                    metas: s.metas.update(i, MetaView { last_read: Some(now), ..s.metas[i] }),
                    dirty: true,
                    ..s
                })
                &&& acts.len() == 0
                &&& open_answer(o, online, r)
            },
        },
        None => {
            &&& s2 == s
            &&& if download_on_open && lookup(s.metas, id).is_some() {
                &&& r matches Ok(x) && x matches Response::MetaOfflineStatus(y, st) && y@ == id && st@ is Downloading
                &&& acts == seq![ActionView::RequestDownload(id)]
            } else {
                &&& r matches Ok(x) && x matches Response::NotFound(y) && y@ == id
                &&& acts.len() == 0
            }
        },
    }
}

/// What an open request does at a time the clock gave.
pub open spec fn open_outcome_some_time(
    s: FileStoreView,
    off: OfflineStoreView,
    download_on_open: bool,
    id: Seq<char>,
    online: bool,
    s2: FileStoreView,
    r: Result<Response, Error>,
    acts: Seq<ActionView>,
) -> bool {
    exists|t: Timestamp| is_clock_reading(t) && #[trigger] open_outcome(s, off, download_on_open, id, online, t, s2, r, acts)
}

/// The position of the first of the descriptions `ds`, from `k` on, that
/// finds no single meta; `ds.len()` when all do.
pub open spec fn first_missing(metas: Seq<MetaView>, ds: Seq<String>, k: int) -> int
    decreases ds.len() - k,
{
    if k >= ds.len() || k < 0 {
        ds.len() as int
    } else if lookup(metas, ds[k]@).is_none() {
        k
    } else {
        first_missing(metas, ds, k + 1)
    }
}

/// The metas the descriptions `ds` find, in order, when each finds one.
pub open spec fn found_metas(metas: Seq<MetaView>, ds: Seq<String>) -> Seq<MetaView> {
    ds.map_values(|d: String| metas[lookup(metas, d@).unwrap()])
}

/// The answer to a search whose index hits are the descriptions `ds`: the
/// metas they find, or the error of the first that finds none.
pub open spec fn search_outcome(metas: Seq<MetaView>, ds: Seq<String>, r: Result<Response, Error>) -> bool {
    let j = first_missing(metas, ds, 0);
    if j == ds.len() {
        r matches Ok(x) && x matches Response::SearchResult(v) && meta_views(v@) == found_metas(metas, ds)
    } else {
        r matches Err(e) && find_outcome(metas, ds[j]@, Err(e))
    }
}

proof fn lemma_first_missing_skip(metas: Seq<MetaView>, ds: Seq<String>, k: int)
    requires
        0 <= k <= ds.len(),
        forall|j: int| 0 <= j < k ==> (#[trigger] lookup(metas, ds[j]@)).is_some(),
    ensures
        first_missing(metas, ds, 0) == first_missing(metas, ds, k),
    decreases k,
{
    if k > 0 {
        lemma_first_missing_skip(metas, ds, k - 1);
        assert(lookup(metas, ds[k - 1]@).is_some());
    }
}


/// The meta at `j` is the only one its own id describes.
pub open spec fn unambiguous(metas: Seq<MetaView>, j: int) -> bool {
    all_matching(metas, metas[j].id).len() == 1
}

/// The metas with each of the first `k` that its id alone describes marked "indexing".
pub open spec fn marked_upto(metas: Seq<MetaView>, k: int) -> Seq<MetaView> {
    Seq::new(metas.len(), |j: int| if j < k && unambiguous(metas, j) { marked_indexing(metas[j]) } else { metas[j] })
}

/// The positions among the first `n` metas that their own id does not
/// describe alone, ascending.
pub open spec fn ambiguous_positions(metas: Seq<MetaView>, n: int) -> Seq<int>
    decreases n,
{
    if n <= 0 {
        Seq::empty()
    } else if unambiguous(metas, n - 1) {
        ambiguous_positions(metas, n - 1)
    } else {
        ambiguous_positions(metas, n - 1).push(n - 1)
    }
}

/// The answers for indexing every item when some ids describe more than
/// their own item: for each such position, in order, the message of the
/// ambiguity as the store stood when that item's turn came.
pub open spec fn index_all_errors(metas: Seq<MetaView>, v: Seq<Response>, pos: Seq<int>) -> bool {
    &&& v.len() == pos.len()
    &&& forall|q: int| 0 <= q < pos.len() ==> (#[trigger] v[q] matches Response::Error(t)
        && t@ == ambiguous_text(marked_upto(metas, pos[q]), metas[pos[q]].id))
}

/// Whether some of the first `n` metas are described by their id alone.
pub open spec fn any_unambiguous(metas: Seq<MetaView>, n: int) -> bool {
    exists|j: int| 0 <= j < n && #[trigger] unambiguous(metas, j)
}

/// The indexing work for the first `n` metas, in order: for each that its id
/// alone describes and some adapter indexes, indexing by the first such
/// adapter, with the offline entry its id describes.
pub open spec fn index_all_actions(
    metas: Seq<MetaView>,
    off: OfflineStoreView,
    ads: Seq<AdapterType>,
    n: int,
) -> Seq<ActionView>
    decreases n,
{
    if n <= 0 {
        Seq::empty()
    } else {
        let prev = index_all_actions(metas, off, ads, n - 1);
        let m = marked_indexing(metas[n - 1]);
        let o = offline_entry(off, metas[n - 1].id);
        if unambiguous(metas, n - 1) {
            match first_indexer(ads, m, o) {
                Some(a) => prev.push(ActionView::Index(a, m, o)),
                None => prev,
            }
        } else {
            prev
        }
    }
}

/// Descriptions find the same metas among metas with the same ids and names.
proof fn lemma_matching_same_keys(a: Seq<MetaView>, b: Seq<MetaView>, d: Seq<char>, n: int)
    requires
        a.len() == b.len(),
        0 <= n <= a.len(),
        forall|j: int| 0 <= j < a.len() ==> (#[trigger] a[j]).id == b[j].id && a[j].name == b[j].name,
    ensures
        matching(a, d, n) == matching(b, d, n),
    decreases n,
{
    if n > 0 {
        lemma_matching_same_keys(a, b, d, n - 1);
        assert(a[n - 1].id == b[n - 1].id && a[n - 1].name == b[n - 1].name);
        assert(describes(d, a[n - 1]) == describes(d, b[n - 1]));
    }
}

/// A meta that its id alone describes is the one its id finds.
proof fn lemma_unambiguous_lookup(metas: Seq<MetaView>, j: int)
    requires
        0 <= j < metas.len(),
        unambiguous(metas, j),
    ensures
        lookup(metas, metas[j].id) == Some(j),
{
    let d = metas[j].id;
    assert(d.subrange(0, d.len() as int) =~= d);
    assert(describes(d, metas[j]));
    crate::file_store::lemma_matching_bounds(metas, d, metas.len() as int);
    let ms = matching(metas, d, metas.len() as int);
    assert(ms.contains(j));
}


/// What a list request answers: the first `count` metas.
pub open spec fn list_answer(metas: Seq<MetaView>, count: Option<usize>, x: Response) -> bool {
    x matches Response::List(v) && meta_views(v@) == listed(metas, count)
}

/// What a get request for `d` answers: the meta `d` describes, `NotFound`
/// when it describes none, the message of the ambiguity when several.
pub open spec fn get_answer(metas: Seq<MetaView>, d: Seq<char>, x: Response) -> bool {
    &&& lookup(metas, d) matches Some(i) ==> (x matches Response::Item(m) && m@ == metas[i])
    &&& all_matching(metas, d).len() == 0 ==> (x matches Response::NotFound(y) && y@ == d)
    &&& all_matching(metas, d).len() > 1 ==> (x matches Response::Error(t) && t@ == ambiguous_text(metas, d))
}

/// What an index-status request for `d` answers.
pub open spec fn index_status_answer(metas: Seq<MetaView>, d: Seq<char>, r: Result<Response, Error>) -> bool {
    match r {
        Ok(x) => lookup(metas, d) matches Some(i)
            && x matches Response::IndexStatus(y, st) && y@ == d && st == metas[i].index_status,
        Err(e) => find_outcome(metas, d, Err(e)),
    }
}

/// What adding an item does, from store `s` to store `s2`: the answer is a
/// new meta with a fresh id, the given name, link and comment, no tags, never
/// read and not indexed, appended to the store; the work is a download
/// request for it when `download_after_add`, then indexing it.
pub open spec fn add_outcome(
    s: FileStoreView,
    download_after_add: bool,
    name: Option<String>,
    url: Option<String>,
    comment: Option<String>,
    s2: FileStoreView,
    x: Response,
    acts: Seq<ActionView>,
) -> bool {
    x matches Response::Item(m)
        && is_generated_id(m@.id)
        && m@.name == opt_text(name) && m@.url == opt_text(url) && m@.comment == opt_text(comment)
        && m@.last_read.is_none() && m@.index_status.is_none()
        && m@.tags == Set::<Seq<char>>::empty()
        && s2 == push_view(s, m@)
        && acts == (if download_after_add {
            seq![ActionView::RequestDownload(m@.id), ActionView::IndexInsert(m@)]
        } else {
            seq![ActionView::IndexInsert(m@)]
        })
}

/// What an edit of the item `d` describes does: both stores edited, the
/// edited item as the answer (or the error: a link that does not parse, or
/// a description that finds no single item), and a download request when the
/// link changes.
pub open spec fn edit_outcome(
    s: FileStoreView,
    off: OfflineStoreView,
    d: Seq<char>,
    e: Edit,
    s2: FileStoreView,
    off2: OfflineStoreView,
    r: Result<Response, Error>,
    acts: Seq<ActionView>,
) -> bool {
    &&& off2 == offline_after_edit(off, d, e)
    &&& s2 == store_after_edit(s, d, e)
    &&& (r is Ok) == (lookup(s.metas, d).is_some() && !(e.url matches Some(u) && url_parse_result(u@) is Err))
    &&& r matches Ok(x) ==> (x matches Response::Item(m) && m@ == s2.metas[lookup(s.metas, d).unwrap()])
    &&& r matches Err(er) ==> ((er matches Error::UrlParse(k) && e.url matches Some(u)
            && url_parse_result(u@) == Err::<Seq<char>, UrlError>(k)) || find_outcome(s.metas, d, Err(er)))
    &&& acts == (if e.url.is_some() { seq![ActionView::RequestDownload(d)] } else { Seq::<ActionView>::empty() })
}

/// What a delete of the item `d` describes does: with the item's full id,
/// its offline entry and then the item are deleted; the answer is the
/// deleted item; the work is removing the entry's file, if any, and taking
/// the id out of the index.
pub open spec fn delete_outcome(
    s: FileStoreView,
    off: OfflineStoreView,
    d: Seq<char>,
    s2: FileStoreView,
    off2: OfflineStoreView,
    r: Result<Response, Error>,
    acts: Seq<ActionView>,
) -> bool {
    match lookup(s.metas, d) {
        None => r matches Err(e) && find_outcome(s.metas, d, Err(e)) && acts.len() == 0 && s2 == s && off2 == off,
        Some(i) => {
            let fid = s.metas[i].id;
            &&& off2 == offline_after_delete(off, fid)
            &&& s2 == store_after_delete(s, fid)
            &&& acts == match file_left_by_delete(off, fid) {
                Some(f) => seq![ActionView::RemoveFile(f), ActionView::IndexDelete(fid)],
                None => seq![ActionView::IndexDelete(fid)],
            }
            &&& match r {
                Ok(x) => lookup(s.metas, fid) matches Some(k) && x matches Response::Item(m) && m@ == s.metas[k],
                Err(e) => find_outcome(s.metas, fid, Err(e)),
            }
        },
    }
}

/// What replacing a meta with `m` does.
pub open spec fn update_meta_outcome(s: FileStoreView, m: MetaView, s2: FileStoreView, r: Result<Response, Error>) -> bool {
    match r {
        Ok(x) => lookup(s.metas, m.id) matches Some(i) && x == Response::Done
            && s2 == (FileStoreView { metas: s.metas.update(i, m), dirty: true, ..s }),
        Err(e) => find_outcome(s.metas, m.id, Err(e)) && s2 == s,
    }
}

/// What replacing (or adding) an offline entry with `o` does.
pub open spec fn update_offline_outcome(off: OfflineStoreView, o: OfflineDataView, off2: OfflineStoreView, r: Result<Response, Error>) -> bool {
    &&& r == Ok::<Response, Error>(Response::Done)
    &&& off2 == (OfflineStoreView {
        data: match data_lookup(off.data, o.id) {
            Some(i) => off.data.update(i, o),
            None => off.data.push(o),
        },
        dirty: true,
        ..off
    })
}

/// What an index request for the item `d` describes does: the item is
/// marked "indexing" and handed, with the offline entry `d` describes, to the
/// first adapter that indexes it; `NoAdapterFound` when none does.
pub open spec fn index_outcome(
    s: FileStoreView,
    off: OfflineStoreView,
    ads: Seq<AdapterType>,
    d: Seq<char>,
    s2: FileStoreView,
    r: Result<Response, Error>,
    acts: Seq<ActionView>,
) -> bool {
    match lookup(s.metas, d) {
        None => r matches Err(e) && find_outcome(s.metas, d, Err(e)) && acts.len() == 0 && s2 == s,
        Some(i) => {
            let m = marked_indexing(s.metas[i]);
            let o = offline_entry(off, d);
            &&& s2 == (FileStoreView { metas: s.metas.update(i, m), dirty: true, ..s })
            &&& match first_indexer(ads, m, o) {
                Some(a) => r == Ok::<Response, Error>(Response::Done) && acts == seq![ActionView::Index(a, m, o)],
                None => r matches Ok(x) && x matches Response::NoAdapterFound(y) && y@ == m.id && acts.len() == 0,
            }
        },
    }
}

/// What indexing every item does: each item its id alone describes is
/// marked "indexing", with the indexing work for each; the answer is
/// `Indexing("all")`, or one error answer for each id that describes
/// more than its own item.
pub open spec fn index_all_outcome(
    s: FileStoreView,
    off: OfflineStoreView,
    ads: Seq<AdapterType>,
    s2: FileStoreView,
    x: Response,
    acts: Seq<ActionView>,
) -> bool {
    let n = s.metas.len() as int;
    &&& s2 == (FileStoreView { metas: marked_upto(s.metas, n), dirty: s.dirty || any_unambiguous(s.metas, n), ..s })
    &&& acts == index_all_actions(s.metas, off, ads, n)
    &&& ambiguous_positions(s.metas, n).len() == 0 ==> (x matches Response::Indexing(t) && t@ == "all"@)
    &&& ambiguous_positions(s.metas, n).len() > 0 ==> (x matches Response::Many(v)
        && index_all_errors(s.metas, v@, ambiguous_positions(s.metas, n)))
}

/// What a download request does. For the item `d` describes: what the
/// first adapter that handles it does with the offline entry `d` describes
/// (or the entry that adapter starts): start a download into it, or answer
/// that it is ready; `Unhandled` when no adapter handles it. With no
/// description: a download request for every item whose id finds no offline
/// entry, answered with their number.
pub open spec fn download_outcome(
    s: FileStoreView,
    off: OfflineStoreView,
    ads: Seq<AdapterType>,
    d: Option<Seq<char>>,
    r: Result<Response, Error>,
    acts: Seq<ActionView>,
) -> bool {
    match d {
        Some(d) => match lookup(s.metas, d) {
            None => r matches Err(e) && find_outcome(s.metas, d, Err(e)) && acts.len() == 0,
            Some(i) => {
                let m = s.metas[i];
                let o = offline_entry(off, d);
                match first_downloader(ads, m, o) {
                    None => r == Ok::<Response, Error>(Response::Unhandled) && acts.len() == 0,
                    Some(a) => match adapter_plan(a, m, o) {
                        PlanView::Start(e) => r == Ok::<Response, Error>(Response::Done)
                            && acts == seq![ActionView::Download(a, m, e)],
                        PlanView::AlreadyReady(x) => r matches Ok(y) && y matches Response::MetaOfflineStatus(z, st)
                            && z@ == x && st@ is Ready && acts.len() == 0,
                        PlanView::NotHandled => false,
                    },
                }
            },
        },
        None => {
            let ids = undownloaded(s.metas, off.data, s.metas.len() as int);
            &&& r matches Ok(y) && y matches Response::Custom(t) && t@ == download_count_text(ids.len())
            &&& acts == download_requests(ids)
        },
    }
}

/// A meta with its index status set to "indexing".
pub open spec fn marked_indexing(m: MetaView) -> MetaView {
    MetaView { index_status: Some(IndexStatus::Indexing), ..m }
}

/// The metadata store after an edit of the item `d` describes: unchanged
/// when `d` finds no single item, only marked dirty when the edit's link does
/// not parse, else edited.
pub open spec fn store_after_edit(s: FileStoreView, d: Seq<char>, e: Edit) -> FileStoreView {
    match lookup(s.metas, d) {
        None => s,
        Some(i) => if e.url matches Some(u) && url_parse_result(u@) is Err {
            FileStoreView { dirty: true, ..s }
        } else {
            edit_view(s, i, e, edit_url(e))
        },
    }
}

/// The offline store after an edit of the entry `d` describes, in the same way.
pub open spec fn offline_after_edit(s: OfflineStoreView, d: Seq<char>, e: Edit) -> OfflineStoreView {
    match data_lookup(s.data, d) {
        None => s,
        Some(i) => if e.url matches Some(u) && url_parse_result(u@) is Err {
            OfflineStoreView { dirty: true, ..s }
        } else {
            OfflineStoreView { data: s.data.update(i, edit_data(s.data[i], e, edit_url(e))), dirty: true, ..s }
        },
    }
}

/// The metadata store after the item `d` describes is deleted (the last item
/// takes its place), or unchanged when `d` finds no single item.
pub open spec fn store_after_delete(s: FileStoreView, d: Seq<char>) -> FileStoreView {
    match lookup(s.metas, d) {
        None => s,
        Some(i) => FileStoreView {
            metas: swap_remove_view(s.metas, i),
            dirty: true,
            tags: remove_id_from_tags(s.tags, s.metas[i].tags, s.metas[i].id),
            ..s
        },
    }
}

/// The offline store after the entry `d` describes is deleted, in the same way.
pub open spec fn offline_after_delete(s: OfflineStoreView, d: Seq<char>) -> OfflineStoreView {
    match data_lookup(s.data, d) {
        None => s,
        Some(i) => OfflineStoreView { data: s.data.update(i, s.data.last()).drop_last(), dirty: true, ..s },
    }
}

/// The file of the entry `d` describes, which its deletion leaves to remove.
pub open spec fn file_left_by_delete(s: OfflineStoreView, d: Seq<char>) -> Option<Seq<char>> {
    match data_lookup(s.data, d) {
        None => None,
        Some(i) => s.data[i].file,
    }
}

/// The first `n` metas, or all of them when `n` is absent or larger.
pub open spec fn listed(metas: Seq<MetaView>, count: Option<usize>) -> Seq<MetaView> {
    match count {
        Some(c) => if c < metas.len() { metas.subrange(0, c as int) } else { metas },
        None => metas,
    }
}

/// The number of search results to ask the index for: the count given, at least one.
pub open spec fn spec_search_count(count: Option<usize>) -> usize {
    match count {
        Some(c) => if c >= 1 { c } else { 1 },
        None => 1,
    }
}

/// The number of search results to ask the index for.
pub fn search_count(count: Option<usize>) -> (r: usize)
    ensures
        r == spec_search_count(count),
{
    match count {
        Some(c) => if c >= 1 { c } else { 1 },
        None => 1,
    }
}

/// The answer to a request, as the daemon's loop sends it: an error the
/// client caused becomes an answer (`Response::from_error`); any other error
/// ends the daemon and is handed on.
pub fn client_answer(r: Result<Response, Error>) -> (a: Result<Response, Error>)
    ensures
        match r {
            Ok(x) => a == Ok::<Response, Error>(x),
            Err(e) => if spec_is_client_error(e) {
                a matches Ok(x) && error_response(e, x)
            } else {
                a == Err::<Response, Error>(e)
            },
        },
{
    match r {
        Ok(x) => Ok(x),
        Err(e) => if e.is_client_error() { Ok(Response::from_error(e)) } else { Err(e) },
    }
}

fn copy_metas(ms: &[Meta], n: usize) -> (r: Vec<Meta>)
    requires
        n <= ms@.len(),
    ensures
        meta_views(r@) == meta_views(ms@).subrange(0, n as int),
{
    let mut r: Vec<Meta> = Vec::new();
    let mut i: usize = 0;
    while i < n
        invariant
            n <= ms@.len(),
            i <= n,
            meta_views(r@) == meta_views(ms@).subrange(0, i as int),
        decreases n - i,
    {
        let m = ms[i].duplicate();
        let ghost before = r@;
        r.push(m);
        proof {
            assert(meta_views(r@) =~= meta_views(before).push(ms@[i as int]@));
            assert(meta_views(ms@).subrange(0, i + 1) =~= meta_views(ms@).subrange(0, i as int).push(ms@[i as int]@));
        }
        i = i + 1;
    }
    r
}

impl Daemon {
    /// A daemon over the two stores, with these settings and adapters.
    pub fn new(store: FileStore, offline: OfflineStore, settings: DaemonSettings, adapters: Vec<AdapterType>) -> (r: Daemon)
        ensures
            r.store@ == store@,
            r.offline@ == offline@,
            r.settings == settings,
            r.adapters@ == adapters@,
    {
        Daemon { store, offline, settings, adapters }
    }

    /// The items, at most `count` of them, in store order.
    pub fn handle_list(&self, count: Option<usize>) -> (r: Response)
        ensures
            list_answer(self.store@.metas, count, r),
    {
        let data = self.store.data();
        let n = match count {
            Some(c) => if c < data.len() { c } else { data.len() },
            None => data.len(),
        };
        let v = copy_metas(data, n);
        proof {
            assert(meta_views(data@).subrange(0, data@.len() as int) =~= meta_views(data@));
        }
        Response::List(v)
    }

    /// The item `id` describes; `NotFound` when none, the error's message
    /// when several.
    pub fn handle_get(&self, id: &str) -> (r: Response)
        ensures
            get_answer(self.store@.metas, id@, r),
    {
        match self.store.get(id) {
            Ok(m) => {
                assert(all_matching(self.store@.metas, id@).len() == 1);
                Response::Item(m.duplicate())
            },
            Err(e) => {
                let ghost ge = e;
                assert(find_outcome(self.store@.metas, id@, Err(ge)));
                match e {
                    Error::IdNotFound(x) => {
                        assert(all_matching(self.store@.metas, id@).len() == 0);
                        Response::NotFound(x)
                    },
                    e => {
                        let t = e.message();
                        Response::Error(t)
                    },
                }
            },
        }
    }

    /// Where the item `id` describes stands with the index.
    pub fn handle_index_status(&self, id: &str) -> (r: Result<Response, Error>)
        ensures
            index_status_answer(self.store@.metas, id@, r),
    {
        match self.store.get(id) {
            Ok(m) => Ok(Response::IndexStatus(id.to_string(), m.index_status)),
            Err(e) => Err(e),
        }
    }

    /// A status report of the parts `kind` asks about, from the sizes the
    /// caller measured; for one item, `NotFound` when its description finds
    /// no single item.
    pub fn handle_status(&self, kind: &StatusKind, sizes: &Measures) -> (r: Response)
        ensures
            match kind {
                StatusKind::All => r matches Response::Status(s) && s.meta.is_none()
                    && store_status_is(s.file_store, self.store@, *sizes)
                    && offline_status_is(s.offline_store, self.offline@, *sizes)
                    && index_status_is(s.index_status, *sizes),
                StatusKind::Index => r matches Response::Status(s) && s.meta.is_none()
                    && s.file_store.is_none() && s.offline_store.is_none()
                    && index_status_is(s.index_status, *sizes),
                StatusKind::Offline => r matches Response::Status(s) && s.meta.is_none()
                    && s.file_store.is_none() && s.index_status.is_none()
                    && offline_status_is(s.offline_store, self.offline@, *sizes),
                StatusKind::Store => r matches Response::Status(s) && s.meta.is_none()
                    && s.offline_store.is_none() && s.index_status.is_none()
                    && store_status_is(s.file_store, self.store@, *sizes),
                StatusKind::Id(id) => match lookup(self.store@.metas, id@) {
                    None => r matches Response::NotFound(x) && x@ == id@,
                    Some(i) => r matches Response::Status(s)
                        && s.file_store.is_none() && s.offline_store.is_none() && s.index_status.is_none()
                        && meta_status_is(s.meta, self.store@.metas[i], self.offline@, *sizes),
                },
            },
    {
        match kind {
            StatusKind::All => Response::Status(StatusResponse {
                meta: None,
                file_store: Some(FileStoreStatus::new(&self.store, sizes.store_bytes)),
                offline_store: Some(OfflineStoreStatus::new(&self.offline, sizes.offline_bytes)),
                index_status: Some(TIndexStatus::new(sizes.index_items, sizes.index_bytes)),
            }),
            StatusKind::Index => Response::Status(StatusResponse {
                meta: None,
                file_store: None,
                offline_store: None,
                index_status: Some(TIndexStatus::new(sizes.index_items, sizes.index_bytes)),
            }),
            StatusKind::Offline => Response::Status(StatusResponse {
                meta: None,
                file_store: None,
                offline_store: Some(OfflineStoreStatus::new(&self.offline, sizes.offline_bytes)),
                index_status: None,
            }),
            StatusKind::Store => Response::Status(StatusResponse {
                meta: None,
                file_store: Some(FileStoreStatus::new(&self.store, sizes.store_bytes)),
                offline_store: None,
                index_status: None,
            }),
            StatusKind::Id(id) => match self.store.get(id.as_str()) {
                Err(_) => Response::NotFound(id.clone()),
                Ok(m) => Response::Status(StatusResponse {
                    meta: Some(MetaStatus::new(m, &self.offline, sizes.meta_bytes)),
                    file_store: None,
                    offline_store: None,
                    index_status: None,
                }),
            },
        }
    }

    /// Adds an item with the given name, link and comment, a fresh id and no
    /// tags. What follows: a download request for it when the settings ask
    /// for downloads after adding, then putting it into the index.
    pub fn handle_add(&mut self, name: Option<String>, url: Option<String>, comment: Option<String>) -> (r: (Response, Vec<Action>))
        ensures
            add_outcome(old(self).store@, old(self).settings.download_after_add, name, url, comment,
                final(self).store@, r.0, actions_view(r.1@)),
            final(self).offline@ == old(self).offline@,
            final(self).settings == old(self).settings,
            final(self).adapters@ == old(self).adapters@,
    {
        let mut builder = Meta::builder();
        if let Some(n) = name {
            builder = builder.name(n);
        }
        if let Some(u) = url {
            builder = builder.url(u);
        }
        if let Some(c) = comment {
            builder = builder.comment(c);
        }
        let meta = builder.build();
        let mut actions: Vec<Action> = Vec::new();
        if self.settings.download_after_add {
            actions.push(Action::RequestDownload(meta.id.clone()));
        }
        actions.push(Action::IndexInsert(meta.duplicate()));
        let reply = meta.duplicate();
        self.store.push(meta);
        proof {
            if self.settings.download_after_add {
                assert(actions_view(actions@) =~= seq![ActionView::RequestDownload(reply@.id), ActionView::IndexInsert(reply@)]);
            } else {
                assert(actions_view(actions@) =~= seq![ActionView::IndexInsert(reply@)]);
            }
        }
        (Response::Item(reply), actions)
    }

    /// Edits the offline entry and the item that `id` describes (an error of
    /// the offline store is ignored) and answers with the edited item. What
    /// follows: a download request for `id` when the edit changes the link.
    pub fn handle_edit(&mut self, id: &str, edit: &Edit) -> (r: (Result<Response, Error>, Vec<Action>))
        ensures
            edit_outcome(old(self).store@, old(self).offline@, id@, *edit, final(self).store@, final(self).offline@,
                r.0, actions_view(r.1@)),
            final(self).settings == old(self).settings,
            final(self).adapters@ == old(self).adapters@,
    {
        let _ = self.offline.edit(id, edit);
        let mut actions: Vec<Action> = Vec::new();
        if edit.url.is_some() {
            actions.push(Action::RequestDownload(id.to_string()));
        }
        proof {
            if edit.url.is_some() {
                assert(actions_view(actions@) =~= seq![ActionView::RequestDownload(id@)]);
            } else {
                assert(actions_view(actions@) =~= Seq::<ActionView>::empty());
            }
        }
        match self.store.edit(id, edit) {
            Ok(m) => (Ok(Response::Item(m)), actions),
            Err(e) => (Err(e), actions),
        }
    }

    /// Deletes the item that `id` describes: its offline entry (by the
    /// item's full id; an error there is ignored), then the item itself (by
    /// its full id too), answering with the deleted item. What follows:
    /// removing the entry's downloaded file, if it had one, and taking the id
    /// out of the index.
    pub fn handle_delete(&mut self, id: &str) -> (r: (Result<Response, Error>, Vec<Action>))
        ensures
            delete_outcome(old(self).store@, old(self).offline@, id@, final(self).store@, final(self).offline@,
                r.0, actions_view(r.1@)),
            final(self).settings == old(self).settings,
            final(self).adapters@ == old(self).adapters@,
    {
        let full_id = match self.store.get(id) {
            Ok(m) => m.id.clone(),
            Err(e) => {
                let v: Vec<Action> = Vec::new();
                return (Err(e), v);
            },
        };
        let mut actions: Vec<Action> = Vec::new();
        match self.offline.delete(full_id.as_str()) {
            Ok(o) => {
                if let Some(f) = o.file {
                    actions.push(Action::RemoveFile(f));
                }
            },
            Err(_) => {},
        }
        actions.push(Action::IndexDelete(full_id.clone()));
        let ghost fid = full_id@;
        proof {
            match file_left_by_delete(old(self).offline@, fid) {
                Some(f) => assert(actions_view(actions@) =~= seq![ActionView::RemoveFile(f), ActionView::IndexDelete(fid)]),
                None => assert(actions_view(actions@) =~= seq![ActionView::IndexDelete(fid)]),
            }
        }
        match self.store.delete(full_id.as_str()) {
            Ok(m) => (Ok(Response::Item(m)), actions),
            Err(e) => (Err(e), actions),
        }
    }

    /// Replaces the item that the new meta's id describes with it.
    pub fn handle_update_meta(&mut self, m: Meta) -> (r: Result<Response, Error>)
        ensures
            update_meta_outcome(old(self).store@, m@, final(self).store@, r),
            final(self).offline@ == old(self).offline@,
            final(self).settings == old(self).settings,
            final(self).adapters@ == old(self).adapters@,
    {
        let id = m.id.clone();
        match self.store.update(id.as_str(), m) {
            Ok(()) => Ok(Response::Done),
            Err(e) => Err(e),
        }
    }

    /// Replaces the offline entry that the new entry's id finds with it, or
    /// adds it when its id finds none or several.
    pub fn handle_update_offline(&mut self, o: OfflineData) -> (r: Result<Response, Error>)
        ensures
            update_offline_outcome(old(self).offline@, o@, final(self).offline@, r),
            final(self).store@ == old(self).store@,
            final(self).settings == old(self).settings,
            final(self).adapters@ == old(self).adapters@,
    {
        let id = o.id.clone();
        match self.offline.update(id.as_str(), o) {
            Ok(()) => Ok(Response::Done),
            Err(e) => Err(e),
        }
    }

    /// Starts indexing the item that `id` describes: marks it "indexing" and
    /// hands it, with the offline entry `id` describes, to the first adapter
    /// that indexes it; `NoAdapterFound` when none does.
    #[verifier::loop_isolation(false)]
    pub fn handle_index(&mut self, id: &str) -> (r: (Result<Response, Error>, Vec<Action>))
        ensures
            index_outcome(old(self).store@, old(self).offline@, old(self).adapters@, id@, final(self).store@,
                r.0, actions_view(r.1@)),
            final(self).offline@ == old(self).offline@,
            final(self).settings == old(self).settings,
            final(self).adapters@ == old(self).adapters@,
    {
        let meta = match self.store.get_mut(id) {
            Ok(m) => {
                m.index_status = Some(IndexStatus::Indexing);
                m.duplicate()
            },
            Err(e) => {
                let v: Vec<Action> = Vec::new();
                return (Err(e), v);
            },
        };
        let offline = match self.offline.get(id) {
            Ok(o) => Some(o.duplicate()),
            Err(_) => None,
        };
        let ghost mv = meta@;
        let ghost ov = opt_data(offline);
        let ghost store_now = self.store@;
        assert(mv == marked_indexing(old(self).store@.metas[lookup(old(self).store@.metas, id@).unwrap()]));
        assert(ov == offline_entry(old(self).offline@, id@));
        assert(store_now == (FileStoreView {
            metas: old(self).store@.metas.update(lookup(old(self).store@.metas, id@).unwrap(), mv),
            dirty: true,
            ..old(self).store@
        }));
        let n = self.adapters.len();
        let mut k: usize = 0;
        proof {
            assert(self.adapters@.subrange(0, n as int) =~= self.adapters@);
        }
        while k < n
            invariant
                n == self.adapters@.len(),
                k <= n,
                meta@ == mv,
                opt_data(offline) == ov,
                self.store@ == store_now,
                self.offline@ == old(self).offline@,
                self.settings == old(self).settings,
                self.adapters@ == old(self).adapters@,
                first_indexer(self.adapters@, mv, ov) == first_indexer(self.adapters@.subrange(k as int, n as int), mv, ov),
            decreases n - k,
        {
            let a = self.adapters[k];
            proof {
                assert(self.adapters@.subrange(k as int, n as int).drop_first() =~= self.adapters@.subrange(k + 1, n as int));
            }
            let takes = match &offline {
                Some(o) => will_index(a, &meta, Some(o)),
                None => will_index(a, &meta, None),
            };
            if takes {
                assert(first_indexer(self.adapters@.subrange(k as int, n as int), mv, ov) == Some(a));
                let mut v: Vec<Action> = Vec::new();
                v.push(Action::Index(a, meta, offline));
                proof {
                    assert(actions_view(v@) =~= seq![ActionView::Index(a, mv, ov)]);
                }
                return (Ok(Response::Done), v);
            }
            k = k + 1;
        }
        proof {
            assert(self.adapters@.subrange(n as int, n as int) =~= Seq::<AdapterType>::empty());
        }
        let v: Vec<Action> = Vec::new();
        (Ok(Response::NoAdapterFound(meta.id.clone())), v)
    }

    /// A download request. For the item `id` describes: what the first
    /// adapter that handles it does, with the offline entry `id` describes
    /// (or the entry that adapter starts); `Unhandled` when none does. With no
    /// id: a download request for every item whose id finds no offline entry,
    /// answered with their number.
    pub fn handle_download(&self, id: Option<&str>) -> (r: (Result<Response, Error>, Vec<Action>))
        ensures
            download_outcome(self.store@, self.offline@, self.adapters@, match id { Some(d) => Some(d@), None => None },
                r.0, actions_view(r.1@)),
    {
        match id {
            Some(d) => self.download_one(d),
            None => self.download_all(),
        }
    }

    #[verifier::loop_isolation(false)]
    fn download_one(&self, d: &str) -> (r: (Result<Response, Error>, Vec<Action>))
        ensures
            download_outcome(self.store@, self.offline@, self.adapters@, Some(d@), r.0, actions_view(r.1@)),
    {
        let meta = match self.store.get(d) {
            Ok(m) => m.duplicate(),
            Err(e) => {
                let v: Vec<Action> = Vec::new();
                return (Err(e), v);
            },
        };
        let ghost mv = meta@;
        let ghost ov = offline_entry(self.offline@, d@);
        let n = self.adapters.len();
        let mut k: usize = 0;
        proof {
            assert(self.adapters@.subrange(0, n as int) =~= self.adapters@);
        }
        while k < n
            invariant
                n == self.adapters@.len(),
                k <= n,
                meta@ == mv,
                ov == offline_entry(self.offline@, d@),
                first_downloader(self.adapters@, mv, ov) == first_downloader(self.adapters@.subrange(k as int, n as int), mv, ov),
            decreases n - k,
        {
            let a = self.adapters[k];
            proof {
                assert(self.adapters@.subrange(k as int, n as int).drop_first() =~= self.adapters@.subrange(k + 1, n as int));
            }
            let data = match self.offline.get(d) {
                Ok(o) => Some(o.duplicate()),
                Err(_) => init_download(a, Some(&meta), None),
            };
            assert(opt_data(data) == download_entry(a, mv, ov));
            let plan = plan_download_with(a, Some(&meta), data);
            assert(opt_meta(Some(&meta)) == Some(mv));
            assert(plan_view(plan) == adapter_plan(a, mv, ov));
            match plan {
                DownloadPlan::NotHandled => {},
                DownloadPlan::Respond(resp) => {
                    assert(first_downloader(self.adapters@.subrange(k as int, n as int), mv, ov) == Some(a));
                    let v: Vec<Action> = Vec::new();
                    return (Ok(resp), v);
                },
                DownloadPlan::Start(entry) => {
                    assert(first_downloader(self.adapters@.subrange(k as int, n as int), mv, ov) == Some(a));
                    let mut v: Vec<Action> = Vec::new();
                    let ghost ev = entry@;
                    v.push(Action::Download(a, meta, entry));
                    proof {
                        assert(actions_view(v@) =~= seq![ActionView::Download(a, mv, ev)]);
                    }
                    return (Ok(Response::Done), v);
                },
            }
            k = k + 1;
        }
        proof {
            assert(self.adapters@.subrange(n as int, n as int) =~= Seq::<AdapterType>::empty());
        }
        let v: Vec<Action> = Vec::new();
        (Ok(Response::Unhandled), v)
    }

    fn download_all(&self) -> (r: (Result<Response, Error>, Vec<Action>))
        ensures
            download_outcome(self.store@, self.offline@, self.adapters@, None, r.0, actions_view(r.1@)),
    {
        let data = self.store.data();
        let ghost metas = self.store@.metas;
        let n = data.len();
        let mut actions: Vec<Action> = Vec::new();
        let mut count: usize = 0;
        let mut i: usize = 0;
        while i < n
            invariant
                n == data@.len(),
                meta_views(data@) == metas,
                metas == self.store@.metas,
                i <= n,
                count == actions@.len(),
                count <= i,
                actions_view(actions@) == download_requests(undownloaded(metas, self.offline@.data, i as int)),
            decreases n - i,
        {
            let m = &data[i];
            assert(m@ == metas[i as int]);
            if self.offline.get(m.id.as_str()).is_err() {
                let ghost before = actions@;
                actions.push(Action::RequestDownload(m.id.clone()));
                count = count + 1;
                proof {
                    assert(actions_view(actions@) =~= actions_view(before).push(ActionView::RequestDownload(metas[i as int].id)));
                    assert(download_requests(undownloaded(metas, self.offline@.data, i + 1)) =~= download_requests(undownloaded(metas, self.offline@.data, i as int)).push(ActionView::RequestDownload(metas[i as int].id)));
                }
            }
            i = i + 1;
        }
        let ghost ids = undownloaded(metas, self.offline@.data, n as int);
        assert(ids.len() == count) by {
            assert(download_requests(ids).len() == ids.len());
        }
        let mut t = String::new();
        if count == 0 {
            append_text(&mut t, "no items to download");
        } else if count == 1 {
            append_text(&mut t, "downloading 1 item");
        } else {
            append_text(&mut t, "downloading ");
            append_decimal(&mut t, count);
            append_text(&mut t, " items");
        }
        proof {
            assert(Seq::<char>::empty() + "no items to download"@ =~= "no items to download"@);
            assert(Seq::<char>::empty() + "downloading 1 item"@ =~= "downloading 1 item"@);
            assert(Seq::<char>::empty() + "downloading "@ =~= "downloading "@);
        }
        (Ok(Response::Custom(t)), actions)
    }

    /// Opens the item `id` describes at time `now`.
    pub fn handle_open_at(&mut self, id: &str, online: bool, now: Timestamp) -> (r: (Result<Response, Error>, Vec<Action>))
        ensures
            open_outcome(old(self).store@, old(self).offline@, old(self).settings.download_on_open, id@, online, now,
                final(self).store@, r.0, actions_view(r.1@)),
            final(self).offline@ == old(self).offline@,
            final(self).settings == old(self).settings,
            final(self).adapters@ == old(self).adapters@,
    {
        let data = match self.offline.get(id) {
            Ok(o) => Some(o.duplicate()),
            Err(_) => None,
        };
        let mut v: Vec<Action> = Vec::new();
        match data {
            Some(data) => {
                match self.store.get_mut(id) {
                    Ok(m) => {
                        m.last_read = Some(now);
                    },
                    Err(e) => {
                        return (Err(e), v);
                    },
                }
                proof {
                    assert(actions_view(v@) =~= Seq::<ActionView>::empty());
                }
                if online {
                    match data.url {
                        Some(u) => (Ok(Response::Open(u)), v),
                        None => (Ok(Response::Error("No Url Found".to_string())), v),
                    }
                } else {
                    match data.file {
                        Some(f) => (Ok(Response::Open(f)), v),
                        None => (Ok(Response::OpenStatus(data.id, data.status)), v),
                    }
                }
            },
            None => {
                if self.settings.download_on_open && self.store.get(id).is_ok() {
                    v.push(Action::RequestDownload(id.to_string()));
                    proof {
                        assert(actions_view(v@) =~= seq![ActionView::RequestDownload(id@)]);
                    }
                    (Ok(Response::MetaOfflineStatus(id.to_string(), Status::Downloading)), v)
                } else {
                    (Ok(Response::NotFound(id.to_string())), v)
                }
            },
        }
    }

    /// Opens the item `id` describes, marking it read at the current time.
    pub fn handle_open(&mut self, id: &str, online: bool) -> (r: (Result<Response, Error>, Vec<Action>))
        ensures
            open_outcome_some_time(old(self).store@, old(self).offline@, old(self).settings.download_on_open,
                id@, online, final(self).store@, r.0, actions_view(r.1@)),
            final(self).offline@ == old(self).offline@,
            final(self).settings == old(self).settings,
            final(self).adapters@ == old(self).adapters@,
    {
        let t = now();
        let r = self.handle_open_at(id, online, t);
        assert(open_outcome(old(self).store@, old(self).offline@, old(self).settings.download_on_open,
            id@, online, t, self.store@, r.0, actions_view(r.1@)));
        r
    }

    /// The metas that the index's hits `ids` describe, in order; the error of
    /// the first hit that finds no single meta.
    pub fn handle_search(&self, ids: &Vec<String>) -> (r: Result<Response, Error>)
        ensures
            search_outcome(self.store@.metas, ids@, r),
    {
        let ghost metas = self.store@.metas;
        let n = ids.len();
        let mut found: Vec<Meta> = Vec::new();
        let mut i: usize = 0;
        while i < n
            invariant
                n == ids@.len(),
                i <= n,
                metas == self.store@.metas,
                forall|j: int| 0 <= j < i ==> (#[trigger] lookup(metas, ids@[j]@)).is_some(),
                meta_views(found@) == found_metas(metas, ids@.subrange(0, i as int)),
            decreases n - i,
        {
            match self.store.get(ids[i].as_str()) {
                Ok(m) => {
                    let ghost before = found@;
                    found.push(m.duplicate());
                    proof {
                        assert(ids@.subrange(0, i + 1) =~= ids@.subrange(0, i as int).push(ids@[i as int]));
                        assert(meta_views(found@) =~= meta_views(before).push(m@));
                        assert(found_metas(metas, ids@.subrange(0, i + 1)) =~= found_metas(metas, ids@.subrange(0, i as int)).push(metas[lookup(metas, ids@[i as int]@).unwrap()]));
                    }
                },
                Err(e) => {
                    proof {
                        lemma_first_missing_skip(metas, ids@, i as int);
                    }
                    return Err(e);
                },
            }
            i = i + 1;
        }
        proof {
            lemma_first_missing_skip(metas, ids@, n as int);
            assert(ids@.subrange(0, n as int) =~= ids@);
        }
        Ok(Response::SearchResult(found))
    }

    /// Starts indexing every item, in store order, by its id (as
    /// `handle_index` does); answers `Indexing("all")`, or, when some ids
    /// describe more than their own item, the message of each such failure.
    pub fn handle_index_all(&mut self) -> (r: (Response, Vec<Action>))
        ensures
            index_all_outcome(old(self).store@, old(self).offline@, old(self).adapters@, final(self).store@,
                r.0, actions_view(r.1@)),
            final(self).offline@ == old(self).offline@,
            final(self).settings == old(self).settings,
            final(self).adapters@ == old(self).adapters@,
    {
        let ghost metas = self.store@.metas;
        let ghost start = self.store@;
        let data = self.store.data();
        let n = data.len();
        let mut ids: Vec<String> = Vec::new();
        let mut i: usize = 0;
        while i < n
            invariant
                n == data@.len(),
                meta_views(data@) == metas,
                i <= n,
                ids@.len() == i,
                forall|j: int| 0 <= j < i ==> (#[trigger] ids@[j])@ == metas[j].id,
            decreases n - i,
        {
            assert(data@[i as int]@ == metas[i as int]);
            ids.push(data[i].id.clone());
            i = i + 1;
        }
        let mut errors: Vec<Response> = Vec::new();
        let mut actions: Vec<Action> = Vec::new();
        let mut k: usize = 0;
        proof {
            assert(marked_upto(metas, 0) =~= metas);
        }
        while k < n
            invariant
                n == metas.len(),
                ids@.len() == n,
                forall|j: int| 0 <= j < n ==> (#[trigger] ids@[j])@ == metas[j].id,
                k <= n,
                self.store@ == (FileStoreView {
                    metas: marked_upto(metas, k as int),
                    dirty: start.dirty || any_unambiguous(metas, k as int),
                    ..start
                }),
                start == old(self).store@,
                metas == start.metas,
                self.offline@ == old(self).offline@,
                self.settings == old(self).settings,
                self.adapters@ == old(self).adapters@,
                actions_view(actions@) == index_all_actions(metas, old(self).offline@, old(self).adapters@, k as int),
                index_all_errors(metas, errors@, ambiguous_positions(metas, k as int)),
            decreases n - k,
        {
            let ghost cur = self.store@.metas;
            let ghost key = metas[k as int].id;
            proof {
                assert forall|j: int| 0 <= j < cur.len() implies (#[trigger] cur[j]).id == metas[j].id && cur[j].name == metas[j].name by {
                }
                lemma_matching_same_keys(cur, metas, key, n as int);
                assert(ids@[k as int]@ == key);
                if unambiguous(metas, k as int) {
                    lemma_unambiguous_lookup(metas, k as int);
                }
                assert(cur[k as int] == metas[k as int]);
            }
            let (res, acts) = self.handle_index(ids[k].as_str());
            let ghost before = actions@;
            let ghost added = acts@;
            let mut acts = acts;
            actions.append(&mut acts);
            proof {
                let m = marked_indexing(metas[k as int]);
                let o = offline_entry(old(self).offline@, key);
                assert(actions@ =~= before + added);
                assert(actions_view(actions@) =~= actions_view(before) + actions_view(added));
                if unambiguous(metas, k as int) {
                    assert(marked_upto(metas, k + 1) =~= cur.update(k as int, m));
                    assert(any_unambiguous(metas, k + 1));
                    match first_indexer(old(self).adapters@, m, o) {
                        Some(a) => {
                            assert(actions_view(actions@) =~= index_all_actions(metas, old(self).offline@, old(self).adapters@, k + 1));
                        },
                        None => {
                            assert(actions_view(actions@) =~= index_all_actions(metas, old(self).offline@, old(self).adapters@, k + 1));
                        },
                    }
                } else {
                    assert(marked_upto(metas, k + 1) =~= cur);
                    assert(any_unambiguous(metas, k + 1) == any_unambiguous(metas, k as int)) by {
                        if any_unambiguous(metas, k + 1) {
                            let j = choose|j: int| 0 <= j < k + 1 && #[trigger] unambiguous(metas, j);
                            assert(j < k);
                        }
                    }
                    assert(actions_view(actions@) =~= index_all_actions(metas, old(self).offline@, old(self).adapters@, k + 1));
                }
            }
            match res {
                Ok(_) => {},
                Err(e) => {
                    let ghost before = errors@;
                    let t = e.message();
                    proof {
                        assert(key.subrange(0, key.len() as int) =~= key);
                        assert(describes(key, metas[k as int]));
                        crate::file_store::lemma_matching_bounds(metas, key, n as int);
                        assert(matching(metas, key, n as int).contains(k as int));
                        assert(all_matching(metas, key).len() >= 1);
                        assert(lookup(cur, key).is_none());
                        assert(all_matching(cur, key).len() > 1);
                        assert(t@ == ambiguous_text(cur, key));
                    }
                    errors.push(Response::Error(t));
                    proof {
                        let pos = ambiguous_positions(metas, k + 1);
                        assert(pos == ambiguous_positions(metas, k as int).push(k as int));
                        assert forall|q: int| 0 <= q < pos.len() implies (#[trigger] errors@[q] matches Response::Error(t2)
                            && t2@ == ambiguous_text(marked_upto(metas, pos[q]), metas[pos[q]].id)) by {
                            if q < before.len() {
                                assert(errors@[q] == before[q]);
                            } else {
                                assert(pos[q] == k);
                                assert(marked_upto(metas, k as int) == cur);
                            }
                        }
                    }
                },
            }
            k = k + 1;
        }
        if errors.len() == 0 {
            let t = "all".to_string();
            (Response::Indexing(t), actions)
        } else {
            (Response::Many(errors), actions)
        }
    }

    /// Handles one request: the store changes, answer and work of the
    /// request's handler; a search or a status report first needs the index
    /// or measurements, so the request is handed back for them; `Stop` stops;
    /// the requests the daemon does not serve are answered `Unhandled`.
    #[verifier::spinoff_prover]
    pub fn handle_request(&mut self, req: Request) -> (r: Outcome)
        ensures
            req matches Request::Add { name, url, comment } ==> (r matches Outcome::Reply(Ok(x), a)
                    && add_outcome(old(self).store@, old(self).settings.download_after_add, name, url, comment,
                        final(self).store@, x, actions_view(a@))
                    && final(self).offline@ == old(self).offline@),
            req matches Request::Edit { id, edit } ==> (r matches Outcome::Reply(x, a)
                    && edit_outcome(old(self).store@, old(self).offline@, id@, edit, final(self).store@, final(self).offline@,
                        x, actions_view(a@))),
            req matches Request::Delete { id } ==> (r matches Outcome::Reply(x, a)
                    && delete_outcome(old(self).store@, old(self).offline@, id@, final(self).store@, final(self).offline@,
                        x, actions_view(a@))),
            req matches Request::List { count } ==> (r matches Outcome::Reply(Ok(x), a) && a@.len() == 0
                    && list_answer(old(self).store@.metas, count, x)
                    && final(self).store@ == old(self).store@ && final(self).offline@ == old(self).offline@),
            req matches Request::Get { id } ==> (r matches Outcome::Reply(Ok(x), a) && a@.len() == 0
                    && get_answer(old(self).store@.metas, id@, x)
                    && final(self).store@ == old(self).store@ && final(self).offline@ == old(self).offline@),
            req matches Request::Download { id } ==> (r matches Outcome::Reply(x, a)
                    && download_outcome(old(self).store@, old(self).offline@, old(self).adapters@,
                        match id { Some(d) => Some(d@), None => None }, x, actions_view(a@))
                    && final(self).store@ == old(self).store@ && final(self).offline@ == old(self).offline@),
            req matches Request::Open { id, online } ==> (r matches Outcome::Reply(x, a)
                    && open_outcome_some_time(old(self).store@, old(self).offline@,
                        old(self).settings.download_on_open, id@, online, final(self).store@, x, actions_view(a@))
                    && final(self).offline@ == old(self).offline@),
            req matches Request::Index { id } ==> (r matches Outcome::Reply(x, a)
                    && index_outcome(old(self).store@, old(self).offline@, old(self).adapters@, id@, final(self).store@,
                        x, actions_view(a@))
                    && final(self).offline@ == old(self).offline@),
            req matches Request::IndexStatus { id } ==> (r matches Outcome::Reply(x, a) && a@.len() == 0
                    && index_status_answer(old(self).store@.metas, id@, x)
                    && final(self).store@ == old(self).store@ && final(self).offline@ == old(self).offline@),
            req is IndexAll ==> (r matches Outcome::Reply(Ok(x), a)
                    && index_all_outcome(old(self).store@, old(self).offline@, old(self).adapters@, final(self).store@,
                        x, actions_view(a@))
                    && final(self).offline@ == old(self).offline@),
            req matches Request::Status { kind } ==> (r matches Outcome::Measure(k) && k == kind
                    && final(self).store@ == old(self).store@ && final(self).offline@ == old(self).offline@),
            req matches Request::Search { count, query } ==> (r matches Outcome::Search(q, c) && q == query
                    && c == spec_search_count(count)
                    && final(self).store@ == old(self).store@ && final(self).offline@ == old(self).offline@),
            req is Stop ==> (r is Stop
                    && final(self).store@ == old(self).store@ && final(self).offline@ == old(self).offline@),
            req matches Request::UpdateMeta(m) ==> (r matches Outcome::Reply(x, a) && a@.len() == 0
                    && update_meta_outcome(old(self).store@, m@, final(self).store@, x)
                    && final(self).offline@ == old(self).offline@),
            req matches Request::UpdateOffline(o) ==> (r matches Outcome::Reply(x, a) && a@.len() == 0
                    && update_offline_outcome(old(self).offline@, o@, final(self).offline@, x)
                    && final(self).store@ == old(self).store@),
            (req is Export || req is ForceShutdown) ==> (r matches Outcome::Reply(x, a) && x == Ok::<Response, Error>(Response::Unhandled) && a@.len() == 0
                    && final(self).store@ == old(self).store@ && final(self).offline@ == old(self).offline@),
            final(self).settings == old(self).settings,
            final(self).adapters@ == old(self).adapters@,
    {
        match req {
            Request::Add { name, url, comment } => {
                let (x, a) = self.handle_add(name, url, comment);
                Outcome::Reply(Ok(x), a)
            },
            Request::Edit { id, edit } => {
                let (x, a) = self.handle_edit(id.as_str(), &edit);
                Outcome::Reply(x, a)
            },
            Request::Delete { id } => {
                let (x, a) = self.handle_delete(id.as_str());
                Outcome::Reply(x, a)
            },
            Request::List { count } => Outcome::Reply(Ok(self.handle_list(count)), Vec::new()),
            Request::Get { id } => Outcome::Reply(Ok(self.handle_get(id.as_str())), Vec::new()),
            Request::Download { id } => {
                let (x, a) = match &id {
                    Some(d) => self.handle_download(Some(d.as_str())),
                    None => self.handle_download(None),
                };
                Outcome::Reply(x, a)
            },
            Request::Open { id, online } => {
                let (x, a) = self.handle_open(id.as_str(), online);
                Outcome::Reply(x, a)
            },
            Request::Index { id } => {
                let (x, a) = self.handle_index(id.as_str());
                Outcome::Reply(x, a)
            },
            Request::IndexStatus { id } => Outcome::Reply(self.handle_index_status(id.as_str()), Vec::new()),
            Request::IndexAll => {
                let (x, a) = self.handle_index_all();
                Outcome::Reply(Ok(x), a)
            },
            Request::Status { kind } => Outcome::Measure(kind),
            Request::Search { count, query } => Outcome::Search(query, search_count(count)),
            Request::Stop => Outcome::Stop,
            Request::UpdateMeta(m) => Outcome::Reply(self.handle_update_meta(m), Vec::new()),
            Request::UpdateOffline(o) => Outcome::Reply(self.handle_update_offline(o), Vec::new()),
            _ => Outcome::Reply(Ok(Response::Unhandled), Vec::new()),
        }
    }
}

} // verus!
