//! The decisions of the download adapters: which items each one takes on,
//! what offline entry a download starts from, and what a finished download
//! leaves behind.

use vstd::prelude::*;
use crate::meta::{copy_opt, opt_text, Meta, MetaView};
use crate::offline_store::{OfflineData, OfflineDataView, Status, StatusView};
use crate::response::Response;
use crate::error::Error;
use crate::paths::{join_path, joined_path};
use crate::text::{concat_text, contains_text, has_infix};
use crate::web::{spec_valid_video_url, valid_http_url, valid_video_url};

verus! {

/// The kinds of download adapter.
#[derive(Debug, Clone, Copy, PartialEq, Eq, Structural)]
pub enum AdapterType {
    Http,
    Youtube,
}

impl AdapterType {
    /// The generic web adapter.
    pub fn default() -> (r: AdapterType)
        ensures
            r == AdapterType::Http,
    {
        AdapterType::Http
    }
}

/// The view of an optional entry.
pub open spec fn opt_data(o: Option<OfflineData>) -> Option<OfflineDataView> {
    match o {
        Some(d) => Some(d@),
        None => None,
    }
}

/// The entry a new download of `m` starts from; the video adapter records the
/// item's name, the web adapter does not.
pub open spec fn fresh_entry(m: MetaView, with_name: bool) -> OfflineDataView {
    OfflineDataView {
        id: m.id,
        name: if with_name { m.name } else { None },
        url: m.url,
        file: None,
        status: StatusView::Downloading,
    }
}

/// What `init_download` yields: an existing entry still worth downloading
/// (not ready, not failed, with a link the adapter takes), else a fresh entry
/// for an item with such a link.
pub open spec fn init_download_view(
    meta: Option<MetaView>,
    offline: Option<OfflineDataView>,
    takes: spec_fn(Option<Seq<char>>) -> bool,
    with_name: bool,
) -> Option<OfflineDataView> {
    match offline {
        Some(o) => if o.status is Ready || o.status is Error || !takes(o.url) {
            None
        } else {
            Some(o)
        },
        None => match meta {
            Some(m) => if !takes(m.url) { None } else { Some(fresh_entry(m, with_name)) },
            None => None,
        },
    }
}

/// The view of an optional meta reference.
pub open spec fn opt_meta(m: Option<&Meta>) -> Option<MetaView> {
    match m {
        Some(m) => Some(m@),
        None => None,
    }
}

fn url_str(u: &Option<String>) -> (r: Option<&str>)
    ensures
        match r {
            Some(s) => u.is_some() && s@ == u.unwrap()@,
            None => u.is_none(),
        },
{
    match u {
        Some(s) => Some(s.as_str()),
        None => None,
    }
}

fn new_entry(m: &Meta, with_name: bool) -> (r: OfflineData)
    ensures
        r@ == fresh_entry(m@, with_name),
{
    OfflineData {
        id: m.id.clone(),
        name: if with_name { copy_opt(&m.name) } else { None },
        url: copy_opt(&m.url),
        file: None,
        status: Status::Downloading,
    }
}

/// The web adapter's start of a download.
pub fn http_init_download(meta: Option<&Meta>, offline: Option<OfflineData>) -> (r: Option<OfflineData>)
    ensures
        opt_data(r) == init_download_view(opt_meta(meta), opt_data(offline), |u: Option<Seq<char>>| u.is_some(), false),
{
    if let Some(o) = offline {
        if o.status.is_ready() || o.status.is_error() || !valid_http_url(url_str(&o.url)) {
            None
        } else {
            Some(o)
        }
    } else if let Some(m) = meta {
        if !valid_http_url(url_str(&m.url)) {
            return None;
        }
        Some(new_entry(m, false))
    } else {
        None
    }
}

/// The video adapter's start of a download.
pub fn youtube_init_download(meta: Option<&Meta>, offline: Option<OfflineData>) -> (r: Option<OfflineData>)
    ensures
        opt_data(r) == init_download_view(opt_meta(meta), opt_data(offline), |u: Option<Seq<char>>| spec_valid_video_url(u), true),
{
    if let Some(o) = offline {
        if o.status.is_ready() || o.status.is_error() || !valid_video_url(url_str(&o.url)) {
            None
        } else {
            Some(o)
        }
    } else if let Some(m) = meta {
        if !valid_video_url(url_str(&m.url)) {
            return None;
        }
        Some(new_entry(m, true))
    } else {
        None
    }
}

/// What an adapter does with a download request.
#[derive(Debug, PartialEq, Eq)]
pub enum DownloadPlan {
    /// The request is not for this adapter.
    NotHandled,
    /// Answer at once.
    Respond(Response),
    /// Start downloading into this entry, and answer that it started.
    Start(OfflineData),
}

/// The view of a plan: not handled, an answer that the item is ready, or the
/// entry a download starts from.
pub enum PlanView {
    NotHandled,
    AlreadyReady(Seq<char>),
    Start(OfflineDataView),
}

pub open spec fn plan_view(p: DownloadPlan) -> PlanView {
    match p {
        DownloadPlan::NotHandled => PlanView::NotHandled,
        DownloadPlan::Respond(Response::MetaOfflineStatus(id, s)) => if s@ is Ready {
            PlanView::AlreadyReady(id@)
        } else {
            PlanView::NotHandled
        },
        DownloadPlan::Start(o) => PlanView::Start(o@),
        _ => PlanView::NotHandled,
    }
}

/// What a download request leads to: nothing for an item the adapter does not
/// take, "ready" for an item whose entry is ready, else a download into the
/// given entry or a fresh one.
pub open spec fn download_plan_view(
    meta: Option<MetaView>,
    offline: Option<OfflineDataView>,
    takes: spec_fn(Option<Seq<char>>) -> bool,
    with_name: bool,
) -> PlanView {
    match meta {
        None => PlanView::NotHandled,
        Some(m) => if !takes(m.url) {
            PlanView::NotHandled
        } else {
            match offline {
                Some(o) => if o.status is Ready { PlanView::AlreadyReady(m.id) } else { PlanView::Start(o) },
                None => PlanView::Start(fresh_entry(m, with_name)),
            }
        },
    }
}

fn plan_download(meta: Option<&Meta>, offline: Option<OfflineData>, video: bool) -> (r: DownloadPlan)
    ensures
        video ==> plan_view(r) == download_plan_view(opt_meta(meta), opt_data(offline), |u: Option<Seq<char>>| spec_valid_video_url(u), true),
        !video ==> plan_view(r) == download_plan_view(opt_meta(meta), opt_data(offline), |u: Option<Seq<char>>| u.is_some(), false),
        r matches DownloadPlan::Respond(x) ==> x matches Response::MetaOfflineStatus(_, s) && s@ is Ready,
{
    if let Some(m) = meta {
        let takes = if video { valid_video_url(url_str(&m.url)) } else { valid_http_url(url_str(&m.url)) };
        if !takes {
            return DownloadPlan::NotHandled;
        }
        if let Some(o) = offline {
            if o.status.is_ready() {
                return DownloadPlan::Respond(Response::MetaOfflineStatus(m.id.clone(), Status::Ready));
            }
            DownloadPlan::Start(o)
        } else {
            DownloadPlan::Start(new_entry(m, video))
        }
    } else {
        DownloadPlan::NotHandled
    }
}

/// The web adapter's handling of a download request.
pub fn http_plan_download(meta: Option<&Meta>, offline: Option<OfflineData>) -> (r: DownloadPlan)
    ensures
        plan_view(r) == download_plan_view(opt_meta(meta), opt_data(offline), |u: Option<Seq<char>>| u.is_some(), false),
        r matches DownloadPlan::Respond(x) ==> x matches Response::MetaOfflineStatus(_, s) && s@ is Ready,
{
    plan_download(meta, offline, false)
}

/// The video adapter's handling of a download request.
pub fn youtube_plan_download(meta: Option<&Meta>, offline: Option<OfflineData>) -> (r: DownloadPlan)
    ensures
        plan_view(r) == download_plan_view(opt_meta(meta), opt_data(offline), |u: Option<Seq<char>>| spec_valid_video_url(u), true),
        r matches DownloadPlan::Respond(x) ==> x matches Response::MetaOfflineStatus(_, s) && s@ is Ready,
{
    plan_download(meta, offline, true)
}

/// Whether the video adapter indexes the item: a video link with a downloaded file.
pub fn youtube_will_index(meta: &Meta, offline: Option<&OfflineData>) -> (r: bool)
    ensures
        r == (spec_valid_video_url(opt_text(meta.url)) && (offline matches Some(o) && o.file.is_some())),
{
    valid_video_url(url_str(&meta.url)) && match offline {
        Some(o) => o.file.is_some(),
        None => false,
    }
}

/// The entry after a download: ready with the file at `path`, or failed
/// with the error's message.
pub fn finish_download(data: OfflineData, result: Result<String, String>) -> (r: OfflineData)
    ensures
        r@ == (match result {
            Ok(path) => OfflineDataView { status: StatusView::Ready, file: Some(path@), ..data@ },
            Err(msg) => OfflineDataView { status: StatusView::Error(msg@), ..data@ },
        }),
{
    let mut data = data;
    match result {
        Ok(path) => {
            data.status = Status::Ready;
            data.file = Some(path);
        },
        Err(msg) => {
            data.status = Status::Error(msg);
        },
    }
    data
}

/// The subtitle option for the video downloader, from its listing of the
/// video's subtitles: written subtitles when there are any, else automatic
/// captions when there are any, else none (quiet).
pub fn subtitle_option(listing: &str) -> (r: &'static str)
    ensures
        has_infix("Available subtitles"@, listing@) ==> r@ == "--write-sub"@,
        !has_infix("Available subtitles"@, listing@) && has_infix("Available automatic captions"@, listing@)
            ==> r@ == "--write-auto-sub"@,
        !has_infix("Available subtitles"@, listing@) && !has_infix("Available automatic captions"@, listing@)
            ==> r@ == "-q"@,
{
    if contains_text(listing, "Available subtitles") {
        "--write-sub"
    } else if contains_text(listing, "Available automatic captions") {
        "--write-auto-sub"
    } else {
        "-q"
    }
}


/// The links adapter `a` takes: any link for the web adapter, a video link
/// for the video adapter.
pub open spec fn adapter_takes(a: AdapterType, u: Option<Seq<char>>) -> bool {
    match a {
        AdapterType::Http => u.is_some(),
        AdapterType::Youtube => spec_valid_video_url(u),
    }
}

/// Whether adapter `a` records the item's name in a fresh entry.
pub open spec fn adapter_names(a: AdapterType) -> bool {
    a == AdapterType::Youtube
}

/// Adapter `a`'s start of a download.
pub fn init_download(a: AdapterType, meta: Option<&Meta>, offline: Option<OfflineData>) -> (r: Option<OfflineData>)
    ensures
        opt_data(r) == init_download_view(opt_meta(meta), opt_data(offline), |u: Option<Seq<char>>| adapter_takes(a, u), adapter_names(a)),
{
    match a {
        AdapterType::Http => {
            let r = http_init_download(meta, offline);
            assert((|u: Option<Seq<char>>| adapter_takes(a, u)) =~= (|u: Option<Seq<char>>| u.is_some()));
            r
        },
        AdapterType::Youtube => {
            let r = youtube_init_download(meta, offline);
            assert((|u: Option<Seq<char>>| adapter_takes(a, u)) =~= (|u: Option<Seq<char>>| spec_valid_video_url(u)));
            r
        },
    }
}

/// Adapter `a`'s handling of a download request.
pub fn plan_download_with(a: AdapterType, meta: Option<&Meta>, offline: Option<OfflineData>) -> (r: DownloadPlan)
    ensures
        plan_view(r) == download_plan_view(opt_meta(meta), opt_data(offline), |u: Option<Seq<char>>| adapter_takes(a, u), adapter_names(a)),
        r matches DownloadPlan::Respond(x) ==> x matches Response::MetaOfflineStatus(_, s) && s@ is Ready,
{
    match a {
        AdapterType::Http => {
            let r = http_plan_download(meta, offline);
            assert((|u: Option<Seq<char>>| adapter_takes(a, u)) =~= (|u: Option<Seq<char>>| u.is_some()));
            r
        },
        AdapterType::Youtube => {
            let r = youtube_plan_download(meta, offline);
            assert((|u: Option<Seq<char>>| adapter_takes(a, u)) =~= (|u: Option<Seq<char>>| spec_valid_video_url(u)));
            r
        },
    }
}

/// Whether adapter `a` indexes the item: only the video adapter does, for a
/// video link with a downloaded file.
pub open spec fn adapter_will_index(a: AdapterType, m: MetaView, o: Option<OfflineDataView>) -> bool {
    a == AdapterType::Youtube && spec_valid_video_url(m.url) && (o matches Some(d) && d.file.is_some())
}

/// Whether adapter `a` indexes the item.
pub fn will_index(a: AdapterType, meta: &Meta, offline: Option<&OfflineData>) -> (r: bool)
    ensures
        r == adapter_will_index(a, meta@, match offline { Some(o) => Some(o@), None => None }),
{
    match a {
        AdapterType::Http => false,
        AdapterType::Youtube => youtube_will_index(meta, offline),
    }
}


/// Where the web adapter saves an item's page: `<id>.html` in `folder`.
pub open spec fn http_file_path(folder: Seq<char>, id: Seq<char>) -> Seq<char> {
    joined_path(folder, id + ".html"@)
}

/// Where the video adapter saves an item's video: `<id>.mkv` in the folder
/// `<id>` under `folder`.
pub open spec fn youtube_file_path(folder: Seq<char>, id: Seq<char>) -> Seq<char> {
    joined_path(joined_path(folder, id), id + ".mkv"@)
}

/// The link the web adapter downloads and the file it writes, or `NoUrl`
/// for an item without a link.
pub fn http_download_target(meta: &Meta, folder: &str) -> (r: Result<(String, String), Error>)
    ensures
        match meta.url {
            Some(u) => r matches Ok(t) && t.0@ == u@ && t.1@ == http_file_path(folder@, meta.id@),
            None => r matches Err(Error::NoUrl(x)) && x@ == meta.id@,
        },
{
    match &meta.url {
        Some(u) => {
            let name = concat_text(meta.id.as_str(), ".html");
            let path = join_path(folder, name.as_str());
            Ok((u.clone(), path))
        },
        None => Err(Error::NoUrl(meta.id.clone())),
    }
}

/// The folder the video adapter downloads into for an item: `<id>` under `folder`.
pub fn youtube_download_folder(meta: &Meta, folder: &str) -> (r: String)
    ensures
        r@ == joined_path(folder@, meta.id@),
{
    join_path(folder, meta.id.as_str())
}

/// The link the video adapter downloads and the file it writes, or the
/// downloader's error for an item without a link.
pub fn youtube_download_target(meta: &Meta, folder: &str) -> (r: Result<(String, String), Error>)
    ensures
        match meta.url {
            Some(u) => r matches Ok(t) && t.0@ == u@ && t.1@ == youtube_file_path(folder@, meta.id@),
            None => r matches Err(Error::Custom(x)) && x@ == "Youtube-dl error"@,
        },
{
    let dir = youtube_download_folder(meta, folder);
    let name = concat_text(meta.id.as_str(), ".mkv");
    let path = join_path(dir.as_str(), name.as_str());
    match &meta.url {
        Some(u) => Ok((u.clone(), path)),
        None => Err(Error::Custom("Youtube-dl error".to_string())),
    }
}


/// The folder an adapter downloads into, under the offline data folder: the
/// web adapter uses its `offline` subfolder, the video adapter the folder itself.
pub fn adapter_download_folder(a: AdapterType, offline_folder: &str) -> (r: String)
    ensures
        r@ == match a {
            AdapterType::Http => joined_path(offline_folder@, "offline"@),
            AdapterType::Youtube => offline_folder@,
        },
{
    match a {
        AdapterType::Http => join_path(offline_folder, "offline"),
        AdapterType::Youtube => offline_folder.to_string(),
    }
}

/// How willing adapter `a` is to handle `m`; the higher, the more capable.
/// The web downloader takes any link at 1; the video downloader takes a
/// video link at 5. An adapter that cannot handle the meta scores 0.
pub open spec fn adapter_score(a: AdapterType, m: MetaView) -> usize {
    match a {
        AdapterType::Http => if m.url.is_some() { 1 } else { 0 },
        AdapterType::Youtube => if spec_valid_video_url(m.url) { 5 } else { 0 },
    }
}

/// How willing adapter `a` is to handle `meta`.
pub fn score_meta(a: AdapterType, meta: &Meta) -> (r: usize)
    ensures
        r == adapter_score(a, meta@),
{
    match a {
        AdapterType::Http => if meta.url.is_some() { 1 } else { 0 },
        AdapterType::Youtube => if valid_video_url(url_str(&meta.url)) { 5 } else { 0 },
    }
}

} // verus!
