//! The decisions of the knowledge store's front end: what happens to an
//! item after it is added, and how many items a listing or a search yields.

use vstd::prelude::*;
use crate::config::MonkConfig;
use crate::meta::Timestamp;
use crate::models::{AddItem, ExtractedInfo, Item, ListItem, Search, Tag};
use crate::text::{same_text, views_of};

verus! {

/// The work after an item is stored: whether to download its link, and
/// whether to extract and index its content.
#[derive(Debug, PartialEq, Eq)]
pub struct AddPlan {
    pub download: bool,
    pub index: bool,
}

/// What follows adding an item: a download when it has a link and the
/// configuration downloads on add; indexing when the configuration indexes
/// on add.
pub fn add_plan(config: &MonkConfig, has_url: bool) -> (r: AddPlan)
    ensures
        r.download == (has_url && config.download.download_on_add),
        r.index == config.index.index_on_add,
{
    AddPlan {
        download: has_url && config.download.download_on_add,
        index: config.index.index_on_add,
    }
}

/// Whether to summarize what was extracted: when the configuration
/// summarizes on add and a body was extracted.
pub fn wants_summary(config: &MonkConfig, extracted: &Option<ExtractedInfo>) -> (r: bool)
    ensures
        r == (config.index.summarize_on_add && (extracted matches Some(info) && info.body.is_some())),
{
    if config.index.summarize_on_add {
        match extracted {
            Some(info) => info.body.is_some(),
            None => false,
        }
    } else {
        false
    }
}

/// The labels of a list of tags.
pub open spec fn tag_labels(tags: Seq<Tag>) -> Seq<Seq<char>> {
    tags.map_values(|t: Tag| t.tag@)
}

/// The item carries a tag labelled with each of `wanted`.
pub open spec fn carries_all(item: Item, wanted: Seq<Seq<char>>) -> bool {
    forall|q: int| 0 <= q < wanted.len() ==> tag_labels(item.tags@).contains(#[trigger] wanted[q])
}

/// The items that carry every one of `wanted`, in their order.
pub open spec fn with_tags(items: Seq<Item>, wanted: Seq<Seq<char>>) -> Seq<Item>
    decreases items.len(),
{
    if items.len() == 0 {
        Seq::empty()
    } else {
        let prev = with_tags(items.drop_last(), wanted);
        if carries_all(items.last(), wanted) { prev.push(items.last()) } else { prev }
    }
}

/// The first `count` of `s`, or all of it when no count is given or it is larger.
pub open spec fn first_n(s: Seq<Item>, count: Option<usize>) -> Seq<Item> {
    match count {
        Some(c) => if c < s.len() { s.subrange(0, c as int) } else { s },
        None => s,
    }
}

fn has_label(item: &Item, label: &str) -> (r: bool)
    ensures
        r == tag_labels(item.tags@).contains(label@),
{
    let n = item.tags.len();
    let mut i: usize = 0;
    while i < n
        invariant
            n == item.tags@.len(),
            i <= n,
            forall|k: int| 0 <= k < i ==> tag_labels(item.tags@)[k] != label@,
        decreases n - i,
    {
        if same_text(item.tags[i].tag.as_str(), label) {
            assert(tag_labels(item.tags@)[i as int] == label@);
            return true;
        }
        i = i + 1;
    }
    proof {
        if tag_labels(item.tags@).contains(label@) {
            let k = choose|k: int| 0 <= k < tag_labels(item.tags@).len() && tag_labels(item.tags@)[k] == label@;
        }
    }
    false
}

fn has_all_labels(item: &Item, wanted: &Vec<String>) -> (r: bool)
    ensures
        r == carries_all(*item, views_of(wanted@)),
{
    let n = wanted.len();
    let mut q: usize = 0;
    while q < n
        invariant
            n == wanted@.len(),
            q <= n,
            forall|k: int| 0 <= k < q ==> tag_labels(item.tags@).contains(#[trigger] views_of(wanted@)[k]),
        decreases n - q,
    {
        if !has_label(item, wanted[q].as_str()) {
            assert(!tag_labels(item.tags@).contains(views_of(wanted@)[q as int]));
            return false;
        }
        q = q + 1;
    }
    true
}

/// The items carrying every tag `list.tags` names, in order, cut to the
/// first `list.count` of them (all of them when no count is given).
pub fn take_listed(items: Vec<Item>, list: &ListItem) -> (r: Vec<Item>)
    ensures
        r@ == first_n(with_tags(items@, views_of(list.tags@)), list.count),
{
    let ghost orig = items@;
    let ghost wanted = views_of(list.tags@);
    let mut items = items;
    let mut kept: Vec<Item> = Vec::new();
    let n = items.len();
    let mut i: usize = 0;
    proof {
        assert(orig.subrange(0, 0) =~= Seq::<Item>::empty());
        assert(orig.subrange(0, n as int) =~= orig);
    }
    while i < n
        invariant
            n == orig.len(),
            i <= n,
            items@ == orig.subrange(i as int, n as int),
            kept@ == with_tags(orig.subrange(0, i as int), wanted),
            wanted == views_of(list.tags@),
        decreases n - i,
    {
        let it = items.remove(0);
        proof {
            assert(it == orig[i as int]);
            assert(orig.subrange(0, i + 1).drop_last() =~= orig.subrange(0, i as int));
            assert(orig.subrange(i + 1, n as int) =~= orig.subrange(i as int, n as int).remove(0));
        }
        if has_all_labels(&it, &list.tags) {
            kept.push(it);
        }
        i = i + 1;
    }
    proof {
        assert(orig.subrange(0, n as int) =~= orig);
    }
    match list.count {
        Some(c) => {
            if c < kept.len() {
                kept.truncate(c);
            }
            kept
        },
        None => kept,
    }
}

/// How many results a search asks the index for: the count given, else ten.
pub fn search_limit(search: &Search) -> (r: usize)
    ensures
        r == match search.count {
            Some(c) => c,
            None => 10,
        },
{
    match search.count {
        Some(c) => c,
        None => 10,
    }
}


/// Where adding an item stands.
#[derive(Debug, Clone, Copy, PartialEq, Eq, Structural)]
pub enum AddState {
    /// The item is being stored.
    Storing,
    /// Its link is being downloaded.
    Downloading,
    /// Its content is being extracted.
    Extracting,
    /// Its earlier index entry is being removed; whether anything was
    /// extracted, and whether that had a body.
    Removing { found: bool, has_body: bool },
    /// It is being indexed with what was extracted.
    Indexing { found: bool, has_body: bool },
    /// The extracted body is being summarized.
    Summarizing,
    /// The extracted body (and summary) are being written to the item.
    Updating,
    /// Adding is over; the item as it now stands is the result.
    Done,
}

/// What the last piece of work reported.
#[derive(Debug, Clone, Copy, PartialEq, Eq, Structural)]
pub enum AddEvent {
    /// The item was stored; whether it has a link.
    Stored { has_url: bool },
    /// The download ended; whether it succeeded.
    Downloaded { ok: bool },
    /// The extraction ended; whether anything was extracted, and whether it had a body.
    Extracted { found: bool, has_body: bool },
    /// The earlier index entry was removed.
    Removed,
    /// The item was indexed.
    Indexed,
    /// The body was summarized.
    Summarized,
    /// The item was updated.
    Updated,
}

/// The next piece of work.
#[derive(Debug, Clone, Copy, PartialEq, Eq, Structural)]
pub enum AddAction {
    /// Download the item's link.
    Download,
    /// Extract the item's content (from the download, if any).
    Extract,
    /// Remove the item's earlier index entry.
    RemoveFromIndex,
    /// Index the item with its tags and what was extracted.
    IndexFull,
    /// Summarize the extracted body.
    Summarize,
    /// Write the extracted body to the item, and the summary when there is one.
    Update { with_summary: bool },
    /// Hand the item back.
    Finish,
    /// The report does not fit where adding stands: nothing to do.
    Wait,
}

/// One step of adding an item under `c`: after storing, download when the
/// item has a link and downloads on add are on, else extract when indexing on
/// add is on, else finish; a failed download finishes with the stored item;
/// after a download, extract when indexing on add is on; after extracting,
/// remove the earlier index entry, then index in full; after indexing, finish
/// when nothing was extracted, else summarize when summaries on add are on and
/// a body was extracted, else update with the body alone; after summarizing,
/// update with body and summary; after updating, finish.
pub open spec fn add_step_spec(c: MonkConfig, s: AddState, e: AddEvent) -> (AddState, AddAction) {
    match (s, e) {
        (AddState::Storing, AddEvent::Stored { has_url }) => if has_url && c.download.download_on_add {
            (AddState::Downloading, AddAction::Download)
        } else if c.index.index_on_add {
            (AddState::Extracting, AddAction::Extract)
        } else {
            (AddState::Done, AddAction::Finish)
        },
        (AddState::Downloading, AddEvent::Downloaded { ok }) => if ok && c.index.index_on_add {
            (AddState::Extracting, AddAction::Extract)
        } else {
            (AddState::Done, AddAction::Finish)
        },
        (AddState::Extracting, AddEvent::Extracted { found, has_body }) =>
            (AddState::Removing { found, has_body }, AddAction::RemoveFromIndex),
        (AddState::Removing { found, has_body }, AddEvent::Removed) =>
            (AddState::Indexing { found, has_body }, AddAction::IndexFull),
        (AddState::Indexing { found, has_body }, AddEvent::Indexed) => if !found {
            (AddState::Done, AddAction::Finish)
        } else if c.index.summarize_on_add && has_body {
            (AddState::Summarizing, AddAction::Summarize)
        } else {
            (AddState::Updating, AddAction::Update { with_summary: false })
        },
        (AddState::Summarizing, AddEvent::Summarized) => (AddState::Updating, AddAction::Update { with_summary: true }),
        (AddState::Updating, AddEvent::Updated) => (AddState::Done, AddAction::Finish),
        _ => (s, AddAction::Wait),
    }
}

/// What every step of adding an item keeps: a failed download ends the work
/// with the item as stored; nothing is extracted or indexed while indexing on
/// add is off; the full index entry is written only right after the earlier
/// entry was removed; a summary is asked for only when summarizing on add is
/// on and the extracted content has a body, and only a summary makes the
/// update carry one; once done, nothing more happens.
pub proof fn law_add_steps(c: MonkConfig, s: AddState, e: AddEvent)
    ensures
        s == AddState::Downloading && e == (AddEvent::Downloaded { ok: false }) ==>
            add_step_spec(c, s, e) == (AddState::Done, AddAction::Finish),
        !c.index.index_on_add && (s == AddState::Storing || s == AddState::Downloading) ==>
            add_step_spec(c, s, e).1 != AddAction::Extract,
        add_step_spec(c, s, e).1 == AddAction::IndexFull ==> s is Removing && e == AddEvent::Removed,
        add_step_spec(c, s, e).1 == AddAction::Summarize ==>
            c.index.summarize_on_add && s == (AddState::Indexing { found: true, has_body: true }),
        add_step_spec(c, s, e).1 == (AddAction::Update { with_summary: true }) ==> s == AddState::Summarizing,
        s == AddState::Done ==> add_step_spec(c, s, e) == (AddState::Done, AddAction::Wait),
{
}

/// The next state and piece of work of adding an item, from where it stands
/// and what the last piece of work reported.
pub fn add_step(config: &MonkConfig, state: AddState, event: AddEvent) -> (r: (AddState, AddAction))
    ensures
        r == add_step_spec(*config, state, event),
{
    match (state, event) {
        (AddState::Storing, AddEvent::Stored { has_url }) => {
            let plan = add_plan(config, has_url);
            if plan.download {
                (AddState::Downloading, AddAction::Download)
            } else if plan.index {
                (AddState::Extracting, AddAction::Extract)
            } else {
                (AddState::Done, AddAction::Finish)
            }
        },
        (AddState::Downloading, AddEvent::Downloaded { ok }) => if ok && config.index.index_on_add {
            (AddState::Extracting, AddAction::Extract)
        } else {
            (AddState::Done, AddAction::Finish)
        },
        (AddState::Extracting, AddEvent::Extracted { found, has_body }) =>
            (AddState::Removing { found, has_body }, AddAction::RemoveFromIndex),
        (AddState::Removing { found, has_body }, AddEvent::Removed) =>
            (AddState::Indexing { found, has_body }, AddAction::IndexFull),
        (AddState::Indexing { found, has_body }, AddEvent::Indexed) => if !found {
            (AddState::Done, AddAction::Finish)
        } else if config.index.summarize_on_add && has_body {
            (AddState::Summarizing, AddAction::Summarize)
        } else {
            (AddState::Updating, AddAction::Update { with_summary: false })
        },
        (AddState::Summarizing, AddEvent::Summarized) => (AddState::Updating, AddAction::Update { with_summary: true }),
        (AddState::Updating, AddEvent::Updated) => (AddState::Done, AddAction::Finish),
        _ => (state, AddAction::Wait),
    }
}

/// The item an add request makes, given the id, tags and time the store
/// gives it: the request's name, link, body and comment, no summary and no
/// downloaded copy yet.
pub fn added_item(add: AddItem, id: String, tags: Vec<Tag>, created_at: Timestamp) -> (r: Item)
    ensures
        r.id == id,
        r.name == add.name,
        r.url == add.url,
        r.body == add.body,
        r.comment == add.comment,
        r.summary is None,
        r.tags == tags,
        r.blob is None,
        r.created_at == created_at,
{
    Item {
        id,
        name: add.name,
        url: add.url,
        body: add.body,
        comment: add.comment,
        summary: None,
        tags,
        blob: None,
        created_at,
    }
}

} // verus!
