//! The requests of the knowledge store's client interface, and what the index
//! extracts and finds.

use vstd::prelude::*;
use crate::meta::{opt_text, Timestamp};

verus! {

/// Request to add a new item: its name, and optionally a link, a body, a
/// comment, and the names of its tags.
#[derive(Debug, PartialEq, Eq)]
pub struct AddItem {
    pub name: String,
    pub url: Option<String>,
    pub body: Option<String>,
    pub comment: Option<String>,
    pub tags: Vec<String>,
}

/// Request for the item with this id.
#[derive(Debug, PartialEq, Eq)]
pub struct GetItem {
    pub id: String,
}

/// Request for tags: those of an item, or one tag by its id.
#[derive(Debug, PartialEq, Eq)]
pub enum GetTag {
    ItemId(String),
    TagId(String),
}

/// Request for a blob: that of an item, or one blob by its id.
#[derive(Debug, PartialEq, Eq)]
pub enum GetBlob {
    ItemId(String),
    BlobId(String),
}

/// Request to list items, at most `count` of them, filtered by tag names.
#[derive(Debug, PartialEq, Eq)]
pub struct ListItem {
    pub count: Option<usize>,
    pub tags: Vec<String>,
}

/// Request to change an item; only the fields given are changed.
#[derive(Debug, PartialEq, Eq)]
pub struct EditItem {
    pub id: String,
    pub name: Option<String>,
    pub url: Option<String>,
    pub body: Option<String>,
    pub summary: Option<String>,
    pub comment: Option<String>,
    pub add_tags: Vec<String>,
    pub remove_tags: Vec<String>,
}

/// Request to delete an item.
#[derive(Debug, PartialEq, Eq)]
pub struct DeleteItem {
    pub id: String,
}

/// Request for the items linked to an item.
#[derive(Debug, PartialEq, Eq)]
pub struct LinkedItems {
    pub id: String,
}

/// Request to link two items.
#[derive(Debug, PartialEq, Eq)]
pub struct CreateLink {
    pub a: String,
    pub b: String,
}

/// Request to unlink two items.
#[derive(Debug, PartialEq, Eq)]
pub struct DeleteLink {
    pub a: String,
    pub b: String,
}

/// Request to search, for at most `count` results.
#[derive(Debug, PartialEq, Eq)]
pub struct Search {
    pub count: Option<usize>,
    pub query: String,
}

/// Request for the status of an item and of the parts of the system.
#[derive(Debug, PartialEq, Eq)]
pub struct Status {
    pub id: Option<String>,
    pub index: bool,
    pub store: bool,
    pub offline: bool,
}

/// What was extracted from an item's content: a title, the body text, and
/// anything else of interest.
#[derive(Debug, PartialEq, Eq)]
pub struct ExtractedInfo {
    pub title: Option<String>,
    pub body: Option<String>,
    pub extra: Option<String>,
}

impl ExtractedInfo {
    /// Nothing extracted.
    pub fn default() -> (r: ExtractedInfo)
        ensures
            r.title.is_none() && r.body.is_none() && r.extra.is_none(),
    {
        ExtractedInfo { title: None, body: None, extra: None }
    }
}

/// A fragment of text with the spans, from start to end, to highlight.
#[derive(Debug, PartialEq, Eq)]
pub struct Snippet {
    pub fragment: String,
    pub highlighted: Vec<(usize, usize)>,
}

/// The snippets of a search hit in an item's name, body and comment.
#[derive(Debug, PartialEq, Eq)]
pub struct Snippets {
    pub name: Snippet,
    pub body: Snippet,
    pub comment: Snippet,
}

/// The command-line arguments of the daemon: an optional configuration file.
#[derive(Debug, PartialEq, Eq)]
pub struct Args {
    pub config: Option<String>,
}

/// The daemon's request server.
#[derive(Debug, PartialEq, Eq)]
pub struct Server;

/// The chat client that relays messages to the store.
#[derive(Debug, PartialEq, Eq)]
pub struct MonkMatrixClient;


/// A tag of the knowledge base: its id, its label, and when it was made.
#[derive(Debug, PartialEq, Eq)]
pub struct Tag {
    pub id: String,
    pub tag: String,
    pub created_at: Timestamp,
}

/// A downloaded copy of an item's content: where it came from, its hash and
/// type, where it lies, whether the store manages the file, and when it was made.
#[derive(Debug, PartialEq, Eq)]
pub struct Blob {
    pub id: String,
    pub uri: String,
    pub hash: String,
    pub content_type: String,
    pub path: String,
    pub managed: bool,
    pub created_at: Timestamp,
}

/// An item of the knowledge base, with its tags and downloaded copy.
#[derive(Debug, PartialEq, Eq)]
pub struct Item {
    pub id: String,
    pub name: String,
    pub url: Option<String>,
    pub body: Option<String>,
    pub comment: Option<String>,
    pub summary: Option<String>,
    pub tags: Vec<Tag>,
    pub blob: Option<Blob>,
    pub created_at: Timestamp,
}

impl Item {
    /// Sets each of the fields that is given and leaves the others.
    pub fn apply_update(
        &mut self,
        name: Option<String>,
        url: Option<String>,
        body: Option<String>,
        summary: Option<String>,
        comment: Option<String>,
    )
        ensures
            final(self).name@ == (match name { Some(n) => n@, None => old(self).name@ }),
            opt_text(final(self).url) == (if url.is_some() { opt_text(url) } else { opt_text(old(self).url) }),
            opt_text(final(self).body) == (if body.is_some() { opt_text(body) } else { opt_text(old(self).body) }),
            opt_text(final(self).summary) == (if summary.is_some() { opt_text(summary) } else { opt_text(old(self).summary) }),
            opt_text(final(self).comment) == (if comment.is_some() { opt_text(comment) } else { opt_text(old(self).comment) }),
            final(self).id == old(self).id,
            final(self).tags == old(self).tags,
            final(self).blob == old(self).blob,
            final(self).created_at == old(self).created_at,
    {
        if let Some(n) = name {
            self.name = n;
        }
        if let Some(u) = url {
            self.url = Some(u);
        }
        if let Some(b) = body {
            self.body = Some(b);
        }
        if let Some(s) = summary {
            self.summary = Some(s);
        }
        if let Some(c) = comment {
            self.comment = Some(c);
        }
    }
}

} // verus!
