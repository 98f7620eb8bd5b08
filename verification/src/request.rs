//! The requests a client sends.

use vstd::prelude::*;
use crate::meta::Meta;
use crate::offline_store::OfflineData;

verus! {

/// Changes to an item: a new link, name or comment where given, tags to add,
/// then tags to remove.
#[derive(Debug, PartialEq, Eq)]
pub struct Edit {
    pub url: Option<String>,
    pub name: Option<String>,
    pub comment: Option<String>,
    pub add_tags: Vec<String>,
    pub remove_tags: Vec<String>,
}


/// What a status request asks about.
#[derive(Debug, PartialEq, Eq)]
pub enum StatusKind {
    All,
    Index,
    Offline,
    Store,
    Id(String),
}

/// A request to the daemon.
#[derive(Debug, PartialEq, Eq)]
pub enum Request {
    /// Add an item.
    Add { name: Option<String>, url: Option<String>, comment: Option<String> },
    /// Change the item a description finds.
    Edit { id: String, edit: Edit },
    /// Delete the item a description finds.
    Delete { id: String },
    /// List the items, at most `count` of them.
    List { count: Option<usize> },
    /// The item a description finds.
    Get { id: String },
    /// Download the item a description finds, or every item without an offline copy.
    Download { id: Option<String> },
    /// Open the item's offline copy, or its link when `online`.
    Open { id: String, online: bool },
    /// Index the item a description finds.
    Index { id: String },
    /// Where the item stands with the index.
    IndexStatus { id: String },
    /// Index every item.
    IndexAll,
    /// A status report.
    Status { kind: StatusKind },
    /// Search the index, for at most `count` items.
    Search { count: Option<usize>, query: String },
    /// Export the store (not served by the daemon).
    Export,
    /// Stop at once (not served by the daemon).
    ForceShutdown,
    /// Stop serving.
    Stop,
    /// Replace an offline entry with a newer one.
    UpdateOffline(OfflineData),
    /// Replace a meta with a newer one.
    UpdateMeta(Meta),
}

} // verus!
