//! Status reports on one item and on the stores.

use vstd::prelude::*;
use crate::file_store::FileStore;
use crate::meta::{IndexStatus, Meta};
use crate::offline_store::{data_lookup, OfflineStore, Status};

verus! {

/// The status of one item: its size when serialized, where it stands with
/// the index, and how its offline copy stands.
#[derive(Debug, PartialEq, Eq)]
pub struct MetaStatus {
    pub id: String,
    pub bytes_on_disk: usize,
    pub index_status: Option<IndexStatus>,
    pub offline_status: Option<Status>,
}

impl MetaStatus {
    /// The status of `meta`, `bytes_on_disk` being the length of its
    /// serialized form; its offline status is that of the entry its id finds.
    pub fn new(meta: &Meta, offline_store: &OfflineStore, bytes_on_disk: usize) -> (r: MetaStatus)
        ensures
            r.id@ == meta.id@,
            r.bytes_on_disk == bytes_on_disk,
            r.index_status == meta.index_status,
            match data_lookup(offline_store@.data, meta.id@) {
                Some(i) => r.offline_status matches Some(s) && s@ == offline_store@.data[i].status,
                None => r.offline_status.is_none(),
            },
    {
        let offline_status = match offline_store.get(meta.id()) {
            Ok(d) => Some(d.status.duplicate()),
            Err(_) => None,
        };
        MetaStatus {
            id: meta.id.clone(),
            bytes_on_disk,
            index_status: meta.index_status,
            offline_status,
        }
    }
}

/// The status of the metadata store.
#[derive(Debug, PartialEq, Eq)]
pub struct FileStoreStatus {
    pub item_count: usize,
    pub bytes_on_disk: usize,
    pub version: String,
}

impl FileStoreStatus {
    /// The status of `store`, whose file holds `bytes_on_disk` bytes.
    pub fn new(store: &FileStore, bytes_on_disk: usize) -> (r: FileStoreStatus)
        ensures
            r.item_count == store@.metas.len(),
            r.bytes_on_disk == bytes_on_disk,
            r.version@ == store@.version,
    {
        FileStoreStatus {
            item_count: store.data().len(),
            bytes_on_disk,
            version: store.version().to_string(),
        }
    }
}

/// The status of the offline store.
#[derive(Debug, PartialEq, Eq)]
pub struct OfflineStoreStatus {
    pub item_count: usize,
    pub bytes_on_disk: usize,
}

impl OfflineStoreStatus {
    /// The status of `offline_store`, whose folder holds `bytes_on_disk` bytes.
    pub fn new(offline_store: &OfflineStore, bytes_on_disk: usize) -> (r: OfflineStoreStatus)
        ensures
            r.item_count == offline_store@.data.len(),
            r.bytes_on_disk == bytes_on_disk,
    {
        OfflineStoreStatus { item_count: offline_store.data().len(), bytes_on_disk }
    }
}

/// The status of the full-text index.
#[derive(Debug, PartialEq, Eq)]
pub struct TIndexStatus {
    pub item_count: usize,
    pub bytes_on_disk: usize,
}

impl TIndexStatus {
    /// The status of an index of `item_count` items in `bytes_on_disk` bytes.
    pub fn new(item_count: usize, bytes_on_disk: usize) -> (r: TIndexStatus)
        ensures
            r.item_count == item_count,
            r.bytes_on_disk == bytes_on_disk,
    {
        TIndexStatus { item_count, bytes_on_disk }
    }
}

/// The parts of a status answer that were asked for.
#[derive(Debug, PartialEq, Eq)]
pub struct StatusResponse {
    pub meta: Option<MetaStatus>,
    pub file_store: Option<FileStoreStatus>,
    pub offline_store: Option<OfflineStoreStatus>,
    pub index_status: Option<TIndexStatus>,
}

} // verus!
