//! The configuration of the knowledge store: where its data lives and what it
//! does when an item is added.

use vstd::prelude::*;
use crate::paths::{join_path, joined_path};

verus! {

/// Where the item database lives, relative to the configuration folder.
#[derive(Debug, PartialEq, Eq)]
pub struct StoreConfig {
    pub path: String,
}

/// Where the full-text index lives, and whether new items are indexed and summarized.
#[derive(Debug, PartialEq, Eq)]
pub struct IndexConfig {
    pub path: String,
    pub index_on_add: bool,
    pub summarize_on_add: bool,
}

/// Where downloads go, and whether new items are downloaded.
#[derive(Debug, PartialEq, Eq)]
pub struct DownloadConfig {
    pub path: String,
    pub download_on_add: bool,
}

/// The whole configuration.
#[derive(Debug, PartialEq, Eq)]
pub struct MonkConfig {
    pub log: bool,
    pub data_dir: String,
    pub store: StoreConfig,
    pub index: IndexConfig,
    pub download: DownloadConfig,
}

/// The defaults of everything but the data folder: no logging, the database
/// at `sqlite:monk.sqlite`, the index in `index` with indexing and summaries
/// on add, downloads in `downloads` with downloading on add.
pub open spec fn has_default_parts(c: MonkConfig) -> bool {
    &&& !c.log
    &&& c.store.path@ == "sqlite:monk.sqlite"@
    &&& c.index.path@ == "index"@
    &&& c.index.index_on_add
    &&& c.index.summarize_on_add
    &&& c.download.path@ == "downloads"@
    &&& c.download.download_on_add
}

/// The default configuration: the default parts, with data in `data`.
pub open spec fn is_default_config(c: MonkConfig) -> bool {
    has_default_parts(c) && c.data_dir@ == "data"@
}

impl MonkConfig {
    /// The default configuration.
    pub fn default() -> (r: MonkConfig)
        ensures
            is_default_config(r),
    {
        proof {
            reveal_strlit("data");
            reveal_strlit("sqlite:monk.sqlite");
            reveal_strlit("index");
            reveal_strlit("downloads");
        }
        MonkConfig {
            log: false,
            data_dir: "data".to_string(),
            store: StoreConfig { path: "sqlite:monk.sqlite".to_string() },
            index: IndexConfig { path: "index".to_string(), index_on_add: true, summarize_on_add: true },
            download: DownloadConfig { path: "downloads".to_string(), download_on_add: true },
        }
    }

    /// The database path under `config_folder`.
    pub fn store_path(&self, config_folder: &str) -> (r: String)
        ensures
            r@ == joined_path(config_folder@, self.store.path@),
    {
        join_path(config_folder, self.store.path.as_str())
    }

    /// The index path under `config_folder`.
    pub fn index_path(&self, config_folder: &str) -> (r: String)
        ensures
            r@ == joined_path(config_folder@, self.index.path@),
    {
        join_path(config_folder, self.index.path.as_str())
    }

    /// The download path under `config_folder`.
    pub fn download_path(&self, config_folder: &str) -> (r: String)
        ensures
            r@ == joined_path(config_folder@, self.download.path@),
    {
        join_path(config_folder, self.download.path.as_str())
    }
}

/// The configuration file in `config_folder`: `monk.yml` when that file
/// exists, else `monk.yaml`.
pub fn config_file_path(config_folder: &str, monk_yml_exists: bool) -> (r: String)
    ensures
        monk_yml_exists ==> r@ == joined_path(config_folder@, "monk.yml"@),
        !monk_yml_exists ==> r@ == joined_path(config_folder@, "monk.yaml"@),
{
    if monk_yml_exists {
        join_path(config_folder, "monk.yml")
    } else {
        join_path(config_folder, "monk.yaml")
    }
}

/// Whether `r` is the configuration in use after `read` was read from the
/// configuration file (nothing when there is no file) and `data_dir` was
/// offered as the data folder: what was read, else the default with that
/// data folder.
pub open spec fn config_in_use(read: Option<MonkConfig>, data_dir: String, r: MonkConfig) -> bool {
    match read {
        Some(c) => r == c,
        None => has_default_parts(r) && r.data_dir == data_dir,
    }
}

/// The configuration in use: the one read from the configuration file when
/// there is one, else the default with its data folder set to `data_dir`.
pub fn get_or_create_config(read: Option<MonkConfig>, data_dir: String) -> (r: MonkConfig)
    ensures
        config_in_use(read, data_dir, r),
{
    if let Some(c) = read {
        return c;
    }
    let mut c = MonkConfig::default();
    c.data_dir = data_dir;
    c
}

/// Once the configuration file holds the configuration in use, a later start
/// uses that configuration unchanged, whatever data folder it is offered then:
/// the first start either read the file or made the default that is written
/// to it, with the data folder offered at that start, and a later start reads
/// back what was written.
pub proof fn law_config_kept(read: Option<MonkConfig>, data_dir: String, first: MonkConfig, later_dir: String, second: MonkConfig)
    requires
        config_in_use(read, data_dir, first),
        config_in_use(Some(first), later_dir, second),
    ensures
        second == first,
        read is None ==> first.data_dir == data_dir,
{
}

} // verus!
