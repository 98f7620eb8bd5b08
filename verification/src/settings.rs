//! The daemon's settings and their defaults, which put every file under the
//! user's data folder when the platform names one, else in the working folder.

use vstd::prelude::*;
use crate::adapter::AdapterType;
use crate::paths::{join_path, joined_path};

verus! {

/// The folders the platform's conventions give the program "monk".
#[derive(Debug, PartialEq, Eq)]
pub struct ProjectPaths {
    pub data_dir: String,
    pub config_dir: String,
}

/// The data and configuration folders from
/// `directories_next::ProjectDirs::from("", "", "monk")`. Nothing is stated
/// of them: they depend on the environment (the home folder), and there are
/// none where no home folder is known.
#[verifier::external_body]
pub fn get_dirs() -> (r: Option<ProjectPaths>)
{
    match directories_next::ProjectDirs::from("", "", "monk") {
        Some(d) => Some(ProjectPaths {
            data_dir: d.data_dir().to_string_lossy().into_owned(),
            config_dir: d.config_dir().to_string_lossy().into_owned(),
        }),
        None => None,
    }
}

/// The path `name` under the data folder `dir`, or `fallback` where there is none.
pub open spec fn under_data_dir(dir: Option<String>, name: Seq<char>, fallback: Seq<char>) -> Seq<char> {
    match dir {
        Some(d) => joined_path(d@, name),
        None => fallback,
    }
}

fn path_under(dir: &Option<String>, name: &str, fallback: &str) -> (r: String)
    ensures
        r@ == under_data_dir(*dir, name@, fallback@),
{
    match dir {
        Some(d) => join_path(d.as_str(), name),
        None => fallback.to_string(),
    }
}

/// Where the metadata store is kept.
#[derive(Debug, PartialEq, Eq)]
pub struct StoreSettings {
    pub path: String,
}

impl StoreSettings {
    /// `store.json` in the data folder, else `./store.json`.
    pub fn default_in(data_dir: &Option<String>) -> (r: StoreSettings)
        ensures
            r.path@ == under_data_dir(*data_dir, "store.json"@, "./store.json"@),
    {
        StoreSettings { path: path_under(data_dir, "store.json", "./store.json") }
    }
}

/// Where offline copies and their store are kept.
#[derive(Debug, PartialEq, Eq)]
pub struct OfflineSettings {
    pub data_folder: String,
    pub store_file: String,
}

impl OfflineSettings {
    /// The folder `offline` and the file `offline.json` in the data folder,
    /// else `./offline` and `offline.json`.
    pub fn default_in(data_dir: &Option<String>) -> (r: OfflineSettings)
        ensures
            r.data_folder@ == under_data_dir(*data_dir, "offline"@, "./offline"@),
            r.store_file@ == under_data_dir(*data_dir, "offline.json"@, "offline.json"@),
    {
        OfflineSettings {
            data_folder: path_under(data_dir, "offline", "./offline"),
            store_file: path_under(data_dir, "offline.json", "offline.json"),
        }
    }
}

/// Where the full-text index is kept.
#[derive(Debug, PartialEq, Eq)]
pub struct IndexSettings {
    pub path: String,
}

impl IndexSettings {
    /// `index` in the data folder, else `./index`.
    pub fn default_in(data_dir: &Option<String>) -> (r: IndexSettings)
        ensures
            r.path@ == under_data_dir(*data_dir, "index"@, "./index"@),
    {
        IndexSettings { path: path_under(data_dir, "index", "./index") }
    }
}

/// How the daemon listens and what it does on its own: the address (as
/// text) and port it serves, how many milliseconds it waits for a request
/// before it stops, and whether it downloads an item when it is added or
/// opened without an offline copy.
#[derive(Debug, PartialEq, Eq)]
pub struct DaemonSettings {
    pub address: String,
    pub port: u16,
    pub timeout: usize,
    pub download_after_add: bool,
    pub download_on_open: bool,
}

/// The default daemon settings: 127.0.0.1:41562, a timeout of 1000 ms,
/// downloads after add and on open.
pub open spec fn is_default_daemon(d: DaemonSettings) -> bool {
    &&& d.address@ == "127.0.0.1"@
    &&& d.port == 41562
    &&& d.timeout == 1000
    &&& d.download_after_add
    &&& d.download_on_open
}

/// How long the stores wait between writes to disk: a third of the timeout,
/// and at least three seconds.
pub open spec fn spec_commit_delay_ms(timeout: usize) -> int {
    if timeout / 3 >= 3000 { (timeout / 3) as int } else { 3000 }
}

impl DaemonSettings {
    pub fn default() -> (r: DaemonSettings)
        ensures
            is_default_daemon(r),
    {
        proof { reveal_strlit("127.0.0.1"); }
        DaemonSettings {
            address: "127.0.0.1".to_string(),
            port: 41562,
            timeout: 1000,
            download_after_add: true,
            download_on_open: true,
        }
    }

    /// The delay between the stores' writes to disk, in milliseconds.
    pub fn commit_delay_ms(&self) -> (r: usize)
        ensures
            r == spec_commit_delay_ms(self.timeout),
    {
        let third = self.timeout / 3;
        if third >= 3000 { third } else { 3000 }
    }
}

/// All settings of the daemon.
#[derive(Debug, PartialEq, Eq)]
pub struct Settings {
    pub daemon: DaemonSettings,
    pub store: StoreSettings,
    pub offline: OfflineSettings,
    pub index: IndexSettings,
    pub log_dir: String,
    pub adapters: Vec<AdapterType>,
}

/// The default settings for the data folder `dir`: default daemon settings,
/// the stores, the index and the `logs` folder under the data folder (or in
/// the working folder), and both adapters, web first.
pub open spec fn is_default_settings(s: Settings, dir: Option<String>) -> bool {
    &&& is_default_daemon(s.daemon)
    &&& s.store.path@ == under_data_dir(dir, "store.json"@, "./store.json"@)
    &&& s.offline.data_folder@ == under_data_dir(dir, "offline"@, "./offline"@)
    &&& s.offline.store_file@ == under_data_dir(dir, "offline.json"@, "offline.json"@)
    &&& s.index.path@ == under_data_dir(dir, "index"@, "./index"@)
    &&& s.log_dir@ == under_data_dir(dir, "logs"@, "./logs"@)
    &&& s.adapters@ == seq![AdapterType::Http, AdapterType::Youtube]
}

impl Settings {
    /// The default settings for the data folder `data_dir`.
    pub fn default_in(data_dir: &Option<String>) -> (r: Settings)
        ensures
            is_default_settings(r, *data_dir),
    {
        let mut adapters: Vec<AdapterType> = Vec::new();
        adapters.push(AdapterType::Http);
        adapters.push(AdapterType::Youtube);
        assert(adapters@ =~= seq![AdapterType::Http, AdapterType::Youtube]);
        Settings {
            daemon: DaemonSettings::default(),
            store: StoreSettings::default_in(data_dir),
            offline: OfflineSettings::default_in(data_dir),
            index: IndexSettings::default_in(data_dir),
            log_dir: path_under(data_dir, "logs", "./logs"),
            adapters,
        }
    }

    /// The default settings for the platform's data folder.
    pub fn default() -> (r: Settings)
        ensures
            exists|dir: Option<String>| is_default_settings(r, dir),
    {
        let dir = match get_dirs() {
            Some(p) => Some(p.data_dir),
            None => None,
        };
        let r = Settings::default_in(&dir);
        assert(is_default_settings(r, dir));
        r
    }

    pub fn log_dir(&self) -> (r: &str)
        ensures
            r@ == self.log_dir@,
    {
        self.log_dir.as_str()
    }

    pub fn daemon(&self) -> (r: &DaemonSettings)
        ensures
            *r == self.daemon,
    {
        &self.daemon
    }

    pub fn store(&self) -> (r: &StoreSettings)
        ensures
            *r == self.store,
    {
        &self.store
    }

    pub fn offline(&self) -> (r: &OfflineSettings)
        ensures
            *r == self.offline,
    {
        &self.offline
    }

    pub fn index(&self) -> (r: &IndexSettings)
        ensures
            *r == self.index,
    {
        &self.index
    }

    pub fn adapters(&self) -> (r: &[AdapterType])
        ensures
            r@ == self.adapters@,
    {
        self.adapters.as_slice()
    }
}


/// The settings file: the one given, else `monkd.yaml` in the platform's
/// configuration folder, else none.
pub fn settings_file(given: Option<String>, config_dir: Option<String>) -> (r: Option<String>)
    ensures
        match given {
            Some(g) => r == Some(g),
            None => match config_dir {
                Some(d) => r matches Some(p) && p@ == joined_path(d@, "monkd.yaml"@),
                None => r.is_none(),
            },
        },
{
    match given {
        Some(g) => Some(g),
        None => match config_dir {
            Some(d) => Some(join_path(d.as_str(), "monkd.yaml")),
            None => None,
        },
    }
}


/// The settings file to read: the one given, else `monkd.yaml` in the
/// platform's configuration folder (which depends on the environment), else
/// none when the platform names no such folder.
pub fn locate_settings_file(given: Option<String>) -> (r: Option<String>)
    ensures
        given matches Some(g) ==> r == Some(g),
        given is None ==> match r {
            None => true,
            Some(p) => exists|d: Seq<char>| p@ == #[trigger] joined_path(d, "monkd.yaml"@),
        },
{
    if given.is_some() {
        return given;
    }
    let dir = match get_dirs() {
        Some(p) => Some(p.config_dir),
        None => None,
    };
    let ghost gd = dir;
    let r = settings_file(None, dir);
    proof {
        if let Some(d) = gd {
            assert(r.unwrap()@ == joined_path(d@, "monkd.yaml"@));
        }
    }
    r
}

} // verus!
