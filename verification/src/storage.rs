//! Storage layout: the snapshot keys the pipeline persists under, and the
//! path computation of the file-backed store.  The file I/O itself lives
//! outside the core.

use vstd::prelude::*;

verus! {

/// The directory and file keys of the persisted snapshots.
pub struct StorageKeys;

impl StorageKeys {
    pub fn sources_dir() -> (s: &'static str)
        ensures
            s@ == "sources"@,
    {
        "sources"
    }

    pub fn steam_apps_dir() -> (s: &'static str)
        ensures
            s@ == "steam_apps"@,
    {
        "steam_apps"
    }

    pub fn enhancements_dir() -> (s: &'static str)
        ensures
            s@ == "enhancements"@,
    {
        "enhancements"
    }

    pub fn steam_apps_index() -> (s: &'static str)
        ensures
            s@ == "index_apps"@,
    {
        "index_apps"
    }

    pub fn merged_games() -> (s: &'static str)
        ensures
            s@ == "merged_games"@,
    {
        "merged_games"
    }

    pub fn merged_games_with_steam_id() -> (s: &'static str)
        ensures
            s@ == "merged_with_steam_id"@,
    {
        "merged_with_steam_id"
    }

    pub fn enriched_games() -> (s: &'static str)
        ensures
            s@ == "enriched_games"@,
    {
        "enriched_games"
    }

    pub fn manifest() -> (s: &'static str)
        ensures
            s@ == "manifest"@,
    {
        "manifest"
    }
}

/// The path a stage snapshot is stored under: a data or cache base
/// directory, an optional subdirectory, and the key with a `.json` suffix.
pub struct FileSystemStore {
    pub data_dir: String,
    pub cache_dir: String,
}

impl FileSystemStore {
    pub fn new(data_dir: String, cache_dir: String) -> (s: FileSystemStore)
        ensures
            s.data_dir == data_dir,
            s.cache_dir == cache_dir,
    {
        FileSystemStore { data_dir, cache_dir }
    }

    /// The full path for a snapshot key.
    pub fn get_path_for_key(&self, key: &str, subdir: Option<&str>, use_data_dir: bool) -> (r:
        String)
        ensures
            r@ == (if use_data_dir {
                self.data_dir@
            } else {
                self.cache_dir@
            }) + "/"@ + (match subdir {
                Some(d) => d@ + "/"@,
                None => Seq::<char>::empty(),
            }) + key@ + ".json"@,
    {
        let mut out = if use_data_dir {
            self.data_dir.clone()
        } else {
            self.cache_dir.clone()
        };
        out.append("/");
        match subdir {
            Some(d) => {
                out.append(d);
                out.append("/");
            },
            None => {},
        }
        out.append(key);
        out.append(".json");
        proof {
            assert(out@ =~= (if use_data_dir {
                self.data_dir@
            } else {
                self.cache_dir@
            }) + "/"@ + (match subdir {
                Some(d) => d@ + "/"@,
                None => Seq::<char>::empty(),
            }) + key@ + ".json"@);
        }
        out
    }
}

} // verus!
