//! Persisted user configuration and favorites. The pipeline itself only
//! reads the source directory, target directory and overwrite flag out of
//! these; loading and saving them (JSON on disk under the platform's
//! configuration directory) happens in the embedding application.

use vstd::prelude::*;

verus! {

/// Settings remembered per transfer mode.
#[derive(Debug, Clone)]
pub struct ModeConfig {
    pub source_dir: String,
    pub target_dir: String,
    pub overwrite_duplicates: bool,
}

impl Default for ModeConfig {
    /// Empty paths, overwrite off.
    fn default() -> (r: ModeConfig)
        ensures
            r.source_dir@ == Seq::<char>::empty(),
            r.target_dir@ == Seq::<char>::empty(),
            !r.overwrite_duplicates,
    {
        ModeConfig { source_dir: String::new(), target_dir: String::new(), overwrite_duplicates: false }
    }
}

/// A remembered drone source volume.
#[derive(Debug, Clone)]
pub struct DjiSourceFavorite {
    pub path: String,
    pub device_type: String,
}

impl Default for DjiSourceFavorite {
    /// Empty path and device type.
    fn default() -> (r: DjiSourceFavorite)
        ensures
            r.path@ == Seq::<char>::empty(),
            r.device_type@ == Seq::<char>::empty(),
    {
        DjiSourceFavorite { path: String::new(), device_type: String::new() }
    }
}

/// Remembered source and target locations, per mode.
#[derive(Debug, Clone)]
pub struct Favorites {
    pub sd_sources: Vec<String>,
    pub sd_targets: Vec<String>,
    pub dji_sources: Vec<DjiSourceFavorite>,
    pub dji_targets: Vec<String>,
}

impl Default for Favorites {
    /// No remembered locations.
    fn default() -> (r: Favorites)
        ensures
            r.sd_sources@.len() == 0,
            r.sd_targets@.len() == 0,
            r.dji_sources@.len() == 0,
            r.dji_targets@.len() == 0,
    {
        Favorites {
            sd_sources: Vec::new(),
            sd_targets: Vec::new(),
            dji_sources: Vec::new(),
            dji_targets: Vec::new(),
        }
    }
}

/// Everything the application persists between sessions.
#[derive(Debug, Clone)]
pub struct Config {
    pub sd: ModeConfig,
    pub dji: ModeConfig,
    pub favorites: Favorites,
}

impl Default for Config {
    /// Both modes empty, no favorites.
    fn default() -> (r: Config)
        ensures
            r.sd.source_dir@ == Seq::<char>::empty(),
            r.sd.target_dir@ == Seq::<char>::empty(),
            !r.sd.overwrite_duplicates,
            r.dji.source_dir@ == Seq::<char>::empty(),
            r.dji.target_dir@ == Seq::<char>::empty(),
            !r.dji.overwrite_duplicates,
            r.favorites.sd_sources@.len() == 0,
            r.favorites.sd_targets@.len() == 0,
            r.favorites.dji_sources@.len() == 0,
            r.favorites.dji_targets@.len() == 0,
    {
        Config {
            sd: ModeConfig::default(),
            dji: ModeConfig::default(),
            favorites: Favorites::default(),
        }
    }
}

/// Knows where the configuration file lives. The location itself comes
/// from the caller (the platform's configuration directory); reading and
/// writing the file is the caller's work too.
pub struct ConfigManager {
    config_path: String,
}

impl ConfigManager {
    /// The configuration file's location.
    pub closed spec fn path_chars(&self) -> Seq<char> {
        self.config_path@
    }

    /// A manager for the configuration file at `config_path`.
    pub fn new(config_path: String) -> (m: ConfigManager)
        ensures
            m.path_chars() == config_path@,
    {
        ConfigManager { config_path }
    }

    /// Where the configuration is loaded from and saved to.
    pub fn config_path(&self) -> (r: &String)
        ensures
            r@ == self.path_chars(),
    {
        &self.config_path
    }
}

} // verus!
