//! Process configuration: where the game lives, where the cache lives, and
//! where the options document is persisted.
//!
//! Loading and saving the configuration file, and discovering the game's
//! install path, are jobs of the unverified shell; it overlays whatever it
//! loaded onto the defaults built here.

use vstd::prelude::*;

use crate::errors::Error;
use crate::text::str_eq;

verus! {

/// How the mod browser orders the registry snapshot.
#[derive(Clone, Copy, Debug, PartialEq, Eq, Structural)]
pub enum SortType {
    Alphabetically,
    ReleaseDate,
    UpdateDate,
}

impl SortType {
    /// The stable label under which this ordering is persisted.
    pub fn as_str(&self) -> (r: &'static str)
        ensures
            match self {
                SortType::Alphabetically => r@ == "Alphabetical"@,
                SortType::ReleaseDate => r@ == "Last Released"@,
                SortType::UpdateDate => r@ == "Last Updated"@,
            },
    {
        match self {
            SortType::Alphabetically => "Alphabetical",
            SortType::ReleaseDate => "Last Released",
            SortType::UpdateDate => "Last Updated",
        }
    }

    /// Reads a persisted ordering label back; any other text is malformed
    /// configuration.
    pub fn parse(value: &str) -> (r: Result<SortType, Error>)
        ensures
            value@ == "Alphabetical"@ ==> r == Ok::<SortType, Error>(SortType::Alphabetically),
            value@ == "Last Released"@ ==> r == Ok::<SortType, Error>(SortType::ReleaseDate),
            value@ == "Last Updated"@ ==> r == Ok::<SortType, Error>(SortType::UpdateDate),
            value@ != "Alphabetical"@ && value@ != "Last Released"@ && value@ != "Last Updated"@
                ==> r == Err::<SortType, Error>(Error::ConfigError),
    {
        proof {
            reveal_strlit("Alphabetical");
            reveal_strlit("Last Released");
            reveal_strlit("Last Updated");
            assert("Alphabetical"@.len() == 12);
            assert("Last Released"@.len() == 13);
            assert("Last Updated"@.len() == 12);
            assert("Alphabetical"@[0] == 'A');
            assert("Last Updated"@[0] == 'L');
        }
        if str_eq(value, "Alphabetical") {
            Ok(SortType::Alphabetically)
        } else if str_eq(value, "Last Released") {
            Ok(SortType::ReleaseDate)
        } else if str_eq(value, "Last Updated") {
            Ok(SortType::UpdateDate)
        } else {
            Err(Error::ConfigError)
        }
    }
}

/// Where everything lives on disk, as plain path strings.
#[derive(Debug)]
pub struct Config {
    /// The game's install directory, e.g. `.../steamapps/common/RUMBLE`.
    pub rumble_directory: String,
    /// The root of the mod cache.
    pub mod_cache_directory: String,
    /// The options document.
    pub config_file: String,
    pub should_auto_update: bool,
    pub thunderstore_browser_sort: SortType,
}

/// Mathematical image of a [`Config`].
#[verifier::ext_equal]
pub ghost struct ConfigView {
    pub rumble_directory: Seq<char>,
    pub mod_cache_directory: Seq<char>,
    pub config_file: Seq<char>,
    pub should_auto_update: bool,
    pub thunderstore_browser_sort: SortType,
}

impl View for Config {
    type V = ConfigView;

    open spec fn view(&self) -> ConfigView {
        ConfigView {
            rumble_directory: self.rumble_directory@,
            mod_cache_directory: self.mod_cache_directory@,
            config_file: self.config_file@,
            should_auto_update: self.should_auto_update,
            thunderstore_browser_sort: self.thunderstore_browser_sort,
        }
    }
}

impl Config {
    /// The game's install directory under a Steam root:
    /// `<steam>/steamapps/common/RUMBLE`. The shell discovers the Steam
    /// root itself.
    pub fn get_rumble_directory(steam_path: &str) -> (r: String)
        ensures
            r@ == crate::paths::spec_join(
                crate::paths::spec_join(
                    crate::paths::spec_join(steam_path@, "steamapps"@),
                    "common"@,
                ),
                "RUMBLE"@,
            ),
    {
        let with_apps = crate::paths::join(steam_path, "steamapps");
        let with_common = crate::paths::join(with_apps.as_str(), "common");
        crate::paths::join(with_common.as_str(), "RUMBLE")
    }

    /// The decision behind Steam discovery on Windows: the path read from
    /// the system registry counts only when it names an existing directory.
    /// The shell supplies both facts.
    pub fn find_steam_path_windows(install_path: Option<String>, is_directory: bool) -> (r:
        Option<String>)
        ensures
            match r {
                Some(p) => install_path matches Some(q) && p@ == q@ && is_directory,
                None => install_path is None || !is_directory,
            },
    {
        match install_path {
            Some(p) => if is_directory {
                Some(p)
            } else {
                None
            },
            None => None,
        }
    }

    /// The Steam locations probed on Linux, in probe order: the well-known
    /// directories under the user's home, then the system-wide ones. The
    /// shell checks which of them exists.
    pub fn steam_path_candidates(home: &str) -> (r: Vec<String>)
        ensures
            r@.len() == 7,
            r@[0]@ == crate::paths::spec_join(home@, ".steam/steam"@),
            r@[1]@ == crate::paths::spec_join(home@, ".local/share/Steam"@),
            r@[2]@ == crate::paths::spec_join(home@, ".steam/debian-installation"@),
            r@[3]@ == crate::paths::spec_join(home@, ".steam/root"@),
            r@[4]@ == "/usr/lib/steam"@,
            r@[5]@ == "/usr/lib64/steam"@,
            r@[6]@ == "/usr/local/lib/steam"@,
    {
        let mut out: Vec<String> = Vec::new();
        out.push(crate::paths::join(home, ".steam/steam"));
        out.push(crate::paths::join(home, ".local/share/Steam"));
        out.push(crate::paths::join(home, ".steam/debian-installation"));
        out.push(crate::paths::join(home, ".steam/root"));
        out.push("/usr/lib/steam".to_owned());
        out.push("/usr/lib64/steam".to_owned());
        out.push("/usr/local/lib/steam".to_owned());
        out
    }

    /// The default configuration: game directory unknown, cache and options
    /// document under `config/`, automatic updates on. The shell replaces
    /// these with persisted values when a readable configuration file
    /// exists, and falls back to exactly these defaults otherwise.
    pub fn new() -> (r: Config)
        ensures
            r@.rumble_directory == Seq::<char>::empty(),
            r@.mod_cache_directory == "config/mod_cache"@,
            r@.config_file == "config/enabled_mods.json"@,
            r@.should_auto_update == true,
            r@.thunderstore_browser_sort == SortType::UpdateDate,
    {
        proof {
            reveal_strlit("");
        }
        Config {
            rumble_directory: String::new(),
            mod_cache_directory: "config/mod_cache".to_owned(),
            config_file: "config/enabled_mods.json".to_owned(),
            should_auto_update: true,
            thunderstore_browser_sort: SortType::UpdateDate,
        }
    }
}

} // verus!
