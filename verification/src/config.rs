//! Where settings are kept, and what they may be.
use vstd::prelude::*;

use crate::error;
use crate::error::Error;
use crate::path;
use crate::profile::validation;
use crate::profile::validation::validate_profile_name;

verus! {

/// The longest settings file, in bytes.
pub const MAX_CONFIG_BYTES: u64 = 1_048_576;

/// The longest time to wait for monitors to settle, in milliseconds.
pub const MAX_DEBOUNCE: u64 = 60_000;

/// The longest step by which an output is moved.
pub const MAX_MOVE_STEP: i32 = 10_000;

/// The files of one settings directory.
#[derive(Debug, PartialEq, Eq)]
pub struct ConfigPaths {
    pub config_dir: String,
    pub config_file: String,
    pub profile_store: String,
}

/// What a [`ConfigPaths`] holds.
#[verifier::ext_equal]
pub struct PathsView {
    pub config_dir: Seq<char>,
    pub config_file: Seq<char>,
    pub profile_store: Seq<char>,
}

impl View for ConfigPaths {
    type V = PathsView;

    open spec fn view(&self) -> PathsView {
        PathsView {
            config_dir: self.config_dir@,
            config_file: self.config_file@,
            profile_store: self.profile_store@,
        }
    }
}

impl Clone for ConfigPaths {
    fn clone(&self) -> (result: Self)
        ensures
            result@ == self@,
    {
        ConfigPaths {
            config_dir: self.config_dir.clone(),
            config_file: self.config_file.clone(),
            profile_store: self.profile_store.clone(),
        }
    }
}

/// The files of the directory `config_dir`.
pub open spec fn paths_in(config_dir: Seq<char>) -> PathsView {
    PathsView {
        config_dir,
        config_file: path::below(config_dir, "config.toml"@),
        profile_store: path::below(config_dir, "profiles.toml"@),
    }
}

impl ConfigPaths {
    /// The files of the directory `config_dir`.
    pub fn from_config_dir(config_dir: &str) -> (result: Result<Self, Error>)
        ensures
            error::refused_as(
                result,
                if config_dir@.len() == 0 {
                    Some("HYPRDISJUST_CONFIG_DIR must not be empty"@)
                } else {
                    None
                },
            ),
            result matches Ok(paths) ==> paths@ == paths_in(config_dir@),
    {
        if config_dir.unicode_len() == 0 {
            return Err(Error::new("HYPRDISJUST_CONFIG_DIR must not be empty".to_owned()));
        }
        Ok(
            ConfigPaths {
                config_dir: config_dir.to_owned(),
                config_file: path::join(config_dir, "config.toml"),
                profile_store: path::join(config_dir, "profiles.toml"),
            },
        )
    }

    /// The files of the directory that was `chosen`, else of one below the
    /// directory for settings.
    pub fn resolve(chosen: Option<String>, settings_dir: Option<String>) -> (result: Result<
        Self,
        Error,
    >)
        ensures
            match (chosen, settings_dir) {
                (Some(dir), _) => {
                    &&& result is Err <==> dir@.len() == 0
                    &&& result matches Ok(paths) ==> paths@ == paths_in(dir@)
                    &&& result matches Err(error) ==> error@
                        == "HYPRDISJUST_CONFIG_DIR must not be empty"@
                },
                (None, Some(dir)) => result matches Ok(paths) && paths@ == paths_in(
                    path::below(dir@, "hyprdisjust"@),
                ),
                (None, None) => error::refused_as(
                    result,
                    Some("could not determine the user config directory"@),
                ),
            },
            error::plainly(result),
    {
        match chosen {
            Some(dir) => ConfigPaths::from_config_dir(dir.as_str()),
            None => match settings_dir {
                Some(dir) => {
                    proof {
                        reveal_strlit("hyprdisjust");
                    }
                    ConfigPaths::from_config_dir(path::join(dir.as_str(), "hyprdisjust").as_str())
                },
                None => Err(
                    Error::new("could not determine the user config directory".to_owned()),
                ),
            },
        }
    }

    /// The lock of the saved profiles.
    pub fn profile_lock_path(&self) -> (result: String)
        ensures
            result@ == path::below(self@.config_dir, "profiles.lock"@),
    {
        path::join(self.config_dir.as_str(), "profiles.lock")
    }

    /// The file with the saved profiles.
    pub fn profile_store_path(&self) -> (result: &str)
        ensures
            result@ == self@.profile_store,
    {
        self.profile_store.as_str()
    }

    /// The file with the settings.
    pub fn config_file_path(&self) -> (result: &str)
        ensures
            result@ == self@.config_file,
    {
        self.config_file.as_str()
    }

    /// The directory of generated files.
    pub fn generated_dir_path(&self) -> (result: String)
        ensures
            result@ == path::below(self@.config_dir, "generated"@),
    {
        path::join(self.config_dir.as_str(), "generated")
    }

    /// The generated monitor configuration.
    pub fn generated_monitors_lua_path(&self) -> (result: String)
        ensures
            result@ == path::below(path::below(self@.config_dir, "generated"@), "monitors.lua"@),
    {
        path::join(self.generated_dir_path().as_str(), "monitors.lua")
    }
}

/// The settings.
#[derive(Debug, PartialEq, Eq)]
pub struct AppConfig {
    pub fallback_profile: Option<String>,
    pub debounce_ms: u64,
    pub apply_on_start: bool,
    pub tui_move_step: i32,
}

/// What an [`AppConfig`] holds.
#[verifier::ext_equal]
pub struct ConfigView {
    pub fallback_profile: Option<Seq<char>>,
    pub debounce_ms: u64,
    pub apply_on_start: bool,
    pub tui_move_step: i32,
}

impl View for AppConfig {
    type V = ConfigView;

    open spec fn view(&self) -> ConfigView {
        ConfigView {
            fallback_profile: match self.fallback_profile {
                Some(name) => Some(name@),
                None => None,
            },
            debounce_ms: self.debounce_ms,
            apply_on_start: self.apply_on_start,
            tui_move_step: self.tui_move_step,
        }
    }
}

impl Default for AppConfig {
    /// The settings where none are given.
    fn default() -> (result: Self)
        ensures
            result@ == (ConfigView {
                fallback_profile: None,
                debounce_ms: 900,
                apply_on_start: false,
                tui_move_step: 20,
            }),
    {
        AppConfig {
            fallback_profile: None,
            debounce_ms: 900,
            apply_on_start: false,
            tui_move_step: 20,
        }
    }
}

/// Why settings are refused.
pub open spec fn config_error(config: ConfigView) -> Option<Seq<char>> {
    if !(1 <= config.tui_move_step <= MAX_MOVE_STEP) {
        Some("tui_move_step must be between 1 and 10000"@)
    } else if config.debounce_ms > MAX_DEBOUNCE {
        Some("debounce_ms must be between 0 and 60000 (zero disables debounce)"@)
    } else {
        match config.fallback_profile {
            None => None,
            Some(name) => match validation::name_error(name) {
                None => None,
                Some(reason) => Some(error::within("invalid fallback_profile"@, reason)),
            },
        }
    }
}

/// The broadest part of why settings are refused.
pub open spec fn config_head(config: ConfigView) -> Seq<char> {
    if 1 <= config.tui_move_step <= MAX_MOVE_STEP && config.debounce_ms <= MAX_DEBOUNCE {
        "invalid fallback_profile"@
    } else {
        config_error(config)->0
    }
}

impl AppConfig {
    /// Settings that were read, if they may be.
    pub fn validated(self) -> (result: Result<Self, Error>)
        ensures
            error::refused_under(result, config_head(self@), config_error(self@)),
            result matches Ok(config) ==> config@ == self@,
    {
        if !(1 <= self.tui_move_step && self.tui_move_step <= MAX_MOVE_STEP) {
            return Err(Error::new("tui_move_step must be between 1 and 10000".to_owned()));
        }
        if self.debounce_ms > MAX_DEBOUNCE {
            return Err(
                Error::new(
                    "debounce_ms must be between 0 and 60000 (zero disables debounce)".to_owned(),
                ),
            );
        }
        match &self.fallback_profile {
            None => {},
            Some(name) => match validate_profile_name(name.as_str()) {
                Ok(_) => {},
                Err(error) => {
                    return Err(error.context("invalid fallback_profile"));
                },
            },
        }
        Ok(self)
    }
}

} // verus!
