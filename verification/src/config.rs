//! The settings of the display item, and how they are filled in.
#[allow(unused_imports)]
use crate::text::{text_of, texts};
use vstd::prelude::*;

verus! {

/// Free lookup services are asked at most once in this many seconds.
pub const MIN_REFRESH_SECS: u64 = 300;

/// The settings as the contracts speak of them.
pub struct Settings {
    pub proxy_override: Seq<char>,
    pub refresh_secs: u64,
    pub probe_url: Seq<char>,
}

/// The settings.
#[derive(Debug, Clone)]
pub struct Config {
    /// A proxy address set by hand; blank to go by the system.
    pub proxy_override: String,
    /// The refresh interval in seconds.
    pub refresh_secs: u64,
    /// A lookup service to ask first; blank to ask the built-in ones alone.
    pub probe_url: String,
}

impl View for Config {
    type V = Settings;

    open spec fn view(&self) -> Settings {
        Settings {
            proxy_override: self.proxy_override@,
            refresh_secs: self.refresh_secs,
            probe_url: self.probe_url@,
        }
    }
}

/// The settings that a configuration file gives, as the contracts speak of them.
pub struct StoredSettings {
    pub proxy_override: Option<Seq<char>>,
    pub refresh_secs: Option<u64>,
    pub probe_url: Option<Seq<char>>,
}

/// The settings that a configuration file gives. A file may leave out any of them.
#[derive(Debug, Clone)]
pub struct StoredConfig {
    pub proxy_override: Option<String>,
    pub refresh_secs: Option<u64>,
    pub probe_url: Option<String>,
}

impl View for StoredConfig {
    type V = StoredSettings;

    open spec fn view(&self) -> StoredSettings {
        StoredSettings {
            proxy_override: text_of(self.proxy_override),
            refresh_secs: self.refresh_secs,
            probe_url: text_of(self.probe_url),
        }
    }
}

/// No override, the shortest interval, the built-in services.
pub open spec fn default_settings() -> Settings {
    Settings {
        proxy_override: Seq::empty(),
        refresh_secs: MIN_REFRESH_SECS,
        probe_url: Seq::empty(),
    }
}

/// The settings of a file, with the defaults for what it leaves out.
pub open spec fn filled_in(stored: StoredSettings) -> Settings {
    Settings {
        proxy_override: match stored.proxy_override {
            Some(text) => text,
            None => default_settings().proxy_override,
        },
        refresh_secs: match stored.refresh_secs {
            Some(secs) => secs,
            None => default_settings().refresh_secs,
        },
        probe_url: match stored.probe_url {
            Some(text) => text,
            None => default_settings().probe_url,
        },
    }
}

/// The settings in force: those of the file, or the defaults where there is no file.
pub open spec fn in_force(stored: Option<StoredSettings>) -> Settings {
    match stored {
        Some(stored) => filled_in(stored),
        None => default_settings(),
    }
}

/// The parts of the path of the configuration file.
pub open spec fn path_parts(appdata: Option<Seq<char>>) -> Seq<Seq<char>> {
    seq![
        match appdata {
            Some(folder) => folder,
            None => "."@,
        },
        "ipDetect"@,
        "config.toml"@,
    ]
}

/// What is written to a file: every setting.
pub open spec fn written(settings: Settings) -> StoredSettings {
    StoredSettings {
        proxy_override: Some(settings.proxy_override),
        refresh_secs: Some(settings.refresh_secs),
        probe_url: Some(settings.probe_url),
    }
}

/// The refresh interval in force.
pub open spec fn effective_secs(configured_secs: u64) -> u64 {
    if configured_secs < MIN_REFRESH_SECS {
        MIN_REFRESH_SECS
    } else {
        configured_secs
    }
}

/// The refresh interval in force: the configured one, but never under `MIN_REFRESH_SECS`.
#[allow(non_snake_case)]
pub fn effectiveRefreshSecs(configured_secs: u64) -> (secs: u64)
    ensures
        secs == effective_secs(configured_secs),
{
    if configured_secs < MIN_REFRESH_SECS {
        MIN_REFRESH_SECS
    } else {
        configured_secs
    }
}

impl Default for Config {
    fn default() -> (config: Config)
        ensures
            config@ == default_settings(),
    {
        Config {
            proxy_override: String::new(),
            refresh_secs: MIN_REFRESH_SECS,
            probe_url: String::new(),
        }
    }
}

impl Config {
    /// The parts of the path of the configuration file, outermost first. `appdata` is the folder
    /// for application data; without one the path starts at the current folder.
    pub fn config_path(appdata: Option<String>) -> (parts: Vec<String>)
        ensures
            texts(parts@) == seq![
                match appdata {
                    Some(folder) => folder@,
                    None => "."@,
                },
                "ipDetect"@,
                "config.toml"@,
            ],
            texts(parts@) == path_parts(text_of(appdata)),
    {
        let base = match appdata {
            Some(folder) => folder,
            None => ".".to_owned(),
        };
        let mut parts: Vec<String> = Vec::new();
        parts.push(base);
        parts.push("ipDetect".to_owned());
        parts.push("config.toml".to_owned());
        parts
    }

    /// The settings in force. `stored` is what the configuration file gives; without a file, or
    /// with one that cannot be read, there is none.
    pub fn load(stored: Option<StoredConfig>) -> (config: Config)
        ensures
            config@ == (match stored {
                Some(stored) => filled_in(stored@),
                None => default_settings(),
            }),
            config@ == in_force(
                match stored {
                    Some(stored) => Some(stored@),
                    None => None,
                },
            ),
            stored matches Some(stored) ==> {
                &&& stored.proxy_override matches Some(text) ==> config.proxy_override@ == text@
                &&& stored.refresh_secs matches Some(secs) ==> config.refresh_secs == secs
                &&& stored.probe_url matches Some(text) ==> config.probe_url@ == text@
            },
    {
        let default = Config::default();
        match stored {
            Some(stored) => Config {
                proxy_override: match stored.proxy_override {
                    Some(text) => text,
                    None => default.proxy_override,
                },
                refresh_secs: match stored.refresh_secs {
                    Some(secs) => secs,
                    None => default.refresh_secs,
                },
                probe_url: match stored.probe_url {
                    Some(text) => text,
                    None => default.probe_url,
                },
            },
            None => default,
        }
    }

    /// What is to be written to the configuration file.
    pub fn save(&self) -> (stored: StoredConfig)
        ensures
            stored@ == written(self@),
    {
        StoredConfig {
            proxy_override: Some(self.proxy_override.clone()),
            refresh_secs: Some(self.refresh_secs),
            probe_url: Some(self.probe_url.clone()),
        }
    }
}

/// The interval in force is never under the minimum of five minutes, a shorter one becomes the
/// minimum, a longer one stays as it is, and to apply the rule twice is to apply it once.
pub proof fn refresh_interval_has_a_minimum(configured_secs: u64)
    ensures
        effective_secs(configured_secs) >= MIN_REFRESH_SECS,
        configured_secs >= MIN_REFRESH_SECS ==> effective_secs(configured_secs) == configured_secs,
        configured_secs < 300 ==> effective_secs(configured_secs) == 300,
        configured_secs >= 300 ==> effective_secs(configured_secs) == configured_secs,
        effective_secs(effective_secs(configured_secs)) == effective_secs(configured_secs),
{
}

/// A longer configured interval never makes a shorter interval in force.
pub proof fn longer_intervals_stay_longer(shorter: u64, longer: u64)
    requires
        shorter <= longer,
    ensures
        effective_secs(shorter) <= effective_secs(longer),
{
}

/// What is written to a file is what is read back from it.
pub proof fn saved_settings_load_again(settings: Settings)
    ensures
        filled_in(written(settings)) == settings,
        in_force(Some(written(settings))) == settings,
        written(settings).proxy_override == Some(settings.proxy_override),
        written(settings).refresh_secs == Some(settings.refresh_secs),
        written(settings).probe_url == Some(settings.probe_url),
{
}

/// A setting that the file gives is in force, whatever else the file gives or leaves out.
pub proof fn given_settings_are_in_force(
    stored: StoredSettings,
    proxy_override: Seq<char>,
    refresh_secs: u64,
    probe_url: Seq<char>,
)
    ensures
        in_force(
            Some(StoredSettings { proxy_override: Some(proxy_override), ..stored }),
        ).proxy_override == proxy_override,
        in_force(
            Some(StoredSettings { refresh_secs: Some(refresh_secs), ..stored }),
        ).refresh_secs == refresh_secs,
        in_force(Some(StoredSettings { probe_url: Some(probe_url), ..stored })).probe_url
            == probe_url,
{
}

/// A setting that the file leaves out has its default, whatever else the file gives: no override,
/// five minutes, no preferred service. Without a file all of them have.
pub proof fn missing_settings_have_their_defaults(stored: StoredSettings)
    ensures
        in_force(Some(StoredSettings { proxy_override: None, ..stored })).proxy_override.len() == 0,
        in_force(Some(StoredSettings { refresh_secs: None, ..stored })).refresh_secs == 300,
        in_force(Some(StoredSettings { probe_url: None, ..stored })).probe_url.len() == 0,
        in_force(None).proxy_override.len() == 0,
        in_force(None).refresh_secs == 300,
        in_force(None).probe_url.len() == 0,
{
}

/// Each setting in force depends on what the file says of that setting alone: two files that agree
/// on it, differ as they may elsewhere, have it in common.
pub proof fn settings_are_independent(a: StoredSettings, b: StoredSettings)
    ensures
        a.proxy_override == b.proxy_override ==> in_force(Some(a)).proxy_override == in_force(
            Some(b),
        ).proxy_override,
        a.refresh_secs == b.refresh_secs ==> in_force(Some(a)).refresh_secs == in_force(
            Some(b),
        ).refresh_secs,
        a.probe_url == b.probe_url ==> in_force(Some(a)).probe_url == in_force(Some(b)).probe_url,
{
}

/// The configuration file is `ipDetect/config.toml` in the folder for application data, whichever
/// that is, and in the current folder where there is none.
pub proof fn configuration_file_lies_in_its_folder(folder: Seq<char>)
    ensures
        path_parts(Some(folder)).len() == 3,
        path_parts(Some(folder))[0] == folder,
        path_parts(None)[0] == "."@,
        path_parts(Some(folder)).skip(1) == seq!["ipDetect"@, "config.toml"@],
        path_parts(None).skip(1) == path_parts(Some(folder)).skip(1),
{
}

/// Contracts speak of settings field by field.
pub proof fn settings_stand_for_their_fields(config: Config, stored: StoredConfig)
    ensures
        config@.proxy_override == config.proxy_override@,
        config@.refresh_secs == config.refresh_secs,
        config@.probe_url == config.probe_url@,
        stored@.proxy_override == text_of(stored.proxy_override),
        stored@.refresh_secs == stored.refresh_secs,
        stored@.probe_url == text_of(stored.probe_url),
{
}

} // verus!
