//! The user's settings document: its shape, its defaults and where it lives.
use vstd::prelude::*;
use std::collections::HashMap;
use crate::injection::{join_path, joined_path};

verus! {

/// `serde_json::Value`, declared so that plugin configuration can hold JSON
/// values; the library only carries them.
#[verifier::external_type_specification]
#[verifier::external_body]
pub struct ExJsonValue(serde_json::Value);

/// File name of the settings document inside the profile directory.
pub const SETTINGS_FILE: &'static str = "uprooted-settings.json";

/// One plugin's switch and its free-form configuration.
pub struct PluginSettings {
    pub enabled: bool,
    pub config: HashMap<String, serde_json::Value>,
}

/// The settings document.
pub struct UprootedSettings {
    pub enabled: bool,
    pub plugins: HashMap<String, PluginSettings>,
    pub custom_css: String,
}

impl Default for UprootedSettings {
    /// Enabled, no plugin entries, no custom stylesheet.
    fn default() -> (r: Self)
        ensures
            r.enabled,
            r.plugins@ == Map::<String, PluginSettings>::empty(),
            r.custom_css@ == Seq::<char>::empty(),
    {
        UprootedSettings { enabled: true, plugins: HashMap::new(), custom_css: String::new() }
    }
}

/// Where the settings document lives.
pub fn settings_path(profile_dir: &str, windows: bool) -> (r: String)
    ensures
        r@ == joined_path(profile_dir@, SETTINGS_FILE@, windows),
{
    join_path(profile_dir, SETTINGS_FILE, windows)
}

/// The settings in force: those read and parsed from the document, or the
/// defaults when it was missing or malformed (`None`).
pub fn load_settings(parsed: Option<UprootedSettings>) -> (r: UprootedSettings)
    ensures
        match parsed {
            Some(s) => r == s,
            None => r.enabled && r.plugins@ == Map::<String, PluginSettings>::empty()
                && r.custom_css@ == Seq::<char>::empty(),
        },
{
    match parsed {
        Some(s) => s,
        None => UprootedSettings::default(),
    }
}

} // verus!
