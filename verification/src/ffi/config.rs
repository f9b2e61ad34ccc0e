//! The settings, one key at a time.

use vstd::prelude::*;

use crate::config::Config;

verus! {

/// The settings behind a handle.
#[derive(Debug)]
pub struct ConfigHandle {
    config: Config,
}

/// The keys of the settings whose values are strings.
#[derive(Clone, Copy, Debug, PartialEq, Eq, Structural)]
pub enum ConfigStringKey {
    Locale,
}

impl ConfigHandle {
    /// The value that the settings hold for a key.
    pub closed spec fn value_of(&self, key: ConfigStringKey) -> Seq<char> {
        match key {
            ConfigStringKey::Locale => self.config.locale@,
        }
    }

    /// A handle to the given settings.
    pub fn new(config: Config) -> (r: ConfigHandle)
        ensures
            r.value_of(ConfigStringKey::Locale) == config.locale@,
    {
        ConfigHandle { config }
    }

    /// Creates a config handle from the defaults
    pub fn default() -> (r: ConfigHandle)
        ensures
            r.value_of(ConfigStringKey::Locale) == "en-GB"@,
    {
        ConfigHandle { config: Config::default() }
    }

    /// Gets the value of a key
    pub fn key(&self, for_key: ConfigStringKey) -> (r: String)
        ensures
            r@ == self.value_of(for_key),
    {
        match for_key {
            ConfigStringKey::Locale => self.config.locale.clone(),
        }
    }

    /// Sets the value of a key
    pub fn set(&mut self, for_key: ConfigStringKey, value: String)
        ensures
            final(self).value_of(for_key) == value@,
    {
        match for_key {
            ConfigStringKey::Locale => {
                self.config.locale = value;
            },
        }
    }

    /// The settings behind the handle.
    pub fn config(&self) -> (r: &Config)
        ensures
            r.locale@ == self.value_of(ConfigStringKey::Locale),
    {
        &self.config
    }
}

} // verus!
