//! The settings that are kept between games.

use vstd::prelude::*;

verus! {

/// The settings.
#[derive(Debug)]
pub struct Config {
    pub locale: String,
}

impl Default for Config {
    fn default() -> (r: Config)
        ensures
            r.locale@ == "en-GB"@,
    {
        Config { locale: "en-GB".to_string() }
    }
}

} // verus!
