//! The settings a run needs, and their validation.

use vstd::prelude::*;

verus! {

/// The two addresses a run works with.
pub struct Config {
    pub api_remote: String,
    pub website_remote: String,
}

/// Why a configuration cannot be used.
#[derive(Clone, Copy, Debug, PartialEq, Eq, Structural)]
pub enum ConfigError {
    /// Neither address is set.
    BothMissing,
    /// The ingestion address is not set.
    ApiMissing,
    /// The website address is not set.
    WebsiteMissing,
}

impl Config {
    /// Accepts a configuration whose two addresses are both non-empty and
    /// names what is missing otherwise.
    pub fn check(&self) -> (r: Result<(), ConfigError>)
        ensures
            r == (if self.api_remote@.len() == 0 && self.website_remote@.len() == 0 {
                Err(ConfigError::BothMissing)
            } else if self.api_remote@.len() == 0 {
                Err(ConfigError::ApiMissing)
            } else if self.website_remote@.len() == 0 {
                Err(ConfigError::WebsiteMissing)
            } else {
                Ok(())
            }),
    {
        let api_empty = self.api_remote.as_str().is_empty();
        let website_empty = self.website_remote.as_str().is_empty();
        if api_empty && website_empty {
            Err(ConfigError::BothMissing)
        } else if api_empty {
            Err(ConfigError::ApiMissing)
        } else if website_empty {
            Err(ConfigError::WebsiteMissing)
        } else {
            Ok(())
        }
    }
}

} // verus!
