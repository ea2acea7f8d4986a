//! What an update check reports to the settings window.

use vstd::prelude::*;

verus! {

/// A newer signed build offered by the release manifest.
#[derive(Debug)]
pub struct AvailableUpdate {
    /// Version offered by the release manifest.
    pub version: String,
    /// Version currently running.
    pub current_version: String,
    /// Release notes from the manifest, if any.
    pub notes: Option<String>,
}

} // verus!
