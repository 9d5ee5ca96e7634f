//! Selection of a flake path and hostname.
//!
//! The caller's selection dialog fills this in; the pair of a flake
//! location and a hostname identifies which configuration instance's
//! config to evaluate.

use vstd::prelude::*;

verus! {

/// The state of the selection dialog.
#[derive(Debug)]
pub struct SelectData {
    pub flake_location: String,
    pub hostname: Option<String>,
}

impl SelectData {
    /// The selected pair, exactly when a hostname was chosen.
    pub fn extract_results(self) -> (r: Option<(String, String)>)
        ensures
            match r {
                Some(p) => self.hostname matches Some(h) && p.0 == self.flake_location && p.1
                    == h,
                None => self.hostname is None,
            },
    {
        match self.hostname {
            Some(n) => Some((self.flake_location, n)),
            None => None,
        }
    }
}

} // verus!
