//! Per-user settings.

use vstd::prelude::*;

verus! {

/// The settings a user keeps locally.
pub struct UserSettings {
    pub display_name: Option<String>,
    pub selected_theme: Option<String>,
    pub proxy_url: Option<String>,
}

impl UserSettings {
    /// No setting made.
    pub fn empty() -> (r: UserSettings)
        ensures
            r.display_name is None,
            r.selected_theme is None,
            r.proxy_url is None,
    {
        UserSettings { display_name: None, selected_theme: None, proxy_url: None }
    }
}

} // verus!
