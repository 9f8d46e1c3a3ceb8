//! The foreground-window inspector's portable fallback. Platform
//! inspectors live outside the library and hand their `WindowInfo` in;
//! this one stands in where no platform inspection is wired up.

use vstd::prelude::*;
use vstd::string::*;

use crate::models::WindowInfo;

verus! {

/// A context naming no particular application: the capture path treats
/// every event as coming from an application called `Unknown`, with no
/// window title.
pub fn get_active_window() -> (r: Option<WindowInfo>)
    ensures
        r matches Some(w) ==> w.app_name@ == "Unknown"@ && w.window_title is None,
        r is Some,
{
    Some(WindowInfo { app_name: String::from_str("Unknown"), window_title: None })
}

} // verus!
