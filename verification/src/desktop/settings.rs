//! Preferences of the desktop front end.

use vstd::prelude::*;

verus! {

#[derive(Debug, Clone)]
pub struct Settings {
    pub adb_path: Option<String>,
    pub buffer_capacity: usize,
}

impl Default for Settings {
    fn default() -> (r: Settings)
        ensures
            r.adb_path is None,
            r.buffer_capacity == 200_000,
    {
        Settings { adb_path: None, buffer_capacity: 200_000 }
    }
}

} // verus!
