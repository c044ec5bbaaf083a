//! The persistence port for app-wide convenience state, and the one
//! decision about the shell a new terminal runs.

use vstd::prelude::*;

verus! {

/// The persistence port for app-wide convenience state.
///
/// Setters are infallible from the caller's view: this cache of convenience
/// state may be lost without breaking the app, so a store that cannot write
/// reports nothing.
pub trait Store {
    /// Reads one app-wide preference, or `None` when it is unavailable.
    fn app_pref(&self, key: &str) -> Option<String>;

    /// Stores one app-wide preference without surfacing persistence
    /// failures.
    fn set_app_pref(&mut self, key: &str, value: &str);
}

/// The shell to run given what the environment says: its value when that is
/// an absolute path, otherwise `fallback`, the platform's own default.
///
/// A relative value cannot be trusted from an app's environment, which has
/// no login shell's search path.
pub fn shell_from_env(value: Option<String>, fallback: &str) -> (r: String)
    ensures
        r@ == match value {
            Some(v) => if v@.len() > 0 && v@[0] == '/' {
                v@
            } else {
                fallback@
            },
            None => fallback@,
        },
{
    match value {
        Some(v) => {
            let absolute = {
                let first = crate::text::chars_of(v.as_str());
                first.len() > 0 && first[0] == '/'
            };
            if absolute {
                v
            } else {
                fallback.to_owned()
            }
        },
        None => fallback.to_owned(),
    }
}

} // verus!
