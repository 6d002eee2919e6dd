//! The phases of the application.

use vstd::prelude::*;

verus! {

/// The phase that the application is in.
#[derive(Clone, Copy, Debug, PartialEq, Eq, Hash, Structural)]
pub enum AppState {
    /// The images are still loading.
    AssetsLoading,
    /// The scene is up and reacts to the pointer.
    Game,
}

impl Default for AppState {
    fn default() -> (state: AppState)
        ensures
            state == AppState::AssetsLoading,
    {
        AppState::AssetsLoading
    }
}

} // verus!
