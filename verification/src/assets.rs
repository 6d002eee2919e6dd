//! Images as the scene refers to them, and the wait for their data.

use vstd::prelude::*;
use crate::config::AppState;

verus! {

/// The side, in pixels, assumed for an image whose data has not arrived yet.
pub const DEFAULT_IMAGE_SIDE: u32 = 64;

/// Names one image: its index in the table of images.
#[derive(Clone, Copy, Debug, PartialEq, Eq, Hash, Structural)]
pub struct ImageHandle(pub usize);

/// An image together with its size in pixels.
#[derive(Clone, Copy, Debug, PartialEq, Eq, Hash, Structural)]
pub struct ImageAsset {
    pub handle: ImageHandle,
    pub width: u32,
    pub height: u32,
}

/// The table of images: for each handle, the width and height of the image
/// once its data is there.
#[derive(Clone, Debug)]
pub struct Images {
    pub sizes: Vec<Option<(u32, u32)>>,
}

/// How far the loading of an image has come.
#[derive(Clone, Copy, Debug, PartialEq, Eq, Structural)]
pub enum LoadState {
    NotLoaded,
    Loading,
    Loaded,
    Failed,
}

/// The images that the scene is made of.
#[derive(Clone, Copy, Debug, PartialEq, Eq, Structural)]
pub struct Retro2dAssets {
    pub cows_and_basket: ImageHandle,
    pub hoodie: ImageHandle,
    pub hoodie_glow: ImageHandle,
    pub hoodie_selected: ImageHandle,
    pub transparent_rope: ImageHandle,
}

/// The size to go by for an image whose size, if known, is `known`.
pub open spec fn size_or_default(known: Option<(u32, u32)>) -> (u32, u32) {
    match known {
        Some(size) => size,
        None => (DEFAULT_IMAGE_SIDE, DEFAULT_IMAGE_SIDE),
    }
}

impl Images {
    /// The size of the image that `handle` names, if the table knows it.
    pub open spec fn size_of(self, handle: ImageHandle) -> Option<(u32, u32)> {
        if handle.0 < self.sizes@.len() {
            self.sizes@[handle.0 as int]
        } else {
            None
        }
    }

    /// Looks up the size of the image that `handle` names.
    pub fn get(&self, handle: ImageHandle) -> (size: Option<(u32, u32)>)
        ensures
            size == self.size_of(handle),
    {
        if handle.0 < self.sizes.len() {
            self.sizes[handle.0]
        } else {
            None
        }
    }
}

impl ImageAsset {
    /// The image that `handle` names, with its size as `assets` knows it, or
    /// with the default size while its data is missing.
    pub fn new(handle: ImageHandle, assets: &Images) -> (asset: ImageAsset)
        ensures
            asset.handle == handle,
            (asset.width, asset.height) == size_or_default(assets.size_of(handle)),
    {
        match assets.get(handle) {
            Some((width, height)) => ImageAsset { handle, width, height },
            None => ImageAsset { handle, width: DEFAULT_IMAGE_SIDE, height: DEFAULT_IMAGE_SIDE },
        }
    }
}

impl Retro2dAssets {
    /// The handles in the order in which their loading is checked.
    pub open spec fn handles(self) -> Seq<ImageHandle> {
        seq![
            self.cows_and_basket,
            self.hoodie_glow,
            self.hoodie,
            self.hoodie_selected,
            self.transparent_rope,
        ]
    }

    /// The handles in the order in which their loading is checked.
    pub fn iter(&self) -> (handles: Vec<ImageHandle>)
        ensures
            handles@ == self.handles(),
    {
        let mut handles: Vec<ImageHandle> = Vec::new();
        handles.push(self.cows_and_basket);
        handles.push(self.hoodie_glow);
        handles.push(self.hoodie);
        handles.push(self.hoodie_selected);
        handles.push(self.transparent_rope);
        assert(handles@ =~= self.handles());
        handles
    }

    /// The width and height of the image that `handle` names, or the default
    /// size while its data is missing.
    pub fn get_dimensions(&self, handle: ImageHandle, assets: &Images) -> (size: (u32, u32))
        ensures
            size == size_or_default(assets.size_of(handle)),
    {
        match assets.get(handle) {
            Some(size) => size,
            None => (DEFAULT_IMAGE_SIDE, DEFAULT_IMAGE_SIDE),
        }
    }
}

/// Whether every image is loaded.
pub open spec fn all_loaded(states: Seq<Option<LoadState>>) -> bool {
    forall|i: int| 0 <= i < states.len() ==> #[trigger] states[i] == Some(LoadState::Loaded)
}

/// Whether the first image that is not loaded has failed to load.
pub open spec fn stopped_by_failure(states: Seq<Option<LoadState>>) -> bool {
    exists|k: int|
        0 <= k < states.len() && #[trigger] states[k] == Some(LoadState::Failed) && forall|j: int|
            0 <= j < k ==> #[trigger] states[j] == Some(LoadState::Loaded)
}

/// Decides whether the wait for the images is over.
///
/// `states` holds what is known of each image, in the order of
/// `Retro2dAssets::iter`. The game starts once every image is loaded. Where
/// `proceed_on_failure` is set it also starts when the first image that is
/// not loaded has failed, since waiting longer would not help. The result is
/// the state to enter, if there is one to enter.
pub fn check_assets_loaded(states: &Vec<Option<LoadState>>, proceed_on_failure: bool) -> (next:
    Option<AppState>)
    ensures
        next == (if all_loaded(states@) || (proceed_on_failure && stopped_by_failure(states@)) {
            Some(AppState::Game)
        } else {
            None
        }),
{
    let mut i: usize = 0;
    while i < states.len()
        invariant
            i <= states.len(),
            forall|j: int| 0 <= j < i ==> #[trigger] states@[j] == Some(LoadState::Loaded),
        decreases states.len() - i,
    {
        match states[i] {
            Some(LoadState::Loaded) => {},
            Some(LoadState::Failed) => {
                assert(stopped_by_failure(states@)) by {
                    assert(states@[i as int] == Some(LoadState::Failed));
                }
                assert(!all_loaded(states@)) by {
                    assert(states@[i as int] != Some(LoadState::Loaded));
                }
                return if proceed_on_failure {
                    Some(AppState::Game)
                } else {
                    None
                };
            },
            _ => {
                assert(!all_loaded(states@)) by {
                    assert(states@[i as int] != Some(LoadState::Loaded));
                }
                assert(!stopped_by_failure(states@)) by {
                    if stopped_by_failure(states@) {
                        let k: int = choose|k: int|
                            0 <= k < states@.len() && #[trigger] states@[k] == Some(
                                LoadState::Failed,
                            ) && forall|j: int|
                                0 <= j < k ==> #[trigger] states@[j] == Some(LoadState::Loaded);
                        if k < i {
                            assert(states@[k] == Some(LoadState::Loaded));
                        } else if k > i {
                            assert(states@[i as int] == Some(LoadState::Loaded));
                        }
                    }
                }
                return None;
            },
        }
        i += 1;
    }
    Some(AppState::Game)
}

} // verus!
