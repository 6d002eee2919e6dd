//! The interactive layer of a two-dimensional scene: which objects a pointer
//! touches, how an object is picked up, carried and dropped, how an item shows
//! that it is hovered or selected, and how followers keep their place around a
//! leader.
//!
//! All coordinates are integers; see [`geometry`] for the arithmetic.

pub mod assets;
pub mod config;
pub mod geometry;
pub mod interact;
pub mod world;

pub use assets::{ImageAsset, ImageHandle, Images, LoadState, Retro2dAssets};
pub use config::AppState;
pub use geometry::{Placement, Point2, Scale2, SCALE_ONE};
pub use interact::drag::{DragPlugin, Draggable, Dragged, DropStrategy};
pub use interact::interact::{
    ButtonInput, Camera, ConfigError, CursorMoved, Group, Interactable, InteractionPlugin,
    InteractionSource, InteractionState, PointerSource, Snapshot,
};
pub use world::clothes::{ItemState, Rope};
pub use world::plugin::{FrameInput, WorldPlugin};
pub use world::{Object, ObjectId, Scene, Sprite};
