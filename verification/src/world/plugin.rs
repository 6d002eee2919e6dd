//! A whole frame of the scene.

use vstd::prelude::*;
use crate::geometry::Point2;
use crate::interact::drag::{dragged_scene, frame_drops, DragPlugin, Dragged};
use crate::interact::interact::{
    frame_snapshot, latest_cursor, ButtonInput, ConfigError, CursorMoved, Group,
    InteractionPlugin, InteractionState, PointerSource, Snapshot,
};
use crate::world::clothes::{
    calmed_scene, following_scene, interact_with_items, interact_with_no_hover, reacted_scene,
    update_rope_position,
};
use crate::world::{Object, ObjectId, Scene};

verus! {

/// The group of the background.
pub const BG_GROUP: u8 = 0;

/// The group of the items.
pub const ITEM_GROUP: u8 = 1;

/// The distance between two neighbouring followers.
pub const ROPE_SPACING: u32 = 400;

/// The number of followers in a strip.
pub const NUM_ROPES: u32 = 9;

/// What a frame takes in from outside.
#[derive(Clone, Debug)]
pub struct FrameInput {
    /// The reports of pointer movement since the frame before.
    pub cursor_moved: Vec<CursorMoved>,
    /// The pointer sources.
    pub sources: Vec<PointerSource>,
    /// The size of the window.
    pub window: Point2,
    /// The pointer's button.
    pub button: ButtonInput,
}

/// The order of a frame, and what the scene's parts are set up with.
#[derive(Clone, Copy, Debug, PartialEq, Eq, Structural)]
pub struct WorldPlugin {
    /// The group whose pointer the items react to.
    pub item_group: Group,
    /// The distance between two neighbouring followers; not zero.
    pub rope_spacing: u32,
    /// The number of followers in a strip; not zero.
    pub num_ropes: u32,
}

impl WorldPlugin {
    /// The scene after a frame in which the pointer's part left `state`:
    /// drags first, then the items' reaction, then the followers.
    pub open spec fn scene_after(self, objects: Seq<Object>, state: Snapshot, button: ButtonInput)
        -> Seq<Object> {
        let dragged = dragged_scene(objects, state, button);
        let calmed = calmed_scene(dragged, state, button, self.item_group);
        let reacted = reacted_scene(calmed, state, button, self.item_group);
        following_scene(reacted, self.rope_spacing * self.num_ropes)
    }

    /// The setup with the items in `ITEM_GROUP` and strips of `NUM_ROPES`
    /// followers that are `ROPE_SPACING` apart.
    pub fn new() -> (plugin: WorldPlugin)
        ensures
            plugin == (WorldPlugin {
                item_group: Group(ITEM_GROUP),
                rope_spacing: ROPE_SPACING,
                num_ropes: NUM_ROPES,
            }),
    {
        WorldPlugin { item_group: Group(ITEM_GROUP), rope_spacing: ROPE_SPACING, num_ropes: NUM_ROPES }
    }

    /// Runs one frame.
    ///
    /// The pointer's position and the objects under it are worked out from
    /// the scene as the frame finds it. Then the drags have their turn, then
    /// the items, and last the followers, which therefore see where their
    /// leaders ended up. The drags that ended in the frame are returned.
    ///
    /// Where the pointer sources are set up wrongly the frame stops at once:
    /// the fault is returned and the scene stays as it was.
    pub fn update(&self, state: &mut InteractionState, input: &FrameInput, scene: &mut Scene) -> (result:
        Result<Vec<(ObjectId, Dragged)>, ConfigError>)
        requires
            self.rope_spacing > 0,
            self.num_ropes > 0,
        ensures
            match frame_snapshot(
                old(state)@,
                old(scene).objects@,
                input.cursor_moved@,
                input.sources@,
                input.window,
            ) {
                Ok(snapshot) => {
                    &&& final(state)@ == snapshot
                    &&& final(scene).objects@ == self.scene_after(
                        old(scene).objects@,
                        snapshot,
                        input.button,
                    )
                    &&& result is Ok
                    &&& result->Ok_0@ == frame_drops(old(scene).objects@, snapshot, input.button)
                },
                Err(e) => {
                    let latest = latest_cursor(
                        old(state)@.last_window_id,
                        old(state)@.last_cursor_position,
                        input.cursor_moved@,
                    );
                    &&& result == Err::<Vec<(ObjectId, Dragged)>, ConfigError>(e)
                    &&& final(scene).objects@ == old(scene).objects@
                    &&& final(state)@ == (Snapshot {
                        cursors: Map::empty(),
                        lists: old(state)@.lists,
                        last_window_id: latest.0,
                        last_cursor_position: latest.1,
                    })
                },
            },
    {
        match InteractionPlugin::update(
            state,
            &input.cursor_moved,
            &input.sources,
            input.window,
            scene,
        ) {
            Ok(()) => {},
            Err(e) => {
                return Err(e);
            },
        }
        let dropped: Vec<(ObjectId, Dragged)> = DragPlugin::update(state, &input.button, scene);
        interact_with_no_hover(state, &input.button, self.item_group, scene);
        interact_with_items(state, &input.button, self.item_group, scene);
        update_rope_position(scene, self.rope_spacing, self.num_ropes);
        Ok(dropped)
    }
}

} // verus!
