//! Items that react to the pointer, and the followers that hang around them.

use vstd::prelude::*;
use crate::assets::{ImageAsset, ImageHandle};
use crate::geometry::{add_coord, add_coord_exec, clamp_i64, saturate_i64, Placement, Point2};
use crate::interact::interact::{
    find_hit, hit_position, ButtonInput, Group, InteractionState, Snapshot,
};
use crate::world::{Object, ObjectId, Scene, Sprite};

verus! {

/// Ties a follower to its leader.
#[derive(Clone, Copy, Debug, PartialEq, Eq, Structural)]
pub struct Rope {
    /// The leader.
    pub attached_to: ObjectId,
    /// Where the follower sits relative to the leader before wrapping.
    pub offset: Point2,
}

/// How an item reacts to the pointer, and the three images it can show.
#[derive(Clone, Copy, Debug, PartialEq, Eq, Structural)]
pub struct ItemState {
    pub normal: ImageAsset,
    pub glow: ImageAsset,
    pub selected: ImageAsset,
    /// The pointer hovers over the item.
    pub is_glowing: bool,
    pub is_dragging: bool,
    pub is_selected: bool,
}

impl ItemState {
    /// The image that the item's flags call for: the selected image while
    /// the item is selected, else the glowing one while the pointer hovers
    /// over it, else the normal one.
    pub open spec fn due_image(self) -> ImageHandle {
        if self.is_selected {
            self.selected.handle
        } else if self.is_glowing {
            self.glow.handle
        } else {
            self.normal.handle
        }
    }

    /// The item after one frame in which the pointer is over it (`hit`) or
    /// not, with the button as `button` tells.
    ///
    /// A press selects the item under the pointer and deselects any other. The
    /// item starts to drag when the button is down on it, and stops when the
    /// button comes up. It glows while the pointer is over it, and keeps
    /// glowing afterwards only as long as it is selected.
    pub open spec fn after_frame(self, hit: bool, button: ButtonInput) -> ItemState {
        let is_selected = if button.just_pressed {
            hit
        } else {
            self.is_selected
        };
        let is_dragging = if button.pressed && !self.is_dragging && hit {
            true
        } else if button.just_released {
            false
        } else {
            self.is_dragging
        };
        let is_glowing = hit || (self.is_glowing && is_selected);
        ItemState { is_glowing, is_dragging, is_selected, ..self }
    }

    /// The image shown after that frame by an item that showed `shown` before
    /// it. Selection is settled before hovering, and a selected item never
    /// takes the glowing image.
    pub open spec fn image_after_frame(self, shown: ImageHandle, hit: bool, button: ButtonInput)
        -> ImageHandle {
        let selected_now = self.after_frame(hit, button).is_selected;
        let settled = if !self.is_selected && button.just_pressed && hit {
            self.selected.handle
        } else if button.just_pressed && !hit {
            self.normal.handle
        } else {
            shown
        };
        if !self.is_glowing && hit {
            if selected_now {
                settled
            } else {
                self.glow.handle
            }
        } else if self.is_glowing && !selected_now && !hit {
            self.normal.handle
        } else {
            settled
        }
    }

    /// Takes the item and its sprite through one frame.
    pub fn react(&mut self, sprite: &mut Sprite, hit: bool, button: &ButtonInput)
        ensures
            *final(self) == old(self).after_frame(hit, *button),
            final(sprite).image == old(self).image_after_frame(old(sprite).image, hit, *button),
    {
        if !self.is_selected && button.just_pressed && hit {
            self.is_selected = true;
            sprite.image = self.selected.handle;
        } else if button.just_pressed && !hit {
            self.is_selected = false;
            sprite.image = self.normal.handle;
        }
        if button.pressed && !self.is_dragging && hit {
            self.is_dragging = true;
        } else if button.just_released {
            self.is_dragging = false;
        }
        if !self.is_glowing && hit {
            if !self.is_selected {
                sprite.image = self.glow.handle;
            }
            self.is_glowing = true;
        } else if self.is_glowing && !self.is_selected && !hit {
            sprite.image = self.normal.handle;
            self.is_glowing = false;
        }
    }
}

/// An item that shows the image its flags call for still does so after a
/// frame, whatever the pointer and the button do.
pub proof fn lemma_frame_keeps_due_image(
    item: ItemState,
    shown: ImageHandle,
    hit: bool,
    button: ButtonInput,
)
    requires
        shown == item.due_image(),
    ensures
        item.image_after_frame(shown, hit, button) == item.after_frame(hit, button).due_image(),
{
}

/// An item that is pressed while the pointer is over it is selected and shows
/// its selected image from that frame on, never the glowing one, although the
/// pointer hovers over it.
pub proof fn lemma_selection_beats_hover(item: ItemState, shown: ImageHandle, button: ButtonInput)
    requires
        !item.is_selected,
        button.just_pressed,
    ensures
        item.after_frame(true, button).is_selected,
        item.after_frame(true, button).is_glowing,
        item.image_after_frame(shown, true, button) == item.selected.handle,
{
}

impl Object {
    /// Whether the object is listed in `state` as under the pointer of `group`.
    pub open spec fn is_listed(self, id: ObjectId, state: Snapshot, group: Group) -> bool {
        hit_position(state.hits(group), id) is Some
    }

    /// The object after its item, if it has one together with a sprite, went
    /// through a frame.
    pub open spec fn after_item_frame(self, hit: bool, button: ButtonInput) -> Object {
        match (self.item, self.sprite) {
            (Some(item), Some(sprite)) => Object {
                item: Some(item.after_frame(hit, button)),
                sprite: Some(Sprite { image: item.image_after_frame(sprite.image, hit, button) }),
                ..self
            },
            _ => self,
        }
    }

    /// The object with its item, if it has one, neither selected nor glowing.
    pub open spec fn calmed(self) -> Object {
        match self.item {
            Some(item) => Object {
                item: Some(ItemState { is_selected: false, is_glowing: false, ..item }),
                ..self
            },
            None => self,
        }
    }
}

/// The scene after every item that has a sprite went through a frame, with
/// the hits of `group` telling which items the pointer is over.
pub open spec fn reacted_scene(
    objects: Seq<Object>,
    state: Snapshot,
    button: ButtonInput,
    group: Group,
) -> Seq<Object> {
    Seq::new(
        objects.len(),
        |i: int| objects[i].after_item_frame(objects[i].is_listed(i as usize, state, group), button),
    )
}

/// The scene after a press on empty space has been answered: where the
/// button went down in this frame and nothing is under the pointer of
/// `group`, no item is selected or glowing any more.
pub open spec fn calmed_scene(
    objects: Seq<Object>,
    state: Snapshot,
    button: ButtonInput,
    group: Group,
) -> Seq<Object> {
    if button.just_pressed && state.hits(group).len() == 0 {
        Seq::new(objects.len(), |i: int| objects[i].calmed())
    } else {
        objects
    }
}

/// A press on empty space leaves no item selected or glowing, whether the
/// pointer was over it in the frames before or not; and once the items have
/// gone through the frame as well, each one that has a sprite shows its
/// normal image.
pub proof fn lemma_empty_press_calms_every_item(
    objects: Seq<Object>,
    state: Snapshot,
    button: ButtonInput,
    group: Group,
    i: int,
)
    requires
        button.just_pressed,
        state.hits(group).len() == 0,
        0 <= i < objects.len(),
        objects[i].item is Some,
    ensures
        ({
            let calmed = calmed_scene(objects, state, button, group)[i];
            let reacted = reacted_scene(
                calmed_scene(objects, state, button, group),
                state,
                button,
                group,
            )[i];
            &&& calmed.item is Some
            &&& !calmed.item->0.is_selected
            &&& !calmed.item->0.is_glowing
            &&& reacted.item is Some
            &&& !reacted.item->0.is_selected
            &&& !reacted.item->0.is_glowing
            &&& objects[i].sprite is Some ==> reacted.sprite == Some(
                Sprite { image: objects[i].item->0.normal.handle },
            )
        }),
{
    assert(hit_position(state.hits(group), i as usize) is None);
}

/// Takes every item that has a sprite through one frame, with the hits of
/// `group` telling which items the pointer is over. Objects without an item or
/// without a sprite stay as they are.
pub fn interact_with_items(
    state: &InteractionState,
    button: &ButtonInput,
    group: Group,
    scene: &mut Scene,
)
    ensures
        final(scene).objects@ == reacted_scene(old(scene).objects@, state@, *button, group),
{
    let hits: Vec<(ObjectId, Point2)> = state.get_group(group);
    let mut i: usize = 0;
    while i < scene.objects.len()
        invariant
            i <= scene.objects.len(),
            scene.objects@.len() == old(scene).objects@.len(),
            hits@ == state@.hits(group),
            forall|j: int|
                0 <= j < i ==> #[trigger] scene.objects@[j] == old(
                    scene,
                ).objects@[j].after_item_frame(
                    old(scene).objects@[j].is_listed(j as usize, state@, group),
                    *button,
                ),
            forall|j: int|
                i <= j < scene.objects@.len() ==> #[trigger] scene.objects@[j] == old(
                    scene,
                ).objects@[j],
        decreases scene.objects.len() - i,
    {
        let hit: bool = find_hit(&hits, i).is_some();
        match (scene.objects[i].item, scene.objects[i].sprite) {
            (Some(item), Some(sprite)) => {
                let mut item: ItemState = item;
                let mut sprite: Sprite = sprite;
                item.react(&mut sprite, hit, button);
                scene.objects[i].item = Some(item);
                scene.objects[i].sprite = Some(sprite);
            },
            _ => {},
        }
        i += 1;
    }
    assert(scene.objects@ =~= reacted_scene(old(scene).objects@, state@, *button, group));
}

/// Answers a press on empty space: when the button went down in this frame
/// and nothing is under the pointer of `group`, every item is deselected and
/// stops glowing. In every other frame the scene stays as it is.
pub fn interact_with_no_hover(
    state: &InteractionState,
    button: &ButtonInput,
    group: Group,
    scene: &mut Scene,
)
    ensures
        final(scene).objects@ == calmed_scene(old(scene).objects@, state@, *button, group),
{
    let hits: Vec<(ObjectId, Point2)> = state.get_group(group);
    if hits.len() == 0 && button.just_pressed {
        let mut i: usize = 0;
        while i < scene.objects.len()
            invariant
                i <= scene.objects.len(),
                scene.objects@.len() == old(scene).objects@.len(),
                forall|j: int|
                    0 <= j < i ==> #[trigger] scene.objects@[j] == old(scene).objects@[j].calmed(),
                forall|j: int|
                    i <= j < scene.objects@.len() ==> #[trigger] scene.objects@[j] == old(
                        scene,
                    ).objects@[j],
            decreases scene.objects.len() - i,
        {
            match scene.objects[i].item {
                Some(item) => {
                    scene.objects[i].item = Some(
                        ItemState { is_selected: false, is_glowing: false, ..item },
                    );
                },
                None => {},
            }
            i += 1;
        }
        assert(scene.objects@ =~= calmed_scene(old(scene).objects@, state@, *button, group));
    }
}

/// The displacement `d` brought into the window of width `span` around zero:
/// the value that differs from `d` by a multiple of `span` and lies above
/// `-span / 2` and not above `span / 2`.
pub open spec fn wrap_offset(d: int, span: int) -> int
    recommends
        span > 0,
{
    let m = d % span;
    if 2 * m > span {
        m - span
    } else {
        m
    }
}

/// Where a follower with the given offset sits, for a leader at `leader` and a
/// strip of followers that spans `span` in all: the offset is wrapped
/// horizontally into the window of that width around the leader, and applied
/// as it is vertically.
pub open spec fn follower_position(leader: Point2, offset: Point2, span: int) -> Point2
    recommends
        span > 0,
{
    Point2 {
        x: clamp_i64(leader.x + wrap_offset(offset.x as int, span)) as i64,
        y: add_coord(leader.y, offset.y),
    }
}

/// The wrapped displacement lies in the window above `-span / 2` and up to
/// `span / 2`, and differs from the displacement by a whole number of spans.
pub proof fn lemma_wrap_offset_in_window(d: int, span: int)
    requires
        span > 0,
    ensures
        -span < 2 * wrap_offset(d, span) <= span,
        exists|k: int| d - wrap_offset(d, span) == #[trigger] (k * span),
{
    let m: int = d % span;
    let q: int = d / span;
    let r: int = wrap_offset(d, span);
    assert(d == span * q + m && 0 <= m < span) by (nonlinear_arith)
        requires
            span > 0,
            m == d % span,
            q == d / span,
    ;
    let k: int = if 2 * m > span {
        q + 1
    } else {
        q
    };
    assert(d - r == k * span) by (nonlinear_arith)
        requires
            d == span * q + m,
            r == (if 2 * m > span {
                m - span
            } else {
                m
            }),
            k == (if 2 * m > span {
                q + 1
            } else {
                q
            }),
    ;
}

/// The wrapped displacement is the only value in the window that differs
/// from the displacement by a whole number of spans: any `other` that lies in
/// the window, `turns` spans from `d`, is the wrapped displacement.
pub proof fn lemma_wrap_offset_is_unique(d: int, span: int, other: int, turns: int)
    requires
        span > 0,
        -span < 2 * other <= span,
        d - other == turns * span,
    ensures
        other == wrap_offset(d, span),
{
    let r: int = wrap_offset(d, span);
    lemma_wrap_offset_in_window(d, span);
    let k: int = choose|k: int| d - r == #[trigger] (k * span);
    assert(other == r) by (nonlinear_arith)
        requires
            span > 0,
            d - r == k * span,
            d - other == turns * span,
            -span < 2 * r <= span,
            -span < 2 * other <= span,
    {
        assert(other - r == (k - turns) * span);
        if k - turns >= 1 {
            assert((k - turns) * span >= span);
        } else if k - turns <= -1 {
            assert((k - turns) * span <= -span);
        }
    }
}

/// A follower sits in the window of the strip's width around its leader:
/// more than half a span to the left of it never, and at most half a span to
/// the right. This holds wherever the window lies within the range of
/// coordinates, so that the position is not pinned.
pub proof fn lemma_follower_in_window(leader: Point2, offset: Point2, span: int)
    requires
        span > 0,
        i64::MIN <= leader.x + wrap_offset(offset.x as int, span) <= i64::MAX,
    ensures
        -span < 2 * (follower_position(leader, offset, span).x - leader.x) <= span,
        exists|k: int|
            leader.x + offset.x - follower_position(leader, offset, span).x == #[trigger] (k
                * span),
{
    lemma_wrap_offset_in_window(offset.x as int, span);
    let k: int = choose|k: int| offset.x - wrap_offset(offset.x as int, span) == #[trigger] (k * span);
    assert(leader.x + offset.x - follower_position(leader, offset, span).x == k * span);
}

/// A follower moves exactly as its leader does: as long as no coordinate is
/// pinned, moving the leader by `step` moves the follower by `step`, so it
/// never jumps.
pub proof fn lemma_follower_moves_with_leader(
    leader: Point2,
    step: i64,
    offset: Point2,
    span: int,
)
    requires
        span > 0,
        i64::MIN <= leader.x + step <= i64::MAX,
        i64::MIN <= leader.x + wrap_offset(offset.x as int, span) <= i64::MAX,
        i64::MIN <= leader.x + step + wrap_offset(offset.x as int, span) <= i64::MAX,
    ensures
        follower_position(Point2 { x: (leader.x + step) as i64, y: leader.y }, offset, span).x
            == follower_position(leader, offset, span).x + step,
{
}

/// Followers whose offsets lie one `spacing` apart sit one `spacing` apart
/// after wrapping, or the second one starts the strip over at the far end:
/// the strip has no gap and no overlap.
pub proof fn lemma_neighbours_stay_apart(d: int, spacing: int, count: int)
    requires
        spacing > 0,
        count > 0,
    ensures
        wrap_offset(d + spacing, spacing * count) == wrap_offset(d, spacing * count) + spacing
            || wrap_offset(d + spacing, spacing * count) == wrap_offset(d, spacing * count)
            + spacing - spacing * count,
{
    let span: int = spacing * count;
    assert(span >= spacing) by (nonlinear_arith)
        requires
            span == spacing * count,
            spacing > 0,
            count > 0,
    ;
    let r: int = wrap_offset(d, span);
    lemma_wrap_offset_in_window(d, span);
    let k: int = choose|k: int| d - r == #[trigger] (k * span);
    if 2 * (r + spacing) <= span {
        lemma_wrap_offset_is_unique(d + spacing, span, r + spacing, k);
    } else {
        assert((k + 1) * span == k * span + span) by (nonlinear_arith);
        lemma_wrap_offset_is_unique(d + spacing, span, r + spacing - span, k + 1);
    }
}

/// The horizontal position of a follower: `offset_x` from `leader_x`, wrapped
/// into the window of width `span` around the leader.
pub fn wrap_follower(leader_x: i64, offset_x: i64, span: u64) -> (x: i64)
    requires
        span > 0,
    ensures
        x == clamp_i64(leader_x + wrap_offset(offset_x as int, span as int)),
{
    let width: i128 = span as i128;
    let ghost m: int = offset_x as int % span as int;
    assert(0 <= m < span) by (nonlinear_arith)
        requires
            span > 0,
            m == offset_x as int % span as int,
    ;
    let within: i128 = match (offset_x as i128).checked_rem_euclid(width) {
        Some(rest) => rest,
        None => 0,
    };
    let wrapped: i128 = if 2 * within > width {
        within - width
    } else {
        within
    };
    saturate_i64(leader_x as i128 + wrapped)
}

/// The position that followers of `rope` are placed around: that of the
/// leader, where the leader is in the registry, is an item and is no follower
/// itself.
pub open spec fn leader_position(objects: Seq<Object>, rope: Rope) -> Option<Point2> {
    if rope.attached_to < objects.len() && objects[rope.attached_to as int].item is Some
        && objects[rope.attached_to as int].rope is None {
        Some(objects[rope.attached_to as int].transform.translation)
    } else {
        None
    }
}

impl Object {
    /// The object after it has followed its leader among `objects`, where it
    /// is a follower and has one.
    pub open spec fn following(self, objects: Seq<Object>, span: int) -> Object {
        match self.rope {
            Some(rope) => match leader_position(objects, rope) {
                Some(leader) => self.moved_to(follower_position(leader, rope.offset, span)),
                None => self,
            },
            None => self,
        }
    }
}

/// The scene after every follower has followed its leader.
pub open spec fn following_scene(objects: Seq<Object>, span: int) -> Seq<Object> {
    Seq::new(objects.len(), |i: int| objects[i].following(objects, span))
}

/// Puts every follower in its place around its leader.
///
/// The followers of a leader form a strip of `count` places, `spacing` apart.
/// Each follower sits at its offset from the leader, wrapped horizontally
/// into the window of the strip's width around the leader. A follower whose
/// leader is missing stays where it is.
pub fn update_rope_position(scene: &mut Scene, spacing: u32, count: u32)
    requires
        spacing > 0,
        count > 0,
    ensures
        final(scene).objects@ == following_scene(old(scene).objects@, spacing * count),
{
    assert(0 < spacing * count <= u64::MAX) by (nonlinear_arith)
        requires
            0 < spacing <= u32::MAX,
            0 < count <= u32::MAX,
    ;
    let span: u64 = spacing as u64 * count as u64;
    let mut i: usize = 0;
    while i < scene.objects.len()
        invariant
            i <= scene.objects.len(),
            span == spacing * count,
            span > 0,
            scene.objects@.len() == old(scene).objects@.len(),
            forall|j: int|
                0 <= j < i ==> #[trigger] scene.objects@[j] == old(scene).objects@[j].following(
                    old(scene).objects@,
                    span as int,
                ),
            forall|j: int|
                i <= j < scene.objects@.len() ==> #[trigger] scene.objects@[j] == old(
                    scene,
                ).objects@[j],
        decreases scene.objects.len() - i,
    {
        match scene.objects[i].rope {
            Some(rope) => {
                let leader: usize = rope.attached_to;
                if leader < scene.objects.len() && scene.objects[leader].item.is_some()
                    && scene.objects[leader].rope.is_none() {
                    assert(scene.objects@[leader as int] == old(scene).objects@[leader as int]) by {
                        if leader < i {
                            assert(old(scene).objects@[leader as int].rope is None);
                        }
                    }
                    let at: Point2 = scene.objects[leader].transform.translation;
                    let x: i64 = wrap_follower(at.x, rope.offset.x, span);
                    let y: i64 = add_coord_exec(at.y, rope.offset.y);
                    scene.objects[i].transform.translation = Point2 { x, y };
                } else {
                    assert(leader_position(old(scene).objects@, rope) is None) by {
                        if leader < scene.objects@.len() {
                            if leader < i {
                                let before: Object = old(scene).objects@[leader as int];
                                assert(scene.objects@[leader as int] == before.following(
                                    old(scene).objects@,
                                    span as int,
                                ));
                            }
                        }
                    }
                }
            },
            None => {},
        }
        i += 1;
    }
    assert(scene.objects@ =~= following_scene(old(scene).objects@, span as int));
}

} // verus!
