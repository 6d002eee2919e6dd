//! The pointer's position in the world, per interaction group, and the
//! objects under it.

use std::collections::HashMap;
use vstd::prelude::*;
use crate::geometry::{
    covers, hit_test, lemma_covers_at_unit_scale, pointer_world, Placement, Point2, Scale2,
};
use crate::world::{Object, ObjectId, Scene};

verus! {

broadcast use vstd::std_specs::hash::group_hash_axioms;

/// A tag that partitions pointer sources and interactable objects into
/// independent channels. An object may belong to several groups.
#[derive(Clone, Copy, Debug, PartialEq, Eq, Hash, Structural)]
pub struct Group(pub u8);

/// The state of the pointer's button in one frame.
#[derive(Clone, Copy, Debug, PartialEq, Eq, Structural)]
pub struct ButtonInput {
    /// The button is down.
    pub pressed: bool,
    /// The button went down in this frame.
    pub just_pressed: bool,
    /// The button came up in this frame.
    pub just_released: bool,
}

/// A report that the pointer moved.
#[derive(Clone, Copy, Debug, PartialEq, Eq, Structural)]
pub struct CursorMoved {
    /// The window in which the pointer moved.
    pub window: u32,
    /// The pointer's position on the screen.
    pub position: Point2,
}

/// What a pointer source sees the world through.
#[derive(Clone, Copy, Debug, PartialEq, Eq, Structural)]
pub struct Camera {
    /// The size of the camera's own viewport; without one the camera fills
    /// the window.
    pub viewport_size: Option<Point2>,
}

/// Marks a camera as a source of pointer positions for some groups.
#[derive(Clone, Debug)]
pub struct InteractionSource {
    pub groups: Vec<Group>,
}

/// A pointer source as a frame finds it: the groups it serves, where it is
/// placed in the world, and its camera.
#[derive(Clone, Debug)]
pub struct PointerSource {
    pub source: InteractionSource,
    pub transform: Placement,
    pub camera: Option<Camera>,
}

/// Makes an object a target for the pointer.
#[derive(Debug)]
pub struct Interactable {
    /// The groups that the object belongs to.
    pub groups: Vec<Group>,
    /// The minimum and maximum corner of the area that reacts to the pointer,
    /// in the object's own frame.
    pub bounding_box: (Point2, Point2),
}

/// A fault in how the pointer sources are set up.
#[derive(Clone, Copy, Debug, PartialEq, Eq, Structural)]
pub enum ConfigError {
    /// A pointer source has no camera.
    MissingCamera,
    /// More than one pointer source serves the group.
    DuplicateGroup(Group),
}

/// What one frame knows of the pointer: its world position in each group, and
/// the objects under it in each group.
pub struct InteractionState {
    /// For each group with an object under the pointer, those objects in the
    /// order of the registry, each with the pointer's world position.
    pub ordered_interact_list_map: HashMap<u8, Vec<(ObjectId, Point2)>>,
    /// The pointer's world position in each group that a source serves.
    pub cursor_positions: HashMap<u8, Point2>,
    pub last_window_id: u32,
    /// The pointer's latest position on the screen.
    pub last_cursor_position: Point2,
}

/// What an `InteractionState` holds, as plain values.
pub struct Snapshot {
    /// The pointer's world position in each group that has one.
    pub cursors: Map<u8, Point2>,
    /// The objects under the pointer in each group that has any.
    pub lists: Map<u8, Seq<(ObjectId, Point2)>>,
    pub last_window_id: u32,
    pub last_cursor_position: Point2,
}

impl Snapshot {
    /// The objects under the pointer in `group`, in the order of the registry,
    /// each with the pointer's world position.
    pub open spec fn hits(self, group: Group) -> Seq<(ObjectId, Point2)> {
        if self.lists.contains_key(group.0) {
            self.lists[group.0]
        } else {
            Seq::empty()
        }
    }
}

impl View for InteractionState {
    type V = Snapshot;

    open spec fn view(&self) -> Snapshot {
        Snapshot {
            cursors: self.cursor_positions@,
            lists: Map::new(
                |g: u8| self.ordered_interact_list_map@.contains_key(g),
                |g: u8| self.ordered_interact_list_map@[g]@,
            ),
            last_window_id: self.last_window_id,
            last_cursor_position: self.last_cursor_position,
        }
    }
}

impl Default for Group {
    fn default() -> (group: Group)
        ensures
            group == Group(0),
    {
        Group(0)
    }
}

impl Default for InteractionSource {
    /// A source for the default group.
    fn default() -> (source: InteractionSource)
        ensures
            source.groups@ == seq![Group(0)],
    {
        InteractionSource { groups: vec![Group(0)] }
    }
}

impl Default for Interactable {
    /// An object of the default group with an empty area.
    fn default() -> (area: Interactable)
        ensures
            area.groups@ == seq![Group(0)],
            area.bounding_box == (Point2 { x: 0, y: 0 }, Point2 { x: 0, y: 0 }),
    {
        Interactable {
            groups: vec![Group(0)],
            bounding_box: (Point2 { x: 0, y: 0 }, Point2 { x: 0, y: 0 }),
        }
    }
}

impl Clone for Interactable {
    fn clone(&self) -> (area: Interactable)
        ensures
            area.groups@ == self.groups@,
            area.bounding_box == self.bounding_box,
    {
        let mut groups: Vec<Group> = Vec::new();
        let mut k: usize = 0;
        while k < self.groups.len()
            invariant
                k <= self.groups.len(),
                groups@ == self.groups@.subrange(0, k as int),
            decreases self.groups.len() - k,
        {
            groups.push(self.groups[k]);
            k += 1;
        }
        assert(groups@ == self.groups@);
        Interactable { groups, bounding_box: (self.bounding_box.0, self.bounding_box.1) }
    }
}

impl Default for InteractionState {
    fn default() -> (state: InteractionState)
        ensures
            state@ == (Snapshot {
                cursors: Map::empty(),
                lists: Map::empty(),
                last_window_id: 0,
                last_cursor_position: Point2 { x: 0, y: 0 },
            }),
    {
        InteractionState::new()
    }
}

/// The window and screen position that the pointer was last reported at:
/// those of the last report in `events`, or the ones known before where
/// there is no report.
pub open spec fn latest_cursor(window: u32, position: Point2, events: Seq<CursorMoved>) -> (
    u32,
    Point2,
) {
    if events.len() == 0 {
        (window, position)
    } else {
        (events.last().window, events.last().position)
    }
}

impl PointerSource {
    /// The size of the viewport that the source's camera shows: its own, or
    /// that of the window.
    pub open spec fn viewport(self, window: Point2) -> Point2
        recommends
            self.camera is Some,
    {
        match self.camera {
            Some(Camera { viewport_size: Some(size) }) => size,
            _ => window,
        }
    }

    /// The world position, as this source sees it, of a pointer at `screen`.
    pub open spec fn cursor(self, window: Point2, screen: Point2) -> Point2
        recommends
            self.camera is Some,
    {
        pointer_world(self.transform, self.viewport(window), screen)
    }
}

/// The table `table` after the first `n` of `groups` have each been given the
/// position `p`, in order. A group that the table already holds is a fault,
/// and the first fault is the result.
pub open spec fn assign_groups(table: Map<u8, Point2>, groups: Seq<Group>, n: int, p: Point2)
    -> Result<Map<u8, Point2>, ConfigError>
    decreases n,
{
    if n <= 0 {
        Ok(table)
    } else {
        match assign_groups(table, groups, n - 1, p) {
            Err(e) => Err(e),
            Ok(t) => if t.contains_key(groups[n - 1].0) {
                Err(ConfigError::DuplicateGroup(groups[n - 1]))
            } else {
                Ok(t.insert(groups[n - 1].0, p))
            },
        }
    }
}

/// The pointer's world position per group after the first `n` of `sources`
/// have been taken in, in order, for a pointer at `screen` in a window of size
/// `window`. A source without a camera is a fault, and so is a group that an
/// earlier source, or an earlier entry of the same source, serves already. The
/// first fault is the result.
pub open spec fn resolve_sources(
    sources: Seq<PointerSource>,
    n: int,
    window: Point2,
    screen: Point2,
) -> Result<Map<u8, Point2>, ConfigError>
    decreases n,
{
    if n <= 0 {
        Ok(Map::empty())
    } else {
        match resolve_sources(sources, n - 1, window, screen) {
            Err(e) => Err(e),
            Ok(t) => if sources[n - 1].camera is None {
                Err(ConfigError::MissingCamera)
            } else {
                assign_groups(
                    t,
                    sources[n - 1].source.groups@,
                    sources[n - 1].source.groups@.len() as int,
                    sources[n - 1].cursor(window, screen),
                )
            },
        }
    }
}

/// Once a group has been refused, the groups after it change nothing.
pub proof fn lemma_assign_groups_fault_stays(
    table: Map<u8, Point2>,
    groups: Seq<Group>,
    k: int,
    n: int,
    p: Point2,
)
    requires
        k <= n,
        assign_groups(table, groups, k, p) is Err,
    ensures
        assign_groups(table, groups, n, p) == assign_groups(table, groups, k, p),
    decreases n - k,
{
    if k < n {
        lemma_assign_groups_fault_stays(table, groups, k, n - 1, p);
    }
}

/// Once a source has been refused, the sources after it change nothing.
pub proof fn lemma_resolve_sources_fault_stays(
    sources: Seq<PointerSource>,
    k: int,
    n: int,
    window: Point2,
    screen: Point2,
)
    requires
        k <= n,
        resolve_sources(sources, k, window, screen) is Err,
    ensures
        resolve_sources(sources, n, window, screen) == resolve_sources(sources, k, window, screen),
    decreases n - k,
{
    if k < n {
        lemma_resolve_sources_fault_stays(sources, k, n - 1, window, screen);
    }
}

/// Whether entry `a` of source `i` names the group numbered `g`.
pub open spec fn serves(sources: Seq<PointerSource>, i: int, a: int, g: u8) -> bool {
    &&& 0 <= i < sources.len()
    &&& 0 <= a < sources[i].source.groups@.len()
    &&& sources[i].source.groups@[a].0 == g
}

/// Whether one of the first `n` sources names the group numbered `g`.
pub open spec fn served_among(sources: Seq<PointerSource>, n: int, g: u8) -> bool {
    exists|i: int, a: int| i < n && #[trigger] serves(sources, i, a, g)
}

/// Whether the first `n` sources are set up soundly: each has a camera, and
/// no group is named twice, be it by two sources or twice by one.
pub open spec fn sources_sound(sources: Seq<PointerSource>, n: int) -> bool {
    &&& forall|i: int| 0 <= i < n && i < sources.len() ==> (#[trigger] sources[i]).camera is Some
    &&& forall|i: int, a: int, j: int, b: int, g: u8|
        i < n && j < n && #[trigger] serves(sources, i, a, g) && #[trigger] serves(
            sources,
            j,
            b,
            g,
        ) ==> i == j && a == b
}

/// Giving the first `n` of `groups` a position succeeds exactly when none of
/// them is in the table yet and no two of them are the same group. The
/// table then holds those groups besides what it held, each with `p`.
pub proof fn lemma_assign_groups(table: Map<u8, Point2>, groups: Seq<Group>, n: int, p: Point2)
    requires
        0 <= n <= groups.len(),
    ensures
        assign_groups(table, groups, n, p) is Ok <==> {
            &&& forall|a: int| 0 <= a < n ==> !table.contains_key((#[trigger] groups[a]).0)
            &&& forall|a: int, b: int|
                0 <= a < b < n ==> (#[trigger] groups[a]).0 != (#[trigger] groups[b]).0
        },
        match assign_groups(table, groups, n, p) {
            Ok(t) => {
                &&& forall|g: u8|
                    #[trigger] t.contains_key(g) <==> (table.contains_key(g) || exists|a: int|
                        0 <= a < n && (#[trigger] groups[a]).0 == g)
                &&& forall|g: u8| table.contains_key(g) ==> #[trigger] t[g] == table[g]
                &&& forall|a: int| 0 <= a < n ==> t[(#[trigger] groups[a]).0] == p
            },
            Err(_) => true,
        },
    decreases n,
{
    if n > 0 {
        lemma_assign_groups(table, groups, n - 1, p);
        match assign_groups(table, groups, n - 1, p) {
            Ok(t) => {
                let last: u8 = groups[n - 1].0;
                if t.contains_key(last) {
                    if !table.contains_key(last) {
                        let a: int = choose|a: int| 0 <= a < n - 1 && (#[trigger] groups[a]).0 == last;
                        assert(groups[a].0 == groups[n - 1].0);
                    }
                } else {
                    let t2: Map<u8, Point2> = t.insert(last, p);
                    assert forall|a: int, b: int| 0 <= a < b < n implies (#[trigger] groups[a]).0
                        != (#[trigger] groups[b]).0 by {
                        if b == n - 1 {
                            if groups[a].0 == last {
                                assert(t.contains_key(last));
                            }
                        }
                    }
                    assert forall|g: u8| #[trigger]
                        t2.contains_key(g) <==> (table.contains_key(g) || exists|a: int|
                            0 <= a < n && (#[trigger] groups[a]).0 == g) by {
                        if g == last {
                            assert(groups[n - 1].0 == g);
                        } else if t.contains_key(g) && !table.contains_key(g) {
                            let a: int = choose|a: int| 0 <= a < n - 1 && (#[trigger] groups[a]).0 == g;
                            assert(0 <= a < n && groups[a].0 == g);
                        }
                    }
                    assert forall|a: int| 0 <= a < n implies t2[(#[trigger] groups[a]).0] == p by {
                        if a < n - 1 {
                            assert(t[groups[a].0] == p);
                        }
                    }
                }
            },
            Err(_) => {},
        }
    }
}

/// Taking in the first `n` sources succeeds exactly when they are set up
/// soundly. The table then holds the groups that they name, each with the
/// pointer's position as the naming source sees it.
pub proof fn lemma_resolve_sources(
    sources: Seq<PointerSource>,
    n: int,
    window: Point2,
    screen: Point2,
)
    requires
        0 <= n <= sources.len(),
    ensures
        resolve_sources(sources, n, window, screen) is Ok <==> sources_sound(sources, n),
        match resolve_sources(sources, n, window, screen) {
            Ok(t) => {
                &&& forall|g: u8| #[trigger] t.contains_key(g) <==> served_among(sources, n, g)
                &&& forall|i: int, a: int, g: u8|
                    i < n && #[trigger] serves(sources, i, a, g) ==> t[g] == sources[i].cursor(
                        window,
                        screen,
                    )
            },
            Err(_) => true,
        },
    decreases n,
{
    if n > 0 {
        lemma_resolve_sources(sources, n - 1, window, screen);
        match resolve_sources(sources, n - 1, window, screen) {
            Ok(t) => {
                let last: PointerSource = sources[n - 1];
                let groups: Seq<Group> = last.source.groups@;
                let p: Point2 = last.cursor(window, screen);
                if last.camera is Some {
                    lemma_assign_groups(t, groups, groups.len() as int, p);
                    let fresh: bool = forall|a: int|
                        0 <= a < groups.len() ==> !t.contains_key((#[trigger] groups[a]).0);
                    let apart: bool = forall|a: int, b: int|
                        0 <= a < b < groups.len() ==> (#[trigger] groups[a]).0 != (
                        #[trigger] groups[b]).0;
                    if sources_sound(sources, n) {
                        assert(fresh) by {
                            assert forall|a: int| 0 <= a < groups.len() implies !t.contains_key(
                                (#[trigger] groups[a]).0,
                            ) by {
                                let g: u8 = groups[a].0;
                                if t.contains_key(g) {
                                    assert(served_among(sources, n - 1, g));
                                    let (j, b): (int, int) = choose|j: int, b: int|
                                        j < n - 1 && #[trigger] serves(sources, j, b, g);
                                    assert(serves(sources, n - 1, a, g));
                                    assert(serves(sources, j, b, g));
                                }
                            }
                        }
                        assert(apart) by {
                            assert forall|a: int, b: int| 0 <= a < b < groups.len() implies (
                            #[trigger] groups[a]).0 != (#[trigger] groups[b]).0 by {
                                let g: u8 = groups[a].0;
                                if groups[b].0 == g {
                                    assert(serves(sources, n - 1, a, g));
                                    assert(serves(sources, n - 1, b, g));
                                }
                            }
                        }
                    }
                    if fresh && apart {
                        assert(sources_sound(sources, n)) by {
                            assert forall|i: int, a: int, j: int, b: int, g: u8|
                                i < n && j < n && #[trigger] serves(sources, i, a, g)
                                    && #[trigger] serves(sources, j, b, g) implies i == j && a
                                == b by {
                                if i < n - 1 && j < n - 1 {
                                } else if i == n - 1 && j == n - 1 {
                                    if a < b {
                                        assert(groups[a].0 != groups[b].0);
                                    } else if b < a {
                                        assert(groups[b].0 != groups[a].0);
                                    }
                                } else if i == n - 1 {
                                    assert(served_among(sources, n - 1, g));
                                    assert(!t.contains_key(groups[a].0));
                                } else {
                                    assert(served_among(sources, n - 1, g));
                                    assert(!t.contains_key(groups[b].0));
                                }
                            }
                        }
                    }
                    match assign_groups(t, groups, groups.len() as int, p) {
                        Ok(t2) => {
                            assert forall|g: u8| #[trigger]
                                t2.contains_key(g) <==> served_among(sources, n, g) by {
                                if t2.contains_key(g) {
                                    if t.contains_key(g) {
                                        assert(served_among(sources, n - 1, g));
                                        let (j, b): (int, int) = choose|j: int, b: int|
                                            j < n - 1 && #[trigger] serves(sources, j, b, g);
                                        assert(j < n && serves(sources, j, b, g));
                                    } else {
                                        let a: int = choose|a: int|
                                            0 <= a < groups.len() && (#[trigger] groups[a]).0 == g;
                                        assert(serves(sources, n - 1, a, g));
                                    }
                                }
                                if served_among(sources, n, g) {
                                    let (j, b): (int, int) = choose|j: int, b: int|
                                        j < n && #[trigger] serves(sources, j, b, g);
                                    if j < n - 1 {
                                        assert(served_among(sources, n - 1, g));
                                    } else {
                                        assert(groups[b].0 == g);
                                    }
                                }
                            }
                            assert forall|i: int, a: int, g: u8|
                                i < n && #[trigger] serves(sources, i, a, g) implies t2[g]
                                == sources[i].cursor(window, screen) by {
                                if i < n - 1 {
                                    assert(served_among(sources, n - 1, g));
                                    assert(t.contains_key(g));
                                } else {
                                    assert(t2[groups[a].0] == p);
                                }
                            }
                        },
                        Err(_) => {},
                    }
                } else {
                    assert(sources[n - 1].camera is None);
                }
            },
            Err(_) => {},
        }
    }
}

/// A setup in which two entries name the same group is refused, whatever else
/// it holds.
pub proof fn lemma_shared_group_is_refused(
    sources: Seq<PointerSource>,
    window: Point2,
    screen: Point2,
    i: int,
    a: int,
    j: int,
    b: int,
)
    requires
        0 <= i < sources.len(),
        0 <= j < sources.len(),
        0 <= a < sources[i].source.groups@.len(),
        0 <= b < sources[j].source.groups@.len(),
        i != j || a != b,
        sources[i].source.groups@[a] == sources[j].source.groups@[b],
    ensures
        resolve_sources(sources, sources.len() as int, window, screen) is Err,
{
    lemma_resolve_sources(sources, sources.len() as int, window, screen);
    let g: u8 = sources[i].source.groups@[a].0;
    assert(serves(sources, i, a, g));
    assert(serves(sources, j, b, g));
}

impl InteractionState {
    /// The objects under the pointer in `group`, in the order of the registry,
    /// each with the pointer's world position.
    pub fn get_group(&self, group: Group) -> (list: Vec<(ObjectId, Point2)>)
        ensures
            list@ == self@.hits(group),
    {
        let mut list: Vec<(ObjectId, Point2)> = Vec::new();
        match self.ordered_interact_list_map.get(&group.0) {
            Some(interactions) => {
                let mut k: usize = 0;
                while k < interactions.len()
                    invariant
                        k <= interactions.len(),
                        list@ == interactions@.subrange(0, k as int),
                    decreases interactions.len() - k,
                {
                    list.push(interactions[k]);
                    k += 1;
                }
                assert(list@ == interactions@);
            },
            None => {},
        }
        list
    }

    /// The state before the first frame: no pointer position, nothing under
    /// the pointer, and the pointer at the screen's origin.
    pub fn new() -> (state: InteractionState)
        ensures
            state@ == (Snapshot {
                cursors: Map::empty(),
                lists: Map::empty(),
                last_window_id: 0,
                last_cursor_position: Point2 { x: 0, y: 0 },
            }),
    {
        let state = InteractionState {
            ordered_interact_list_map: HashMap::new(),
            cursor_positions: HashMap::new(),
            last_window_id: 0,
            last_cursor_position: Point2 { x: 0, y: 0 },
        };
        assert(state@.lists =~= Map::empty());
        state
    }
}

/// Works out the pointer's world position for every group.
///
/// The pointer's screen position is that of the last report in
/// `cursor_moved`; without a report it stays where it was. Each source sees
/// the pointer through its camera and gives the resulting world position to
/// each of its groups. `window` is the size of the window.
///
/// A source without a camera, or a group that is served twice, is a fault in
/// the setup: the first one found, in the order of `sources` and of each
/// source's groups, is returned, and no group has a pointer position then.
pub fn interaction_state_system(
    state: &mut InteractionState,
    cursor_moved: &Vec<CursorMoved>,
    sources: &Vec<PointerSource>,
    window: Point2,
) -> (result: Result<(), ConfigError>)
    ensures
        final(state)@.lists == old(state)@.lists,
        (final(state)@.last_window_id, final(state)@.last_cursor_position) == latest_cursor(
            old(state)@.last_window_id,
            old(state)@.last_cursor_position,
            cursor_moved@,
        ),
        match resolve_sources(
            sources@,
            sources@.len() as int,
            window,
            final(state)@.last_cursor_position,
        ) {
            Ok(table) => result is Ok && final(state)@.cursors == table,
            Err(e) => result == Err::<(), ConfigError>(e) && final(state)@.cursors == Map::<
                u8,
                Point2,
            >::empty(),
        },
{
    let reports: usize = cursor_moved.len();
    if reports > 0 {
        state.last_window_id = cursor_moved[reports - 1].window;
        state.last_cursor_position = cursor_moved[reports - 1].position;
    }
    state.cursor_positions.clear();
    let screen: Point2 = state.last_cursor_position;
    let mut table: HashMap<u8, Point2> = HashMap::new();
    let mut i: usize = 0;
    while i < sources.len()
        invariant
            i <= sources.len(),
            resolve_sources(sources@, i as int, window, screen) == Ok::<
                Map<u8, Point2>,
                ConfigError,
            >(table@),
            screen == state.last_cursor_position,
            state.cursor_positions@ == Map::<u8, Point2>::empty(),
            state.ordered_interact_list_map == old(state).ordered_interact_list_map,
            (state.last_window_id, state.last_cursor_position) == latest_cursor(
                old(state).last_window_id,
                old(state).last_cursor_position,
                cursor_moved@,
            ),
        decreases sources.len() - i,
    {
        let source: &PointerSource = &sources[i];
        let viewport: Point2 = match source.camera {
            None => {
                proof {
                    lemma_resolve_sources_fault_stays(
                        sources@,
                        i + 1,
                        sources@.len() as int,
                        window,
                        screen,
                    );
                }
                return Err(ConfigError::MissingCamera);
            },
            Some(Camera { viewport_size: Some(size) }) => size,
            Some(Camera { viewport_size: None }) => window,
        };
        let cursor: Point2 = source.transform.pointer_to_world(viewport, screen);
        let ghost before: Map<u8, Point2> = table@;
        let mut k: usize = 0;
        while k < source.source.groups.len()
            invariant
                k <= source.source.groups.len(),
                i < sources.len(),
                *source == sources@[i as int],
                source.camera is Some,
                cursor == source.cursor(window, screen),
                resolve_sources(sources@, i as int, window, screen) == Ok::<
                    Map<u8, Point2>,
                    ConfigError,
                >(before),
                assign_groups(before, source.source.groups@, k as int, cursor) == Ok::<
                    Map<u8, Point2>,
                    ConfigError,
                >(table@),
                screen == state.last_cursor_position,
                state.cursor_positions@ == Map::<u8, Point2>::empty(),
                state.ordered_interact_list_map == old(state).ordered_interact_list_map,
                (state.last_window_id, state.last_cursor_position) == latest_cursor(
                    old(state).last_window_id,
                    old(state).last_cursor_position,
                    cursor_moved@,
                ),
            decreases source.source.groups.len() - k,
        {
            let group: Group = source.source.groups[k];
            if table.contains_key(&group.0) {
                proof {
                    lemma_assign_groups_fault_stays(
                        before,
                        source.source.groups@,
                        k + 1,
                        source.source.groups@.len() as int,
                        cursor,
                    );
                    lemma_resolve_sources_fault_stays(
                        sources@,
                        i + 1,
                        sources@.len() as int,
                        window,
                        screen,
                    );
                }
                return Err(ConfigError::DuplicateGroup(group));
            }
            table.insert(group.0, cursor);
            k += 1;
        }
        i += 1;
    }
    state.cursor_positions = table;
    Ok(())
}

impl Object {
    /// Whether a pointer of `group` at `cursor` is over the object: the
    /// object is interactable and belongs to the group, and `cursor` falls
    /// inside the object's area as the world sees it.
    pub open spec fn holds_pointer(self, group: Group, cursor: Point2) -> bool {
        match self.interactable {
            Some(area) => {
                &&& area.groups@.contains(group)
                &&& covers(area.bounding_box, self.world(), cursor)
            },
            None => false,
        }
    }
}

/// Whether the pointer of `group` is over `object`: the group has a pointer
/// position, and the object holds it.
pub open spec fn is_hit(object: Object, cursors: Map<u8, Point2>, group: Group) -> bool {
    cursors.contains_key(group.0) && object.holds_pointer(group, cursors[group.0])
}

/// Those of the first `n` objects that the pointer of `group` is over, in the
/// order of the registry, each with the pointer's position.
pub open spec fn hits_among(
    objects: Seq<Object>,
    n: int,
    cursors: Map<u8, Point2>,
    group: Group,
) -> Seq<(ObjectId, Point2)>
    decreases n,
{
    if n <= 0 {
        Seq::empty()
    } else {
        let before = hits_among(objects, n - 1, cursors, group);
        if is_hit(objects[n - 1], cursors, group) {
            before.push(((n - 1) as usize, cursors[group.0]))
        } else {
            before
        }
    }
}

/// The objects under the pointer, group by group: each group in which the
/// pointer is over some object, with those objects in the order of the
/// registry.
pub open spec fn hit_lists(objects: Seq<Object>, cursors: Map<u8, Point2>) -> Map<
    u8,
    Seq<(ObjectId, Point2)>,
> {
    Map::new(
        |g: u8| hits_among(objects, objects.len() as int, cursors, Group(g)).len() > 0,
        |g: u8| hits_among(objects, objects.len() as int, cursors, Group(g)),
    )
}

/// An object is listed exactly when the pointer is over it, and then with the
/// pointer's position.
pub proof fn lemma_hits_listed(
    objects: Seq<Object>,
    n: int,
    cursors: Map<u8, Point2>,
    group: Group,
    id: ObjectId,
    position: Point2,
)
    requires
        0 <= n <= objects.len(),
        n <= usize::MAX,
    ensures
        hits_among(objects, n, cursors, group).contains((id, position)) <==> {
            &&& id < n
            &&& is_hit(objects[id as int], cursors, group)
            &&& position == cursors[group.0]
        },
    decreases n,
{
    if n > 0 {
        lemma_hits_listed(objects, n - 1, cursors, group, id, position);
        let before = hits_among(objects, n - 1, cursors, group);
        if is_hit(objects[n - 1], cursors, group) {
            let entry: (ObjectId, Point2) = ((n - 1) as usize, cursors[group.0]);
            let after = before.push(entry);
            assert(after.last() == entry);
            if after.contains((id, position)) {
                let k: int = choose|k: int| 0 <= k < after.len() && after[k] == (id, position);
                if k < before.len() {
                    assert(before[k] == (id, position));
                }
            }
            if before.contains((id, position)) {
                let k: int = choose|k: int| 0 <= k < before.len() && before[k] == (id, position);
                assert(after[k] == (id, position));
            }
        }
    }
}

/// An interactable object of unit scale is listed for a group of its own
/// exactly when the group's pointer lies inside the object's area, measured
/// from the object's position: at or beyond the minimum corner and short of
/// the maximum corner. With the pointer on a maximum edge it is not listed.
pub proof fn lemma_pointer_inside_is_listed(
    objects: Seq<Object>,
    cursors: Map<u8, Point2>,
    group: Group,
    id: ObjectId,
)
    requires
        id < objects.len() <= usize::MAX,
        objects[id as int].interactable is Some,
        objects[id as int].interactable->0.groups@.contains(group),
        objects[id as int].world().scale == Scale2::one(),
        cursors.contains_key(group.0),
    ensures
        ({
            let area = objects[id as int].interactable->0.bounding_box;
            let at = objects[id as int].world().translation;
            let cursor = cursors[group.0];
            let listed = hits_among(objects, objects.len() as int, cursors, group).contains(
                (id, cursor),
            );
            &&& listed <==> {
                &&& area.0.x <= cursor.x - at.x < area.1.x
                &&& area.0.y <= cursor.y - at.y < area.1.y
            }
            &&& cursor.x - at.x == area.1.x ==> !listed
            &&& cursor.y - at.y == area.1.y ==> !listed
        }),
{
    lemma_hits_listed(objects, objects.len() as int, cursors, group, id, cursors[group.0]);
    lemma_covers_at_unit_scale(
        objects[id as int].interactable->0.bounding_box,
        objects[id as int].world(),
        cursors[group.0],
    );
}

/// The list follows the registry: identifiers grow strictly along it, so no
/// object is listed twice.
pub proof fn lemma_hits_in_registry_order(
    objects: Seq<Object>,
    n: int,
    cursors: Map<u8, Point2>,
    group: Group,
)
    requires
        0 <= n <= objects.len(),
        n <= usize::MAX,
    ensures
        hits_among(objects, n, cursors, group).len() <= n,
        forall|k: int|
            0 <= k < hits_among(objects, n, cursors, group).len() ==> (#[trigger] hits_among(
                objects,
                n,
                cursors,
                group,
            )[k]).0 < n,
        forall|j: int, k: int|
            0 <= j < k < hits_among(objects, n, cursors, group).len() ==> (#[trigger] hits_among(
                objects,
                n,
                cursors,
                group,
            )[j]).0 < (#[trigger] hits_among(objects, n, cursors, group)[k]).0,
    decreases n,
{
    if n > 0 {
        lemma_hits_in_registry_order(objects, n - 1, cursors, group);
    }
}

/// The position recorded with the first entry for `id` among the first `n`
/// entries of `hits`, if there is one.
pub open spec fn hit_position_among(hits: Seq<(ObjectId, Point2)>, n: int, id: ObjectId) -> Option<
    Point2,
>
    decreases n,
{
    if n <= 0 {
        None
    } else {
        match hit_position_among(hits, n - 1, id) {
            Some(position) => Some(position),
            None => if hits[n - 1].0 == id {
                Some(hits[n - 1].1)
            } else {
                None
            },
        }
    }
}

/// The position recorded with the first entry for `id` in `hits`, if the
/// object is listed there.
pub open spec fn hit_position(hits: Seq<(ObjectId, Point2)>, id: ObjectId) -> Option<Point2> {
    hit_position_among(hits, hits.len() as int, id)
}

/// An object has a hit position exactly when it is listed, and the position
/// is that of its first entry.
pub proof fn lemma_hit_position(hits: Seq<(ObjectId, Point2)>, n: int, id: ObjectId)
    requires
        0 <= n <= hits.len(),
    ensures
        match hit_position_among(hits, n, id) {
            Some(position) => exists|k: int|
                0 <= k < n && #[trigger] hits[k] == (id, position) && forall|j: int|
                    0 <= j < k ==> (#[trigger] hits[j]).0 != id,
            None => forall|k: int| 0 <= k < n ==> (#[trigger] hits[k]).0 != id,
        },
    decreases n,
{
    if n > 0 {
        lemma_hit_position(hits, n - 1, id);
        if hit_position_among(hits, n - 1, id) is None && hits[n - 1].0 == id {
            assert(hits[n - 1] == (id, hits[n - 1].1));
        }
    }
}

/// Looks `id` up in a list of hits and returns the position recorded with its
/// first entry.
pub fn find_hit(hits: &Vec<(ObjectId, Point2)>, id: ObjectId) -> (found: Option<Point2>)
    ensures
        found == hit_position(hits@, id),
{
    let mut k: usize = 0;
    while k < hits.len()
        invariant
            k <= hits.len(),
            hit_position_among(hits@, k as int, id) is None,
        decreases hits.len() - k,
    {
        if hits[k].0 == id {
            proof {
                lemma_hit_position_stays(hits@, k + 1, hits@.len() as int, id);
            }
            return Some(hits[k].1);
        }
        k += 1;
    }
    None
}

/// Once an entry for `id` has been found, later entries change nothing.
pub proof fn lemma_hit_position_stays(hits: Seq<(ObjectId, Point2)>, k: int, n: int, id: ObjectId)
    requires
        k <= n,
        hit_position_among(hits, k, id) is Some,
    ensures
        hit_position_among(hits, n, id) == hit_position_among(hits, k, id),
    decreases n - k,
{
    if k < n {
        lemma_hit_position_stays(hits, k, n - 1, id);
    }
}

/// Where a group has no pointer position, nothing is under the pointer.
pub proof fn lemma_no_cursor_no_hits(
    objects: Seq<Object>,
    n: int,
    cursors: Map<u8, Point2>,
    group: Group,
)
    requires
        !cursors.contains_key(group.0),
    ensures
        hits_among(objects, n, cursors, group) == Seq::<(ObjectId, Point2)>::empty(),
    decreases n,
{
    if n > 0 {
        lemma_no_cursor_no_hits(objects, n - 1, cursors, group);
    }
}

/// Whether `group` is one of `groups`.
pub fn group_listed(groups: &Vec<Group>, group: Group) -> (listed: bool)
    ensures
        listed == groups@.contains(group),
{
    let mut k: usize = 0;
    while k < groups.len()
        invariant
            k <= groups.len(),
            forall|j: int| 0 <= j < k ==> groups@[j] != group,
        decreases groups.len() - k,
    {
        if groups[k].0 == group.0 {
            return true;
        }
        k += 1;
    }
    false
}

impl Object {
    /// Whether the pointer of `group`, which is at `cursor`, is over the object.
    pub fn is_under(&self, group: Group, cursor: Point2) -> (hit: bool)
        ensures
            hit == self.holds_pointer(group, cursor),
    {
        match &self.interactable {
            Some(area) => {
                if group_listed(&area.groups, group) {
                    let at: Placement = self.global_transform();
                    hit_test(&area.bounding_box, &at, cursor)
                } else {
                    false
                }
            },
            None => false,
        }
    }
}

fn collect_hits(scene: &Scene, cursors: &HashMap<u8, Point2>, group: Group, cursor: Point2) -> (list:
    Vec<(ObjectId, Point2)>)
    requires
        cursors@.contains_key(group.0),
        cursors@[group.0] == cursor,
    ensures
        list@ == hits_among(scene.objects@, scene.objects@.len() as int, cursors@, group),
{
    let mut list: Vec<(ObjectId, Point2)> = Vec::new();
    let mut i: usize = 0;
    while i < scene.objects.len()
        invariant
            i <= scene.objects.len(),
            cursors@.contains_key(group.0),
            cursors@[group.0] == cursor,
            list@ == hits_among(scene.objects@, i as int, cursors@, group),
        decreases scene.objects.len() - i,
    {
        if scene.objects[i].is_under(group, cursor) {
            list.push((i, cursor));
        }
        i += 1;
    }
    list
}

/// Finds the objects under the pointer, group by group.
///
/// The lists of the frame before are dropped. For each group that has a
/// pointer position, every interactable object of the group whose area holds
/// that position (minimum edges included, maximum edges not) is listed with
/// the position, in the order of the registry. Groups with nothing under the
/// pointer have no list.
pub fn interaction_system(state: &mut InteractionState, scene: &Scene)
    ensures
        final(state)@ == (Snapshot {
            lists: hit_lists(scene.objects@, old(state)@.cursors),
            ..old(state)@
        }),
{
    let mut lists: HashMap<u8, Vec<(ObjectId, Point2)>> = HashMap::new();
    let ghost objects: Seq<Object> = scene.objects@;
    let ghost total: int = scene.objects@.len() as int;
    let ghost cursors: Map<u8, Point2> = state.cursor_positions@;
    let mut next: u16 = 0;
    while next < 256
        invariant
            next <= 256,
            objects == scene.objects@,
            total == scene.objects@.len(),
            cursors == state.cursor_positions@,
            *state == *old(state),
            forall|g: u8|
                g < next ==> (#[trigger] lists@.contains_key(g) <==> hits_among(
                    objects,
                    total,
                    cursors,
                    Group(g),
                ).len() > 0),
            forall|g: u8|
                g < next && #[trigger] lists@.contains_key(g) ==> lists@[g]@ == hits_among(
                    objects,
                    total,
                    cursors,
                    Group(g),
                ),
            forall|g: u8| g >= next ==> !#[trigger] lists@.contains_key(g),
        decreases 256 - next,
    {
        let key: u8 = next as u8;
        match state.cursor_positions.get(&key) {
            Some(cursor) => {
                let list: Vec<(ObjectId, Point2)> = collect_hits(
                    scene,
                    &state.cursor_positions,
                    Group(key),
                    *cursor,
                );
                if list.len() > 0 {
                    lists.insert(key, list);
                }
            },
            None => {
                proof {
                    lemma_no_cursor_no_hits(objects, total, cursors, Group(key));
                }
            },
        }
        next += 1;
    }
    state.ordered_interact_list_map = lists;
    assert(state@.lists =~= hit_lists(objects, cursors));
}

/// The pointer's part of a frame: where the pointer is, and what is under it.
pub struct InteractionPlugin;

/// What the pointer's part of a frame leaves in the state: the pointer's
/// position per group, and the objects under it, or the fault in the setup of
/// the sources.
pub open spec fn frame_snapshot(
    before: Snapshot,
    objects: Seq<Object>,
    cursor_moved: Seq<CursorMoved>,
    sources: Seq<PointerSource>,
    window: Point2,
) -> Result<Snapshot, ConfigError> {
    let latest = latest_cursor(before.last_window_id, before.last_cursor_position, cursor_moved);
    match resolve_sources(sources, sources.len() as int, window, latest.1) {
        Ok(cursors) => Ok(
            Snapshot {
                cursors,
                lists: hit_lists(objects, cursors),
                last_window_id: latest.0,
                last_cursor_position: latest.1,
            },
        ),
        Err(e) => Err(e),
    }
}

impl InteractionPlugin {
    /// Runs the pointer's part of a frame: works out the pointer's world
    /// position for every group, then finds the objects under it. Where the
    /// sources are set up wrongly the fault is returned; the state then holds
    /// no pointer position and the lists of the frame before.
    pub fn update(
        state: &mut InteractionState,
        cursor_moved: &Vec<CursorMoved>,
        sources: &Vec<PointerSource>,
        window: Point2,
        scene: &Scene,
    ) -> (result: Result<(), ConfigError>)
        ensures
            match frame_snapshot(old(state)@, scene.objects@, cursor_moved@, sources@, window) {
                Ok(snapshot) => result is Ok && final(state)@ == snapshot,
                Err(e) => {
                    let latest = latest_cursor(
                        old(state)@.last_window_id,
                        old(state)@.last_cursor_position,
                        cursor_moved@,
                    );
                    &&& result == Err::<(), ConfigError>(e)
                    &&& final(state)@ == (Snapshot {
                        cursors: Map::empty(),
                        lists: old(state)@.lists,
                        last_window_id: latest.0,
                        last_cursor_position: latest.1,
                    })
                },
            },
    {
        match interaction_state_system(state, cursor_moved, sources, window) {
            Ok(()) => {
                interaction_system(state, scene);
                Ok(())
            },
            Err(e) => Err(e),
        }
    }
}

} // verus!
