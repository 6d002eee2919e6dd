use retro_2d::world::clothes::{
    interact_with_items, interact_with_no_hover, update_rope_position, wrap_follower,
};
use retro_2d::{
    ButtonInput, Group, ImageAsset, ImageHandle, InteractionState, ItemState, Object, Point2,
    Rope, Scene, Sprite,
};

const PRESS: ButtonInput = ButtonInput { pressed: true, just_pressed: true, just_released: false };
const HOLD: ButtonInput = ButtonInput { pressed: true, just_pressed: false, just_released: false };
const RELEASE: ButtonInput = ButtonInput { pressed: false, just_pressed: false, just_released: true };
const IDLE: ButtonInput = ButtonInput { pressed: false, just_pressed: false, just_released: false };

const NORMAL: ImageHandle = ImageHandle(10);
const GLOW: ImageHandle = ImageHandle(11);
const SELECTED: ImageHandle = ImageHandle(12);

fn image(handle: ImageHandle) -> ImageAsset {
    ImageAsset { handle, width: 64, height: 64 }
}

fn item(is_glowing: bool, is_dragging: bool, is_selected: bool) -> ItemState {
    ItemState {
        normal: image(NORMAL),
        glow: image(GLOW),
        selected: image(SELECTED),
        is_glowing,
        is_dragging,
        is_selected,
    }
}

fn flags(item: &ItemState) -> (bool, bool, bool) {
    (item.is_glowing, item.is_dragging, item.is_selected)
}

fn step(glowing: bool, dragging: bool, selected: bool, shown: ImageHandle, hit: bool, button: ButtonInput)
    -> ((bool, bool, bool), ImageHandle) {
    let mut it = item(glowing, dragging, selected);
    let mut sprite = Sprite { image: shown };
    it.react(&mut sprite, hit, &button);
    assert_eq!(it.normal, image(NORMAL));
    assert_eq!(it.glow, image(GLOW));
    assert_eq!(it.selected, image(SELECTED));
    (flags(&it), sprite.image)
}

fn item_object(at: Point2) -> Object {
    let mut object = Object::new(at);
    object.item = Some(item(false, false, false));
    object.sprite = Some(Sprite { image: NORMAL });
    object
}

fn hits(group: u8, ids: &[usize]) -> InteractionState {
    let mut state = InteractionState::new();
    state.cursor_positions.insert(group, Point2::new(0, 0));
    if !ids.is_empty() {
        state
            .ordered_interact_list_map
            .insert(group, ids.iter().map(|id| (*id, Point2::new(0, 0))).collect());
    }
    state
}

#[test]
fn press_on_item_selects_it() {
    assert_eq!(step(true, false, false, GLOW, true, PRESS), ((true, true, true), SELECTED));
}

#[test]
fn selection_wins_over_glow_in_the_frame_of_selection() {
    assert_eq!(step(false, false, false, NORMAL, true, PRESS), ((true, true, true), SELECTED));
}

#[test]
fn press_elsewhere_deselects() {
    assert_eq!(step(true, false, true, SELECTED, false, PRESS), ((false, false, false), NORMAL));
    assert_eq!(step(false, false, true, SELECTED, false, PRESS), ((false, false, false), NORMAL));
    assert_eq!(step(false, false, false, NORMAL, false, PRESS), ((false, false, false), NORMAL));
}

#[test]
fn press_on_selected_item_keeps_it_selected() {
    assert_eq!(step(true, true, true, SELECTED, true, PRESS), ((true, true, true), SELECTED));
}

#[test]
fn hover_makes_the_item_glow() {
    assert_eq!(step(false, false, false, NORMAL, true, IDLE), ((true, false, false), GLOW));
    assert_eq!(step(true, false, false, GLOW, true, IDLE), ((true, false, false), GLOW));
}

#[test]
fn leaving_the_item_ends_the_glow() {
    assert_eq!(step(true, false, false, GLOW, false, IDLE), ((false, false, false), NORMAL));
}

#[test]
fn selected_item_keeps_its_image_under_the_pointer() {
    assert_eq!(step(false, false, true, SELECTED, true, IDLE), ((true, false, true), SELECTED));
    assert_eq!(step(true, false, true, SELECTED, false, IDLE), ((true, false, true), SELECTED));
    assert_eq!(step(false, false, true, SELECTED, false, IDLE), ((false, false, true), SELECTED));
}

#[test]
fn holding_the_button_on_the_item_starts_dragging() {
    assert_eq!(step(true, false, false, GLOW, true, HOLD), ((true, true, false), GLOW));
    assert_eq!(step(true, false, false, GLOW, false, HOLD).0, (false, false, false));
    assert_eq!(step(true, true, false, GLOW, true, HOLD).0, (true, true, false));
}

#[test]
fn release_ends_dragging() {
    assert_eq!(step(true, true, true, SELECTED, true, RELEASE), ((true, false, true), SELECTED));
    assert_eq!(step(false, true, false, NORMAL, false, RELEASE), ((false, false, false), NORMAL));
}

#[test]
fn press_and_release_together() {
    let both = ButtonInput { pressed: true, just_pressed: true, just_released: true };
    assert_eq!(step(false, false, false, NORMAL, true, both).0, (true, true, true));
    assert_eq!(step(false, true, false, NORMAL, true, both).0, (true, false, true));
}

#[test]
fn shown_image_follows_the_flags() {
    for glowing in [false, true] {
        for selected in [false, true] {
            for hit in [false, true] {
                for button in [PRESS, HOLD, RELEASE, IDLE] {
                    let shown = if selected { SELECTED } else if glowing { GLOW } else { NORMAL };
                    let ((g, _, s), image) = step(glowing, false, selected, shown, hit, button);
                    let due = if s { SELECTED } else if g { GLOW } else { NORMAL };
                    assert_eq!(image, due);
                }
            }
        }
    }
}

#[test]
fn items_react_to_the_hits_of_their_group() {
    let mut scene = Scene::new();
    let a = scene.spawn(item_object(Point2::new(0, 0)));
    let b = scene.spawn(item_object(Point2::new(500, 0)));
    let plain = scene.spawn(Object::new(Point2::new(0, 0)));
    let state = hits(1, &[a, plain]);
    interact_with_items(&state, &PRESS, Group(1), &mut scene);
    assert_eq!(flags(&scene.objects[a].item.unwrap()), (true, true, true));
    assert_eq!(scene.objects[a].sprite, Some(Sprite { image: SELECTED }));
    assert_eq!(flags(&scene.objects[b].item.unwrap()), (false, false, false));
    assert_eq!(scene.objects[b].sprite, Some(Sprite { image: NORMAL }));
    assert_eq!(scene.objects[plain].item, None);
    assert_eq!(scene.objects[plain].sprite, None);
    let state = hits(1, &[b]);
    interact_with_items(&state, &IDLE, Group(1), &mut scene);
    assert_eq!(flags(&scene.objects[a].item.unwrap()), (true, true, true));
    assert_eq!(scene.objects[a].sprite, Some(Sprite { image: SELECTED }));
    assert_eq!(flags(&scene.objects[b].item.unwrap()), (true, false, false));
    assert_eq!(scene.objects[b].sprite, Some(Sprite { image: GLOW }));
    interact_with_items(&state, &PRESS, Group(2), &mut scene);
    assert_eq!(flags(&scene.objects[a].item.unwrap()), (false, true, false));
    assert_eq!(flags(&scene.objects[b].item.unwrap()), (false, false, false));
}

#[test]
fn item_without_sprite_is_left_alone() {
    let mut scene = Scene::new();
    let mut object = item_object(Point2::new(0, 0));
    object.sprite = None;
    let id = scene.spawn(object);
    interact_with_items(&hits(1, &[id]), &PRESS, Group(1), &mut scene);
    assert_eq!(flags(&scene.objects[id].item.unwrap()), (false, false, false));
    let mut object = Object::new(Point2::new(0, 0));
    object.sprite = Some(Sprite { image: GLOW });
    let id = scene.spawn(object);
    interact_with_items(&hits(1, &[id]), &PRESS, Group(1), &mut scene);
    assert_eq!(scene.objects[id].sprite, Some(Sprite { image: GLOW }));
}

#[test]
fn press_on_empty_space_clears_every_item() {
    let mut scene = Scene::new();
    let mut first = item_object(Point2::new(0, 0));
    first.item = Some(item(true, true, true));
    first.sprite = Some(Sprite { image: SELECTED });
    let mut second = item_object(Point2::new(9, 9));
    second.item = Some(item(true, false, false));
    second.sprite = None;
    let a = scene.spawn(first);
    let b = scene.spawn(second);
    let c = scene.spawn(Object::new(Point2::new(0, 0)));
    interact_with_no_hover(&hits(1, &[]), &PRESS, Group(1), &mut scene);
    assert_eq!(flags(&scene.objects[a].item.unwrap()), (false, true, false));
    assert_eq!(scene.objects[a].sprite, Some(Sprite { image: SELECTED }));
    assert_eq!(flags(&scene.objects[b].item.unwrap()), (false, false, false));
    assert_eq!(scene.objects[c].item, None);
    interact_with_items(&hits(1, &[]), &PRESS, Group(1), &mut scene);
    assert_eq!(scene.objects[a].sprite, Some(Sprite { image: NORMAL }));
}

#[test]
fn press_with_something_under_the_pointer_clears_nothing() {
    let mut scene = Scene::new();
    let mut first = item_object(Point2::new(0, 0));
    first.item = Some(item(true, false, true));
    let a = scene.spawn(first);
    let other = scene.spawn(Object::new(Point2::new(0, 0)));
    interact_with_no_hover(&hits(1, &[other]), &PRESS, Group(1), &mut scene);
    assert_eq!(flags(&scene.objects[a].item.unwrap()), (true, false, true));
    interact_with_no_hover(&hits(2, &[other]), &PRESS, Group(2), &mut scene);
    assert_eq!(flags(&scene.objects[a].item.unwrap()), (true, false, true));
}

#[test]
fn empty_space_without_press_clears_nothing() {
    let mut scene = Scene::new();
    let mut first = item_object(Point2::new(0, 0));
    first.item = Some(item(true, false, true));
    let a = scene.spawn(first);
    for button in [HOLD, RELEASE, IDLE] {
        interact_with_no_hover(&hits(1, &[]), &button, Group(1), &mut scene);
        assert_eq!(flags(&scene.objects[a].item.unwrap()), (true, false, true));
    }
}

#[test]
fn follower_far_to_the_right_wraps_into_the_window() {
    assert_eq!(wrap_follower(0, 5000, 3600), 1400);
}

#[test]
fn follower_window_is_open_on_the_left_and_closed_on_the_right() {
    assert_eq!(wrap_follower(0, 1800, 3600), 1800);
    assert_eq!(wrap_follower(0, -1800, 3600), 1800);
    assert_eq!(wrap_follower(0, 1801, 3600), -1799);
    assert_eq!(wrap_follower(0, -1799, 3600), -1799);
    assert_eq!(wrap_follower(0, 0, 3600), 0);
    assert_eq!(wrap_follower(0, 3600, 3600), 0);
    assert_eq!(wrap_follower(0, -3600, 3600), 0);
    assert_eq!(wrap_follower(0, -5000, 3600), -1400);
    assert_eq!(wrap_follower(0, 360_000_000_000 + 7, 3600), 7);
}

#[test]
fn follower_stays_in_the_window_for_every_offset() {
    for offset in -8000..8000 {
        let x = wrap_follower(100, offset, 3600);
        assert!(x > 100 - 1800 && x <= 100 + 1800);
        assert_eq!((100 + offset - x).rem_euclid(3600), 0);
    }
}

#[test]
fn follower_window_with_odd_span() {
    assert_eq!(wrap_follower(0, 2, 5), 2);
    assert_eq!(wrap_follower(0, 3, 5), -2);
    assert_eq!(wrap_follower(0, -2, 5), -2);
    assert_eq!(wrap_follower(0, -3, 5), 2);
    assert_eq!(wrap_follower(0, 7, 1), 0);
}

#[test]
fn follower_moves_with_the_leader() {
    for leader in [-100_000i64, -1801, -1, 0, 1, 1799, 1800, 1801, 3600, 99_999] {
        assert_eq!(wrap_follower(leader, 5000, 3600), leader + 1400);
        assert_eq!(wrap_follower(leader, -1800, 3600), leader + 1800);
    }
}

#[test]
fn neighbouring_followers_tile_the_strip() {
    let start = -256_000;
    let places: Vec<i64> = (0..9).map(|i| wrap_follower(0, start + i * 400, 3600)).collect();
    let mut sorted = places.clone();
    sorted.sort();
    for pair in sorted.windows(2) {
        assert_eq!(pair[1] - pair[0], 400);
    }
    for i in 0..8 {
        let step = places[i + 1] - places[i];
        assert!(step == 400 || step == 400 - 3600);
    }
}

#[test]
fn follower_window_of_the_widest_strips() {
    assert_eq!(wrap_follower(0, i64::MAX, u64::MAX), i64::MAX);
    assert_eq!(wrap_follower(0, i64::MIN, u64::MAX), i64::MAX);
    assert_eq!(wrap_follower(0, i64::MIN + 1, u64::MAX), i64::MIN + 1);
    assert_eq!(wrap_follower(0, i64::MIN, 1 << 63), 0);
    assert_eq!(wrap_follower(-1, i64::MIN, u64::MAX), i64::MAX - 1);
}

#[test]
fn follower_position_is_pinned_to_the_range() {
    assert_eq!(wrap_follower(i64::MAX, 10, 3600), i64::MAX);
    assert_eq!(wrap_follower(i64::MIN, -10, 3600), i64::MIN);
    assert_eq!(wrap_follower(i64::MAX, 1800, 3600), i64::MAX);
    assert_eq!(wrap_follower(i64::MIN, 1801, 3600), i64::MIN);
}

fn leader_and_followers() -> (Scene, usize, Vec<usize>) {
    let mut scene = Scene::new();
    let leader = scene.spawn(item_object(Point2::new(0, 0)));
    let mut followers = Vec::new();
    for i in 0..9 {
        let offset = Point2::new(5000 + i * 400, 12);
        let mut follower = Object::new(offset);
        follower.depth = 1;
        follower.rope = Some(Rope { attached_to: leader, offset });
        followers.push(scene.spawn(follower));
    }
    (scene, leader, followers)
}

#[test]
fn followers_are_placed_around_the_leader() {
    let (mut scene, leader, followers) = leader_and_followers();
    update_rope_position(&mut scene, 400, 9);
    let xs: Vec<i64> = followers.iter().map(|id| scene.objects[*id].transform.translation.x).collect();
    assert_eq!(xs, vec![1400, 1800, -1400, -1000, -600, -200, 200, 600, 1000]);
    for id in &followers {
        assert_eq!(scene.objects[*id].transform.translation.y, 12);
        assert_eq!(scene.objects[*id].depth, 1);
    }
    assert_eq!(scene.objects[leader].transform.translation, Point2::new(0, 0));
    scene.objects[leader].transform.translation = Point2::new(-777, 50);
    update_rope_position(&mut scene, 400, 9);
    let moved: Vec<i64> = followers.iter().map(|id| scene.objects[*id].transform.translation.x).collect();
    assert_eq!(moved, xs.iter().map(|x| x - 777).collect::<Vec<i64>>());
    for id in &followers {
        assert_eq!(scene.objects[*id].transform.translation.y, 62);
    }
}

#[test]
fn follower_without_leader_stays() {
    let mut scene = Scene::new();
    let plain = scene.spawn(Object::new(Point2::new(5, 5)));
    let mut rope_leader = item_object(Point2::new(6, 6));
    rope_leader.rope = Some(Rope { attached_to: 99, offset: Point2::new(0, 0) });
    let roped = scene.spawn(rope_leader);
    let mut ids = Vec::new();
    for target in [plain, roped, 99, 3] {
        let mut follower = Object::new(Point2::new(1, 2));
        follower.rope = Some(Rope { attached_to: target, offset: Point2::new(100, 100) });
        ids.push(scene.spawn(follower));
    }
    update_rope_position(&mut scene, 400, 9);
    for id in ids {
        assert_eq!(scene.objects[id].transform.translation, Point2::new(1, 2));
    }
    assert_eq!(scene.objects[roped].transform.translation, Point2::new(6, 6));
}

#[test]
fn follower_height_is_pinned_to_the_range() {
    let mut scene = Scene::new();
    let leader = scene.spawn(item_object(Point2::new(0, i64::MAX)));
    let mut follower = Object::new(Point2::new(0, 0));
    follower.rope = Some(Rope { attached_to: leader, offset: Point2::new(0, 5) });
    let id = scene.spawn(follower);
    update_rope_position(&mut scene, 400, 9);
    assert_eq!(scene.objects[id].transform.translation, Point2::new(0, i64::MAX));
}
