use retro_2d::assets::{check_assets_loaded, DEFAULT_IMAGE_SIDE};
use retro_2d::{AppState, ImageAsset, ImageHandle, Images, LoadState, Retro2dAssets};

fn assets() -> Retro2dAssets {
    Retro2dAssets {
        cows_and_basket: ImageHandle(0),
        hoodie: ImageHandle(1),
        hoodie_glow: ImageHandle(2),
        hoodie_selected: ImageHandle(3),
        transparent_rope: ImageHandle(4),
    }
}

#[test]
fn loaded_image_has_its_own_size() {
    let images = Images { sizes: vec![None, Some((120, 80))] };
    let asset = ImageAsset::new(ImageHandle(1), &images);
    assert_eq!(asset, ImageAsset { handle: ImageHandle(1), width: 120, height: 80 });
    assert_eq!(images.get(ImageHandle(1)), Some((120, 80)));
}

#[test]
fn missing_image_has_the_default_size() {
    let images = Images { sizes: vec![None, Some((120, 80))] };
    assert_eq!(DEFAULT_IMAGE_SIDE, 64);
    let asset = ImageAsset::new(ImageHandle(0), &images);
    assert_eq!(asset, ImageAsset { handle: ImageHandle(0), width: 64, height: 64 });
    let asset = ImageAsset::new(ImageHandle(2), &images);
    assert_eq!(asset, ImageAsset { handle: ImageHandle(2), width: 64, height: 64 });
    assert_eq!(images.get(ImageHandle(0)), None);
    assert_eq!(images.get(ImageHandle(usize::MAX)), None);
}

#[test]
fn dimensions_fall_back_to_the_default() {
    let images = Images { sizes: vec![None, Some((120, 80))] };
    assert_eq!(assets().get_dimensions(ImageHandle(1), &images), (120, 80));
    assert_eq!(assets().get_dimensions(ImageHandle(0), &images), (64, 64));
    assert_eq!(assets().get_dimensions(ImageHandle(4), &images), (64, 64));
}

#[test]
fn handles_come_in_checking_order() {
    assert_eq!(
        assets().iter(),
        vec![ImageHandle(0), ImageHandle(2), ImageHandle(1), ImageHandle(3), ImageHandle(4)]
    );
}

#[test]
fn game_starts_when_everything_is_loaded() {
    let loaded = vec![Some(LoadState::Loaded); 5];
    assert_eq!(check_assets_loaded(&loaded, false), Some(AppState::Game));
    assert_eq!(check_assets_loaded(&loaded, true), Some(AppState::Game));
    assert_eq!(check_assets_loaded(&vec![], false), Some(AppState::Game));
}

#[test]
fn game_waits_for_pending_images() {
    for pending in [None, Some(LoadState::NotLoaded), Some(LoadState::Loading)] {
        let states = vec![Some(LoadState::Loaded), pending, Some(LoadState::Failed)];
        assert_eq!(check_assets_loaded(&states, false), None);
        assert_eq!(check_assets_loaded(&states, true), None);
    }
}

#[test]
fn failure_ends_the_wait_only_where_asked() {
    let states = vec![Some(LoadState::Loaded), Some(LoadState::Failed), Some(LoadState::Loading)];
    assert_eq!(check_assets_loaded(&states, false), None);
    assert_eq!(check_assets_loaded(&states, true), Some(AppState::Game));
}

#[test]
fn application_starts_by_loading() {
    assert_eq!(AppState::default(), AppState::AssetsLoading);
}
