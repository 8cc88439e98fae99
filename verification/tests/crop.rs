//! Crops, tiles and where detections in them lie.

use reco::binary::single::Single;
use reco::camera::CameraId;
use reco::crop::CropRegion;
use reco::detection::Detection;
use reco::recovery::CameraRecoveryState;

fn f(x: f32) -> Single {
    Single::from_bits(x.to_bits())
}

fn v(x: Single) -> f32 {
    f32::from_bits(x.to_bits())
}

fn detection(center_x: f32, center_y: f32, confidence: f32) -> Detection {
    Detection {
        camera: CameraId::Left,
        class_id: 32,
        confidence: f(confidence),
        center_x: f(center_x),
        center_y: f(center_y),
        width: f(0.1),
        height: f(0.2),
    }
}

#[test]
fn centered_crop_is_even_and_clamped_at_frame_edges() {
    let top_left = CropRegion::centered(3840, 2160, f(0.5), (f(0.0), f(0.0)));
    assert_eq!(
        top_left,
        CropRegion {
            x: 0,
            y: 0,
            width: 1920,
            height: 1080,
        }
    );

    let bottom_right = CropRegion::centered(3840, 2160, f(0.5), (f(1.0), f(1.0)));
    assert_eq!(
        bottom_right,
        CropRegion {
            x: 1920,
            y: 1080,
            width: 1920,
            height: 1080,
        }
    );
    assert_eq!(bottom_right.x % 2, 0);
    assert_eq!(bottom_right.y % 2, 0);
}

#[test]
fn tiled_search_covers_full_frame_with_overlap() {
    let tiles = CropRegion::tiled_2x2(3840, 2160);
    assert_eq!(
        tiles[0],
        CropRegion {
            x: 0,
            y: 0,
            width: 2560,
            height: 1440
        }
    );
    assert_eq!(
        tiles[3],
        CropRegion {
            x: 1280,
            y: 720,
            width: 2560,
            height: 1440
        }
    );
    assert!(tiles[0].x + tiles[0].width > tiles[1].x);
    assert!(tiles[0].y + tiles[0].height > tiles[2].y);
}

#[test]
fn crop_detection_remaps_to_full_frame_coordinates() {
    let crop = CropRegion {
        x: 960,
        y: 540,
        width: 1920,
        height: 1080,
    };
    let mapped = crop.remap(detection(0.5, 0.5, 0.8), 3840, 2160);
    assert!((v(mapped.center_x) - 0.5).abs() < 1e-6);
    assert!((v(mapped.center_y) - 0.5).abs() < 1e-6);
    assert!((v(mapped.width) - 0.05).abs() < 1e-6);
    assert!((v(mapped.height) - 0.1).abs() < 1e-6);
}

#[test]
fn recovery_state_prefers_candidate_nearest_prediction() {
    let mut state = CameraRecoveryState {
        last_center: Some((f(0.25), f(0.5))),
        velocity: (f(0.01), f(0.0)),
        misses: 0,
    };
    let nearby = detection(0.27, 0.5, 0.6);
    let distant_high_confidence = detection(0.9, 0.5, 0.99);
    state.observe(&[distant_high_confidence, nearby], 32);
    assert_eq!(state.last_center, Some((nearby.center_x, nearby.center_y)));
    assert_eq!(state.misses, 0);
}

#[test]
fn recovery_prediction_advances_across_misses() {
    let state = CameraRecoveryState {
        last_center: Some((f(0.4), f(0.5))),
        velocity: (f(0.01), f(-0.02)),
        misses: 2,
    };
    let predicted = state.predicted_center().unwrap();
    assert!((v(predicted.0) - 0.43).abs() < 1e-6);
    assert!((v(predicted.1) - 0.44).abs() < 1e-6);
}

#[test]
fn recovery_velocity_is_normalized_by_elapsed_frames() {
    let mut state = CameraRecoveryState {
        last_center: Some((f(0.4), f(0.5))),
        velocity: (f(0.0), f(0.0)),
        misses: 3,
    };
    state.observe(&[detection(0.44, 0.46, 0.8)], 32);
    assert!((v(state.velocity.0) - 0.01).abs() < 1e-6);
    assert!((v(state.velocity.1) + 0.01).abs() < 1e-6);
}

#[test]
fn rejected_candidate_does_not_mutate_recovery_state() {
    let state = CameraRecoveryState {
        last_center: Some((f(0.4), f(0.5))),
        velocity: (f(0.01), f(0.0)),
        misses: 3,
    };
    let before = state;
    let _candidate = detection(0.9, 0.1, 0.99);
    assert_eq!(state.last_center, before.last_center);
    assert_eq!(state.velocity, before.velocity);
    assert_eq!(state.misses, before.misses);
}

#[test]
fn tiles_cover_every_even_frame_and_overlap_in_most() {
    for side in (2..200u32).step_by(2) {
        let tiles = CropRegion::tiled_2x2(side, side);
        for place in 0..side {
            assert!(tiles.iter().any(|t| t.x <= place && place < t.x + t.width));
            assert!(tiles.iter().any(|t| t.y <= place && place < t.y + t.height));
        }
        let touching = side == 4 || side == 5 || side == 8;
        assert_eq!(tiles[0].width > tiles[1].x, !touching, "{side}");
    }
}

#[test]
fn crops_are_even_and_inside_for_every_centre() {
    for (width, height) in [(3840, 2160), (101, 57), (2, 2), (1, 1)] {
        for step in 0..=10 {
            let centre = (f(step as f32 / 10.0), f(1.2 - step as f32 / 5.0));
            for ratio in [0.5f32, 2.0 / 3.0, 5.0 / 6.0, 2.0] {
                let r = CropRegion::centered(width, height, f(ratio), centre);
                assert!([r.x, r.y, r.width, r.height].iter().all(|n| n % 2 == 0));
                assert!(r.x + r.width <= width.max(2) && r.y + r.height <= height.max(2));
            }
        }
    }
}

#[test]
fn mapped_centres_stay_in_the_frame() {
    let region = CropRegion { x: 1280, y: 720, width: 2560, height: 1440 };
    for step in 0..=100 {
        let at = step as f32 / 100.0;
        let mapped = region.remap(detection(at, at, 0.5), 3840, 2160);
        assert!((0.0..=1.0).contains(&v(mapped.center_x)));
        assert!((0.0..=1.0).contains(&v(mapped.center_y)));
        assert_eq!(mapped.confidence, f(0.5));
    }
}

#[test]
fn mapped_centres_lie_between_the_ends_of_the_region() {
    for (x, width, side) in [(1280u32, 640u32, 3840u32), (333, 1001, 1921), (0, 7, 4096)] {
        let region = CropRegion { x, y: x, width, height: width };
        let near = x as f32 / side as f32;
        let far = (x as f32 + width as f32) / side as f32;
        for step in 0..=100 {
            let at = step as f32 / 100.0;
            let mapped = region.remap(detection(at, at, 0.5), side, side);
            assert!((near..=far).contains(&v(mapped.center_x)));
            assert!((near..=far).contains(&v(mapped.center_y)));
        }
        let first = region.remap(detection(0.0, 1.0, 0.5), side, side);
        assert_eq!((v(first.center_x), v(first.center_y)), (near, far));
    }
}

#[test]
fn the_whole_frame_maps_to_itself() {
    let whole = CropRegion { x: 0, y: 0, width: 1921, height: 1081 };
    for step in 0..=100 {
        let at = step as f32 / 100.0;
        let seen = detection(at, 1.0 - at, 0.5);
        let mapped = whole.remap(seen, 1921, 1081);
        assert!((v(mapped.center_x) - at).abs() <= at / 2097152.0);
        assert!((v(mapped.center_y) - (1.0 - at)).abs() <= (1.0 - at) / 2097152.0);
        assert_eq!((mapped.width, mapped.height), (seen.width, seen.height));
    }
    let mut endless = detection(0.5, 0.5, 0.5);
    endless.width = f(f32::INFINITY);
    endless.height = f(f32::NEG_INFINITY);
    let mapped = whole.remap(endless, 1921, 1081);
    assert_eq!((mapped.width, mapped.height), (endless.width, endless.height));
}
