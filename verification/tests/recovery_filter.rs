//! Which candidates count as on the field, and which one is chosen.

use reco::binary::double::Double;
use reco::binary::single::Single;
use reco::camera::CameraId;
use reco::detection::Detection;
use reco::recovery_filter::choose_candidate;
use reco::roi::{ball_inside_roi, non_ball_inside_roi, FieldRoi};

fn f(x: f32) -> Single {
    Single::from_bits(x.to_bits())
}

fn v(x: Single) -> f32 {
    f32::from_bits(x.to_bits())
}

fn d(x: f64) -> Double {
    Double::from_bits(x.to_bits())
}

fn point(p: [f64; 2]) -> [Double; 2] {
    [d(p[0]), d(p[1])]
}

fn outline(points: &[[f64; 2]]) -> Vec<[Double; 2]> {
    points.iter().map(|p| point(*p)).collect()
}

/// Counts the edges that a ray to the right crosses.
fn point_in_polygon(p: [Double; 2], polygon: &Vec<[Double; 2]>) -> bool {
    let x = f64::from_bits(p[0].to_bits());
    let y = f64::from_bits(p[1].to_bits());
    let mut inside = false;
    let mut j = polygon.len() - 1;
    for i in 0..polygon.len() {
        let (xi, yi) = (
            f64::from_bits(polygon[i][0].to_bits()),
            f64::from_bits(polygon[i][1].to_bits()),
        );
        let (xj, yj) = (
            f64::from_bits(polygon[j][0].to_bits()),
            f64::from_bits(polygon[j][1].to_bits()),
        );
        if (yi > y) != (yj > y) && x < (xj - xi) * (y - yi) / (yj - yi) + xi {
            inside = !inside;
        }
        j = i;
    }
    inside
}

fn ball(camera: CameraId, x: f32, y: f32, confidence: f32) -> Detection {
    Detection {
        camera,
        class_id: 32,
        confidence: f(confidence),
        center_x: f(x),
        center_y: f(y),
        width: f(0.01),
        height: f(0.01),
    }
}

#[test]
fn center_roi_test_allows_airborne_candidate_to_be_classified_outside() {
    let roi = FieldRoi {
        left: outline(&[[0.2, 0.2], [0.8, 0.2], [0.8, 0.8], [0.2, 0.8]]),
        right: vec![],
    };
    assert!(ball_inside_roi(&ball(CameraId::Left, 0.5, 0.5, 0.8), Some(&roi), &point_in_polygon));
    assert!(!ball_inside_roi(&ball(CameraId::Left, 0.5, 0.1, 0.8), Some(&roi), &point_in_polygon));
}

#[test]
fn candidate_choice_prefers_trajectory_over_confidence() {
    let near = ball(CameraId::Left, 0.51, 0.50, 0.55);
    let far = ball(CameraId::Left, 0.90, 0.90, 0.99);
    let candidates = [far, near];
    let chosen = choose_candidate(&candidates, Some((f(0.50), f(0.50)))).unwrap();
    assert!((v(chosen.center_x) - v(near.center_x)).abs() < f32::EPSILON);
}

#[test]
fn non_ball_player_anchor_keeps_original_bottom_policy() {
    let roi = FieldRoi {
        left: outline(&[[0.2, 0.2], [0.8, 0.2], [0.8, 0.8], [0.2, 0.8]]),
        right: vec![],
    };
    let player = Detection {
        camera: CameraId::Left,
        class_id: 0,
        confidence: f(0.9),
        center_x: f(0.5),
        center_y: f(0.7),
        width: f(0.1),
        height: f(0.3),
    };
    assert!(!non_ball_inside_roi(&player, Some(&roi), 0, &point_in_polygon));
}

#[test]
fn balls_are_placed_by_camera_and_centre_alone() {
    let field = outline(&[[0.2, 0.2], [0.8, 0.2], [0.8, 0.8], [0.2, 0.8]]);
    let far = outline(&[[0.9, 0.9], [1.0, 0.9], [1.0, 1.0]]);
    let first = FieldRoi { left: field.clone(), right: far };
    let second = FieldRoi { left: field, right: vec![] };
    for (x, y, on_field) in [(0.5, 0.5, true), (0.5, 0.1, false), (0.95, 0.95, false)] {
        let seen = ball(CameraId::Left, x, y, 0.8);
        let mut other = ball(CameraId::Left, x, y, 0.1);
        other.class_id = 7;
        other.width = f(0.4);
        other.height = f(0.9);
        assert_eq!(ball_inside_roi(&seen, Some(&first), &point_in_polygon), on_field);
        assert_eq!(ball_inside_roi(&other, Some(&second), &point_in_polygon), on_field);
        // Anything but a person is placed as a ball is.
        assert_eq!(non_ball_inside_roi(&other, Some(&first), 0, &point_in_polygon), on_field);
        assert!(non_ball_inside_roi(&other, None, 0, &point_in_polygon));
        let right = ball(CameraId::Right, x, y, 0.8);
        assert!(ball_inside_roi(&right, Some(&second), &point_in_polygon));
    }
}

#[test]
fn persons_are_placed_by_feet_and_knees() {
    let roi = FieldRoi {
        left: outline(&[[0.2, 0.2], [0.8, 0.2], [0.8, 0.8], [0.2, 0.8]]),
        right: vec![],
    };
    for (y, on_field) in [(0.15, true), (0.5, true), (0.7, false), (0.0, false)] {
        let mut person = ball(CameraId::Left, 0.5, y, 0.9);
        person.class_id = 0;
        person.height = f(0.4);
        assert_eq!(non_ball_inside_roi(&person, Some(&roi), 0, &point_in_polygon), on_field);
    }
}
