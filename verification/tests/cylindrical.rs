//! What the cylindrical renderer hands to its shader.

use reco::binary::double::Double;
use reco::binary::single::Single;
use reco::cylindrical::{
    camera_uniforms, matrix_columns, output_uv_to_yaw_pitch, yaw_pitch_to_output_uv, CameraParams,
    CylindricalRenderer, CylindricalStereoProjectionConfig, InputFormat, SceneView,
    UNIFORM_BYTES,
};

fn f(x: f32) -> Single {
    Single::from_bits(x.to_bits())
}

fn v(x: Single) -> f32 {
    f32::from_bits(x.to_bits())
}

fn d(x: f64) -> Double {
    Double::from_bits(x.to_bits())
}

fn tan(x: Single) -> Single {
    f(v(x).tan())
}

fn atan(x: Single) -> Single {
    f(v(x).atan())
}

fn config() -> CylindricalStereoProjectionConfig {
    CylindricalStereoProjectionConfig {
        yaw_span_rad: f(2.6),
        yaw_center_rad: f(0.1),
        vertical_fov_rad: f(1.1),
        blend_width: f(0.05),
    }
}

fn camera() -> CameraParams {
    CameraParams {
        width: 3840,
        height: 2160,
        fx: d(1920.123456789),
        fy: d(1080.5),
        cx: d(1919.5),
        cy: d(1079.5),
        d: [d(0.1), d(-0.02), d(1e-50), d(1e300)],
    }
}

fn matrix(from: f32) -> [Single; 16] {
    let mut m = [f(0.0); 16];
    for (i, x) in m.iter_mut().enumerate() {
        *x = f(from + i as f32);
    }
    m
}

#[test]
fn output_angle_roundtrip_across_grid() {
    let c = config();
    for y in 0..=16 {
        for x in 0..=32 {
            let uv = [x as f32 / 32.0, y as f32 / 16.0];
            let angles = output_uv_to_yaw_pitch([f(uv[0]), f(uv[1])], c, &tan, &atan);
            let b = yaw_pitch_to_output_uv(angles, c, &tan);
            let b = [v(b[0]), v(b[1])];
            assert!((uv[0] - b[0]).abs() < 1e-5 && (uv[1] - b[1]).abs() < 1e-5);
        }
    }
}

#[test]
fn the_middle_of_the_output_looks_straight_ahead() {
    let angles = output_uv_to_yaw_pitch([f(0.5), f(0.5)], config(), &tan, &atan);
    assert_eq!((v(angles[0]), v(angles[1])), (0.1, 0.0));
    let corner = output_uv_to_yaw_pitch([f(1.0), f(0.0)], config(), &tan, &atan);
    assert_eq!(v(corner[0]), 0.1 + 0.5 * 2.6);
    assert!((v(corner[1]) - 0.55).abs() < 1e-6);
}

#[test]
fn matrices_are_split_into_columns() {
    let columns = matrix_columns(&matrix(0.0));
    assert_eq!(columns[1].map(v), [4.0, 5.0, 6.0, 7.0]);
    assert_eq!(columns[3][3], f(15.0));
}

#[test]
fn cameras_are_described_in_shares_of_their_image() {
    let u = camera_uniforms(&matrix(1.0), &camera(), f(1.5), InputFormat::Bgra, true, false);
    assert_eq!(
        u.intrinsics.map(v),
        [
            1920.123456789f64 as f32 / 3840.0,
            1080.5f64 as f32 / 2160.0,
            1919.5f64 as f32 / 3840.0,
            1079.5f64 as f32 / 2160.0,
        ]
    );
    assert_eq!(u.dist.map(v), [0.1f64 as f32, -0.02f64 as f32, 0.0, f32::INFINITY]);
    assert_eq!(u.color_scale.map(v), [1.0, 1.0, 1.0, 0.0]);
    assert_eq!(u.color_offset.map(v), [0.0, 0.0, 0.0, 1.5]);
    assert_eq!(u.flags, [0, 2, 1, 0]);
    let u = camera_uniforms(&matrix(1.0), &camera(), f(1.5), InputFormat::Nv12, false, true);
    assert_eq!(u.flags, [0, 1, 0, 1]);
    let u = camera_uniforms(&matrix(1.0), &camera(), f(1.5), InputFormat::Yuv420p, false, false);
    assert_eq!(u.flags, [0, 0, 0, 0]);
}

#[test]
fn the_uniform_block_has_every_field_in_its_place() {
    let mut renderer = CylindricalRenderer::new(InputFormat::Nv12, config());
    renderer.set_flip_180(false, true);
    renderer.set_full_range(true);
    let scene = SceneView {
        camera_position: [f(7.0), f(8.0), f(9.0)],
        plane_aspect: f(16.0 / 9.0),
        left_inverse: matrix(0.0),
        right_inverse: matrix(100.0),
    };
    let uniforms = renderer.uniforms(&scene, &camera(), &camera(), &tan);
    let words = uniforms.to_words();
    assert_eq!(words.len(), 80);
    assert_eq!(words[5], 5.0f32.to_bits());
    assert_eq!(words[16], uniforms.left.intrinsics[0].to_bits());
    assert_eq!(words[20], uniforms.left.dist[0].to_bits());
    assert_eq!(words[24..28], [1.0f32, 1.0, 1.0, 0.0].map(f32::to_bits));
    assert_eq!(words[31], (16.0f32 / 9.0).to_bits());
    assert_eq!(words[32..36], [0, 1, 0, 1]);
    assert_eq!(words[36], 100.0f32.to_bits());
    assert_eq!(words[68..72], [0, 1, 1, 1]);
    assert_eq!(words[72..76], [7.0f32, 8.0, 9.0, 0.0].map(f32::to_bits));
    assert_eq!(words[76..80], [2.6f32, 0.1, (1.1f32 * 0.5).tan(), 0.05].map(f32::to_bits));

    let bytes = uniforms.to_bytes();
    assert_eq!(bytes.len(), UNIFORM_BYTES);
    let expected: Vec<u8> = words.iter().flat_map(|w| w.to_ne_bytes()).collect();
    assert_eq!(bytes, expected);
}

#[test]
fn narrowing_matches_the_machine() {
    let mut n: u64 = 0x1357_9bdf_0246_8ace;
    for i in 0..40000u64 {
        n ^= n << 13;
        n ^= n >> 7;
        n ^= n << 17;
        // Exponents around those of single precision, with ties now and then.
        let exponent = 0x3ff - 160 + (n >> 20) % 320;
        let mantissa = if i % 4 == 0 { n & 0x000f_ffff_f000_0000 } else { n & 0x000f_ffff_ffff_ffff };
        let x = f64::from_bits((n & (1 << 63)) | (exponent << 52) | mantissa);
        assert_eq!(Single::from_double(d(x)).to_bits(), (x as f32).to_bits(), "{x:e}");
    }
    for x in [0.0, -0.0, f64::INFINITY, f64::NEG_INFINITY, f64::MIN_POSITIVE, f64::MAX, 1e-45] {
        assert_eq!(Single::from_double(d(x)).to_bits(), (x as f32).to_bits(), "{x:e}");
    }
    assert!(Single::from_double(d(f64::NAN)).is_nan());
    assert_eq!(v(Single::from_double(Double::from_single(f(0.1)))), 0.1);
}
