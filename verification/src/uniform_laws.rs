//! What the shader is told of each camera comes from that camera.

use crate::binary::double::Double;
use crate::binary::integers::lemma_exact_integer;
use crate::binary::magnitude::lemma_pow2_le;
use crate::binary::nearness::{
    finite, lemma_natural_near, lemma_over_near, lemma_times_near, size, units,
};
use crate::binary::nearness64::{finite64, lemma_narrowed_near, units64};
use crate::binary::rounding::gap;
use crate::binary::single::Single;
use crate::cylindrical::{
    bits_of, half_tangent, share_of_side, CameraParams, CameraUniforms,
    CylindricalStereoProjectionConfig, CylindricalRenderer, InputFormat, SceneView, Uniforms, HALF,
};
use vstd::arithmetic::power2::{lemma2_to64, lemma_pow2_adds, lemma_pow2_pos, pow2};
use vstd::prelude::*;

verus! {

/// What one camera's part depends on: its plane, its calibration, and whether it stands
/// on its head; besides what both cameras share.
pub open spec fn same_camera(
    r: CylindricalRenderer,
    scene: SceneView,
    plane: [Single; 16],
    camera: CameraParams,
    flip: bool,
    other_r: CylindricalRenderer,
    other_scene: SceneView,
    other_plane: [Single; 16],
    other_camera: CameraParams,
    other_flip: bool,
) -> bool {
    &&& plane@ == other_plane@
    &&& camera == other_camera
    &&& flip == other_flip
    &&& scene.plane_aspect == other_scene.plane_aspect
    &&& r.input_format == other_r.input_format
    &&& r.is_full_range == other_r.is_full_range
}

/// Two parts that tell the same are the same words.
proof fn lemma_told_alike(
    a: CameraUniforms,
    b: CameraUniforms,
    inv: Seq<Single>,
    c: CameraParams,
    aspect: Single,
    format: InputFormat,
    flip: bool,
    full: bool,
)
    requires
        a.tells(inv, c, aspect, format, flip, full),
        b.tells(inv, c, aspect, format, flip, full),
    ensures
        a.words() == b.words(),
{
    assert forall|i: int| 0 <= i < 4 implies a.inv_model@[i]@ == b.inv_model@[i]@ by {
        assert forall|j: int| 0 <= j < 4 implies #[trigger] a.inv_model@[i]@[j]
            == b.inv_model@[i]@[j] by {
            assert(a.inv_model@[i]@[j] == inv[4 * i + j]);
            assert(b.inv_model@[i]@[j] == inv[4 * i + j]);
        }
        assert(a.inv_model@[i]@ =~= b.inv_model@[i]@);
    }
    assert(a.inv_model@[0]@ == b.inv_model@[0]@);
    assert(a.inv_model@[1]@ == b.inv_model@[1]@);
    assert(a.inv_model@[2]@ == b.inv_model@[2]@);
    assert(a.inv_model@[3]@ == b.inv_model@[3]@);
}

/// Each camera's part of the uniforms depends on that camera alone: two calls that agree
/// on a camera give the same words for it, whatever the other camera is. So an exchange
/// of the cameras, together with their planes and flips, exchanges the two parts.
pub proof fn law_each_part_depends_on_its_own_camera<T: Fn(Single) -> Single>(
    r: CylindricalRenderer,
    scene: SceneView,
    left: CameraParams,
    right: CameraParams,
    tan: T,
    u: Uniforms,
    r2: CylindricalRenderer,
    scene2: SceneView,
    left2: CameraParams,
    right2: CameraParams,
    tan2: T,
    u2: Uniforms,
)
    requires
        r.told(scene, left, right, tan, u),
        r2.told(scene2, left2, right2, tan2, u2),
    ensures
        same_camera(
            r,
            scene,
            scene.left_inverse,
            left,
            r.flip_180@[0],
            r2,
            scene2,
            scene2.left_inverse,
            left2,
            r2.flip_180@[0],
        ) ==> u.left.words() == u2.left.words(),
        same_camera(
            r,
            scene,
            scene.right_inverse,
            right,
            r.flip_180@[1],
            r2,
            scene2,
            scene2.right_inverse,
            right2,
            r2.flip_180@[1],
        ) ==> u.right.words() == u2.right.words(),
        same_camera(
            r,
            scene,
            scene.left_inverse,
            left,
            r.flip_180@[0],
            r2,
            scene2,
            scene2.right_inverse,
            right2,
            r2.flip_180@[1],
        ) ==> u.left.words() == u2.right.words(),
{
    let (aspect, format, full) = (scene.plane_aspect, r.input_format, r.is_full_range);
    if scene.plane_aspect == scene2.plane_aspect && r.input_format == r2.input_format
        && r.is_full_range == r2.is_full_range {
        if scene.left_inverse@ == scene2.left_inverse@ && left == left2 && r.flip_180@[0]
            == r2.flip_180@[0] {
            lemma_told_alike(
                u.left,
                u2.left,
                scene.left_inverse@,
                left,
                aspect,
                format,
                r.flip_180@[0],
                full,
            );
        }
        if scene.right_inverse@ == scene2.right_inverse@ && right == right2 && r.flip_180@[1]
            == r2.flip_180@[1] {
            lemma_told_alike(
                u.right,
                u2.right,
                scene.right_inverse@,
                right,
                aspect,
                format,
                r.flip_180@[1],
                full,
            );
        }
        if scene.left_inverse@ == scene2.right_inverse@ && left == right2 && r.flip_180@[0]
            == r2.flip_180@[1] {
            lemma_told_alike(
                u.left,
                u2.right,
                scene.left_inverse@,
                left,
                aspect,
                format,
                r.flip_180@[0],
                full,
            );
        }
    }
}

/// A length in pixels of double precision of a usual size: below `2^100` either way.
pub open spec fn usual_length(d: Double) -> bool {
    finite64(d) && size(units64(d)) <= pow2(1174)
}

/// A share of a side, taken of the side, is the length: within one part in `2^20` of the
/// length and of a pixel.
pub open spec fn is_share_of(share: Single, length: Double, side: u32) -> bool {
    &&& finite(share)
    &&& gap(units(share) * side * pow2(925), units64(length)) * 1048576 <= size(units64(length))
        + pow2(1074)
}

/// The chain of inequalities behind a share of a side.
#[verifier::rlimit(40)]
proof fn lemma_share_chain(u: int, c: int, f: int, n: int, side: int, w: int, s: int)
    requires
        u >= 340282366920938463463374607431768211456,
        c > 0,
        1 <= side <= 0xffff_ffff,
        gap(n * c, f) * 16777216 <= size(f) + 8388608 * c,
        gap(w, side * u) * 16777216 <= side * u,
        gap(s * w, n * u) * 16777216 <= size(n) * u + 8388608 * w,
    ensures
        gap(s * side * c, f) * 1048576 <= size(f) + u * c,
{
    let e = 16777216int;
    let su = side * u;
    let sw = s * w;
    let nu = n * u;
    let an = size(n);
    let anu = an * u;
    let ssu = s * su;
    assert(su >= u && su <= 0xffff_ffff * u) by (nonlinear_arith)
        requires
            su == side * u,
            1 <= side <= 0xffff_ffff,
            u > 0,
    ;
    assert(size(nu) == anu) by (nonlinear_arith)
        requires
            nu == n * u,
            anu == an * u,
            u > 0,
            n >= 0 ==> an == n,
            n < 0 ==> an == -n,
            size(nu) == nu || size(nu) == -nu,
            size(nu) >= 0,
    ;
    assert(size(sw) <= 2 * anu + w);
    assert(gap(ssu, sw) * e <= 2 * size(sw)) by (nonlinear_arith)
        requires
            gap(w, su) * e <= su,
            su <= 2 * w,
            ssu == s * su,
            sw == s * w,
            e > 0,
            w > 0,
            w >= su ==> gap(w, su) == w - su,
            w < su ==> gap(w, su) == su - w,
            size(sw) == sw || size(sw) == -sw,
            size(sw) >= 0,
            gap(ssu, sw) == ssu - sw || gap(ssu, sw) == sw - ssu,
            gap(ssu, sw) >= 0,
    ;
    assert(gap(ssu, nu) * e <= 5 * anu + e * w);
    let ss = s * side;
    assert(ssu == ss * u) by (nonlinear_arith)
        requires
            ssu == s * su,
            su == side * u,
            ss == s * side,
    ;
    let tiny = 8589934592int;
    assert(gap(ss, n) * e <= 5 * an + e * tiny) by (nonlinear_arith)
        requires
            gap(ssu, nu) * e <= 5 * anu + e * w,
            w <= tiny * u,
            ssu == ss * u,
            nu == n * u,
            anu == an * u,
            u > 0,
            e > 0,
            ss >= n ==> gap(ss, n) == ss - n,
            ss < n ==> gap(ss, n) == n - ss,
            gap(ssu, nu) == ssu - nu || gap(ssu, nu) == nu - ssu,
            gap(ssu, nu) >= 0,
    ;
    let ssc = ss * c;
    let nc = n * c;
    let anc = an * c;
    assert(gap(ssc, nc) * e <= 5 * anc + e * tiny * c) by (nonlinear_arith)
        requires
            gap(ss, n) * e <= 5 * an + e * tiny,
            ssc == ss * c,
            nc == n * c,
            anc == an * c,
            c > 0,
            e > 0,
            ss >= n ==> gap(ss, n) == ss - n,
            ss < n ==> gap(ss, n) == n - ss,
            gap(ssc, nc) == ssc - nc || gap(ssc, nc) == nc - ssc,
            gap(ssc, nc) >= 0,
    ;
    assert(size(nc) == anc) by (nonlinear_arith)
        requires
            nc == n * c,
            anc == an * c,
            c > 0,
            n >= 0 ==> an == n,
            n < 0 ==> an == -n,
            size(nc) == nc || size(nc) == -nc,
            size(nc) >= 0,
    ;
    assert(anc <= 2 * size(f) + c);
    let uc = u * c;
    assert(1048576 * 16777216 * c <= uc && tiny * c * 16777216 * 16 <= uc) by (nonlinear_arith)
        requires
            uc == u * c,
            c > 0,
            tiny == 8589934592,
            u >= 340282366920938463463374607431768211456,
    ;
    assert(e * tiny * c == e * (tiny * c)) by (nonlinear_arith);
}

#[verifier::rlimit(40)]
proof fn lemma_share_of_side(length: Double, side: u32)
    requires
        usual_length(length),
        side >= 1,
    ensures
        is_share_of(share_of_side(length, side), length, side),
{
    let u = pow2(149) as int;
    let c = pow2(925) as int;
    lemma2_to64();
    lemma_pow2_pos(149);
    lemma_pow2_pos(925);
    lemma_pow2_adds(64, 64);
    lemma_pow2_le(128, 149);
    lemma_pow2_adds(149, 925);
    lemma_pow2_adds(249, 925);
    lemma_pow2_le(249, 275);
    lemma_pow2_adds(2, 274);
    lemma_pow2_le(249, 274);
    lemma_pow2_pos(274);
    let f = units64(length);
    let big = pow2(276) as int;
    let mid = pow2(249) as int;
    assert(size(f) <= big * c) by (nonlinear_arith)
        requires
            size(f) <= mid * c,
            mid <= big,
            c > 0,
    ;
    lemma_narrowed_near(length);
    let a = Single::narrowed(length);
    let n = units(a);
    lemma_natural_near(side as nat);
    let b = Single::natural(side as nat);
    let w = units(b);
    let an = size(n);
    let anc = an * c;
    let nc = n * c;
    assert(size(nc) == anc) by (nonlinear_arith)
        requires
            nc == n * c,
            anc == an * c,
            c > 0,
            n >= 0 ==> an == n,
            n < 0 ==> an == -n,
            size(nc) == nc || size(nc) == -nc,
            size(nc) >= 0,
    ;
    assert(anc <= 2 * (mid * c) + c);
    assert(an <= 2 * mid + 1) by (nonlinear_arith)
        requires
            anc == an * c,
            anc <= 2 * (mid * c) + c,
            c > 0,
    ;
    assert(an * u <= big * w) by (nonlinear_arith)
        requires
            0 <= an <= big,
            u <= w,
            u > 0,
    ;
    lemma_over_near(a, b);
    lemma_share_chain(u, c, f, n, side as int, w, units(a.over(b)));
}

/// What is told of a camera's lens is in shares of its own image: focal length and
/// centre across in shares of the width, down in shares of the height. The distortion is
/// that of the lens, in single precision.
pub proof fn law_intrinsics_are_shares_of_the_image(
    u: CameraUniforms,
    inv: Seq<Single>,
    c: CameraParams,
    aspect: Single,
    format: InputFormat,
    flip: bool,
    full: bool,
)
    requires
        u.tells(inv, c, aspect, format, flip, full),
        c.width >= 1,
        c.height >= 1,
        usual_length(c.fx) && usual_length(c.fy) && usual_length(c.cx) && usual_length(c.cy),
        forall|i: int| 0 <= i < 4 ==> usual_length(#[trigger] c.d@[i]),
    ensures
        is_share_of(u.intrinsics@[0], c.fx, c.width),
        is_share_of(u.intrinsics@[1], c.fy, c.height),
        is_share_of(u.intrinsics@[2], c.cx, c.width),
        is_share_of(u.intrinsics@[3], c.cy, c.height),
        forall|i: int|
            0 <= i < 4 ==> finite(#[trigger] u.dist@[i]) && gap(
                units(u.dist@[i]) * pow2(925),
                units64(c.d@[i]),
            ) * 16777216 <= size(units64(c.d@[i])) + 8388608 * pow2(925),
        forall|i: int|
            0 <= i < 3 ==> units(#[trigger] u.color_scale@[i]) == pow2(149) && units(
                u.color_offset@[i],
            ) == 0,
        units(u.color_scale@[3]) == 0,
        u.color_offset@[3] == aspect,
        u.flags@[2] == 1 <==> flip,
        u.flags@[3] == 1 <==> full,
        u.flags@[2] <= 1 && u.flags@[3] <= 1,
{
    lemma_share_of_side(c.fx, c.width);
    lemma_share_of_side(c.fy, c.height);
    lemma_share_of_side(c.cx, c.width);
    lemma_share_of_side(c.cy, c.height);
    lemma_exact_integer(0);
    lemma_exact_integer(1);
    assert(0 * pow2(149) == 0 && 1 * pow2(149) == pow2(149));
    lemma_pow2_pos(925);
    lemma_pow2_adds(249, 925);
    lemma_pow2_le(249, 276);
    let (mid, big, k) = (pow2(249) as int, pow2(276) as int, pow2(925) as int);
    assert(mid * k <= big * k) by (nonlinear_arith)
        requires
            mid <= big,
            k > 0,
    ;
    assert forall|i: int| 0 <= i < 4 implies finite(#[trigger] u.dist@[i]) && gap(
        units(u.dist@[i]) * pow2(925),
        units64(c.d@[i]),
    ) * 16777216 <= size(units64(c.d@[i])) + 8388608 * pow2(925) by {
        assert(usual_length(c.d@[i]));
        lemma_narrowed_near(c.d@[i]);
    }
}

/// Formats that differ are told by different numbers, from zero on: three planes, two
/// planes, and one of colours.
pub proof fn law_formats_are_told_apart(a: InputFormat, b: InputFormat)
    ensures
        a.number() == b.number() ==> a == b,
        InputFormat::Yuv420p.number() < InputFormat::Nv12.number() < InputFormat::Bgra.number() < 3,
{
}

/// The words of a camera's part, in order: the sixteen numbers of its plane's inverse
/// transform as they came, the intrinsics, the distortion, the scale and the offset of
/// the colours, and the flags.
pub proof fn law_part_holds_its_groups_in_order(
    u: CameraUniforms,
    inv: Seq<Single>,
    c: CameraParams,
    aspect: Single,
    format: InputFormat,
    flip: bool,
    full: bool,
)
    requires
        u.tells(inv, c, aspect, format, flip, full),
        inv.len() == 16,
    ensures
        u.words().len() == 36,
        forall|k: int| 0 <= k < 16 ==> #[trigger] u.words()[k] == inv[k].bits,
        forall|k: int| 0 <= k < 4 ==> u.words()[16 + k] == (#[trigger] u.intrinsics@[k]).bits,
        forall|k: int| 0 <= k < 4 ==> u.words()[20 + k] == (#[trigger] u.dist@[k]).bits,
        forall|k: int| 0 <= k < 4 ==> u.words()[24 + k] == (#[trigger] u.color_scale@[k]).bits,
        forall|k: int| 0 <= k < 4 ==> u.words()[28 + k] == (#[trigger] u.color_offset@[k]).bits,
        forall|k: int| 0 <= k < 4 ==> u.words()[32 + k] == #[trigger] u.flags@[k],
        u.words()[33] == format.number(),
{
    assert forall|k: int| 0 <= k < 16 implies #[trigger] u.words()[k] == inv[k].bits by {
        let (i, j) = (k / 4, k % 4);
        assert(u.inv_model@[i]@[j] == inv[4 * i + j]);
        assert(4 * i + j == k);
        if i == 0 {
            assert(u.words()[k] == bits_of(u.inv_model@[0]@)[j]);
        } else if i == 1 {
            assert(u.words()[k] == bits_of(u.inv_model@[1]@)[j]);
        } else if i == 2 {
            assert(u.words()[k] == bits_of(u.inv_model@[2]@)[j]);
        } else {
            assert(u.words()[k] == bits_of(u.inv_model@[3]@)[j]);
        }
    }
}

/// The words of the block, in order: the left camera's part, the right camera's part, the
/// place of the eye with a zero, and the projection: span and middle of the yaw, the
/// tangent of half the vertical field of view, and the width of the blend.
pub proof fn law_block_holds_its_parts_in_order<T: Fn(Single) -> Single>(
    r: CylindricalRenderer,
    scene: SceneView,
    left: CameraParams,
    right: CameraParams,
    tan: T,
    u: Uniforms,
)
    requires
        r.told(scene, left, right, tan, u),
    ensures
        u.words().len() == 80,
        u.words().take(36) == u.left.words(),
        u.words().subrange(36, 72) == u.right.words(),
        forall|k: int|
            0 <= k < 3 ==> u.words()[72 + k] == (#[trigger] scene.camera_position@[k]).bits,
        u.words()[75] == Single::natural(0).bits,
        u.words()[76] == r.config.yaw_span_rad.bits,
        u.words()[77] == r.config.yaw_center_rad.bits,
        half_tangent(tan, r.config, Single { bits: u.words()[78] }),
        u.words()[79] == r.config.blend_width.bits,
{
    let w = u.words();
    assert(u.left.words().len() == 36 && u.right.words().len() == 36);
    assert(w.take(36) =~= u.left.words());
    assert(w.subrange(36, 72) =~= u.right.words());
    assert forall|k: int| 0 <= k < 3 implies w[72 + k] == (
    #[trigger] scene.camera_position@[k]).bits by {
        assert(u.camera_position@[k] == scene.camera_position@[k]);
        assert(w[72 + k] == bits_of(u.camera_position@)[k]);
    }
    assert(w[75] == bits_of(u.camera_position@)[3]);
    assert(w[76] == bits_of(u.projection@)[0]);
    assert(w[77] == bits_of(u.projection@)[1]);
    assert(w[78] == bits_of(u.projection@)[2]);
    assert(w[79] == bits_of(u.projection@)[3]);
    assert(Single { bits: u.projection@[2].bits } == u.projection@[2]);
}

/// The tangent that is told is that of half the vertical field of view.
pub proof fn law_tangent_is_that_of_half_the_view<T: Fn(Single) -> Single>(
    tan: T,
    c: CylindricalStereoProjectionConfig,
    r: Single,
)
    requires
        half_tangent(tan, c, r),
        finite(c.vertical_fov_rad),
        size(units(c.vertical_fov_rad)) <= 1024 * pow2(149),
    ensures
        exists|angle: Single| #[trigger]
            tan.ensures((angle,), r) && finite(angle) && gap(
                2 * units(angle),
                units(c.vertical_fov_rad),
            ) * 8388608 <= size(units(c.vertical_fov_rad)) + 16777216,
{
    let u = pow2(149) as int;
    let half = Single { bits: HALF };
    lemma2_to64();
    lemma_pow2_pos(149);
    lemma_pow2_adds(1, 148);
    lemma_pow2_adds(23, 125);
    lemma_pow2_adds(24, 149);
    lemma_pow2_le(173, 276);
    assert(half.value() == (crate::binary::value::Value::Finite {
        negative: false,
        units: pow2(148),
    }));
    let v = units(c.vertical_fov_rad);
    let h = units(half);
    let big = pow2(276) as int;
    assert(2 * h == u);
    let sv = size(v);
    assert(sv * size(h) <= big * u) by (nonlinear_arith)
        requires
            0 <= sv <= 1024 * u,
            size(h) == h,
            0 <= h <= u,
            1024 * u <= big,
            u > 0,
    ;
    let angle = c.vertical_fov_rad.times(half);
    lemma_times_near(c.vertical_fov_rad, half);
    let a = units(angle);
    let au = a * u;
    let vh = v * h;
    assert(2 * vh == v * u) by (nonlinear_arith)
        requires
            vh == v * h,
            2 * h == u,
    ;
    assert(2 * size(vh) == sv * u) by (nonlinear_arith)
        requires
            2 * vh == v * u,
            u > 0,
            v >= 0 ==> sv == v,
            v < 0 ==> sv == -v,
            size(vh) == vh || size(vh) == -vh,
            size(vh) >= 0,
    ;
    let a2 = 2 * a;
    assert(gap(a2, v) * 8388608 <= sv + 16777216) by (nonlinear_arith)
        requires
            gap(au, vh) * 16777216 <= size(vh) + 8388608 * u,
            2 * size(vh) == sv * u,
            2 * vh == v * u,
            au == a * u,
            a2 == 2 * a,
            u > 0,
            sv >= 0,
            a2 >= v ==> gap(a2, v) == a2 - v,
            a2 < v ==> gap(a2, v) == v - a2,
            gap(au, vh) == au - vh || gap(au, vh) == vh - au,
            gap(au, vh) >= 0,
    ;
    assert(tan.ensures((angle,), r));
}

} // verus!
