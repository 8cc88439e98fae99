//! The part of each camera image that shows the field.

use crate::binary::double::Double;
use crate::binary::magnitude::lemma_pow2_le;
use crate::binary::nearness::{finite, size, units};
use crate::binary::nearness64::{
    finite64, lemma_plus_near64, lemma_times_near64, lemma_widened, units64,
};
use crate::binary::rounding::gap;
use crate::binary::single::Single;
use crate::binary::value::Value;
use crate::camera::CameraId;
use crate::detection::Detection;
use vstd::arithmetic::power2::{
    lemma2_to64, lemma2_to64_rest, lemma_pow2_adds, lemma_pow2_pos, pow2,
};
use vstd::prelude::*;

verus! {

/// One half in double precision.
pub const HALF: u64 = 0x3fe0_0000_0000_0000;

/// One quarter in double precision.
pub const QUARTER: u64 = 0x3fd0_0000_0000_0000;

/// The outline of the field in each camera image, in fractions of the image. An
/// outline of fewer than three points stands for the whole image.
#[derive(Clone, Debug)]
pub struct FieldRoi {
    pub left: Vec<[Double; 2]>,
    pub right: Vec<[Double; 2]>,
}

impl FieldRoi {
    /// The outline in one camera's image.
    pub open spec fn outline(self, camera: CameraId) -> Vec<[Double; 2]> {
        match camera {
            CameraId::Left => self.left,
            CameraId::Right => self.right,
        }
    }
}

/// The outline in one camera's image.
pub fn polygon_for(roi: &FieldRoi, camera: CameraId) -> (r: &Vec<[Double; 2]>)
    ensures
        *r == roi.outline(camera),
{
    match camera {
        CameraId::Left => &roi.left,
        CameraId::Right => &roi.right,
    }
}

/// A point of the image, in double precision.
pub open spec fn is_point(p: [Double; 2], x: Double, y: Double) -> bool {
    p@ == seq![x, y]
}

/// What the test for points in polygons answers for a point: `r` is an answer
/// that it can give.
pub open spec fn point_tested<P: Fn([Double; 2], &Vec<[Double; 2]>) -> bool>(
    inside: P,
    x: Double,
    y: Double,
    polygon: Vec<[Double; 2]>,
    r: bool,
) -> bool {
    exists|p: [Double; 2]|
        #![trigger inside.ensures((p, &polygon), r)]
        is_point(p, x, y) && inside.ensures((p, &polygon), r)
}

fn test_point<P: Fn([Double; 2], &Vec<[Double; 2]>) -> bool>(
    inside: &P,
    x: Double,
    y: Double,
    polygon: &Vec<[Double; 2]>,
) -> (r: bool)
    requires
        forall|p: [Double; 2], v: &Vec<[Double; 2]>| inside.requires((p, v)),
    ensures
        point_tested(*inside, x, y, *polygon, r),
{
    let p = [x, y];
    assert(p@ =~= seq![x, y]);
    inside(p, polygon)
}

/// Whether a ball counts as on the field: `r` says so, given what the test for
/// points in polygons answers for its centre.
pub open spec fn ball_placed<P: Fn([Double; 2], &Vec<[Double; 2]>) -> bool>(
    detection: Detection,
    roi: Option<FieldRoi>,
    inside: P,
    r: bool,
) -> bool {
    match roi {
        None => r,
        Some(roi) => {
            let polygon = roi.outline(detection.camera);
            if polygon@.len() < 3 {
                r
            } else {
                point_tested(
                    inside,
                    Double::widened(detection.center_x),
                    Double::widened(detection.center_y),
                    polygon,
                    r,
                )
            }
        },
    }
}

/// Whether a ball counts as on the field: its centre lies in the outline, if there
/// is one.
pub fn ball_inside_roi<P: Fn([Double; 2], &Vec<[Double; 2]>) -> bool>(
    detection: &Detection,
    roi: Option<&FieldRoi>,
    inside: &P,
) -> (r: bool)
    requires
        forall|p: [Double; 2], v: &Vec<[Double; 2]>| inside.requires((p, v)),
    ensures
        ball_placed(*detection, owned(roi), *inside, r),
{
    match roi {
        None => true,
        Some(roi) => {
            let polygon = polygon_for(roi, detection.camera);
            polygon.len() < 3 || test_point(
                inside,
                Double::from_single(detection.center_x),
                Double::from_single(detection.center_y),
                polygon,
            )
        },
    }
}

/// An outline behind a reference.
pub open spec fn owned(roi: Option<&FieldRoi>) -> Option<FieldRoi> {
    match roi {
        Some(r) => Some(*r),
        None => None,
    }
}

/// The height at that share of a detection's height below its centre.
pub open spec fn below_centre(detection: Detection, share: u64) -> Double {
    Double::widened(detection.center_y).plus(
        Double::widened(detection.height).times(Double { bits: share }),
    )
}

/// Whether anything but a ball counts as on the field: `r` says so, given what the
/// test for points in polygons answers. Of a person the feet are tested, and then,
/// if they are in, the knees; of anything else the centre.
pub open spec fn other_placed<P: Fn([Double; 2], &Vec<[Double; 2]>) -> bool>(
    detection: Detection,
    roi: Option<FieldRoi>,
    person_class_id: u16,
    inside: P,
    r: bool,
) -> bool {
    match roi {
        None => r,
        Some(roi) => {
            let polygon = roi.outline(detection.camera);
            let x = Double::widened(detection.center_x);
            if polygon@.len() < 3 {
                r
            } else if detection.class_id == person_class_id {
                if r {
                    &&& point_tested(inside, x, below_centre(detection, HALF), polygon, true)
                    &&& point_tested(inside, x, below_centre(detection, QUARTER), polygon, true)
                } else {
                    ||| point_tested(inside, x, below_centre(detection, HALF), polygon, false)
                    ||| point_tested(inside, x, below_centre(detection, QUARTER), polygon, false)
                }
            } else {
                point_tested(inside, x, Double::widened(detection.center_y), polygon, r)
            }
        },
    }
}

/// Whether anything but a ball counts as on the field. A person stands on it with
/// feet and knees; anything else has its centre there.
pub fn non_ball_inside_roi<P: Fn([Double; 2], &Vec<[Double; 2]>) -> bool>(
    detection: &Detection,
    roi: Option<&FieldRoi>,
    person_class_id: u16,
    inside: &P,
) -> (r: bool)
    requires
        forall|p: [Double; 2], v: &Vec<[Double; 2]>| inside.requires((p, v)),
    ensures
        other_placed(*detection, owned(roi), person_class_id, *inside, r),
{
    let roi = match roi {
        None => {
            return true;
        },
        Some(roi) => roi,
    };
    let polygon = polygon_for(roi, detection.camera);
    if polygon.len() < 3 {
        return true;
    }
    let cx = Double::from_single(detection.center_x);
    let cy = Double::from_single(detection.center_y);
    if detection.class_id == person_class_id {
        let height = Double::from_single(detection.height);
        let half_h = height.times(Double::from_bits(HALF));
        let quarter_h = height.times(Double::from_bits(QUARTER));
        test_point(inside, cx, cy.plus(half_h), polygon) && test_point(
            inside,
            cx,
            cy.plus(quarter_h),
            polygon,
        )
    } else {
        test_point(inside, cx, cy, polygon)
    }
}

/// The test for points in polygons answers by the point and the outline alone.
pub open spec fn answers_by_place<P: Fn([Double; 2], &Vec<[Double; 2]>) -> bool>(
    inside: P,
) -> bool {
    forall|
        p: [Double; 2],
        q: [Double; 2],
        v: &Vec<[Double; 2]>,
        w: &Vec<[Double; 2]>,
        a: bool,
        b: bool,
    |
        #![trigger inside.ensures((p, v), a), inside.ensures((q, w), b)]
        p@ == q@ && v@ == w@ && inside.ensures((p, v), a) && inside.ensures((q, w), b) ==> a == b
}

/// No outline counts in a camera's image: there is none, or it has fewer than three
/// points.
pub open spec fn whole_image(roi: Option<FieldRoi>, camera: CameraId) -> bool {
    match roi {
        None => true,
        Some(roi) => roi.outline(camera)@.len() < 3,
    }
}

/// Two outlines are the same in a camera's image, or there is neither.
pub open spec fn same_outline(
    first: Option<FieldRoi>,
    second: Option<FieldRoi>,
    camera: CameraId,
) -> bool {
    match (first, second) {
        (None, None) => true,
        (Some(a), Some(b)) => a.outline(camera)@ == b.outline(camera)@,
        _ => false,
    }
}

/// Balls of one camera with one centre are placed alike, whatever their class, size
/// and confidence, and whatever the outline in the other camera's image. Where no
/// outline counts, every ball is on the field.
pub proof fn law_balls_are_placed_by_their_centre<P: Fn([Double; 2], &Vec<[Double; 2]>) -> bool>(
    first: Detection,
    second: Detection,
    first_roi: Option<FieldRoi>,
    second_roi: Option<FieldRoi>,
    inside: P,
    a: bool,
    b: bool,
)
    requires
        answers_by_place(inside),
        first.camera == second.camera,
        first.center_x == second.center_x,
        first.center_y == second.center_y,
        same_outline(first_roi, second_roi, first.camera),
        ball_placed(first, first_roi, inside, a),
        ball_placed(second, second_roi, inside, b),
    ensures
        a == b,
        whole_image(first_roi, first.camera) ==> a,
{
}

/// Anything but a person is placed as a ball is: by its centre.
pub proof fn law_others_are_placed_as_balls<P: Fn([Double; 2], &Vec<[Double; 2]>) -> bool>(
    detection: Detection,
    roi: Option<FieldRoi>,
    person_class_id: u16,
    inside: P,
    as_ball: bool,
    r: bool,
)
    requires
        answers_by_place(inside),
        detection.class_id != person_class_id,
        ball_placed(detection, roi, inside, as_ball),
        other_placed(detection, roi, person_class_id, inside, r),
    ensures
        r == as_ball,
        whole_image(roi, detection.camera) ==> r,
{
}

/// A person is on the field exactly if feet and knees are, wherever the centre lies.
/// Where no outline counts, every person is on the field.
pub proof fn law_persons_are_placed_by_feet_and_knees<
    P: Fn([Double; 2], &Vec<[Double; 2]>) -> bool,
>(
    detection: Detection,
    roi: Option<FieldRoi>,
    inside: P,
    feet: bool,
    knees: bool,
    r: bool,
)
    requires
        answers_by_place(inside),
        other_placed(detection, roi, detection.class_id, inside, r),
        roi matches Some(field) ==> {
            let x = Double::widened(detection.center_x);
            let polygon = field.outline(detection.camera);
            &&& point_tested(inside, x, below_centre(detection, HALF), polygon, feet)
            &&& point_tested(inside, x, below_centre(detection, QUARTER), polygon, knees)
        },
    ensures
        whole_image(roi, detection.camera) ==> r,
        !whole_image(roi, detection.camera) ==> (r <==> feet && knees),
{
}

/// A height below the centre, in units of double precision.
#[verifier::rlimit(40)]
proof fn lemma_below_centre(detection: Detection, share: u64, parts: int)
    requires
        (share == HALF && parts == 2) || (share == QUARTER && parts == 4),
        finite(detection.center_y) && size(units(detection.center_y)) <= 1024 * pow2(149),
        finite(detection.height) && size(units(detection.height)) <= 1024 * pow2(149),
    ensures
        ({
            let p = below_centre(detection, share);
            let there = parts * units(detection.center_y) + units(detection.height);
            &&& finite64(p)
            &&& gap(parts * units64(p), there * pow2(925)) * 0x10_0000_0000 <= pow2(1074)
        }),
{
    let c = pow2(925) as int;
    let v = pow2(1074) as int;
    let u = pow2(149) as int;
    lemma2_to64();
    lemma2_to64_rest();
    lemma_pow2_pos(149);
    lemma_pow2_pos(925);
    lemma_pow2_adds(149, 925);
    lemma_pow2_adds(1023, 1074);
    lemma_pow2_adds(52, 1021);
    lemma_pow2_adds(52, 1020);
    lemma_pow2_adds(1, 1073);
    lemma_pow2_adds(2, 1072);
    lemma_pow2_le(64, 1023);
    lemma_pow2_le(64, 1074);
    let q = Double { bits: share };
    assert((Double { bits: HALF }).value() == (Value::Finite {
        negative: false,
        units: 0x10_0000_0000_0000 * pow2(1021),
    }));
    assert((Double { bits: QUARTER }).value() == (Value::Finite {
        negative: false,
        units: 0x10_0000_0000_0000 * pow2(1020),
    }));
    assert(parts * units64(q) == v);
    lemma_widened(detection.center_y);
    lemma_widened(detection.height);
    let (y, h) = (Double::widened(detection.center_y), Double::widened(detection.height));
    let (yu, hu, qu) = (units64(y), units64(h), units64(q));
    let (cy, ch) = (units(detection.center_y), units(detection.height));
    assert(size(yu) <= 1024 * v && size(hu) <= 1024 * v) by (nonlinear_arith)
        requires
            yu == cy * c,
            hu == ch * c,
            v == u * c,
            -(1024 * u) <= cy <= 1024 * u,
            -(1024 * u) <= ch <= 1024 * u,
            c > 0,
            size(yu) == yu || size(yu) == -yu,
            size(hu) == hu || size(hu) == -hu,
    ;
    let sh = size(hu);
    let big = pow2(2097) as int;
    let top = pow2(1023) as int;
    assert(0 < qu <= v);
    assert(sh * size(qu) <= big * v) by (nonlinear_arith)
        requires
            0 <= sh <= 1024 * v,
            0 < qu <= v,
            size(qu) == qu,
            big == top * v,
            top >= 1024,
            v > 0,
    ;
    lemma_times_near64(h, q);
    let t = h.times(q);
    let tu = units64(t);
    let g = 0x20_0000_0000_0000int;
    let tv = tu * v;
    let hq = hu * qu;
    let ptu = parts * tu;
    assert(gap(ptu, hu) * g <= sh + 4 * g) by (nonlinear_arith)
        requires
            gap(tv, hq) * g <= size(hq) + 0x10_0000_0000_0000 * v,
            g == 0x20_0000_0000_0000,
            tv == tu * v,
            hq == hu * qu,
            parts * qu == v,
            ptu == parts * tu,
            parts == 2 || parts == 4,
            sh == hu || sh == -hu,
            sh >= 0,
            qu > 0,
            v > 0,
            size(hq) == hq || size(hq) == -hq,
            size(hq) >= 0,
            ptu >= hu ==> gap(ptu, hu) == ptu - hu,
            ptu < hu ==> gap(ptu, hu) == hu - ptu,
            gap(tv, hq) == tv - hq || gap(tv, hq) == hq - tv,
            gap(tv, hq) >= 0,
    ;
    assert(size(tu) <= 2048 * v);
    assert(4096 * v <= big) by (nonlinear_arith)
        requires
            big == top * v,
            top >= 4096,
            v > 0,
    ;
    lemma_plus_near64(y, t);
    let pu = units64(y.plus(t));
    let there = parts * cy + ch;
    let tc = there * c;
    assert(tc == parts * yu + hu) by (nonlinear_arith)
        requires
            tc == there * c,
            there == parts * cy + ch,
            yu == cy * c,
            hu == ch * c,
    ;
    let py = parts * yu;
    let pp = parts * pu;
    assert(parts == 2 || parts == 4);
    assert(gap(pp, py + ptu) * g <= 4 * size(yu + tu));
}

/// The feet of a detection lie half its height below its centre, and the knees a quarter
/// of it.
pub proof fn law_feet_and_knees_lie_below_the_centre(detection: Detection)
    requires
        finite(detection.center_y) && size(units(detection.center_y)) <= 1024 * pow2(149),
        finite(detection.height) && size(units(detection.height)) <= 1024 * pow2(149),
    ensures
        ({
            let (y, h) = (units(detection.center_y), units(detection.height));
            let (feet, knees) = (below_centre(detection, HALF), below_centre(detection, QUARTER));
            &&& finite64(feet) && gap(2 * units64(feet), (2 * y + h) * pow2(925))
                * 0x10_0000_0000 <= pow2(1074)
            &&& finite64(knees) && gap(4 * units64(knees), (4 * y + h) * pow2(925))
                * 0x10_0000_0000 <= pow2(1074)
        }),
{
    lemma_below_centre(detection, HALF, 2);
    lemma_below_centre(detection, QUARTER, 4);
}

/// A point of double precision is a place of single precision.
pub open spec fn is_place(p: [Double; 2], x: Single, y: Single) -> bool {
    &&& finite64(p@[0]) && units64(p@[0]) == units(x) * pow2(925)
    &&& finite64(p@[1]) && units64(p@[1]) == units(y) * pow2(925)
}

/// That answer was given for the point at that place.
pub open spec fn tested_at<P: Fn([Double; 2], &Vec<[Double; 2]>) -> bool>(
    x: Single,
    y: Single,
    outline: Vec<[Double; 2]>,
    inside: P,
    answer: bool,
) -> bool {
    exists|p: [Double; 2]|
        #![trigger inside.ensures((p, &outline), answer)]
        is_place(p, x, y) && inside.ensures((p, &outline), answer)
}

/// Where the camera's outline has an inside, a ball is on the field exactly if its centre
/// is in that outline: the centre across and the centre down, as they are.
pub proof fn law_ball_is_tested_at_its_centre<P: Fn([Double; 2], &Vec<[Double; 2]>) -> bool>(
    detection: Detection,
    roi: FieldRoi,
    inside: P,
    r: bool,
)
    requires
        finite(detection.center_x),
        finite(detection.center_y),
        ball_placed(detection, Some(roi), inside, r),
    ensures
        ({
            let outline = if detection.camera == CameraId::Left {
                roi.left
            } else {
                roi.right
            };
            &&& outline@.len() < 3 ==> r
            &&& outline@.len() >= 3 ==> tested_at(
                detection.center_x,
                detection.center_y,
                outline,
                inside,
                r,
            )
        }),
{
    lemma_widened(detection.center_x);
    lemma_widened(detection.center_y);
    let outline = if detection.camera == CameraId::Left {
        roi.left
    } else {
        roi.right
    };
    if outline@.len() >= 3 {
        let (x, y) = (
            Double::widened(detection.center_x),
            Double::widened(detection.center_y),
        );
        let p = choose|p: [Double; 2]|
            #![trigger inside.ensures((p, &outline), r)]
            is_point(p, x, y) && inside.ensures((p, &outline), r);
        assert(p@[0] == x && p@[1] == y);
        assert(inside.ensures((p, &outline), r));
        assert(is_place(p, detection.center_x, detection.center_y));
    }
}

/// A person whose feet or knees are out of the outline is not on the field, and one who
/// has both in it is: the points that are tested lie straight below the centre, at half
/// and at a quarter of the height.
pub proof fn law_person_is_tested_below_the_centre<
    P: Fn([Double; 2], &Vec<[Double; 2]>) -> bool,
>(detection: Detection, roi: FieldRoi, inside: P, r: bool)
    requires
        finite(detection.center_x),
        finite(detection.center_y) && size(units(detection.center_y)) <= 1024 * pow2(149),
        finite(detection.height) && size(units(detection.height)) <= 1024 * pow2(149),
        other_placed(detection, Some(roi), detection.class_id, inside, r),
    ensures
        ({
            let outline = if detection.camera == CameraId::Left {
                roi.left
            } else {
                roi.right
            };
            &&& outline@.len() < 3 ==> r
            &&& outline@.len() >= 3 && r ==> tested_below(detection, outline, inside, 2, true)
                && tested_below(detection, outline, inside, 4, true)
            &&& outline@.len() >= 3 && !r ==> tested_below(detection, outline, inside, 2, false)
                || tested_below(detection, outline, inside, 4, false)
        }),
{
    lemma_widened(detection.center_x);
    lemma_below_centre(detection, HALF, 2);
    lemma_below_centre(detection, QUARTER, 4);
    let outline = if detection.camera == CameraId::Left {
        roi.left
    } else {
        roi.right
    };
    assert forall|share: u64, parts: int, answer: bool|
        ((share == HALF && parts == 2) || (share == QUARTER && parts == 4))
            && #[trigger] point_tested(
            inside,
            Double::widened(detection.center_x),
            below_centre(detection, share),
            outline,
            answer,
        ) implies #[trigger] tested_below(detection, outline, inside, parts, answer) by {
        let (x, y) = (Double::widened(detection.center_x), below_centre(detection, share));
        let p = choose|p: [Double; 2]|
            #![trigger inside.ensures((p, &outline), answer)]
            is_point(p, x, y) && inside.ensures((p, &outline), answer);
        assert(p@[0] == x && p@[1] == y);
        assert(inside.ensures((p, &outline), answer));
    }
}

/// That answer was given for a point straight below the centre of a detection, by that
/// part of its height.
pub open spec fn tested_below<P: Fn([Double; 2], &Vec<[Double; 2]>) -> bool>(
    detection: Detection,
    outline: Vec<[Double; 2]>,
    inside: P,
    parts: int,
    answer: bool,
) -> bool {
    exists|p: [Double; 2]|
        #![trigger inside.ensures((p, &outline), answer)]
        {
            &&& inside.ensures((p, &outline), answer)
            &&& finite64(p@[0]) && units64(p@[0]) == units(detection.center_x) * pow2(925)
            &&& finite64(p@[1]) && gap(
                parts * units64(p@[1]),
                (parts * units(detection.center_y) + units(detection.height)) * pow2(925),
            ) * 0x10_0000_0000 <= pow2(1074)
        }
}

} // verus!
