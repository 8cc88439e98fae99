//! Where a lost ball is looked for: in crops around the expected place, of growing size,
//! and later in the corners.

use crate::binary::integers::lemma_exact_integer;
use crate::binary::magnitude::lemma_pow2_le;
use crate::binary::nearness::{finite, lemma_minus_near, lemma_no_overflow, lemma_times_near, units};
use crate::binary::rounding::{gap, lemma_round_units_exact};
use crate::binary::single::Single;
use crate::binary::value::{lemma_rounded_held, nearest_natural, rounded, Format, Value};
use crate::camera::CameraId;
use crate::crop::{crop_side, crop_slack, crop_start, CropRegion};
use crate::recovery::RecoveryModel;
use crate::remapping::is_share;
use crate::search::{local_steps, search_steps, stage_ratio, SearchStep};
use crate::search_run::steps_for;
use crate::trajectory_laws::lemma_share;
use vstd::arithmetic::div_mod::{
    lemma_fundamental_div_mod, lemma_fundamental_div_mod_converse, lemma_mod_bound,
};
use vstd::arithmetic::power2::{
    lemma2_to64, lemma_pow2_adds, lemma_pow2_pos, lemma_pow2_unfold, pow2,
};
use vstd::prelude::*;

verus! {

/// The whole number that a number is rounded to.
proof fn lemma_rounded_near(p: Single) -> (k: int)
    requires
        finite(p),
    ensures
        finite(p.rounded()),
        units(p.rounded()) == k * pow2(149),
        gap(k * pow2(149), units(p)) * 2 <= pow2(149),
{
    let f = Format::Binary32;
    let u = pow2(149) as int;
    lemma_pow2_pos(149);
    p.lemma_value_held();
    reveal(Single::rounded_spec);
    let v = p.value();
    lemma_rounded_held(f, v);
    Single::lemma_of_value(rounded(f, v));
    let n = v->Finite_units as int;
    let k = nearest_natural(f, v->Finite_units) as int;
    lemma_fundamental_div_mod(2 * n + u, 2 * u);
    lemma_mod_bound(2 * n + u, 2 * u);
    let rest = (2 * n + u) % (2 * u);
    let ku = k * u;
    assert(2 * ku == 2 * n + u - rest) by (nonlinear_arith)
        requires
            (2 * u) * k + rest == 2 * n + u,
            ku == k * u,
    ;
    assert(-k * u == -ku) by (nonlinear_arith)
        requires
            ku == k * u,
    ;
    if v->Finite_negative {
        -k
    } else {
        k
    }
}

/// A whole number that is not negative, as an integer.
proof fn lemma_whole(p: Single, k: int)
    requires
        finite(p),
        units(p) == k * pow2(149),
        0 <= k <= 0xffff_ffff,
    ensures
        p.to_u32() == k,
{
    let u = pow2(149) as int;
    lemma_pow2_pos(149);
    reveal(Single::to_u32_spec);
    let ku = k * u;
    assert(ku >= 0) by (nonlinear_arith)
        requires
            ku == k * u,
            k >= 0,
            u > 0,
    ;
    lemma_fundamental_div_mod_converse(ku, u, k, 0);
}

/// A share of a side, in pixels.
proof fn lemma_share_of_side(side: u32, c: Single)
    requires
        is_share(c),
        side <= 0x10_0000,
    ensures
        finite(c.times(Single::natural(side as nat))),
        gap(units(c.times(Single::natural(side as nat))), units(c) * side) * 15 <= pow2(149),
        finite(Single::natural(side as nat).times(c)),
        gap(units(Single::natural(side as nat).times(c)), units(c) * side) * 15 <= pow2(149),
        0 <= units(c) * side <= side * pow2(149),
{
    let u = pow2(149) as int;
    lemma2_to64();
    lemma_pow2_pos(149);
    lemma_pow2_le(24, 149);
    lemma_pow2_adds(24, 149);
    lemma_pow2_le(173, 276);
    lemma_share(c);
    lemma_exact_integer(side as nat);
    let s = Single::natural(side as nat);
    let (x, n) = (units(c), side as int);
    let big = pow2(276) as int;
    let nu = n * u;
    let xn = x * n;
    let xnu = x * nu;
    assert(0 <= xn <= nu && 0 <= nu <= 1048576 * u) by (nonlinear_arith)
        requires
            xn == x * n,
            nu == n * u,
            0 <= x <= u,
            0 <= n <= 1048576,
    ;
    assert(xnu == xn * u && xnu >= 0 && xnu <= big * u) by (nonlinear_arith)
        requires
            xnu == x * nu,
            xn == x * n,
            nu == n * u,
            0 <= xn <= nu,
            nu <= 1048576 * u,
            1048576 * u <= big,
            u > 0,
    ;
    assert(units(s) == nu);
    assert(nu * x == xnu) by (nonlinear_arith)
        requires
            xnu == x * nu,
    ;
    lemma_times_near(c, s);
    lemma_times_near(s, c);
    let a = units(c.times(s));
    let b = units(s.times(c));
    let (au, bu) = (a * u, b * u);
    assert(gap(a, xn) * 16777216 <= xn + 8388608 && gap(b, xn) * 16777216 <= xn + 8388608)
        by (nonlinear_arith)
        requires
            gap(au, xnu) * 16777216 <= xnu + 8388608 * u,
            gap(bu, xnu) * 16777216 <= xnu + 8388608 * u,
            au == a * u,
            bu == b * u,
            xnu == xn * u,
            u > 0,
            a >= xn ==> gap(a, xn) == a - xn,
            a < xn ==> gap(a, xn) == xn - a,
            b >= xn ==> gap(b, xn) == b - xn,
            b < xn ==> gap(b, xn) == xn - b,
            gap(au, xnu) == au - xnu || gap(au, xnu) == xnu - au,
            gap(bu, xnu) == bu - xnu || gap(bu, xnu) == xnu - bu,
            gap(au, xnu) >= 0,
            gap(bu, xnu) >= 0,
    ;
}

/// The length of a crop is the share of the side, to two pixels, and never less than two
/// pixels.
#[verifier::rlimit(40)]
proof fn lemma_crop_side(side: u32, ratio: Single)
    requires
        is_share(ratio),
        2 <= side <= 0x10_0000,
        2 * pow2(149) <= units(ratio) * side,
    ensures
        ({
            let n = crop_side(side, ratio);
            &&& 2 <= n <= side
            &&& n % 2 == 0
            &&& (n - 1) * pow2(149) <= units(ratio) * side <= (n + 2) * pow2(149)
        }),
{
    let u = pow2(149) as int;
    lemma_pow2_pos(149);
    lemma_share_of_side(side, ratio);
    let p = Single::natural(side as nat).times(ratio);
    let k = lemma_rounded_near(p);
    let x = units(ratio) * side;
    let ku = k * u;
    let su = side * u;
    assert(0 <= k <= 0x10_0001) by (nonlinear_arith)
        requires
            ku == k * u,
            ku * 2 >= x * 2 - 2 * u,
            ku * 2 <= x * 2 + 2 * u,
            2 * u <= x <= su,
            su == side * u,
            side <= 0x10_0000,
            u > 0,
    ;
    lemma_whole(p.rounded(), k);
    let n = crop_side(side, ratio);
    let m = if k < side {
        k
    } else {
        side as int
    };
    let mu = m * u;
    assert(m >= 2) by (nonlinear_arith)
        requires
            ku == k * u,
            ku * 10 >= x * 10 - 6 * u,
            x >= 2 * u,
            u > 0,
            m == k || m == side,
            side >= 2,
    ;
    assert(n == m - m % 2);
    assert((n - 1) * u <= mu - u && (n + 2) * u >= mu + u) by (nonlinear_arith)
        requires
            mu == m * u,
            m - 1 <= n <= m,
            u > 0,
    ;
    if m == side {
        assert(mu == su);
        assert(ku >= su) by (nonlinear_arith)
            requires
                ku == k * u,
                su == side * u,
                k >= side,
                u > 0,
        ;
    }
}

/// A crop lies around a point of a side, to two pixels, as far as the side allows: it
/// begins before the point's place by half its length, unless it begins with the side or
/// ends with it.
pub open spec fn centred(start: u32, length: u32, side: u32, center: Single) -> bool {
    let u = pow2(149) as int;
    let middle = (2 * start + length) * u;
    let point = 2 * (units(center) * side);
    &&& start > 0 ==> middle <= point + 2 * u
    &&& start + length + 1 < side ==> point <= middle + 4 * u
}

#[verifier::rlimit(40)]
proof fn lemma_crop_start(side: u32, length: u32, center: Single)
    requires
        is_share(center),
        side <= 0x10_0000,
        length <= side,
    ensures
        centred(crop_start(side, length, center), length, side, center),
{
    let u = pow2(149) as int;
    lemma2_to64();
    lemma_pow2_pos(149);
    lemma_pow2_unfold(149);
    lemma_pow2_le(24, 149);
    lemma_pow2_adds(24, 149);
    lemma_pow2_le(173, 276);
    lemma_share(center);
    lemma_share_of_side(side, center);
    lemma_exact_integer(0);
    lemma_exact_integer(1);
    lemma_exact_integer(2);
    lemma_exact_integer(length as nat);
    let slack = crop_slack(side, length);
    lemma_exact_integer(slack as nat);
    assert(0 * u == 0 && 1 * u == u);
    let (zero, one) = (Single::natural(0), Single::natural(1));
    assert(center.clamped(zero, one) == center);
    let a = center.times(Single::natural(side as nat));
    // Half of the length is exact.
    let h = Single::natural(length as nat).over(Single::natural(2));
    lemma_half(length);
    let x = units(center) * side;
    let su = side * u;
    assert(su <= 1048576 * u) by (nonlinear_arith)
        requires
            su == side * u,
            side <= 1048576,
            u > 0,
    ;
    let lu = length * u;
    assert(0 <= lu <= su) by (nonlinear_arith)
        requires
            lu == length * u,
            su == side * u,
            0 <= length <= side,
            u > 0,
    ;
    lemma_minus_near(a, h);
    let t = a.minus(h);
    let tu = units(t);
    assert(gap(2 * tu, 2 * x - lu) * 3 <= u);
    let k = lemma_rounded_near(t);
    let ku = k * u;
    let hi = Single::natural(slack as nat);
    let c = t.rounded().clamped(zero, hi);
    let s = if k < 0 {
        0
    } else if k > slack {
        slack as int
    } else {
        k
    };
    assert(units(c) == s * u && finite(c)) by {
        assert(k < 0 ==> ku < 0) by (nonlinear_arith)
            requires
                ku == k * u,
                u > 0,
        ;
        assert(k >= 0 ==> ku >= 0) by (nonlinear_arith)
            requires
                ku == k * u,
                u > 0,
        ;
        let sl = slack * u;
        assert(k > slack ==> ku > sl) by (nonlinear_arith)
            requires
                ku == k * u,
                sl == slack * u,
                u > 0,
        ;
        assert(k <= slack ==> ku <= sl) by (nonlinear_arith)
            requires
                ku == k * u,
                sl == slack * u,
                u > 0,
        ;
    }
    lemma_whole(c, s);
    let start = crop_start(side, length, center);
    let middle = (2 * start + length) * u;
    if start > 0 {
        assert(start <= k);
        assert(middle <= 2 * ku + lu) by (nonlinear_arith)
            requires
                middle == (2 * start + length) * u,
                start <= k,
                ku == k * u,
                lu == length * u,
                u > 0,
        ;
    }
    if start + length + 1 < side {
        assert(start >= k - 1);
        assert(middle >= 2 * ku - 2 * u + lu) by (nonlinear_arith)
            requires
                middle == (2 * start + length) * u,
                start >= k - 1,
                ku == k * u,
                lu == length * u,
                u > 0,
        ;
    }
}

/// Half of a whole number of pixels.
proof fn lemma_half(length: u32)
    requires
        length <= 0x10_0000,
    ensures
        ({
            let h = Single::natural(length as nat).over(Single::natural(2));
            finite(h) && 2 * units(h) == length * pow2(149)
        }),
{
    let u = pow2(149);
    let n = length as nat;
    lemma2_to64();
    lemma_pow2_pos(149);
    lemma_pow2_unfold(149);
    lemma_pow2_adds(24, 149);
    lemma_pow2_le(173, 276);
    lemma_exact_integer(n);
    lemma_exact_integer(2);
    let half = pow2(148);
    let w = 2 * u;
    assert(n * u * u == n * half * w) by (nonlinear_arith)
        requires
            u == 2 * half,
            w == 2 * u,
    ;
    assert(n * half <= pow2(276)) by (nonlinear_arith)
        requires
            n <= 1048576,
            2 * half == u,
            pow2(276) >= 16777216 * u,
    ;
    assert(n * half * w <= pow2(276) * w) by (nonlinear_arith)
        requires
            n * half <= pow2(276),
            w > 0,
    ;
    lemma_round_units_exact(n, 148, w, 24);
    lemma_no_overflow(false, n * u * u, w);
    reveal(Single::over_spec);
    assert(2 * (n * half) == n * u) by (nonlinear_arith)
        requires
            u == 2 * half,
    ;
}

/// A crop of a share of a frame covers that share of each side, to two pixels, and lies
/// around the point that it was asked for, as far as the frame allows.
pub proof fn law_crop_lies_around_its_point(
    width: u32,
    height: u32,
    ratio: Single,
    center: (Single, Single),
)
    requires
        is_share(ratio),
        is_share(center.0),
        is_share(center.1),
        2 <= width <= 0x10_0000,
        2 <= height <= 0x10_0000,
        2 * pow2(149) <= units(ratio) * width,
        2 * pow2(149) <= units(ratio) * height,
    ensures
        ({
            let r = CropRegion::around(width, height, ratio, center);
            let u = pow2(149) as int;
            &&& (r.width - 1) * u <= units(ratio) * width <= (r.width + 2) * u
            &&& (r.height - 1) * u <= units(ratio) * height <= (r.height + 2) * u
            &&& centred(r.x, r.width, width, center.0)
            &&& centred(r.y, r.height, height, center.1)
        }),
{
    lemma_crop_side(width, ratio);
    lemma_crop_side(height, ratio);
    lemma_crop_start(width, crop_side(width, ratio), center.0);
    lemma_crop_start(height, crop_side(height, ratio), center.1);
}

/// The shares of the three stages: three, four and five sixths.
proof fn lemma_stage_ratio(stage: int)
    requires
        0 <= stage < 3,
    ensures
        is_share(stage_ratio(stage)),
        gap(6 * units(stage_ratio(stage)), (3 + stage) * pow2(149)) * 4194304 <= pow2(149),
        6 * units(stage_ratio(stage)) >= 2 * pow2(149),
{
    lemma2_to64();
    lemma_pow2_pos(149);
    lemma_pow2_adds(24, 125);
    lemma_pow2_adds(23, 125);
    lemma_pow2_adds(1, 148);
    lemma_exact_integer(0);
    lemma_exact_integer(1);
    assert(0 * pow2(149) == 0 && 1 * pow2(149) == pow2(149));
    assert((Single { bits: 0x3f00_0000 }).value() == (Value::Finite {
        negative: false,
        units: 0x80_0000 * pow2(125),
    }));
    assert((Single { bits: 0x3f2a_aaab }).value() == (Value::Finite {
        negative: false,
        units: 11184811 * pow2(125),
    }));
    assert((Single { bits: 0x3f55_5555 }).value() == (Value::Finite {
        negative: false,
        units: 13981013 * pow2(125),
    }));
    let u = pow2(149) as int;
    let all = (3 + stage) * u;
    if stage == 0 {
        assert(all == 3 * u);
    } else if stage == 1 {
        assert(all == 4 * u);
    } else {
        assert(all == 5 * u);
    }
}

/// The region of a stage of the search around the expected place.
proof fn lemma_stage_region(
    width: u32,
    height: u32,
    predicted: (Single, Single),
    stage: int,
)
    requires
        0 <= stage < 3,
        is_share(predicted.0),
        is_share(predicted.1),
        8 <= width <= 0x10_0000,
        8 <= height <= 0x10_0000,
    ensures
        stage_covers(
            CropRegion::around(width, height, stage_ratio(stage), predicted),
            stage,
            width,
            height,
            predicted,
        ),
        CropRegion::around(width, height, stage_ratio(stage), predicted) != CropRegion::whole(
            width,
            height,
        ),
{
    let u = pow2(149) as int;
    lemma_pow2_pos(149);
    lemma_stage_ratio(stage);
    let x = units(stage_ratio(stage));
    lemma_stage_side(u, x, stage, width as int);
    lemma_stage_side(u, x, stage, height as int);
    law_crop_lies_around_its_point(width, height, stage_ratio(stage), predicted);
    let r = CropRegion::around(width, height, stage_ratio(stage), predicted);
    lemma_stage_length(u, x, stage, width as int, r.width as int);
    lemma_stage_length(u, x, stage, height as int, r.height as int);
    let n = width as int;
    assert((3 + stage) * n <= 5 * n) by (nonlinear_arith)
        requires
            stage <= 2,
            n >= 0,
    ;
}

/// The steps of the first stages, one for each.
proof fn lemma_stage_steps(width: u32, height: u32, predicted: (Single, Single), stages: nat)
    requires
        stages <= 3,
        is_share(predicted.0),
        is_share(predicted.1),
        8 <= width <= 0x10_0000,
        8 <= height <= 0x10_0000,
    ensures
        local_steps(width, height, predicted, stages).len() == stages,
        forall|i: int|
            0 <= i < stages ==> #[trigger] local_steps(width, height, predicted, stages)[i] == (
            SearchStep::Local {
                stage: i as usize,
                region: CropRegion::around(width, height, stage_ratio(i), predicted),
            }),
    decreases stages,
{
    if stages > 0 {
        let k = (stages - 1) as nat;
        lemma_stage_steps(width, height, predicted, k);
        lemma_stage_region(width, height, predicted, k as int);
        let before = local_steps(width, height, predicted, k);
        let now = local_steps(width, height, predicted, stages);
        assert forall|i: int| 0 <= i < stages implies #[trigger] now[i] == (SearchStep::Local {
            stage: i as usize,
            region: CropRegion::around(width, height, stage_ratio(i), predicted),
        }) by {
            if i < k {
                assert(now[i] == before[i]);
            }
        }
    }
}

proof fn lemma_stage_side(u: int, x: int, stage: int, side: int)
    requires
        u > 0,
        0 <= stage < 3,
        gap(6 * x, (3 + stage) * u) * 4194304 <= u,
        side >= 8,
    ensures
        2 * u <= x * side,
{
    let all = (3 + stage) * u;
    assert(all >= 3 * u) by (nonlinear_arith)
        requires
            all == (3 + stage) * u,
            stage >= 0,
            u > 0,
    ;
    assert(2 * u <= x * side) by (nonlinear_arith)
        requires
            6 * x >= 2 * u,
            side >= 8,
            u > 0,
    ;
}

proof fn lemma_stage_length(u: int, x: int, stage: int, side: int, n: int)
    requires
        u > 0,
        0 <= stage < 3,
        gap(6 * x, (3 + stage) * u) * 4194304 <= u,
        8 <= side <= 0x10_0000,
        (n - 1) * u <= x * side <= (n + 2) * u,
    ensures
        6 * (n - 1) <= (3 + stage) * side + 1,
        (3 + stage) * side <= 6 * (n + 2) + 1,
{
    let all = (3 + stage) * side;
    let xs = x * side;
    let au = all * u;
    let k = (3 + stage) * u;
    assert(gap(6 * xs, au) * 4 <= u) by (nonlinear_arith)
        requires
            gap(6 * x, k) * 4194304 <= u,
            k == (3 + stage) * u,
            xs == x * side,
            au == all * u,
            all == (3 + stage) * side,
            0 <= side <= 0x10_0000,
            6 * x >= k ==> gap(6 * x, k) == 6 * x - k,
            6 * x < k ==> gap(6 * x, k) == k - 6 * x,
            gap(6 * xs, au) == 6 * xs - au || gap(6 * xs, au) == au - 6 * xs,
            gap(6 * xs, au) >= 0,
    ;
    assert(6 * (n - 1) <= all + 1) by (nonlinear_arith)
        requires
            6 * ((n - 1) * u) <= 6 * xs,
            6 * xs <= au + u,
            au == all * u,
            u > 0,
    ;
    assert(all <= 6 * (n + 2) + 1) by (nonlinear_arith)
        requires
            6 * xs <= 6 * ((n + 2) * u),
            au <= 6 * xs + u,
            au == all * u,
            u > 0,
    ;
}

/// A region covers as many sixths of each side as the stage says, three more than its
/// number, to two pixels, and lies around the expected place.
pub open spec fn stage_covers(
    r: CropRegion,
    stage: int,
    width: u32,
    height: u32,
    predicted: (Single, Single),
) -> bool {
    &&& 6 * (r.width - 1) <= (3 + stage) * width + 1
    &&& (3 + stage) * width <= 6 * (r.width + 2) + 1
    &&& 6 * (r.height - 1) <= (3 + stage) * height + 1
    &&& (3 + stage) * height <= 6 * (r.height + 2) + 1
    &&& centred(r.x, r.width, width, predicted.0)
    &&& centred(r.y, r.height, height, predicted.1)
}

/// For twenty-four misses the search looks at three regions around the expected place,
/// one after the other: of one half, two thirds and five sixths of each side.
pub proof fn law_local_search_grows_around_the_expected_place(
    width: u32,
    height: u32,
    predicted: (Single, Single),
    misses: u32,
)
    requires
        misses < 24,
        is_share(predicted.0),
        is_share(predicted.1),
        8 <= width <= 0x10_0000,
        8 <= height <= 0x10_0000,
    ensures
        ({
            let steps = search_steps(width, height, predicted, misses);
            &&& steps.len() == 3
            &&& forall|i: int|
                0 <= i < 3 ==> ((#[trigger] steps[i]) matches SearchStep::Local { stage, region }
                    && stage == i && stage_covers(region, i, width, height, predicted))
        }),
{
    lemma_stage_steps(width, height, predicted, 3);
    let steps = search_steps(width, height, predicted, misses);
    assert forall|i: int| 0 <= i < 3 implies ((#[trigger] steps[i]) matches SearchStep::Local {
        stage,
        region,
    } && stage == i && stage_covers(region, i, width, height, predicted)) by {
        lemma_stage_region(width, height, predicted, i);
    }
}

/// From twenty-four misses on, every fourth frame is searched in its four corners, and
/// the others not at all.
pub proof fn law_late_search_looks_at_the_corners(
    width: u32,
    height: u32,
    predicted: (Single, Single),
    misses: u32,
)
    requires
        misses >= 24,
    ensures
        ({
            let steps = search_steps(width, height, predicted, misses);
            &&& misses % 4 != 0 ==> steps.len() == 0
            &&& misses % 4 == 0 ==> steps.len() == 4 && forall|i: int|
                0 <= i < 4 ==> ((#[trigger] steps[i]) matches SearchStep::Tile { tile, region }
                    && tile == i && (i % 2 == 0 ==> region.x == 0) && (i < 2 ==> region.y == 0))
        }),
{
}

/// A camera that lost the ball fewer than twenty-four frames ago searches around the
/// place where it expects the ball.
pub proof fn law_search_surrounds_the_prediction(
    b: RecoveryModel,
    camera: CameraId,
    width: u32,
    height: u32,
)
    requires
        b.cameras[camera.index()].misses < 24,
        b.cameras[camera.index()].prediction() matches Some((x, y)) && is_share(x) && is_share(y),
        8 <= width <= 0x10_0000,
        8 <= height <= 0x10_0000,
    ensures
        ({
            let steps = steps_for(b, camera, width, height);
            let place = b.cameras[camera.index()].prediction()->0;
            &&& steps.len() == 3
            &&& forall|i: int|
                0 <= i < 3 ==> ((#[trigger] steps[i]) matches SearchStep::Local { stage, region }
                    && stage == i && stage_covers(region, i, width, height, place))
        }),
{
    let state = b.cameras[camera.index()];
    law_local_search_grows_around_the_expected_place(
        width,
        height,
        state.prediction()->0,
        state.misses,
    );
}

} // verus!
