//! Where detections of a region lie in the frame.

use crate::binary::integers::lemma_exact_integer;
use crate::binary::magnitude::lemma_pow2_le;
use crate::binary::nearness::{
    finite, lemma_over_near, lemma_plus_near, lemma_times_near, size, units,
};
use crate::binary::rounding::{
    gap, lemma_round_units_exact, lemma_round_units_monotone, round_units, written_as,
};
use crate::binary::single::Single;
use crate::binary::value::{lemma_bounded_held, product, quotient, sum, Format, Value};
use crate::crop::CropRegion;
use crate::detection::Detection;
use crate::fitting::lemma_side_units;
use crate::recovery::between;
use vstd::arithmetic::power2::{
    lemma2_to64, lemma_pow2_adds, lemma_pow2_pos, lemma_pow2_unfold, pow2,
};
use vstd::prelude::*;

verus! {

/// A share of a side: a number from zero to one.
pub open spec fn is_share(x: Single) -> bool {
    between(x, Single::natural(0), Single::natural(1))
}

/// One coordinate: what lies in the region lies in the frame.
proof fn lemma_share_of_frame(start: u32, length: u32, side: u32, c: Single)
    requires
        start + length <= side,
        0 < side < 0x100_0000,
        is_share(c),
    ensures
        is_share(
            Single::natural(start as nat).plus(
                c.times(Single::natural(length as nat)),
            ).over(Single::natural(side as nat)),
        ),
{
    let f = Format::Binary32;
    let u = pow2(149);
    let x = start as nat;
    let w = length as nat;
    let n = side as nat;
    lemma2_to64();
    lemma_pow2_pos(149);
    lemma_pow2_adds(24, 149);
    lemma_pow2_le(173, 276);
    lemma_pow2_unfold(277);
    lemma_exact_integer(x);
    lemma_exact_integer(w);
    lemma_exact_integer(n);
    lemma_exact_integer(0);
    lemma_exact_integer(1);
    assert(0 * u == 0 && 1 * u == u);
    reveal(Single::times_spec);
    reveal(Single::plus_spec);
    reveal(Single::over_spec);
    assert(n * u < pow2(173)) by (nonlinear_arith)
        requires
            n < 16777216,
            pow2(173) == 16777216 * u,
            u > 0,
    ;
    // A share of the region's length. A negative zero counts as zero.
    let neg = c.value()->Finite_negative;
    let s = c.value()->Finite_units;
    assert(c.value() is Finite && s <= u && (neg ==> s == 0));
    let p = round_units(s * (w * u), u, 24);
    assert(s * (w * u) <= w * u * u) by (nonlinear_arith)
        requires
            s <= u,
            w >= 0,
            u > 0,
    ;
    lemma_round_units_exact(w, 149, u, 24);
    lemma_round_units_monotone(s * (w * u), w * u * u, u, 24);
    assert(p <= w * u);
    assert(w * u <= n * u && x * u + w * u <= n * u) by (nonlinear_arith)
        requires
            x + w <= n,
            x >= 0,
            u > 0,
    ;
    if s == 0 {
        assert(0 * (w * u) == 0) by (nonlinear_arith);
        lemma_round_units_exact(0, 0, u, 24);
        assert(0 * pow2(0) * u == 0) by (nonlinear_arith);
        assert(p == 0);
    }
    lemma_bounded_held(f, neg, s * (w * u), u);
    let share = Value::Finite { negative: neg, units: p };
    assert(product(f, c.value(), Single::natural(w).value()) == share);
    Single::lemma_of_value(share);
    // Added to the start.
    let t = round_units(x * u + p, 1, 24);
    assert((x + w) * u == x * u + w * u) by (nonlinear_arith);
    lemma_round_units_exact(x + w, 149, 1, 24);
    assert((x + w) * u * 1 == (x + w) * u);
    lemma_round_units_monotone(x * u + p, (x + w) * u, 1, 24);
    lemma_round_units_exact(x, 149, 1, 24);
    assert(x * u * 1 == x * u);
    lemma_round_units_exact(0, 0, 1, 24);
    assert(t <= n * u);
    lemma_bounded_held(f, false, x * u + p, 1);
    let at = Value::Finite { negative: false, units: t };
    assert(sum(f, Single::natural(x).value(), share) == at);
    Single::lemma_of_value(at);
    // As a share of the frame.
    let side_units = n * u;
    assert(side_units > 0) by (nonlinear_arith)
        requires
            side_units == n * u,
            n > 0,
            u > 0,
    ;
    let q = round_units(t * u, side_units, 24);
    assert(t * u <= u * side_units) by (nonlinear_arith)
        requires
            t <= side_units,
    ;
    lemma_round_units_exact(1, 149, side_units, 24);
    assert(1 * u * side_units == u * side_units);
    lemma_round_units_monotone(t * u, u * side_units, side_units, 24);
    assert(q <= u);
    lemma_bounded_held(f, false, t * u, side_units);
    let r = Value::Finite { negative: false, units: q };
    assert(quotient(f, at, Single::natural(n).value()) == r);
    Single::lemma_of_value(r);
}

/// A detection whose centre lies in a region has it in the frame, once it is mapped
/// there; its camera, its class and its confidence stay the same.
pub proof fn law_remapped_centre_lies_in_frame(
    region: CropRegion,
    detection: Detection,
    frame_width: u32,
    frame_height: u32,
)
    requires
        region.within(frame_width, frame_height),
        0 < frame_width < 0x100_0000,
        0 < frame_height < 0x100_0000,
        is_share(detection.center_x),
        is_share(detection.center_y),
    ensures
        ({
            let mapped = region.remapped(detection, frame_width, frame_height);
            &&& is_share(mapped.center_x)
            &&& is_share(mapped.center_y)
            &&& mapped.camera == detection.camera
            &&& mapped.class_id == detection.class_id
            &&& mapped.confidence == detection.confidence
        }),
{
    lemma_share_of_frame(region.x, region.width, frame_width, detection.center_x);
    lemma_share_of_frame(region.y, region.height, frame_height, detection.center_y);
}

/// What can be held is not rounded.
proof fn lemma_held_is_exact(s: Single, den: nat)
    requires
        finite(s),
        den > 0,
    ensures
        round_units(s.value()->Finite_units * den, den, 24) == s.value()->Finite_units,
{
    s.lemma_value_held();
    let w = s.value()->Finite_units;
    let (m, e) = choose|m: nat, e: nat| #[trigger] written_as(w, m, e, 24);
    lemma_round_units_exact(m, e, den, 24);
}

/// The value of a count that is rounded down from no more than `2^276` units.
proof fn lemma_quotient_value(a: Single, n: Single)
    requires
        finite(a),
        finite(n),
        !(a.value()->Finite_negative),
        !(n.value()->Finite_negative),
        pow2(149) <= n.value()->Finite_units,
        a.value()->Finite_units <= pow2(276),
    ensures
        a.over(n).value() == (Value::Finite {
            negative: false,
            units: round_units(
                a.value()->Finite_units * pow2(149),
                n.value()->Finite_units,
                24,
            ),
        }),
{
    let u = pow2(149);
    let x = a.value()->Finite_units;
    let y = n.value()->Finite_units;
    lemma2_to64();
    lemma_pow2_pos(149);
    reveal(Single::over_spec);
    assert(x * u <= pow2(276) * y) by (nonlinear_arith)
        requires
            x <= pow2(276),
            u <= y,
    ;
    lemma_round_units_exact(1, 276, y, 24);
    assert(1 * pow2(276) * y == pow2(276) * y) by (nonlinear_arith);
    lemma_round_units_monotone(x * u, pow2(276) * y, y, 24);
    lemma_pow2_unfold(277);
    lemma_pow2_pos(276);
    lemma_bounded_held(Format::Binary32, false, x * u, y);
    Single::lemma_of_value(quotient(Format::Binary32, a.value(), n.value()));
}

/// One coordinate: what lies in the region lies between its two ends.
proof fn lemma_share_of_region(start: u32, length: u32, side: u32, c: Single)
    requires
        side > 0,
        is_share(c),
    ensures
        ({
            let x = Single::natural(start as nat);
            let w = Single::natural(length as nat);
            let n = Single::natural(side as nat);
            between(x.plus(c.times(w)).over(n), x.over(n), x.plus(w).over(n))
        }),
{
    let f = Format::Binary32;
    let u = pow2(149);
    let xs = Single::natural(start as nat);
    let ws = Single::natural(length as nat);
    let ns = Single::natural(side as nat);
    let x = lemma_side_units(start);
    let w = lemma_side_units(length);
    let n = lemma_side_units(side);
    lemma2_to64();
    lemma_pow2_pos(149);
    lemma_pow2_unfold(182);
    lemma_pow2_le(182, 276);
    lemma_pow2_unfold(277);
    lemma_pow2_pos(276);
    lemma_exact_integer(0);
    lemma_exact_integer(1);
    assert(0 * u == 0 && 1 * u == u);
    reveal(Single::times_spec);
    reveal(Single::plus_spec);
    let neg = c.value()->Finite_negative;
    let s = c.value()->Finite_units;
    assert(c.value() is Finite && s <= u && (neg ==> s == 0));
    // A share of the length is not longer than the length.
    let p = round_units(s * w, u, 24);
    assert(s * w <= w * u) by (nonlinear_arith)
        requires
            s <= u,
            w >= 0,
    ;
    lemma_held_is_exact(ws, u);
    lemma_round_units_monotone(s * w, w * u, u, 24);
    if s == 0 {
        assert(0 * w == 0) by (nonlinear_arith);
        lemma_round_units_exact(0, 0, u, 24);
        assert(0 * pow2(0) * u == 0) by (nonlinear_arith);
    }
    lemma_bounded_held(f, neg, s * w, u);
    let share = Value::Finite { negative: neg, units: p };
    assert(product(f, c.value(), ws.value()) == share);
    Single::lemma_of_value(share);
    // Added to the start it lies between the start and the end.
    let t = round_units(x + p, 1, 24);
    let far = round_units(x + w, 1, 24);
    lemma_held_is_exact(xs, 1);
    assert(x * 1 == x);
    lemma_round_units_monotone(x, x + p, 1, 24);
    lemma_round_units_monotone(x + p, x + w, 1, 24);
    lemma_round_units_exact(1, 182, 1, 24);
    assert(1 * pow2(182) * 1 == pow2(182)) by (nonlinear_arith);
    lemma_round_units_monotone(x + w, pow2(182), 1, 24);
    lemma_round_units_exact(0, 0, 1, 24);
    assert(0 * pow2(0) * 1 == 0) by (nonlinear_arith);
    lemma_bounded_held(f, false, x + p, 1);
    lemma_bounded_held(f, false, x + w, 1);
    let at = Value::Finite { negative: false, units: t };
    let end = Value::Finite { negative: false, units: far };
    assert(sum(f, xs.value(), share) == at);
    assert(sum(f, xs.value(), ws.value()) == end);
    Single::lemma_of_value(at);
    Single::lemma_of_value(end);
    // And so do the shares of the side.
    let middle = xs.plus(c.times(ws));
    let last = xs.plus(ws);
    lemma_quotient_value(xs, ns);
    lemma_quotient_value(middle, ns);
    lemma_quotient_value(last, ns);
    assert(x * u <= t * u && t * u <= far * u) by (nonlinear_arith)
        requires
            x <= t <= far,
            u > 0,
    ;
    lemma_round_units_monotone(x * u, t * u, n, 24);
    lemma_round_units_monotone(t * u, far * u, n, 24);
}

/// A detection whose centre lies in a region has it, once it is mapped to the frame,
/// between the ends of the region: each end is the true share of the frame's side, but
/// for rounding.
pub proof fn law_remapped_centre_lies_in_region(
    region: CropRegion,
    detection: Detection,
    frame_width: u32,
    frame_height: u32,
)
    requires
        frame_width > 0,
        frame_height > 0,
        is_share(detection.center_x),
        is_share(detection.center_y),
    ensures
        ({
            let mapped = region.remapped(detection, frame_width, frame_height);
            let fw = Single::natural(frame_width as nat);
            let fh = Single::natural(frame_height as nat);
            let x = Single::natural(region.x as nat);
            let y = Single::natural(region.y as nat);
            let w = Single::natural(region.width as nat);
            let h = Single::natural(region.height as nat);
            &&& between(mapped.center_x, x.over(fw), x.plus(w).over(fw))
            &&& between(mapped.center_y, y.over(fh), y.plus(h).over(fh))
            &&& mapped.camera == detection.camera
            &&& mapped.class_id == detection.class_id
            &&& mapped.confidence == detection.confidence
        }),
{
    lemma_share_of_region(region.x, region.width, frame_width, detection.center_x);
    lemma_share_of_region(region.y, region.height, frame_height, detection.center_y);
}

/// Two numbers are the same but for rounding: they differ by no more than one part in
/// `2^21` and two units.
pub open spec fn same_but_for_rounding(a: Single, b: Single) -> bool {
    &&& finite(a)
    &&& finite(b)
    &&& gap(units(a), units(b)) * 2097152 <= size(units(b)) + 4194304
}

/// The chain of inequalities from a share to itself.
proof fn lemma_back_and_forth(c: int, n: int, u: int, a: int, s: int, r: int)
    requires
        0 <= c,
        0 < u <= n,
        0 <= a,
        0 <= s,
        0 <= r,
        gap(a * u, c * n) * 16777216 <= c * n + 8388608 * u,
        gap(s, a) * 16777216 <= a,
        gap(r * n, s * u) * 16777216 <= s * u + 8388608 * n,
    ensures
        gap(r, c) * 2097152 <= c + 4194304,
{
    let cn = c * n;
    let au = a * u;
    let su = s * u;
    let rn = r * n;
    let e = 16777216int;
    assert(cn >= 0 && au >= 0 && su >= 0 && rn >= 0) by (nonlinear_arith)
        requires
            cn == c * n,
            au == a * u,
            su == s * u,
            rn == r * n,
            c >= 0,
            n > 0,
            u > 0,
            a >= 0,
            s >= 0,
            r >= 0,
    ;
    assert(gap(su, au) * e <= au) by (nonlinear_arith)
        requires
            gap(s, a) * e <= a,
            su == s * u,
            au == a * u,
            u > 0,
            s >= a ==> gap(s, a) == s - a,
            s < a ==> gap(s, a) == a - s,
            su >= au ==> gap(su, au) == su - au,
            su < au ==> gap(su, au) == au - su,
            e > 0,
    ;
    assert(au <= 2 * cn + n);
    assert(su <= 4 * cn + 2 * n);
    assert(gap(rn, cn) * e <= 7 * cn + 16777219 * n);
    assert(gap(r, c) * e <= 7 * c + 16777219) by (nonlinear_arith)
        requires
            gap(rn, cn) * e <= 7 * cn + 16777219 * n,
            rn == r * n,
            cn == c * n,
            n > 0,
            r >= c ==> gap(r, c) == r - c,
            r < c ==> gap(r, c) == c - r,
            rn >= cn ==> gap(rn, cn) == rn - cn,
            rn < cn ==> gap(rn, cn) == cn - rn,
            e == 16777216,
    ;
}

/// What is near a number that is not negative is not negative.
proof fn lemma_not_negative(a: int, m: int, exact: int)
    requires
        m > 0,
        exact >= 0,
        gap(a * m, exact) * 16777216 <= exact + 8388608 * m,
    ensures
        a >= 0,
{
    let x = a * m;
    if a < 0 {
        assert(x <= -m) by (nonlinear_arith)
            requires
                x == a * m,
                a <= -1,
                m > 0,
        ;
    }
}

proof fn lemma_share_of_itself(side: u32, c: Single)
    requires
        side > 0,
        is_share(c),
    ensures
        same_but_for_rounding(
            Single::natural(0).plus(c.times(Single::natural(side as nat))).over(
                Single::natural(side as nat),
            ),
            c,
        ),
{
    let u = pow2(149) as int;
    let ns = Single::natural(side as nat);
    let n = lemma_side_units(side);
    lemma2_to64();
    lemma_pow2_pos(149);
    lemma_pow2_adds(32, 149);
    lemma_pow2_le(182, 276);
    lemma_pow2_unfold(182);
    lemma_exact_integer(0);
    lemma_exact_integer(1);
    assert(0 * u == 0 && 1 * u == u);
    let cu = units(c);
    assert(finite(c) && 0 <= cu <= u);
    assert(cu * n <= pow2(276) * pow2(149)) by (nonlinear_arith)
        requires
            0 <= cu <= u,
            u == pow2(149),
            0 <= n <= pow2(181),
            pow2(181) <= pow2(276),
    ;
    lemma_pow2_le(181, 276);
    lemma_times_near(c, ns);
    lemma_share_of_region(0, side, side, c);
    let a = c.times(ns);
    let au = units(a);
    assert(cu * n >= 0) by (nonlinear_arith)
        requires
            cu >= 0,
            n >= 0,
    ;
    lemma_not_negative(au, u, cu * n);
    assert(au <= pow2(182)) by (nonlinear_arith)
        requires
            gap(au * u, cu * n) * 16777216 <= cu * n + 8388608 * u,
            gap(au * u, cu * n) >= au * u - cu * n,
            0 <= cu <= u,
            u > 0,
            u <= n <= pow2(181),
            pow2(182) == 2 * pow2(181),
    ;
    lemma_plus_near(Single::natural(0), a);
    let s = Single::natural(0).plus(a);
    let su = units(s);
    assert(su >= 0 && su <= 2 * au);
    lemma_pow2_unfold(183);
    lemma_pow2_le(183, 276);
    assert(su * u <= pow2(276) * n) by (nonlinear_arith)
        requires
            su <= pow2(276),
            0 <= u <= n,
            su >= 0,
    ;
    lemma_over_near(s, ns);
    let r = s.over(ns);
    let ru = units(r);
    assert(su * u >= 0) by (nonlinear_arith)
        requires
            su >= 0,
            u > 0,
    ;
    lemma_not_negative(ru, n as int, su * u);
    assert(size(cu * n) == cu * n);
    lemma_back_and_forth(cu, n as int, u, au, su, ru);
}

/// Mapped as the whole frame, a detection is what it was: its size exactly, unless it
/// is no number, and its centre but for rounding.
pub proof fn law_whole_frame_maps_to_itself(
    detection: Detection,
    frame_width: u32,
    frame_height: u32,
)
    requires
        frame_width > 0,
        frame_height > 0,
        is_share(detection.center_x),
        is_share(detection.center_y),
    ensures
        ({
            let whole = CropRegion::whole(frame_width, frame_height);
            let mapped = whole.remapped(detection, frame_width, frame_height);
            &&& same_but_for_rounding(mapped.center_x, detection.center_x)
            &&& same_but_for_rounding(mapped.center_y, detection.center_y)
            &&& !(detection.width.value() is Nan) ==> mapped.width == detection.width
            &&& !(detection.height.value() is Nan) ==> mapped.height == detection.height
        }),
{
    lemma_share_of_itself(frame_width, detection.center_x);
    lemma_share_of_itself(frame_height, detection.center_y);
    lemma_times_own_ratio(frame_width, detection.width);
    lemma_times_own_ratio(frame_height, detection.height);
}

proof fn lemma_times_own_ratio(side: u32, x: Single)
    requires
        side > 0,
    ensures
        !(x.value() is Nan) ==> x.times(
            Single::natural(side as nat).over(Single::natural(side as nat)),
        ) == x,
{
    let f = Format::Binary32;
    let u = pow2(149);
    let ns = Single::natural(side as nat);
    let n = lemma_side_units(side);
    lemma2_to64();
    lemma_pow2_pos(149);
    lemma_pow2_le(181, 276);
    lemma_quotient_value(ns, ns);
    lemma_round_units_exact(1, 149, n, 24);
    assert(1 * u * n == n * u) by (nonlinear_arith);
    let one = ns.over(ns);
    assert(one.value() == (Value::Finite { negative: false, units: u }));
    if !(x.value() is Nan) {
        reveal(Single::times_spec);
        if finite(x) {
            lemma_held_is_exact(x, u);
        }
        x.lemma_value_held();
        assert(product(f, x.value(), one.value()) == x.value());
        Single::lemma_of_value(x.value());
        Single::lemma_injective(Single::of(x.value()), x);
    }
}

} // verus!
