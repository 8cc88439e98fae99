//! What is found in a region is mapped to where it lies in the frame.

use crate::binary::magnitude::lemma_pow2_le;
use crate::binary::nearness::{
    finite, lemma_natural_near, lemma_over_near, lemma_plus_near, lemma_times_near, size, units,
};
use crate::binary::rounding::gap;
use crate::binary::single::Single;
use crate::crop::CropRegion;
use crate::detection::Detection;
use crate::region_laws::lemma_ratio_near;
use crate::remapping::is_share;
use crate::trajectory_laws::lemma_share;
use vstd::arithmetic::power2::{lemma2_to64, lemma_pow2_adds, lemma_pow2_pos, pow2};
use vstd::prelude::*;

verus! {

/// The chain of inequalities from a share of a region to a share of the frame.
#[verifier::rlimit(40)]
proof fn lemma_centre_chain(
    u: int,
    c: int,
    x: int,
    w: int,
    f: int,
    xu: int,
    wu: int,
    fu: int,
    t: int,
    s: int,
    m: int,
)
    requires
        u >= 340282366920938463463374607431768211456,
        0 <= c <= u,
        x >= 0,
        w >= 0,
        x + w <= f,
        1 <= f <= 0xffff_ffff,
        gap(xu, x * u) * 16777216 <= x * u,
        gap(wu, w * u) * 16777216 <= w * u,
        gap(fu, f * u) * 16777216 <= f * u,
        gap(t * u, c * wu) * 16777216 <= size(c * wu) + 8388608 * u,
        gap(s, xu + t) * 16777216 <= size(xu + t),
        gap(m * fu, s * u) * 16777216 <= size(s) * u + 8388608 * fu,
    ensures
        gap(m * f, x * u + c * w) * 1048576 <= f * u,
{
    let e = 16777216int;
    let (xx, ww, ff) = (x * u, w * u, f * u);
    assert(0 <= xx && 0 <= ww && xx + ww <= ff && ff >= u && ff <= 0xffff_ffff * u)
        by (nonlinear_arith)
        requires
            xx == x * u,
            ww == w * u,
            ff == f * u,
            x >= 0,
            w >= 0,
            x + w <= f,
            1 <= f <= 0xffff_ffff,
            u > 0,
    ;
    // The share of the region, in pixels.
    let cw = c * w;
    let cwu = c * wu;
    let cww = c * ww;
    let tu = t * u;
    assert(cww == cw * u && 0 <= cw <= ww) by (nonlinear_arith)
        requires
            cww == c * ww,
            ww == w * u,
            cw == c * w,
            0 <= c <= u,
            w >= 0,
    ;
    assert(gap(cwu, cww) * e <= cww) by (nonlinear_arith)
        requires
            gap(wu, ww) * e <= ww,
            cwu == c * wu,
            cww == c * ww,
            c >= 0,
            e > 0,
            wu >= ww ==> gap(wu, ww) == wu - ww,
            wu < ww ==> gap(wu, ww) == ww - wu,
            gap(cwu, cww) == cwu - cww || gap(cwu, cww) == cww - cwu,
            gap(cwu, cww) >= 0,
    ;
    assert(cww >= 0) by (nonlinear_arith)
        requires
            cww == cw * u,
            cw >= 0,
            u > 0,
    ;
    assert(gap(tu, cww) * e <= 3 * cww + 8388608 * u);
    assert(gap(t, cw) * e <= 3 * cw + 8388608) by (nonlinear_arith)
        requires
            gap(tu, cww) * e <= 3 * cww + 8388608 * u,
            tu == t * u,
            cww == cw * u,
            u > 0,
            e > 0,
            t >= cw ==> gap(t, cw) == t - cw,
            t < cw ==> gap(t, cw) == cw - t,
            gap(tu, cww) == tu - cww || gap(tu, cww) == cww - tu,
            gap(tu, cww) >= 0,
    ;
    // Added to the start.
    assert(gap(s, xx + cw) * e <= 7 * ff);
    assert(size(s) <= 2 * ff);
    // By the side of the frame.
    let mfu = m * fu;
    let su = s * u;
    let ffu = ff * u;
    let ss = size(s) * u;
    assert(ss <= 2 * ffu && size(su) == ss) by (nonlinear_arith)
        requires
            ss == size(s) * u,
            ffu == ff * u,
            size(s) <= 2 * ff,
            u > 0,
            su == s * u,
            s >= 0 ==> size(s) == s,
            s < 0 ==> size(s) == -s,
            size(su) == su || size(su) == -su,
            size(su) >= 0,
    ;
    assert(8388608 * fu <= ffu) by (nonlinear_arith)
        requires
            fu <= 2 * ff,
            ffu == ff * u,
            u >= 340282366920938463463374607431768211456,
            ff >= 0,
    ;
    assert(gap(mfu, su) * e <= 3 * ffu);
    assert(size(mfu) <= 3 * ffu);
    let mff = m * ff;
    assert(gap(mfu, mff) * e <= 2 * size(mfu)) by (nonlinear_arith)
        requires
            gap(fu, ff) * e <= ff,
            ff <= 2 * fu,
            mfu == m * fu,
            mff == m * ff,
            e > 0,
            fu > 0,
            fu >= ff ==> gap(fu, ff) == fu - ff,
            fu < ff ==> gap(fu, ff) == ff - fu,
            size(mfu) == mfu || size(mfu) == -mfu,
            size(mfu) >= 0,
            gap(mfu, mff) == mfu - mff || gap(mfu, mff) == mff - mfu,
            gap(mfu, mff) >= 0,
    ;
    assert(gap(mff, su) * e <= 9 * ffu);
    let mf = m * f;
    assert(mff == mf * u) by (nonlinear_arith)
        requires
            mff == m * ff,
            ff == f * u,
            mf == m * f,
    ;
    assert(gap(mf, s) * e <= 9 * ff) by (nonlinear_arith)
        requires
            gap(mff, su) * e <= 9 * ffu,
            mff == mf * u,
            su == s * u,
            ffu == ff * u,
            u > 0,
            e > 0,
            mf >= s ==> gap(mf, s) == mf - s,
            mf < s ==> gap(mf, s) == s - mf,
            gap(mff, su) == mff - su || gap(mff, su) == su - mff,
            gap(mff, su) >= 0,
    ;
}

/// One coordinate of a centre.
#[verifier::rlimit(40)]
proof fn lemma_mapped_centre(start: u32, length: u32, side: u32, c: Single)
    requires
        start + length <= side,
        side >= 1,
        is_share(c),
    ensures
        ({
            let m = Single::natural(start as nat).plus(
                c.times(Single::natural(length as nat)),
            ).over(Single::natural(side as nat));
            &&& finite(m)
            &&& gap(units(m) * side, start * pow2(149) + units(c) * length) * 1048576 <= side
                * pow2(149)
        }),
{
    let u = pow2(149) as int;
    lemma2_to64();
    lemma_pow2_pos(149);
    lemma_pow2_adds(64, 64);
    lemma_pow2_le(128, 149);
    lemma_pow2_adds(64, 149);
    lemma_pow2_le(213, 276);
    lemma_share(c);
    lemma_natural_near(start as nat);
    lemma_natural_near(length as nat);
    lemma_natural_near(side as nat);
    let (a, b, d) = (
        Single::natural(start as nat),
        Single::natural(length as nat),
        Single::natural(side as nat),
    );
    let (xu, wu, fu) = (units(a), units(b), units(d));
    let big = pow2(276) as int;
    let (x, w, f) = (start as int, length as int, side as int);
    let cu = units(c);
    let fuu = f * u;
    assert(x * u <= fuu && w * u <= fuu && fuu <= 0x1_0000_0000 * u) by (nonlinear_arith)
        requires
            x <= f,
            w <= f,
            f <= 0x1_0000_0000,
            fuu == f * u,
            u > 0,
    ;
    assert(pow2(213) == 0x1_0000_0000_0000_0000 * u);
    assert(size(cu) * size(wu) <= big * u) by (nonlinear_arith)
        requires
            0 <= cu <= u,
            size(cu) == cu,
            0 <= wu <= big,
            size(wu) == wu,
            u > 0,
    ;
    lemma_times_near(c, b);
    let t = c.times(b);
    let tu = units(t);
    assert(size(tu) <= 0x4_0000_0000 * u) by {
        let p = tu * u;
        let q = cu * wu;
        assert(0 <= q <= u * (0x2_0000_0000 * u)) by (nonlinear_arith)
            requires
                q == cu * wu,
                0 <= cu <= u,
                0 <= wu <= 0x2_0000_0000 * u,
        ;
        let uu = u * u;
        assert(u * (0x2_0000_0000 * u) == 0x2_0000_0000 * uu) by (nonlinear_arith)
            requires
                uu == u * u,
        ;
        assert(8388608 * u <= uu) by (nonlinear_arith)
            requires
                uu == u * u,
                u >= 8388608,
        ;
        assert(size(p) <= 0x4_0000_0000 * uu);
        assert(size(tu) <= 0x4_0000_0000 * u) by (nonlinear_arith)
            requires
                size(p) <= 0x4_0000_0000 * uu,
                p == tu * u,
                uu == u * u,
                u > 0,
                size(p) == p || size(p) == -p,
                size(p) >= 0,
                size(tu) == tu || size(tu) == -tu,
                size(tu) >= 0,
        ;
    }
    lemma_plus_near(a, t);
    let s = a.plus(t);
    let ss = size(units(s));
    assert(ss <= big);
    assert(ss * u <= big * fu) by (nonlinear_arith)
        requires
            0 <= ss <= big,
            u <= fu,
            u > 0,
    ;
    lemma_over_near(s, d);
    lemma_centre_chain(u, cu, x, w, f, xu, wu, fu, tu, units(s), units(s.over(d)));
}

/// One side of a detection.
#[verifier::rlimit(40)]
proof fn lemma_mapped_side(length: u32, side: u32, d: Single)
    requires
        1 <= length,
        1 <= side,
        length <= side,
        finite(d) && size(units(d)) <= 1024 * pow2(149),
    ensures
        ({
            let m = d.times(Single::natural(length as nat).over(Single::natural(side as nat)));
            &&& finite(m)
            &&& gap(units(m) * side, units(d) * length) * 1048576 <= size(units(d)) * length
                + 1048576 * side
        }),
{
    let u = pow2(149) as int;
    lemma2_to64();
    lemma_pow2_pos(149);
    lemma_pow2_adds(24, 149);
    lemma_pow2_le(173, 276);
    lemma_ratio_near(length as nat, side as nat);
    let r = Single::natural(length as nat).over(Single::natural(side as nat));
    let (w, f) = (length as int, side as int);
    let (q, x) = (units(r), units(d));
    let sx = size(x);
    let big = pow2(276) as int;
    let qf = q * f;
    let wu = w * u;
    assert(qf <= 2 * wu);
    assert(q <= 2 * u) by (nonlinear_arith)
        requires
            qf == q * f,
            wu == w * u,
            qf <= 2 * wu,
            w <= f,
            f >= 1,
            u > 0,
    ;
    assert(sx * size(q) <= big * u) by (nonlinear_arith)
        requires
            0 <= sx <= 1024 * u,
            0 <= q <= 2 * u,
            size(q) == q,
            2048 * u <= big,
            u > 0,
    ;
    lemma_times_near(d, r);
    let m = units(d.times(r));
    let e = 16777216int;
    let mu = m * u;
    let xq = x * q;
    let sxq = sx * q;
    assert(size(xq) == sxq) by (nonlinear_arith)
        requires
            xq == x * q,
            sxq == sx * q,
            q > 0,
            x >= 0 ==> sx == x,
            x < 0 ==> sx == -x,
            size(xq) == xq || size(xq) == -xq,
            size(xq) >= 0,
    ;
    let muf = mu * f;
    let xqf = x * qf;
    let sxw = sx * w;
    let sxwu = sx * wu;
    assert(sxwu == sxw * u && sxq * f <= 2 * sxwu && sxw >= 0) by (nonlinear_arith)
        requires
            sxwu == sx * wu,
            sxw == sx * w,
            wu == w * u,
            sxq == sx * q,
            qf == q * f,
            qf <= 2 * wu,
            sx >= 0,
            w >= 0,
    ;
    let fu = f * u;
    assert(gap(muf, xqf) * e <= 2 * sxwu + 8388608 * fu) by (nonlinear_arith)
        requires
            gap(mu, xq) * e <= sxq + 8388608 * u,
            muf == mu * f,
            xqf == x * qf,
            xq == x * q,
            qf == q * f,
            fu == f * u,
            sxq * f <= 2 * sxwu,
            f >= 1,
            e > 0,
            mu >= xq ==> gap(mu, xq) == mu - xq,
            mu < xq ==> gap(mu, xq) == xq - mu,
            gap(muf, xqf) == muf - xqf || gap(muf, xqf) == xqf - muf,
            gap(muf, xqf) >= 0,
    ;
    let xwu = x * wu;
    assert(gap(xqf, xwu) * e <= 9 * sxwu) by (nonlinear_arith)
        requires
            gap(qf, wu) * e <= 9 * wu,
            xqf == x * qf,
            xwu == x * wu,
            sxwu == sx * wu,
            sx == x || sx == -x,
            sx >= 0,
            e > 0,
            qf >= wu ==> gap(qf, wu) == qf - wu,
            qf < wu ==> gap(qf, wu) == wu - qf,
            gap(xqf, xwu) == xqf - xwu || gap(xqf, xwu) == xwu - xqf,
            gap(xqf, xwu) >= 0,
    ;
    assert(gap(muf, xwu) * e <= 11 * sxwu + 8388608 * fu);
    let mf = m * f;
    let xw = x * w;
    assert(muf == mf * u && xwu == xw * u) by (nonlinear_arith)
        requires
            muf == mu * f,
            mu == m * u,
            mf == m * f,
            xwu == x * wu,
            wu == w * u,
            xw == x * w,
    ;
    assert(gap(mf, xw) * e <= 11 * sxw + 8388608 * f) by (nonlinear_arith)
        requires
            gap(muf, xwu) * e <= 11 * sxwu + 8388608 * fu,
            muf == mf * u,
            xwu == xw * u,
            sxwu == sxw * u,
            fu == f * u,
            u > 0,
            e > 0,
            mf >= xw ==> gap(mf, xw) == mf - xw,
            mf < xw ==> gap(mf, xw) == xw - mf,
            gap(muf, xwu) == muf - xwu || gap(muf, xwu) == xwu - muf,
            gap(muf, xwu) >= 0,
    ;
}

/// A detection whose centre is a share of its image, and whose size is a number of a
/// usual size.
pub open spec fn usual_detection(d: Detection) -> bool {
    &&& is_share(d.center_x)
    &&& is_share(d.center_y)
    &&& finite(d.width) && size(units(d.width)) <= 1024 * pow2(149)
    &&& finite(d.height) && size(units(d.height)) <= 1024 * pow2(149)
}

/// A detection in fractions of a region and the same in fractions of the frame: times
/// the frame's sides, the second lies as many pixels from the frame's corner as the
/// region does and its share of the region's sides besides; and it is as wide and as
/// high in pixels as the first. Nothing else differs.
pub open spec fn mapped_to_pixels(
    region: CropRegion,
    detection: Detection,
    m: Detection,
    frame_width: u32,
    frame_height: u32,
) -> bool {
    let u = pow2(149) as int;
    let (w, h) = (units(detection.width), units(detection.height));
    &&& finite(m.center_x) && gap(
        units(m.center_x) * frame_width,
        region.x * u + units(detection.center_x) * region.width,
    ) * 1048576 <= frame_width * u
    &&& finite(m.center_y) && gap(
        units(m.center_y) * frame_height,
        region.y * u + units(detection.center_y) * region.height,
    ) * 1048576 <= frame_height * u
    &&& finite(m.width) && gap(units(m.width) * frame_width, w * region.width) * 1048576 <= size(w)
        * region.width + 1048576 * frame_width
    &&& finite(m.height) && gap(units(m.height) * frame_height, h * region.height) * 1048576
        <= size(h) * region.height + 1048576 * frame_height
    &&& m.camera == detection.camera
    &&& m.class_id == detection.class_id
    &&& m.confidence == detection.confidence
}

/// A detection in a region is mapped to where it lies in the frame.
pub proof fn law_detection_is_mapped_to_its_pixels(
    region: CropRegion,
    detection: Detection,
    frame_width: u32,
    frame_height: u32,
)
    requires
        region.within(frame_width, frame_height),
        region.width >= 1,
        region.height >= 1,
        usual_detection(detection),
    ensures
        mapped_to_pixels(
            region,
            detection,
            region.remapped(detection, frame_width, frame_height),
            frame_width,
            frame_height,
        ),
{
    lemma_mapped_centre(region.x, region.width, frame_width, detection.center_x);
    lemma_mapped_centre(region.y, region.height, frame_height, detection.center_y);
    lemma_mapped_side(region.width, frame_width, detection.width);
    lemma_mapped_side(region.height, frame_height, detection.height);
}

} // verus!
