//! What holds of a configuration that is converted to strides.

use crate::binary::integers::lemma_exact_integer;
use crate::binary::magnitude::lemma_pow2_le;
use crate::binary::nearness::{finite, lemma_minus_near, size, units};
use crate::binary::rounding::{gap, lemma_round_units_exact, lemma_round_units_monotone};
use crate::binary::single::Single;
use crate::binary::value::{lemma_bounded_held, negated, rank, sum, Format};
use crate::remapping::is_share;
use crate::stride::{alpha_converted, config_converted, power_taken, FieldPannerConfig};
use vstd::arithmetic::power::{
    lemma_pow0, lemma_pow1, lemma_pow_adds, lemma_pow_distributes, lemma_pow_multiplies,
    lemma_pow_positive, pow,
};
use vstd::arithmetic::power2::{lemma2_to64, lemma_pow2_adds, lemma_pow2_pos, pow2};
use vstd::prelude::*;

verus! {

/// `p` is near the power `m` of `x`, both counted in units of which `u` are one: it
/// is off by at most one part in `2^22` of one.
pub open spec fn power_near(u: int, x: int, m: nat, p: int) -> bool {
    &&& 0 <= p <= u
    &&& gap(p * pow(u, (m - 1) as nat), pow(x, m)) * 4194304 <= pow(u, m)
}

/// Powers of shares are shares, and near the true powers.
pub open spec fn takes_powers<W: Fn(Single, Single) -> Single>(powf: W) -> bool {
    forall|x: Single, stride: u64, r: Single| #[trigger]
        power_taken(powf, x, stride, r) && is_share(x) && stride >= 2 ==> is_share(r)
            && power_near(pow2(149) as int, units(x), stride as nat, units(r))
}

/// Two powers differ by no more than their bases do, times the exponent and the
/// powers of a bound.
proof fn lemma_powers_differ(a: int, b: int, bound: int, n: nat)
    requires
        0 <= a <= bound,
        0 <= b <= bound,
        bound > 0,
    ensures
        0 <= pow(a, n) <= pow(bound, n),
        n >= 1 ==> gap(pow(a, n), pow(b, n)) <= n * (gap(a, b) * pow(bound, (n - 1) as nat)),
        n == 0 ==> pow(a, n) == 1 && pow(b, n) == 1 && pow(bound, n) == 1,
    decreases n,
{
    reveal(pow);
    if n > 0 {
        let k = (n - 1) as nat;
        lemma_powers_differ(a, b, bound, k);
        lemma_powers_differ(b, a, bound, k);
        let p = pow(a, k);
        let q = pow(b, k);
        let top = pow(bound, k);
        let g = gap(a, b);
        assert(pow(a, n) == a * p && pow(b, n) == b * q && pow(bound, n) == bound * top);
        assert(0 <= a * p <= bound * top) by (nonlinear_arith)
            requires
                0 <= a <= bound,
                0 <= p <= top,
        ;
        if k == 0 {
            assert(top == 1 && p == 1 && q == 1);
            assert(n * (g * top) == g && a * p == a && b * q == b) by (nonlinear_arith)
                requires
                    n == 1,
                    top == 1,
                    p == 1,
                    q == 1,
            ;
            assert(gap(pow(a, n), pow(b, n)) <= n * (g * top));
        } else {
            let low = pow(bound, (k - 1) as nat);
            assert(top == bound * low);
            let inner = gap(p, q);
            let gl = g * low;
            let gt = g * top;
            assert(gl * bound == gt) by (nonlinear_arith)
                requires
                    gl == g * low,
                    gt == g * top,
                    top == bound * low,
            ;
            assert(inner <= k * gl);
            assert(inner * bound <= k * gt) by (nonlinear_arith)
                requires
                    inner <= k * gl,
                    gl * bound == gt,
                    bound > 0,
            ;
            // a * p - b * q == a * (p - q) + (a - b) * q
            let first = a * (p - q);
            let second = (a - b) * q;
            assert(a * p - b * q == first + second) by (nonlinear_arith)
                requires
                    first == a * (p - q),
                    second == (a - b) * q,
            ;
            assert(size(first) <= inner * bound) by (nonlinear_arith)
                requires
                    first == a * (p - q),
                    0 <= a <= bound,
                    inner == if p >= q {
                        p - q
                    } else {
                        q - p
                    },
                    size(first) == first || size(first) == -first,
                    size(first) >= 0,
            ;
            assert(size(second) <= gt) by (nonlinear_arith)
                requires
                    second == (a - b) * q,
                    gt == g * top,
                    0 <= q <= top,
                    g == if a >= b {
                        a - b
                    } else {
                        b - a
                    },
                    size(second) == second || size(second) == -second,
                    size(second) >= 0,
            ;
            assert(n * gt == k * gt + gt) by (nonlinear_arith)
                requires
                    n == k + 1,
            ;
            assert(gap(pow(a, n), pow(b, n)) <= n * gt);
        }
    }
}

/// Of two numbers that are multiplied by the same one.
proof fn lemma_gap_scales(a: int, b: int, w: int)
    requires
        w >= 0,
    ensures
        gap(a * w, b * w) == gap(a, b) * w,
{
    assert(gap(a * w, b * w) == gap(a, b) * w) by (nonlinear_arith)
        requires
            w >= 0,
            gap(a, b) == if a >= b {
                a - b
            } else {
                b - a
            },
            gap(a * w, b * w) == if a * w >= b * w {
                a * w - b * w
            } else {
                b * w - a * w
            },
    ;
}

/// A power of what is near a power is near the power of the product.
#[verifier::rlimit(40)]
proof fn lemma_power_of_power(
    u: int,
    x: int,
    m: nat,
    n: nat,
    p: int,
    y: int,
    q: int,
    both: int,
)
    requires
        u > 0,
        0 <= x <= u,
        0 <= y <= u,
        m >= 1,
        n >= 1,
        power_near(u, x, m, p),
        gap(y, p) * 8388608 <= u,
        power_near(u, y, n, q),
        power_near(u, x, m * n, both),
    ensures
        gap(q, both) * 8388608 <= (3 * n + 4) * u,
{
    let m0 = (m - 1) as nat;
    let n0 = (n - 1) as nat;
    let mn = m * n;
    let rest = m0 * n;
    assert(mn == n + rest && mn >= 1 && rest >= 0) by (nonlinear_arith)
        requires
            mn == m * n,
            rest == m0 * n,
            m == m0 + 1,
            n >= 1,
            m0 >= 0,
    ;
    let mn0 = (mn - 1) as nat;
    let low = pow(u, n0);
    let un = pow(u, n);
    let step = pow(u, m0);
    let um = pow(u, m);
    let wide = pow(u, mn0);
    let all = pow(u, mn);
    let fill = pow(u, rest);
    lemma_pow_positive(u, n0);
    lemma_pow_positive(u, m0);
    lemma_pow_positive(u, mn0);
    lemma_pow_positive(u, rest);
    lemma_pow_positive(u, m);
    lemma_pow1(u);
    lemma_pow_adds(u, 1, n0);
    lemma_pow_adds(u, 1, m0);
    lemma_pow_adds(u, 1, mn0);
    lemma_pow_adds(u, n, rest);
    lemma_pow_adds(u, n0, rest);
    assert(un == u * low && um == u * step && all == u * wide);
    assert(all == un * fill && wide == low * fill);
    // The second power, held against that of the first power's answer.
    let yn = pow(y, n);
    let pn = pow(p, n);
    lemma_powers_differ(y, p, u, n);
    let g = gap(y, p);
    assert(gap(yn, pn) * 8388608 <= n * un) by (nonlinear_arith)
        requires
            gap(yn, pn) <= n * (g * low),
            g * 8388608 <= u,
            un == u * low,
            low > 0,
            n >= 1,
    ;
    let near_q = gap(q * low, pn);
    assert((n + 2) * un == n * un + 2 * un) by (nonlinear_arith);
    assert(near_q * 8388608 <= (n + 2) * un);
    // Brought to the scale of the product.
    let a = p * step;
    let b = pow(x, m);
    lemma_pow_distributes(p, step, n);
    lemma_pow_multiplies(u, m0, n);
    lemma_pow_multiplies(x, m, n);
    lemma_pow_multiplies(u, m, n);
    assert(pow(a, n) == pn * fill);
    assert(q * low * fill == q * wide) by (nonlinear_arith)
        requires
            wide == low * fill,
    ;
    lemma_gap_scales(q * low, pn, fill);
    assert(gap(q * wide, pow(a, n)) * 8388608 <= (n + 2) * all) by (nonlinear_arith)
        requires
            gap(q * wide, pow(a, n)) == near_q * fill,
            near_q * 8388608 <= (n + 2) * un,
            all == un * fill,
            fill > 0,
    ;
    // The first answer, held against the true power.
    lemma_powers_differ(x, x, u, m);
    assert(0 <= a <= um) by (nonlinear_arith)
        requires
            a == p * step,
            um == u * step,
            0 <= p <= u,
            step > 0,
    ;
    lemma_powers_differ(a, b, um, n);
    lemma_pow1(um);
    lemma_pow_adds(um, 1, n0);
    lemma_pow_positive(um, n0);
    let above = pow(um, n0);
    let h = gap(a, b);
    assert(all == um * above);
    assert(gap(pow(a, n), pow(b, n)) * 4194304 <= n * all) by (nonlinear_arith)
        requires
            gap(pow(a, n), pow(b, n)) <= n * (h * above),
            h * 4194304 <= um,
            all == um * above,
            above > 0,
            n >= 1,
    ;
    assert(pow(b, n) == pow(x, mn));
    lemma_gap_scales(q, both, wide);
    assert((3 * n + 4) * all == (n + 2) * all + 2 * (n * all) + 2 * all) by (nonlinear_arith);
    assert(gap(q * wide, both * wide) * 8388608 <= (3 * n + 4) * all);
    let last = gap(q, both);
    assert(last * 8388608 <= (3 * n + 4) * u) by (nonlinear_arith)
        requires
            (last * wide) * 8388608 <= (3 * n + 4) * all,
            all == u * wide,
            wide > 0,
    ;
}

/// What a share leaves of one is a share, and near the true difference.
proof fn lemma_rest_of_share(x: Single)
    requires
        is_share(x),
    ensures
        finite(x),
        0 <= units(x) <= pow2(149),
        is_share(Single::natural(1).minus(x)),
        finite(Single::natural(1).minus(x)),
        0 <= units(Single::natural(1).minus(x)) <= pow2(149),
        gap(units(Single::natural(1).minus(x)), pow2(149) - units(x)) * 16777216 <= pow2(149),
{
    let f = Format::Binary32;
    let u = pow2(149);
    let one = Single::natural(1);
    lemma2_to64();
    lemma_pow2_pos(149);
    lemma_pow2_adds(1, 149);
    lemma_pow2_le(150, 276);
    lemma_exact_integer(0);
    lemma_exact_integer(1);
    assert(0 * u == 0 && 1 * u == u);
    let s = x.value()->Finite_units;
    assert(finite(x) && s <= u && units(x) == s);
    lemma_minus_near(one, x);
    let rest = (u - s) as nat;
    assert(1 * u * 1 == u);
    lemma_round_units_exact(1, 149, 1, 24);
    lemma_round_units_monotone(rest, u, 1, 24);
    lemma_bounded_held(f, false, rest, 1);
    lemma_round_units_exact(0, 0, 1, 24);
    assert(0 * pow2(0) * 1 == 0) by (nonlinear_arith);
    reveal(Single::minus_spec);
    let v = sum(f, one.value(), negated(x.value()));
    Single::lemma_of_value(v);
    assert(0 <= rank(f, v) <= u);
}

/// A converted smoothing factor is a share, and what it leaves of one is near a power.
proof fn lemma_alpha_converted<W: Fn(Single, Single) -> Single>(
    powf: W,
    alpha: Single,
    stride: u64,
    r: Single,
) -> (left: Single)
    requires
        takes_powers(powf),
        is_share(alpha),
        stride >= 1,
        alpha_converted(powf, alpha, stride, r),
    ensures
        is_share(r),
        is_share(left),
        power_near(
            pow2(149) as int,
            units(Single::natural(1).minus(alpha)),
            stride as nat,
            units(left),
        ),
        stride == 1 ==> left == Single::natural(1).minus(alpha),
        stride > 1 ==> r == Single::natural(1).minus(left),
{
    let u = pow2(149) as int;
    let rest = Single::natural(1).minus(alpha);
    lemma_pow2_pos(149);
    lemma_rest_of_share(alpha);
    if stride == 1 {
        lemma_power_of_itself(u, units(rest));
        rest
    } else {
        let left = choose|left: Single| #[trigger]
            power_taken(powf, Single::natural(1).minus(alpha), stride, left) && r
                == Single::natural(1).minus(left);
        lemma_rest_of_share(left);
        left
    }
}

/// The first power of a number is the number.
proof fn lemma_power_of_itself(u: int, x: int)
    requires
        0 <= x <= u,
        u > 0,
    ensures
        power_near(u, x, 1, x),
{
    lemma_pow0(u);
    lemma_pow1(u);
    lemma_pow1(x);
    assert(x * 1 == x);
}

/// Two numbers differ by no more than rounding explains, where the second of two
/// conversions is to a stride of `n`: by `(3 n + 5) / 2^23`.
pub open spec fn as_good_as(a: Single, b: Single, n: u64) -> bool {
    &&& finite(a)
    &&& finite(b)
    &&& gap(units(a), units(b)) * 8388608 <= (3 * n + 5) * pow2(149)
}

/// One smoothing factor that is converted twice.
proof fn lemma_alpha_twice<W: Fn(Single, Single) -> Single>(
    powf: W,
    alpha: Single,
    m: u64,
    n: u64,
    mn: u64,
    first: Single,
    second: Single,
    both: Single,
)
    requires
        takes_powers(powf),
        is_share(alpha),
        m >= 1,
        n >= 1,
        mn == m * n,
        alpha_converted(powf, alpha, m, first),
        alpha_converted(powf, first, n, second),
        alpha_converted(powf, alpha, mn, both),
    ensures
        as_good_as(second, both, n),
{
    let u = pow2(149) as int;
    lemma_pow2_pos(149);
    let one = Single::natural(1);
    let x = one.minus(alpha);
    assert(mn >= m && mn >= n) by (nonlinear_arith)
        requires
            mn == m * n,
            m >= 1,
            n >= 1,
    ;
    lemma_rest_of_share(alpha);
    let p = lemma_alpha_converted(powf, alpha, m, first);
    let q = lemma_alpha_converted(powf, first, n, second);
    let b = lemma_alpha_converted(powf, alpha, mn, both);
    lemma_rest_of_share(first);
    lemma_rest_of_share(second);
    lemma_rest_of_share(both);
    lemma_rest_of_share(p);
    lemma_rest_of_share(q);
    lemma_rest_of_share(b);
    let k = 3 * n + 4;
    assert((3 * n + 5) * u == k * u + u) by (nonlinear_arith)
        requires
            k == 3 * n + 4,
    ;
    if n == 1 {
        assert(m as nat * 1 == mn as nat);
        lemma_power_of_itself(u, units(p));
        lemma_power_of_power(
            u,
            units(x),
            m as nat,
            1,
            units(p),
            units(p),
            units(p),
            units(b),
        );
        if m > 1 {
            assert(second == one.minus(p) && both == one.minus(b));
        }
    } else {
        let y = one.minus(first);
        assert(second == one.minus(q) && both == one.minus(b));
        lemma_power_of_power(
            u,
            units(x),
            m as nat,
            n as nat,
            units(p),
            units(y),
            units(q),
            units(b),
        );
    }
}

/// A decay that is converted: itself, or a power.
spec fn decay_converted<W: Fn(Single, Single) -> Single>(
    powf: W,
    decay: Single,
    stride: u64,
    r: Single,
) -> bool {
    if stride <= 1 {
        r == decay
    } else {
        power_taken(powf, decay, stride, r)
    }
}

/// A decay that is converted twice.
proof fn lemma_decay_twice<W: Fn(Single, Single) -> Single>(
    powf: W,
    decay: Single,
    m: u64,
    n: u64,
    mn: u64,
    first: Single,
    second: Single,
    both: Single,
)
    requires
        takes_powers(powf),
        is_share(decay),
        m >= 1,
        n >= 1,
        mn == m * n,
        decay_converted(powf, decay, m, first),
        decay_converted(powf, first, n, second),
        decay_converted(powf, decay, mn, both),
    ensures
        as_good_as(second, both, n),
{
    let u = pow2(149) as int;
    lemma_pow2_pos(149);
    assert(mn >= m && mn >= n && (mn == 1 ==> m == 1 && n == 1)) by (nonlinear_arith)
        requires
            mn == m * n,
            m >= 1,
            n >= 1,
    ;
    lemma_rest_of_share(decay);
    lemma_rest_of_share(first);
    lemma_rest_of_share(second);
    lemma_rest_of_share(both);
    let x = units(decay);
    lemma_power_of_itself(u, x);
    lemma_power_of_itself(u, units(first));
    lemma_power_of_power(
        u,
        x,
        m as nat,
        n as nat,
        units(first),
        units(first),
        units(second),
        units(both),
    );
    let k = 3 * n + 4;
    assert((3 * n + 5) * u == k * u + u) by (nonlinear_arith)
        requires
            k == 3 * n + 4,
    ;
}

/// The shares that a configuration is made of, as far as they are converted.
pub open spec fn converted_shares(c: FieldPannerConfig) -> bool {
    &&& is_share(c.cluster_alpha)
    &&& is_share(c.fov_alpha)
    &&& is_share(c.velocity_alpha)
    &&& is_share(c.lead_alpha)
    &&& is_share(c.ball_presence_attack)
    &&& is_share(c.ball_presence_decay)
}

/// A configuration that is converted keeps its smoothing factors and its decay from
/// zero to one, and everything else as it is.
pub proof fn law_converted_shares_stay_shares<W: Fn(Single, Single) -> Single>(
    powf: W,
    config: FieldPannerConfig,
    stride: u64,
    r: FieldPannerConfig,
)
    requires
        takes_powers(powf),
        converted_shares(config),
        config_converted(powf, config, stride, r),
    ensures
        converted_shares(r),
        r.ball_weight == config.ball_weight,
        r.framing == config.framing,
        r.confidence_weighted == config.confidence_weighted,
        r.lock_pitch == config.lock_pitch,
{
    if stride > 1 {
        lemma_alpha_converted(powf, config.cluster_alpha, stride, r.cluster_alpha);
        lemma_alpha_converted(powf, config.fov_alpha, stride, r.fov_alpha);
        lemma_alpha_converted(powf, config.velocity_alpha, stride, r.velocity_alpha);
        lemma_alpha_converted(powf, config.lead_alpha, stride, r.lead_alpha);
        lemma_alpha_converted(powf, config.ball_presence_attack, stride, r.ball_presence_attack);
    }
}

/// A conversion to one stride and then to another is as good as one to their product:
/// the smoothing factors and the decay differ by no more than rounding explains.
pub proof fn law_strides_compose<W: Fn(Single, Single) -> Single>(
    powf: W,
    config: FieldPannerConfig,
    m: u64,
    n: u64,
    mn: u64,
    first: FieldPannerConfig,
    second: FieldPannerConfig,
    both: FieldPannerConfig,
)
    requires
        takes_powers(powf),
        converted_shares(config),
        m >= 1,
        n >= 1,
        mn == m * n,
        config_converted(powf, config, m, first),
        config_converted(powf, first, n, second),
        config_converted(powf, config, mn, both),
    ensures
        as_good_as(second.cluster_alpha, both.cluster_alpha, n),
        as_good_as(second.fov_alpha, both.fov_alpha, n),
        as_good_as(second.velocity_alpha, both.velocity_alpha, n),
        as_good_as(second.lead_alpha, both.lead_alpha, n),
        as_good_as(second.ball_presence_attack, both.ball_presence_attack, n),
        as_good_as(second.ball_presence_decay, both.ball_presence_decay, n),
        second.ball_weight == both.ball_weight,
        second.framing == both.framing,
        second.confidence_weighted == both.confidence_weighted,
        second.lock_pitch == both.lock_pitch,
{
    let c = config;
    lemma_alpha_twice(
        powf,
        c.cluster_alpha,
        m,
        n,
        mn,
        first.cluster_alpha,
        second.cluster_alpha,
        both.cluster_alpha,
    );
    lemma_alpha_twice(
        powf,
        c.fov_alpha,
        m,
        n,
        mn,
        first.fov_alpha,
        second.fov_alpha,
        both.fov_alpha,
    );
    lemma_alpha_twice(
        powf,
        c.velocity_alpha,
        m,
        n,
        mn,
        first.velocity_alpha,
        second.velocity_alpha,
        both.velocity_alpha,
    );
    lemma_alpha_twice(
        powf,
        c.lead_alpha,
        m,
        n,
        mn,
        first.lead_alpha,
        second.lead_alpha,
        both.lead_alpha,
    );
    lemma_alpha_twice(
        powf,
        c.ball_presence_attack,
        m,
        n,
        mn,
        first.ball_presence_attack,
        second.ball_presence_attack,
        both.ball_presence_attack,
    );
    lemma_decay_twice(
        powf,
        c.ball_presence_decay,
        m,
        n,
        mn,
        first.ball_presence_decay,
        second.ball_presence_decay,
        both.ball_presence_decay,
    );
}

/// What a converted factor leaves of one is, but for rounding, what the factor itself
/// leaves, to the power of the stride: as much as after that many frames.
pub open spec fn leaves_power(alpha: Single, stride: nat, r: Single) -> bool {
    let u = pow2(149) as int;
    &&& finite(r)
    &&& gap((u - units(r)) * pow(u, (stride - 1) as nat), pow(u - units(alpha), stride)) * 16777216
        <= (5 + stride) * pow(u, stride)
}

proof fn lemma_leaves_power<W: Fn(Single, Single) -> Single>(
    powf: W,
    alpha: Single,
    stride: u64,
    r: Single,
)
    requires
        takes_powers(powf),
        is_share(alpha),
        stride >= 2,
        alpha_converted(powf, alpha, stride, r),
    ensures
        leaves_power(alpha, stride as nat, r),
{
    let u = pow2(149) as int;
    let n = stride as nat;
    let k = (n - 1) as nat;
    lemma_pow2_pos(149);
    let left = lemma_alpha_converted(powf, alpha, stride, r);
    lemma_rest_of_share(alpha);
    lemma_rest_of_share(left);
    let x = units(Single::natural(1).minus(alpha));
    let a = u - units(alpha);
    let (l, t) = (units(left), u - units(r));
    let w = pow(u, k);
    let all = pow(u, n);
    lemma_pow_positive(u, k);
    lemma_pow1(u);
    lemma_pow_adds(u, 1, k);
    assert(all == u * w);
    lemma_powers_differ(x, a, u, n);
    let g = gap(x, a);
    assert(gap(pow(x, n), pow(a, n)) * 16777216 <= n * all) by (nonlinear_arith)
        requires
            gap(pow(x, n), pow(a, n)) <= n * (g * w),
            g * 16777216 <= u,
            all == u * w,
            w > 0,
            n >= 1,
    ;
    lemma_gap_scales(t, l, w);
    let gl = gap(t, l);
    assert(gap(t * w, l * w) * 16777216 <= all) by (nonlinear_arith)
        requires
            gap(t * w, l * w) == gl * w,
            gl * 16777216 <= u,
            all == u * w,
            w > 0,
    ;
    assert((5 + n) * all == 5 * all + n * all) by (nonlinear_arith);
}

/// A converted configuration leaves as much of everything after an analysed frame as the
/// configuration itself leaves after as many frames as the stride: every smoothing
/// factor, and the decay.
pub proof fn law_conversion_keeps_the_pace<W: Fn(Single, Single) -> Single>(
    powf: W,
    config: FieldPannerConfig,
    stride: u64,
    r: FieldPannerConfig,
)
    requires
        takes_powers(powf),
        converted_shares(config),
        stride >= 2,
        config_converted(powf, config, stride, r),
    ensures
        leaves_power(config.cluster_alpha, stride as nat, r.cluster_alpha),
        leaves_power(config.fov_alpha, stride as nat, r.fov_alpha),
        leaves_power(config.velocity_alpha, stride as nat, r.velocity_alpha),
        leaves_power(config.lead_alpha, stride as nat, r.lead_alpha),
        leaves_power(config.ball_presence_attack, stride as nat, r.ball_presence_attack),
        power_near(
            pow2(149) as int,
            units(config.ball_presence_decay),
            stride as nat,
            units(r.ball_presence_decay),
        ),
{
    lemma_leaves_power(powf, config.cluster_alpha, stride, r.cluster_alpha);
    lemma_leaves_power(powf, config.fov_alpha, stride, r.fov_alpha);
    lemma_leaves_power(powf, config.velocity_alpha, stride, r.velocity_alpha);
    lemma_leaves_power(powf, config.lead_alpha, stride, r.lead_alpha);
    lemma_leaves_power(powf, config.ball_presence_attack, stride, r.ball_presence_attack);
}

} // verus!
