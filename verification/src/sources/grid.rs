//! Regular grids of wall-clock times, such as "minute 0, 15, 30 and 45 of
//! every hour at second 30": the times whose position within each period is
//! `m * unit + off` for a step `m` that is a multiple of `every`.
use vstd::prelude::*;

use vstd::arithmetic::div_mod::lemma_fundamental_div_mod;
use vstd::arithmetic::div_mod::lemma_fundamental_div_mod_converse;
use vstd::arithmetic::div_mod::lemma_mod_mod;

use crate::time::{floor_div, floor_mod};

verus! {

/// `w` lies on the grid: `w % unit == off` and the number of whole units
/// since the start of `w`'s period is a multiple of `every`.
pub open spec fn on_grid(period: int, unit: int, every: int, off: int, w: int) -> bool {
    w % unit == off && ((w % period) / unit) % every == 0
}

/// `w` is the first grid time strictly after `t`.
pub open spec fn is_next_on_grid(period: int, unit: int, every: int, off: int, t: int, w: int) -> bool {
    &&& on_grid(period, unit, every, off, w)
    &&& w > t
    &&& forall|w2: int| #[trigger] on_grid(period, unit, every, off, w2) && w2 > t ==> w <= w2
}

/// The first grid time strictly after `t`.
pub open spec fn next_on_grid(period: int, unit: int, every: int, off: int, t: int) -> int {
    choose|w: int| is_next_on_grid(period, unit, every, off, t, w)
}

/// There is only one first grid time after `t`.
pub proof fn lemma_next_on_grid_unique(period: int, unit: int, every: int, off: int, t: int, w: int)
    requires
        is_next_on_grid(period, unit, every, off, t, w),
    ensures
        next_on_grid(period, unit, every, off, t) == w,
{
    let c = next_on_grid(period, unit, every, off, t);
    assert(is_next_on_grid(period, unit, every, off, t, c));
    assert(on_grid(period, unit, every, off, w));
    assert(on_grid(period, unit, every, off, c));
}

/// Given a grid time `b` after `t`, some grid time after `t` is the first.
proof fn lemma_first_grid_time_below(period: int, unit: int, every: int, off: int, t: int, b: int)
    requires
        on_grid(period, unit, every, off, b),
        b > t,
    ensures
        exists|w: int| is_next_on_grid(period, unit, every, off, t, w),
    decreases b - t,
{
    if exists|w2: int| #[trigger] on_grid(period, unit, every, off, w2) && t < w2 < b {
        let w2 = choose|w2: int| #[trigger] on_grid(period, unit, every, off, w2) && t < w2 < b;
        lemma_first_grid_time_below(period, unit, every, off, t, w2);
    } else {
        assert(is_next_on_grid(period, unit, every, off, t, b));
    }
}

/// Every time `t` has a first grid time after it.
pub proof fn lemma_next_on_grid_exists(count: int, unit: int, every: int, off: int, t: int)
    requires
        count > 0,
        unit > 0,
        every > 0,
        0 <= off < unit,
    ensures
        is_next_on_grid(
            count * unit,
            unit,
            every,
            off,
            t,
            next_on_grid(count * unit, unit, every, off, t),
        ),
{
    let period = count * unit;
    let q = t / period + 1;
    lemma_compose(count, unit, q, 0, off);
    let b = period * q + 0 * unit + off;
    lemma_fundamental_div_mod(t, period);
    assert(period * q == period * (t / period) + period) by (nonlinear_arith)
        requires
            q == t / period + 1,
    ;
    assert(b > t);
    lemma_first_grid_time_below(period, unit, every, off, t, b);
}

/// A time assembled from a period index `q`, a step `m < count` and an
/// offset `off < unit` has exactly those parts.
pub proof fn lemma_compose(count: int, unit: int, q: int, m: int, off: int)
    requires
        count > 0,
        unit > 0,
        0 <= m < count,
        0 <= off < unit,
    ensures
        ({
            let period = count * unit;
            let w = period * q + m * unit + off;
            &&& period > 0
            &&& w % period == m * unit + off
            &&& w / period == q
            &&& w % unit == off
            &&& (w % period) / unit == m
        }),
{
    let period = count * unit;
    let w = period * q + m * unit + off;
    assert(0 <= m * unit + off < period) by (nonlinear_arith)
        requires
            count > 0,
            unit > 0,
            0 <= m < count,
            0 <= off < unit,
            period == count * unit,
    ;
    assert(w == q * period + (m * unit + off)) by (nonlinear_arith)
        requires
            w == period * q + m * unit + off,
    ;
    lemma_fundamental_div_mod_converse(w, period, q, m * unit + off);
    assert(m * unit + off == m * unit + off);
    lemma_fundamental_div_mod_converse(m * unit + off, unit, m, off);
    assert(w == (q * count + m) * unit + off) by (nonlinear_arith)
        requires
            w == period * q + m * unit + off,
            period == count * unit,
    ;
    lemma_fundamental_div_mod_converse(w, unit, q * count + m, off);
}

/// A grid time splits into its period index, step and offset.
pub proof fn lemma_decompose(count: int, unit: int, every: int, off: int, w: int)
    requires
        count > 0,
        unit > 0,
        every > 0,
        0 <= off < unit,
        on_grid(count * unit, unit, every, off, w),
    ensures
        ({
            let period = count * unit;
            let q = w / period;
            let m = (w % period) / unit;
            &&& w == period * q + m * unit + off
            &&& 0 <= m < count
            &&& m % every == 0
        }),
{
    let period = count * unit;
    assert(period > 0) by (nonlinear_arith)
        requires
            count > 0,
            unit > 0,
            period == count * unit,
    ;
    lemma_fundamental_div_mod(w, period);
    let x = w % period;
    lemma_mod_mod(w, unit, count);
    assert(unit * count == period) by (nonlinear_arith)
        requires
            period == count * unit,
    ;
    assert(x % unit == off);
    lemma_fundamental_div_mod(x, unit);
    let m = x / unit;
    assert(x == unit * m + x % unit);
    assert(0 <= x < period);
    assert(0 <= m < count) by (nonlinear_arith)
        requires
            x == unit * m + off,
            0 <= x < period,
            period == count * unit,
            unit > 0,
            0 <= off < unit,
    ;
    assert(w == period * (w / period) + m * unit + off) by (nonlinear_arith)
        requires
            w == period * (w / period) + x,
            x == unit * m + off,
    ;
}

/// The only time of a block of `unit` times with a given remainder.
pub proof fn lemma_unique_in_block(unit: int, k: int, off: int, w: int)
    requires
        unit > 0,
        0 <= off < unit,
        k * unit <= w < k * unit + unit,
        w % unit == off,
    ensures
        w == k * unit + off,
{
    lemma_fundamental_div_mod_converse(w, unit, k, w - k * unit);
}

/// The first grid time strictly after `t`, for a grid whose period is
/// `count` units.
pub fn first_on_grid_after(count: i128, unit: i128, every: i128, off: i128, t: i128) -> (r: i128)
    requires
        0 < count <= 60,
        0 < unit <= 3_600_000_000_000,
        0 < every <= 4_294_967_295,
        0 <= off < unit,
        -10_000_000_000_000_000_000_000 <= t <= 10_000_000_000_000_000_000_000,
    ensures
        is_next_on_grid(count * unit, unit as int, every as int, off as int, t as int, r as int),
        t < r <= t + 2 * count * unit,
{
    assert(0 < count * unit <= 216_000_000_000_000) by (nonlinear_arith)
        requires
            0 < count <= 60,
            0 < unit <= 3_600_000_000_000,
    ;
    let period = count * unit;
    let q = floor_div(t, period);
    let x = floor_mod(t, period);
    let h = t - x;
    let ghost (ci, ui, ei, oi, ti, pi, qi, xi) = (
        count as int,
        unit as int,
        every as int,
        off as int,
        t as int,
        period as int,
        q as int,
        x as int,
    );
    proof {
        lemma_fundamental_div_mod(ti, pi);
        if xi >= oi {
            lemma_fundamental_div_mod(xi - oi, ui);
        }
    }
    let need: i128 = if x < off {
        0
    } else {
        (x - off) / unit + 1
    };
    let ghost ni = need as int;
    proof {
        assert(0 <= ni <= ci) by (nonlinear_arith)
            requires
                xi < oi ==> ni == 0,
                xi >= oi ==> ni == (xi - oi) / ui + 1,
                xi >= oi ==> (xi - oi) == ui * ((xi - oi) / ui) + (xi - oi) % ui,
                xi >= oi ==> 0 <= (xi - oi) % ui < ui,
                0 <= xi < pi,
                pi == ci * ui,
                ui > 0,
                0 <= oi,
        ;
    }
    let c = (need + every - 1) / every;
    let ghost c_i = c as int;
    proof {
        lemma_fundamental_div_mod(ni + ei - 1, ei);
        assert(ni <= c_i * ei < ni + ei && c_i >= 0) by (nonlinear_arith)
            requires
                ni + ei - 1 == ei * c_i + (ni + ei - 1) % ei,
                0 <= (ni + ei - 1) % ei < ei,
                ni >= 0,
                ei > 0,
        ;
    }
    let m = c * every;
    let ghost mi = m as int;
    proof {
        assert(mi < ci ==> mi * ui + oi < pi) by (nonlinear_arith)
            requires
                mi >= 0,
                ui > 0,
                pi == ci * ui,
                0 <= oi < ui,
        ;
        assert(ti == pi * qi + xi);
    }
    let r = if m < count {
        h + m * unit + off
    } else {
        h + period + off
    };
    proof {
        let ri = r as int;
        assert(h == pi * qi);
        // r lies on the grid
        if mi < ci {
            lemma_compose(ci, ui, qi, mi, oi);
            lemma_fundamental_div_mod_converse(mi, ei, c_i, 0);
        } else {
            lemma_compose(ci, ui, qi + 1, 0, oi);
            assert(ri == pi * (qi + 1) + 0 * ui + oi) by (nonlinear_arith)
                requires
                    ri == pi * qi + pi + oi,
            ;
            lemma_fundamental_div_mod_converse(0, ei, 0, 0);
        }
        // r is after t
        if mi < ci {
            assert(mi * ui + oi > xi) by (nonlinear_arith)
                requires
                    xi < oi ==> mi >= 0,
                    xi >= oi ==> mi >= ni,
                    xi >= oi ==> ni == (xi - oi) / ui + 1,
                    xi >= oi ==> (xi - oi) == ui * ((xi - oi) / ui) + (xi - oi) % ui,
                    xi >= oi ==> 0 <= (xi - oi) % ui < ui,
                    ui > 0,
                    mi >= 0,
            ;
        }
        assert(ui <= pi && 2 * ci * ui == 2 * pi) by (nonlinear_arith)
            requires
                ci >= 1,
                ui > 0,
                pi == ci * ui,
        ;
        assert(ri <= ti + 2 * pi);
        // no grid time after t comes before r
        assert forall|w2: int| #[trigger] on_grid(pi, ui, ei, oi, w2) && w2 > ti implies ri <= w2 by {
            lemma_decompose(ci, ui, ei, oi, w2);
            let q2 = w2 / pi;
            let m2 = (w2 % pi) / ui;
            if q2 < qi {
                assert(w2 < pi * qi) by (nonlinear_arith)
                    requires
                        q2 < qi,
                        w2 == pi * q2 + m2 * ui + oi,
                        0 <= m2 < ci,
                        0 <= oi < ui,
                        pi == ci * ui,
                        ui > 0,
                ;
            } else if q2 == qi {
                lemma_fundamental_div_mod(m2, ei);
                assert(m2 >= mi) by (nonlinear_arith)
                    requires
                        w2 == pi * qi + m2 * ui + oi,
                        w2 > ti,
                        ti == pi * qi + xi,
                        xi < oi ==> ni == 0,
                        xi >= oi ==> ni == (xi - oi) / ui + 1,
                        xi >= oi ==> (xi - oi) == ui * ((xi - oi) / ui) + (xi - oi) % ui,
                        xi >= oi ==> 0 <= (xi - oi) % ui < ui,
                        m2 == ei * (m2 / ei) + m2 % ei,
                        m2 % ei == 0,
                        m2 >= 0,
                        ni + ei - 1 == ei * c_i + (ni + ei - 1) % ei,
                        0 <= (ni + ei - 1) % ei < ei,
                        mi == c_i * ei,
                        ei > 0,
                        ui > 0,
                ;
                assert(ri <= w2) by (nonlinear_arith)
                    requires
                        m2 >= mi,
                        m2 < ci,
                        mi < ci ==> ri == pi * qi + mi * ui + oi,
                        w2 == pi * qi + m2 * ui + oi,
                        ui > 0,
                ;
            } else {
                assert(pi * q2 >= pi * qi + pi) by (nonlinear_arith)
                    requires
                        q2 >= qi + 1,
                        pi > 0,
                ;
                assert(m2 * ui >= 0) by (nonlinear_arith)
                    requires
                        m2 >= 0,
                        ui > 0,
                ;
                assert(w2 >= pi * qi + pi + oi);
                assert(ri <= w2);
            }
        }
    }
    r
}

} // verus!
