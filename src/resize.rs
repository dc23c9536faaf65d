use vstd::prelude::*;

use crate::geometry::{Axis, Point, Size};
use crate::layout::{along, along_point, lemma_prefix_bounded, lemma_prefix_sum, total_flex};
use crate::tree::{flex_sum, FLEX_UNIT};

verus! {

/// The narrowest a member of a horizontal container may be dragged to, in pixels.
pub const HORIZONTAL_MIN_SIZE: i64 = 80;

/// The shortest a member of a vertical container may be dragged to, in pixels.
pub const VERTICAL_MIN_SIZE: i64 = 100;

pub open spec fn min_size(axis: Axis) -> int {
    match axis {
        Axis::Horizontal => HORIZONTAL_MIN_SIZE as int,
        Axis::Vertical => VERTICAL_MIN_SIZE as int,
    }
}

pub open spec fn clamp(x: int, lo: int, hi: int) -> int {
    if x < lo {
        lo
    } else if x > hi {
        hi
    } else {
        x
    }
}

pub open spec fn min(a: int, b: int) -> int {
    if a <= b {
        a
    } else {
        b
    }
}

/// The least weight whose share of `extent` (out of `total`) is at least `min_px`.
pub open spec fn min_flex(min_px: int, total: int, extent: int) -> int {
    (min_px * total + extent - 1) / extent
}

/// The new weight of member `k` when the boundary between `k` and `k + 1` is asked
/// to move by `p` weight units: neither member may end below `mf` unless it already
/// was, and then it may not shrink.
pub open spec fn pair_target(f: Seq<u64>, k: int, p: int, mf: int) -> int {
    clamp(f[k] + p, min(f[k] as int, mf), f[k] + f[k + 1] - min(f[k + 1] as int, mf))
}

/// The weights after moving the boundary between `k` and `k + 1`; the pair's sum is kept.
pub open spec fn pair_step(f: Seq<u64>, k: int, p: int, mf: int) -> Seq<u64> {
    let ct = pair_target(f, k, p, mf);
    f.update(k, ct as u64).update(k + 1, (f[k] + f[k + 1] - ct) as u64)
}

/// Moves the boundaries after `k`, `k + 1`, ... in turn by what is left of a positive
/// request `p`, until it is used up or no member is left.
pub open spec fn ripple(f: Seq<u64>, k: int, p: int, mf: int) -> Seq<u64>
    decreases f.len() - k,
{
    if p <= 0 || k < 0 || k + 1 >= f.len() {
        f
    } else {
        ripple(pair_step(f, k, p, mf), k + 1, p - (pair_target(f, k, p, mf) - f[k]), mf)
    }
}

/// A drag of the handle after member `ix` is refused: that member's size,
/// `extent * f[ix] / total`, is already at or below the axis's minimum size.
pub open spec fn resize_refused(f: Seq<u64>, ix: int, axis: Axis, container_size: Size) -> bool {
    along(axis, container_size) * f[ix] <= min_size(axis) * total_flex(f)
}

/// The weights after the handle after member `ix` is dragged to `pointer`, for a
/// container of `container_size` whose member `ix` starts at `child_start`.
///
/// Nothing changes if member `ix` is already at or below the minimum size
/// (`resize_refused`). Otherwise the request is the pointer's distance from the member's start
/// (held within the container) less the member's size, in weight units. A request
/// to grow takes from the following members in turn; a request to shrink moves only
/// the dragged boundary.
pub open spec fn resized(
    f: Seq<u64>,
    ix: int,
    axis: Axis,
    pointer: Point,
    child_start: Point,
    container_size: Size,
) -> Seq<u64> {
    let e = along(axis, container_size);
    let t = total_flex(f);
    let m = min_size(axis);
    if resize_refused(f, ix, axis, container_size) {
        f
    } else {
        let o = clamp(along_point(axis, pointer) - along_point(axis, child_start), 0, e);
        let p = o * t / e - f[ix];
        let mf = min_flex(m, t, e);
        if p < 0 {
            pair_step(f, ix, p, mf)
        } else {
            ripple(f, ix, p, mf)
        }
    }
}

/// Writing `v` at position `i` changes the sum by the difference.
pub proof fn lemma_sum_update(s: Seq<u64>, i: int, v: u64)
    requires
        0 <= i < s.len(),
    ensures
        flex_sum(s.update(i, v)) == flex_sum(s) - s[i] + v,
    decreases s.len(),
{
    let u = s.update(i, v);
    if i == s.len() - 1 {
        assert(u.drop_last() == s.drop_last());
    } else {
        lemma_sum_update(s.drop_last(), i, v);
        assert(u.drop_last() == s.drop_last().update(i, v));
    }
}

/// Two neighbouring weights sum to at most the total.
pub proof fn lemma_pair_bounded(s: Seq<u64>, k: int)
    requires
        0 <= k,
        k + 1 < s.len(),
    ensures
        s[k] + s[k + 1] <= flex_sum(s),
{
    lemma_prefix_bounded(s, k + 2);
    lemma_prefix_sum(s, k + 1);
    lemma_prefix_sum(s, k);
}

/// One boundary move keeps the sum, keeps every weight positive, and leaves each
/// of the pair at least `mf` or no smaller than before.
pub proof fn lemma_pair_step(f: Seq<u64>, k: int, p: int, mf: int)
    requires
        0 <= k,
        k + 1 < f.len(),
        mf >= 1,
        forall|j: int| 0 <= j < f.len() ==> f[j] > 0,
        flex_sum(f) <= u64::MAX,
    ensures
        flex_sum(pair_step(f, k, p, mf)) == flex_sum(f),
        pair_step(f, k, p, mf).len() == f.len(),
        forall|j: int| 0 <= j < f.len() ==> #[trigger] pair_step(f, k, p, mf)[j] > 0,
        forall|j: int|
            0 <= j < f.len() ==> (#[trigger] pair_step(f, k, p, mf)[j] >= mf || pair_step(f, k, p, mf)[j]
                >= f[j]),
        min(f[k] as int, mf) <= pair_target(f, k, p, mf) <= f[k] + f[k + 1] - min(f[k + 1] as int, mf),
{
    lemma_pair_bounded(f, k);
    let ct = pair_target(f, k, p, mf);
    let g = f.update(k, ct as u64);
    lemma_sum_update(f, k, ct as u64);
    lemma_sum_update(g, k + 1, (f[k] + f[k + 1] - ct) as u64);
}

/// Rippling keeps the sum, keeps every weight positive, and leaves each weight at
/// least `mf` or no smaller than before.
pub proof fn lemma_ripple(f: Seq<u64>, k: int, p: int, mf: int)
    requires
        mf >= 1,
        forall|j: int| 0 <= j < f.len() ==> f[j] > 0,
        flex_sum(f) <= u64::MAX,
    ensures
        flex_sum(ripple(f, k, p, mf)) == flex_sum(f),
        ripple(f, k, p, mf).len() == f.len(),
        forall|j: int| 0 <= j < f.len() ==> #[trigger] ripple(f, k, p, mf)[j] > 0,
        forall|j: int|
            0 <= j < f.len() ==> (#[trigger] ripple(f, k, p, mf)[j] >= mf || ripple(f, k, p, mf)[j] >= f[j]),
    decreases f.len() - k,
{
    if !(p <= 0 || k < 0 || k + 1 >= f.len()) {
        let g = pair_step(f, k, p, mf);
        lemma_pair_step(f, k, p, mf);
        lemma_ripple(g, k + 1, p - (pair_target(f, k, p, mf) - f[k]), mf);
        assert forall|j: int| 0 <= j < f.len() implies (#[trigger] ripple(f, k, p, mf)[j] >= mf
            || ripple(f, k, p, mf)[j] >= f[j]) by {
            assert(g[j] >= mf || g[j] >= f[j]);
        }
    }
}

/// Moves the boundary between members `k` and `k + 1` by `p` weight units, as far as
/// the minimum weight `mf` allows, and returns how far member `k` grew.
fn step_pair(flexes: &mut Vec<u64>, k: usize, p: i128, mf: i128) -> (c: i128)
    requires
        k + 1 < old(flexes)@.len(),
        old(flexes)@[k as int] + old(flexes)@[k + 1] <= u64::MAX,
        1 <= mf <= u64::MAX * 128,
        -u64::MAX * 4 <= p <= u64::MAX * 4,
    ensures
        final(flexes)@ == pair_step(old(flexes)@, k as int, p as int, mf as int),
        c == pair_target(old(flexes)@, k as int, p as int, mf as int) - old(flexes)@[k as int],
{
    let n = flexes.len();
    assert(k + 1 < n);
    let a = flexes[k] as i128;
    let b = flexes[k + 1] as i128;
    let lo = if a <= mf { a } else { mf };
    let hi = a + b - if b <= mf { b } else { mf };
    let want = a + p;
    let ct = if want < lo {
        lo
    } else if want > hi {
        hi
    } else {
        want
    };
    flexes[k] = ct as u64;
    flexes[k + 1] = (a + b - ct) as u64;
    ct - a
}

/// Applies a drag of the handle after member `ix` to `pointer`: `flexes` become
/// `resized(..)`. The weights keep their sum, stay positive, and no member ends
/// narrower than the axis's minimum size unless it was already and has not shrunk.
/// Answers whether the step was applied, that is, not refused.
pub fn compute_resize(
    flexes: &mut Vec<u64>,
    pointer: Point,
    ix: usize,
    axis: Axis,
    child_start: Point,
    container_size: Size,
) -> (applied: bool)
    requires
        ix + 1 < old(flexes)@.len(),
        flex_sum(old(flexes)@) == total_flex(old(flexes)@),
        total_flex(old(flexes)@) <= u64::MAX,
        forall|j: int| 0 <= j < old(flexes)@.len() ==> old(flexes)@[j] > 0,
        along(axis, container_size) >= 0,
    ensures
        applied == !resize_refused(old(flexes)@, ix as int, axis, container_size),
        final(flexes)@ == resized(old(flexes)@, ix as int, axis, pointer, child_start, container_size),
        final(flexes)@.len() == old(flexes)@.len(),
        flex_sum(final(flexes)@) == flex_sum(old(flexes)@),
        forall|j: int| 0 <= j < final(flexes)@.len() ==> #[trigger] final(flexes)@[j] > 0,
        forall|j: int|
            0 <= j < final(flexes)@.len() ==> along(axis, container_size) * #[trigger] final(flexes)@[j]
                >= min_size(axis) * total_flex(old(flexes)@) || final(flexes)@[j] >= old(flexes)@[j],
{
    let ghost f0 = flexes@;
    let n = flexes.len();
    let total: u128 = n as u128 * FLEX_UNIT as u128;
    assert(total as int == total_flex(f0));
    let e: i64 = match axis {
        Axis::Horizontal => container_size.width,
        Axis::Vertical => container_size.height,
    };
    let m: i64 = match axis {
        Axis::Horizontal => HORIZONTAL_MIN_SIZE,
        Axis::Vertical => VERTICAL_MIN_SIZE,
    };
    let fi = flexes[ix] as u128;
    assert((e as u128) * fi <= (i64::MAX as u128) * (u64::MAX as u128)) by (nonlinear_arith)
        requires
            e <= i64::MAX,
            fi <= u64::MAX,
            e >= 0,
    ;
    assert((m as u128) * total <= 100 * (u64::MAX as u128)) by (nonlinear_arith)
        requires
            m <= 100,
            m >= 1,
            total <= u64::MAX,
    ;
    if (e as u128) * fi <= (m as u128) * total {
        return false;
    }
    assert(e > 0) by (nonlinear_arith)
        requires
            (e as u128) * fi > (m as u128) * total,
            m >= 80,
            total >= 2000,
            e >= 0,
    ;
    let start: i64 = match axis {
        Axis::Horizontal => child_start.x,
        Axis::Vertical => child_start.y,
    };
    let at: i64 = match axis {
        Axis::Horizontal => pointer.x,
        Axis::Vertical => pointer.y,
    };
    let d: i128 = at as i128 - start as i128;
    let o: i128 = if d < 0 {
        0
    } else if d > e as i128 {
        e as i128
    } else {
        d
    };
    let ou = o as u128;
    let eu = e as u128;
    assert(ou * total <= eu * total && eu * total <= (i64::MAX as u128) * (u64::MAX as u128)) by (nonlinear_arith)
        requires
            ou <= eu,
            eu <= i64::MAX,
            total <= u64::MAX,
    ;
    let target = ou * total / eu;
    assert(target <= total) by (nonlinear_arith)
        requires
            target as int == (ou as int) * (total as int) / (eu as int),
            ou <= eu,
            eu > 0,
    ;
    let p0: i128 = target as i128 - fi as i128;
    assert((m as u128) * total <= 100 * (u64::MAX as u128) && (m as u128) * total >= 1) by (nonlinear_arith)
        requires
            m <= 100,
            m >= 1,
            total <= u64::MAX,
            total >= 1,
    ;
    let mt = (m as u128) * total;
    let mfu = (mt + eu - 1) / eu;
    assert(1 <= mfu <= mt && eu * mfu >= mt) by (nonlinear_arith)
        requires
            mfu as int == (mt as int + eu as int - 1) / (eu as int),
            eu >= 1,
            mt >= 1,
    ;
    let mf = mfu as i128;
    proof {
        lemma_pair_bounded(f0, ix as int);
        assert(mf == min_flex(m as int, total as int, e as int));
    }
    if p0 < 0 {
        step_pair(flexes, ix, p0, mf);
        proof {
            lemma_pair_step(f0, ix as int, p0 as int, mf as int);
            lemma_scaled_minimum(f0, flexes@, e as int, mf as int, mt as int);
        }
        return true;
    }
    let mut p = p0;
    let mut k = ix;
    proof {
        lemma_ripple(f0, ix as int, p0 as int, mf as int);
    }
    while p > 0 && k + 1 < n
        invariant
            n == flexes@.len(),
            n == f0.len(),
            ix <= k < n,
            0 <= p <= p0,
            p0 <= u64::MAX,
            1 <= mf <= u64::MAX * 128,
            flex_sum(flexes@) == flex_sum(f0),
            flex_sum(f0) <= u64::MAX,
            forall|j: int| 0 <= j < n ==> flexes@[j] > 0,
            ripple(flexes@, k as int, p as int, mf as int) == ripple(f0, ix as int, p0 as int, mf as int),
        decreases n - k,
    {
        proof {
            lemma_pair_bounded(flexes@, k as int);
            lemma_pair_step(flexes@, k as int, p as int, mf as int);
        }
        let c = step_pair(flexes, k, p, mf);
        p = p - c;
        k += 1;
    }
    proof {
        lemma_scaled_minimum(f0, flexes@, e as int, mf as int, mt as int);
    }
    true
}

/// A weight of at least `mf` spans at least `mt / e` pixels of a container of extent `e`.
proof fn lemma_scaled_minimum(before: Seq<u64>, after: Seq<u64>, e: int, mf: int, mt: int)
    requires
        e >= 1,
        e * mf >= mt,
        after.len() == before.len(),
        forall|j: int| 0 <= j < after.len() ==> (#[trigger] after[j] >= mf || after[j] >= before[j]),
    ensures
        forall|j: int| 0 <= j < after.len() ==> e * #[trigger] after[j] >= mt || after[j] >= before[j],
{
    assert forall|j: int| 0 <= j < after.len() implies e * #[trigger] after[j] >= mt || after[j] >= before[j] by {
        if after[j] >= mf {
            let a = after[j] as int;
            assert(e * a >= e * mf) by (nonlinear_arith)
                requires
                    e >= 1,
                    a >= mf,
            ;
        }
    }
}

/// A resize step keeps the sum of the weights exactly and keeps them positive, and
/// however far the pointer goes it drives no member below the axis's minimum size:
/// each member ends at least that large, or no smaller than before. So if every
/// member was at least the minimum size, every member still is.
pub proof fn lemma_resize_respects_minimum(
    f: Seq<u64>,
    ix: int,
    axis: Axis,
    pointer: Point,
    child_start: Point,
    container_size: Size,
)
    requires
        0 <= ix,
        ix + 1 < f.len(),
        flex_sum(f) == total_flex(f),
        total_flex(f) <= u64::MAX,
        forall|j: int| 0 <= j < f.len() ==> f[j] > 0,
        along(axis, container_size) >= 0,
    ensures
        resized(f, ix, axis, pointer, child_start, container_size).len() == f.len(),
        flex_sum(resized(f, ix, axis, pointer, child_start, container_size)) == flex_sum(f),
        forall|j: int|
            0 <= j < f.len() ==> #[trigger] resized(f, ix, axis, pointer, child_start, container_size)[j] > 0,
        forall|j: int|
            0 <= j < f.len() ==> along(axis, container_size) * #[trigger] resized(
                f,
                ix,
                axis,
                pointer,
                child_start,
                container_size,
            )[j] >= min_size(axis) * total_flex(f) || resized(f, ix, axis, pointer, child_start, container_size)[j]
                >= f[j],
        (forall|j: int| 0 <= j < f.len() ==> along(axis, container_size) * #[trigger] f[j] >= min_size(axis) * total_flex(f))
            ==> forall|j: int|
            0 <= j < f.len() ==> along(axis, container_size) * #[trigger] resized(
                f,
                ix,
                axis,
                pointer,
                child_start,
                container_size,
            )[j] >= min_size(axis) * total_flex(f),
{
    let r = resized(f, ix, axis, pointer, child_start, container_size);
    let e = along(axis, container_size);
    let t = total_flex(f);
    let m = min_size(axis);
    let mt = m * t;
    if !resize_refused(f, ix, axis, container_size) {
        let fi = f[ix] as int;
        assert(e > 0) by (nonlinear_arith)
            requires
                e * fi > m * t,
                m >= 80,
                t >= 2000,
                e >= 0,
        ;
        assert(mt >= 1) by (nonlinear_arith)
            requires
                mt == m * t,
                m >= 80,
                t >= 2000,
        ;
        let mf = min_flex(m, t, e);
        assert(1 <= mf && e * mf >= mt) by (nonlinear_arith)
            requires
                mf == (mt + e - 1) / e,
                e >= 1,
                mt >= 1,
        ;
        let o = clamp(along_point(axis, pointer) - along_point(axis, child_start), 0, e);
        let p = o * t / e - f[ix];
        if p < 0 {
            lemma_pair_bounded(f, ix);
            lemma_pair_step(f, ix, p, mf);
        } else {
            lemma_ripple(f, ix, p, mf);
        }
        lemma_scaled_minimum(f, r, e, mf, mt);
    }
    assert forall|j: int| 0 <= j < f.len() && e * f[j] >= mt implies e * #[trigger] r[j] >= mt by {
        if e * r[j] < mt {
            let a = r[j] as int;
            let b = f[j] as int;
            assert(e * a >= e * b) by (nonlinear_arith)
                requires
                    e >= 0,
                    a >= b,
            ;
        }
    }
}

} // verus!
