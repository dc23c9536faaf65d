use vstd::prelude::*;

use crate::geometry::{Axis, Bounds, Point, Size};
use crate::group::PaneGroup;
use crate::tree::{flex_sum, lemma_child_decreases, panes_of_members, uniform_flexes, Member, PaneAxis, FLEX_UNIT};

verus! {

/// Thickness of the strip around a boundary between members that grabs a drag.
pub const HANDLE_HITBOX_SIZE: i64 = 4;

/// Thickness of the line drawn between members.
pub const DIVIDER_SIZE: i64 = 1;

/// The extent of `s` along `axis`.
pub open spec fn along(axis: Axis, s: Size) -> int {
    match axis {
        Axis::Horizontal => s.width as int,
        Axis::Vertical => s.height as int,
    }
}

/// The coordinate of `p` along `axis`.
pub open spec fn along_point(axis: Axis, p: Point) -> int {
    match axis {
        Axis::Horizontal => p.x as int,
        Axis::Vertical => p.y as int,
    }
}

/// `b` with its origin and extent along `axis` replaced.
pub open spec fn with_along(axis: Axis, b: Bounds, start: int, extent: int) -> Bounds {
    match axis {
        Axis::Horizontal => Bounds {
            origin: Point { x: start as i64, y: b.origin.y },
            size: Size { width: extent as i64, height: b.size.height },
        },
        Axis::Vertical => Bounds {
            origin: Point { x: b.origin.x, y: start as i64 },
            size: Size { width: b.size.width, height: extent as i64 },
        },
    }
}

/// The total weight that a container's extent is shared by: one unit per member.
pub open spec fn total_flex(flexes: Seq<u64>) -> int {
    flexes.len() * FLEX_UNIT
}

/// `extent * flex / total`, rounded to the nearest pixel (halves up; `total` is
/// always even).
pub open spec fn child_extent(extent: int, flex: int, total: int) -> int {
    (extent * flex + total / 2) / total
}

/// The distance from the container's origin to the start of member `k`: the
/// rounded extents of the members before it, laid end to end.
pub open spec fn child_offset(flexes: Seq<u64>, extent: int, k: int) -> int
    decreases k,
{
    if k <= 0 {
        0
    } else {
        child_offset(flexes, extent, k - 1) + child_extent(extent, flexes[k - 1] as int, total_flex(flexes))
    }
}

/// The rectangle of member `k` of a container with `flexes` laid out in `bounds`:
/// its share along the axis, the container's full extent across it.
pub open spec fn child_bounds(axis: Axis, bounds: Bounds, flexes: Seq<u64>, k: int) -> Bounds {
    let e = along(axis, bounds.size);
    with_along(
        axis,
        bounds,
        along_point(axis, bounds.origin) + child_offset(flexes, e, k),
        child_extent(e, flexes[k] as int, total_flex(flexes)),
    )
}

/// The layout of a container of `n` members fits in `i64` coordinates.
pub open spec fn layout_fits(axis: Axis, bounds: Bounds, n: int) -> bool {
    &&& bounds.wf()
    &&& along_point(axis, bounds.origin) + along(axis, bounds.size) + n <= i64::MAX
    &&& along_point(axis, bounds.origin) - HANDLE_HITBOX_SIZE / 2 >= i64::MIN
}

pub open spec fn weights_wf(flexes: Seq<u64>) -> bool {
    &&& flexes.len() >= 1
    &&& flex_sum(flexes) == total_flex(flexes)
}

/// The sum of the first `k` weights.
pub proof fn lemma_prefix_sum(flexes: Seq<u64>, k: int)
    requires
        0 <= k < flexes.len(),
    ensures
        flex_sum(flexes.subrange(0, k + 1)) == flex_sum(flexes.subrange(0, k)) + flexes[k],
        0 <= flex_sum(flexes.subrange(0, k)),
{
    assert(flexes.subrange(0, k + 1).drop_last() == flexes.subrange(0, k));
    lemma_flex_sum_nonneg(flexes.subrange(0, k));
}

pub proof fn lemma_flex_sum_nonneg(s: Seq<u64>)
    ensures
        flex_sum(s) >= 0,
    decreases s.len(),
{
    if s.len() > 0 {
        lemma_flex_sum_nonneg(s.drop_last());
    }
}

/// A weight is at most the sum of all weights.
pub proof fn lemma_weight_bounded(flexes: Seq<u64>, k: int)
    requires
        0 <= k < flexes.len(),
    ensures
        flexes[k] <= flex_sum(flexes),
{
    lemma_prefix_bounded(flexes, k + 1);
    lemma_prefix_sum(flexes, k);
}

/// A rounded share of at most the whole is at most the whole extent.
pub proof fn lemma_child_extent_bounds(extent: int, f: int, t: int)
    requires
        t > 0,
        t % 2 == 0,
        extent >= 0,
        0 <= f <= t,
    ensures
        0 <= child_extent(extent, f, t) <= extent,
        t * child_extent(extent, f, t) <= extent * f + t / 2,
{
    let q = child_extent(extent, f, t);
    assert(0 <= q && t * q <= extent * f + t / 2) by (nonlinear_arith)
        requires
            t > 0,
            extent >= 0,
            f >= 0,
            q == (extent * f + t / 2) / t,
    ;
    assert(extent * f <= extent * t) by (nonlinear_arith)
        requires
            extent >= 0,
            f <= t,
    ;
    assert(q <= extent) by (nonlinear_arith)
        requires
            t > 0,
            t % 2 == 0,
            t * q <= extent * t + t / 2,
    ;
}

/// Each rounded extent exceeds the exact share by at most half a pixel, so the first
/// `k` members end at most `k / 2` pixels past their exact share.
pub proof fn lemma_offset_bound(flexes: Seq<u64>, extent: int, k: int)
    requires
        0 <= k <= flexes.len(),
        weights_wf(flexes),
        extent >= 0,
    ensures
        0 <= child_offset(flexes, extent, k),
        total_flex(flexes) * child_offset(flexes, extent, k)
            <= extent * flex_sum(flexes.subrange(0, k)) + k * (total_flex(flexes) / 2),
    decreases k,
{
    let t = total_flex(flexes);
    if k == 0 {
        assert(flexes.subrange(0, 0) =~= Seq::<u64>::empty());
    } else {
        lemma_offset_bound(flexes, extent, k - 1);
        lemma_prefix_sum(flexes, k - 1);
        lemma_weight_bounded(flexes, k - 1);
        let f = flexes[k - 1] as int;
        lemma_child_extent_bounds(extent, f, t);
        let q = child_extent(extent, f, t);
        let o = child_offset(flexes, extent, k - 1);
        let p = flex_sum(flexes.subrange(0, k - 1));
        let h = t / 2;
        assert(t * (o + q) <= extent * (p + f) + k * h) by (nonlinear_arith)
            requires
                t * q <= extent * f + h,
                t * o <= extent * p + (k - 1) * h,
        ;
    }
}

/// Member `k` of a well-formed container ends no further than `k + 1` pixels past
/// the container's extent, and is no longer than the container.
pub proof fn lemma_child_end(flexes: Seq<u64>, extent: int, k: int)
    requires
        0 <= k < flexes.len(),
        weights_wf(flexes),
        extent >= 0,
    ensures
        0 <= child_offset(flexes, extent, k),
        0 <= child_extent(extent, flexes[k] as int, total_flex(flexes)) <= extent,
        child_offset(flexes, extent, k) + child_extent(extent, flexes[k] as int, total_flex(flexes))
            <= extent + k + 1,
        child_offset(flexes, extent, k + 1) == child_offset(flexes, extent, k) + child_extent(
            extent,
            flexes[k] as int,
            total_flex(flexes),
        ),
{
    let t = total_flex(flexes);
    lemma_offset_bound(flexes, extent, k + 1);
    lemma_offset_bound(flexes, extent, k);
    lemma_prefix_bounded(flexes, k + 1);
    lemma_weight_bounded(flexes, k);
    lemma_child_extent_bounds(extent, flexes[k] as int, t);
    let o = child_offset(flexes, extent, k + 1);
    let p = flex_sum(flexes.subrange(0, k + 1));
    let h = t / 2;
    assert(extent * p <= extent * t) by (nonlinear_arith)
        requires
            extent >= 0,
            p <= t,
    ;
    assert(t * o <= t * (extent + k + 1)) by (nonlinear_arith)
        requires
            t > 0,
            h <= t,
            t * o <= extent * p + (k + 1) * h,
            extent * p <= extent * t,
            k >= 0,
    ;
    assert(o <= extent + k + 1) by (nonlinear_arith)
        requires
            t > 0,
            t * o <= t * (extent + k + 1),
    ;
}

/// A prefix of non-negative weights sums to no more than all of them.
pub proof fn lemma_prefix_bounded(flexes: Seq<u64>, k: int)
    requires
        0 <= k <= flexes.len(),
    ensures
        0 <= flex_sum(flexes.subrange(0, k)) <= flex_sum(flexes),
    decreases flexes.len() - k,
{
    lemma_flex_sum_nonneg(flexes.subrange(0, k));
    if k == flexes.len() {
        assert(flexes.subrange(0, k) == flexes);
    } else {
        lemma_prefix_bounded(flexes, k + 1);
        lemma_prefix_sum(flexes, k);
    }
}

/// The rectangles of the members of a container with weights `flexes` laid out in
/// `bounds`: each member's share along `axis` is rounded to the nearest pixel and
/// starts where the previous one ends.
pub fn layout_children(axis: Axis, flexes: &Vec<u64>, bounds: Bounds) -> (r: Vec<Bounds>)
    requires
        weights_wf(flexes@),
        layout_fits(axis, bounds, flexes@.len() as int),
    ensures
        r@.len() == flexes@.len(),
        forall|k: int| 0 <= k < r@.len() ==> r@[k] == child_bounds(axis, bounds, flexes@, k),
        forall|k: int| 0 <= k < r@.len() ==> (#[trigger] r@[k]).wf(),
{
    let n = flexes.len();
    let total: u128 = n as u128 * FLEX_UNIT as u128;
    let extent: i64 = match axis {
        Axis::Horizontal => bounds.size.width,
        Axis::Vertical => bounds.size.height,
    };
    let start: i64 = match axis {
        Axis::Horizontal => bounds.origin.x,
        Axis::Vertical => bounds.origin.y,
    };
    let mut pos: i64 = start;
    let mut r: Vec<Bounds> = Vec::new();
    let mut k: usize = 0;
    while k < n
        invariant
            n == flexes@.len(),
            weights_wf(flexes@),
            layout_fits(axis, bounds, n as int),
            total == total_flex(flexes@),
            extent == along(axis, bounds.size),
            start == along_point(axis, bounds.origin),
            k <= n,
            pos == start + child_offset(flexes@, extent as int, k as int),
            start <= pos <= start + extent + k,
            r@.len() == k,
            forall|j: int| 0 <= j < k ==> r@[j] == child_bounds(axis, bounds, flexes@, j),
            forall|j: int| 0 <= j < k ==> (#[trigger] r@[j]).wf(),
        decreases n - k,
    {
        proof {
            lemma_child_end(flexes@, extent as int, k as int);
        }
        let e = extent as u128;
        let f = flexes[k] as u128;
        assert(e * f <= (i64::MAX as u128) * (u64::MAX as u128)) by (nonlinear_arith)
            requires
                e <= i64::MAX,
                f <= u64::MAX,
        ;
        let size = ((e * f + total / 2) / total) as i64;
        let child = match axis {
            Axis::Horizontal => Bounds {
                origin: Point { x: pos, y: bounds.origin.y },
                size: Size { width: size, height: bounds.size.height },
            },
            Axis::Vertical => Bounds {
                origin: Point { x: bounds.origin.x, y: pos },
                size: Size { width: bounds.size.width, height: size },
            },
        };
        r.push(child);
        pos = pos + size;
        k += 1;
    }
    r
}

/// With equal weights and an extent that the number of members `n` divides, the
/// members tile the container exactly: each is `extent / n` long, the first starts
/// at the container's origin, each next one starts where the previous one ends, the
/// last ends at the container's far edge, and each spans the container across the axis.
pub proof fn lemma_uniform_layout_tiles(axis: Axis, bounds: Bounds, flexes: Seq<u64>)
    requires
        flexes.len() >= 1,
        uniform_flexes(flexes, flexes.len() as int),
        along(axis, bounds.size) % (flexes.len() as int) == 0,
        layout_fits(axis, bounds, flexes.len() as int),
    ensures
        forall|k: int|
            0 <= k < flexes.len() ==> along(axis, #[trigger] child_bounds(axis, bounds, flexes, k).size)
                == along(axis, bounds.size) / (flexes.len() as int),
        forall|k: int|
            0 <= k < flexes.len() ==> along_point(axis, #[trigger] child_bounds(axis, bounds, flexes, k).origin)
                == along_point(axis, bounds.origin) + k * (along(axis, bounds.size) / (flexes.len() as int)),
        along_point(axis, child_bounds(axis, bounds, flexes, 0).origin) == along_point(axis, bounds.origin),
        forall|k: int|
            0 <= k < flexes.len() - 1 ==> along_point(axis, #[trigger] child_bounds(axis, bounds, flexes, k + 1).origin)
                == along_point(axis, child_bounds(axis, bounds, flexes, k).origin) + along(
                axis,
                child_bounds(axis, bounds, flexes, k).size,
            ),
        along_point(axis, child_bounds(axis, bounds, flexes, flexes.len() - 1).origin) + along(
            axis,
            child_bounds(axis, bounds, flexes, flexes.len() - 1).size,
        ) == along_point(axis, bounds.origin) + along(axis, bounds.size),
        forall|k: int|
            0 <= k < flexes.len() ==> {
                let c = #[trigger] child_bounds(axis, bounds, flexes, k);
                match axis {
                    Axis::Horizontal => c.origin.y == bounds.origin.y && c.size.height == bounds.size.height,
                    Axis::Vertical => c.origin.x == bounds.origin.x && c.size.width == bounds.size.width,
                }
            },
{
    let n = flexes.len() as int;
    let e = along(axis, bounds.size);
    let t = total_flex(flexes);
    let m = e / n;
    assert(e == n * m) by (nonlinear_arith)
        requires
            n >= 1,
            e % n == 0,
            m == e / n,
    ;
    assert(t == n * FLEX_UNIT);
    assert(m >= 0 && m <= e) by (nonlinear_arith)
        requires
            n >= 1,
            e >= 0,
            e == n * m,
    ;
    let q = child_extent(e, FLEX_UNIT as int, t);
    assert(e * FLEX_UNIT + t / 2 == t * m + n * 500) by (nonlinear_arith)
        requires
            e == n * m,
            t == n * 1000,
    ;
    assert(q == m) by (nonlinear_arith)
        requires
            q == (t * m + n * 500) / t,
            t == n * 1000,
            n >= 1,
    ;
    assert forall|k: int| 0 <= k <= n implies child_offset(flexes, e, k) == k * m by {
        lemma_uniform_offset(flexes, e, m, k);
    }
    assert forall|k: int| 0 <= k <= n implies 0 <= #[trigger] (k * m) <= e by {
        assert(0 <= k * m <= n * m) by (nonlinear_arith)
            requires
                0 <= k <= n,
                m >= 0,
        ;
    }
    assert forall|k: int| 0 <= k < n - 1 implies #[trigger] ((k + 1) * m) == k * m + m by {
        assert((k + 1) * m == k * m + m) by (nonlinear_arith);
    }
    assert((n - 1) * m + m == e) by (nonlinear_arith)
        requires
            e == n * m,
    ;
}

proof fn lemma_uniform_offset(flexes: Seq<u64>, e: int, m: int, k: int)
    requires
        0 <= k <= flexes.len(),
        uniform_flexes(flexes, flexes.len() as int),
        child_extent(e, FLEX_UNIT as int, total_flex(flexes)) == m,
    ensures
        child_offset(flexes, e, k) == k * m,
    decreases k,
{
    if k > 0 {
        lemma_uniform_offset(flexes, e, m, k - 1);
        assert(flexes[k - 1] == FLEX_UNIT);
        assert(child_extent(e, flexes[k - 1] as int, total_flex(flexes)) == m);
        assert(k * m == (k - 1) * m + m) by (nonlinear_arith);
    } else {
        assert(0 * m == 0) by (nonlinear_arith);
    }
}

/// The drag handle after a member: a strip that grabs the pointer, centred on the
/// member's trailing edge, and the divider line drawn just past that edge.
#[derive(Clone, Copy, Debug, PartialEq, Eq, Structural)]
pub struct PaneAxisHandleLayout {
    pub hitbox: Bounds,
    pub divider_bounds: Bounds,
}

/// A member's rectangle, and its handle unless it is the last member.
#[derive(Clone, Copy, Debug, PartialEq, Eq, Structural)]
pub struct PaneAxisChildLayout {
    pub bounds: Bounds,
    pub handle: Option<PaneAxisHandleLayout>,
}

/// One frame's layout of a container: its rectangle, the handle being dragged if
/// any, and one entry per member.
pub struct PaneAxisLayout {
    pub bounds: Bounds,
    pub dragged_handle: Option<usize>,
    pub children: Vec<PaneAxisChildLayout>,
}

/// The handle after a member with rectangle `pane_bounds`.
pub open spec fn handle_layout_spec(axis: Axis, pane_bounds: Bounds) -> PaneAxisHandleLayout {
    let end = along_point(axis, pane_bounds.origin) + along(axis, pane_bounds.size);
    PaneAxisHandleLayout {
        hitbox: with_along(axis, pane_bounds, end - HANDLE_HITBOX_SIZE / 2, HANDLE_HITBOX_SIZE as int),
        divider_bounds: with_along(axis, pane_bounds, end, DIVIDER_SIZE as int),
    }
}

/// The handle after a member with rectangle `pane_bounds`.
pub fn layout_handle(axis: Axis, pane_bounds: Bounds) -> (r: PaneAxisHandleLayout)
    requires
        pane_bounds.wf(),
        along_point(axis, pane_bounds.origin) + along(axis, pane_bounds.size) - HANDLE_HITBOX_SIZE / 2 >= i64::MIN,
    ensures
        r == handle_layout_spec(axis, pane_bounds),
{
    match axis {
        Axis::Horizontal => {
            let end = pane_bounds.right();
            PaneAxisHandleLayout {
                hitbox: Bounds {
                    origin: Point { x: end - HANDLE_HITBOX_SIZE / 2, y: pane_bounds.origin.y },
                    size: Size { width: HANDLE_HITBOX_SIZE, height: pane_bounds.size.height },
                },
                divider_bounds: Bounds {
                    origin: Point { x: end, y: pane_bounds.origin.y },
                    size: Size { width: DIVIDER_SIZE, height: pane_bounds.size.height },
                },
            }
        },
        Axis::Vertical => {
            let end = pane_bounds.bottom();
            PaneAxisHandleLayout {
                hitbox: Bounds {
                    origin: Point { x: pane_bounds.origin.x, y: end - HANDLE_HITBOX_SIZE / 2 },
                    size: Size { width: pane_bounds.size.width, height: HANDLE_HITBOX_SIZE },
                },
                divider_bounds: Bounds {
                    origin: Point { x: pane_bounds.origin.x, y: end },
                    size: Size { width: pane_bounds.size.width, height: DIVIDER_SIZE },
                },
            }
        },
    }
}

impl PaneAxis {
    /// Lays the members out in `bounds`, caches each member's rectangle in
    /// `bounding_boxes` (replacing the previous frame's), and places a handle after
    /// every member but the last.
    pub fn prepaint(&mut self, bounds: Bounds, dragged_handle: Option<usize>) -> (r: PaneAxisLayout)
        requires
            old(self).wf(),
            layout_fits(old(self).axis, bounds, old(self).members@.len() as int),
        ensures
            final(self).wf(),
            final(self).axis == old(self).axis,
            final(self).members == old(self).members,
            final(self).flexes == old(self).flexes,
            final(self).bounding_boxes@.len() == old(self).members@.len(),
            forall|k: int|
                0 <= k < old(self).members@.len() ==> final(self).bounding_boxes@[k] == Some(
                    child_bounds(old(self).axis, bounds, old(self).flexes@, k),
                ),
            r.bounds == bounds,
            r.dragged_handle == dragged_handle,
            r.children@.len() == old(self).members@.len(),
            forall|k: int|
                0 <= k < old(self).members@.len() ==> (#[trigger] r.children@[k]).bounds == child_bounds(
                    old(self).axis,
                    bounds,
                    old(self).flexes@,
                    k,
                ),
            forall|k: int|
                0 <= k < old(self).members@.len() ==> ((#[trigger] r.children@[k]).handle is Some <==> k
                    < old(self).members@.len() - 1),
            forall|k: int|
                0 <= k < old(self).members@.len() - 1 ==> (#[trigger] r.children@[k]).handle == Some(
                    handle_layout_spec(old(self).axis, child_bounds(old(self).axis, bounds, old(self).flexes@, k)),
                ),
    {
        let rects = layout_children(self.axis, &self.flexes, bounds);
        let n = rects.len();
        let mut boxes: Vec<Option<Bounds>> = Vec::new();
        let mut children: Vec<PaneAxisChildLayout> = Vec::new();
        let mut k: usize = 0;
        while k < n
            invariant
                n == rects@.len(),
                n == self.members@.len(),
                n >= 2,
                self.wf(),
                layout_fits(self.axis, bounds, n as int),
                forall|j: int| 0 <= j < n ==> rects@[j] == child_bounds(self.axis, bounds, self.flexes@, j),
                forall|j: int| 0 <= j < n ==> (#[trigger] rects@[j]).wf(),
                k <= n,
                boxes@.len() == k,
                children@.len() == k,
                forall|j: int| 0 <= j < k ==> boxes@[j] == Some(rects@[j]),
                forall|j: int| 0 <= j < k ==> (#[trigger] children@[j]).bounds == rects@[j],
                forall|j: int| 0 <= j < k ==> ((#[trigger] children@[j]).handle is Some <==> j < n - 1),
                forall|j: int|
                    0 <= j < k && j < n - 1 ==> (#[trigger] children@[j]).handle == Some(
                        handle_layout_spec(self.axis, rects@[j]),
                    ),
            decreases n - k,
        {
            let rect = rects[k];
            boxes.push(Some(rect));
            let handle = if k + 1 < n {
                proof {
                    lemma_child_end(self.flexes@, along(self.axis, bounds.size), k as int);
                }
                Some(layout_handle(self.axis, rect))
            } else {
                None
            };
            children.push(PaneAxisChildLayout { bounds: rect, handle });
            k += 1;
        }
        self.bounding_boxes = boxes;
        PaneAxisLayout { bounds, dragged_handle, children }
    }
}

impl Member {
    /// Every container of the tree, laid out from `bounds` down, fits in `i64`
    /// coordinates.
    pub open spec fn fits_in(self, bounds: Bounds) -> bool
        decreases self,
    {
        match self {
            Member::Pane(_) => true,
            Member::Axis(a) => {
                &&& layout_fits(a.axis, bounds, a.members@.len() as int)
                &&& forall|k: int|
                    0 <= k < a.members@.len() ==> (#[trigger] a.members@[k]).fits_in(
                        child_bounds(a.axis, bounds, a.flexes@, k),
                    )
            },
        }
    }

    /// `after` is `self` with every container's cached rectangles set by laying the
    /// tree out in `bounds`; the tree itself and its weights are unchanged.
    pub open spec fn laid_out(self, after: Member, bounds: Bounds) -> bool
        decreases self,
    {
        match self {
            Member::Pane(p) => after == Member::Pane(p),
            Member::Axis(a) => {
                &&& after is Axis
                &&& after->Axis_0.axis == a.axis
                &&& after->Axis_0.flexes == a.flexes
                &&& after->Axis_0.members@.len() == a.members@.len()
                &&& after->Axis_0.bounding_boxes@.len() == a.members@.len()
                &&& forall|k: int|
                    0 <= k < a.members@.len() ==> after->Axis_0.bounding_boxes@[k] == Some(
                        child_bounds(a.axis, bounds, a.flexes@, k),
                    )
                &&& forall|k: int|
                    0 <= k < a.members@.len() ==> (#[trigger] a.members@[k]).laid_out(
                        after->Axis_0.members@[k],
                        child_bounds(a.axis, bounds, a.flexes@, k),
                    )
            },
        }
    }

    /// Whether every container of the tree, laid out from `bounds` down, fits in
    /// `i64` coordinates.
    pub fn check_fits(&self, bounds: Bounds) -> (r: bool)
        requires
            self.wf(),
        ensures
            r == self.fits_in(bounds),
        decreases self,
    {
        match self {
            Member::Pane(_) => true,
            Member::Axis(axis) => {
                let n = axis.members.len();
                let (start, extent) = match axis.axis {
                    Axis::Horizontal => (bounds.origin.x, bounds.size.width),
                    Axis::Vertical => (bounds.origin.y, bounds.size.height),
                };
                let fits = bounds.size.width >= 0 && bounds.size.height >= 0
                    && bounds.origin.x as i128 + bounds.size.width as i128 <= i64::MAX as i128
                    && bounds.origin.y as i128 + bounds.size.height as i128 <= i64::MAX as i128
                    && start as i128 + extent as i128 + n as i128 <= i64::MAX as i128
                    && start as i128 - (HANDLE_HITBOX_SIZE / 2) as i128 >= i64::MIN as i128;
                if !fits {
                    return false;
                }
                let rects = layout_children(axis.axis, &axis.flexes, bounds);
                let mut k: usize = 0;
                while k < n
                    invariant
                        *self == Member::Axis(*axis),
                        self.wf(),
                        n == axis.members@.len(),
                        rects@.len() == n,
                        forall|j: int| 0 <= j < n ==> rects@[j] == child_bounds(axis.axis, bounds, axis.flexes@, j),
                        k <= n,
                        forall|j: int|
                            0 <= j < k ==> (#[trigger] axis.members@[j]).fits_in(
                                child_bounds(axis.axis, bounds, axis.flexes@, j),
                            ),
                    decreases n - k,
                {
                    proof {
                        lemma_child_decreases(*axis, k as int);
                        assert(axis.members@[k as int].wf());
                    }
                    if !axis.members[k].check_fits(rects[k]) {
                        return false;
                    }
                    k += 1;
                }
                true
            },
        }
    }

    /// Lays the tree out in `bounds`, caching every member's rectangle top-down.
    pub fn layout(&mut self, bounds: Bounds)
        requires
            old(self).wf(),
            old(self).fits_in(bounds),
        ensures
            final(self).wf(),
            old(self).laid_out(*final(self), bounds),
            final(self).panes_spec() == old(self).panes_spec(),
        decreases *old(self),
    {
        match self {
            Member::Pane(_) => {},
            Member::Axis(axis) => axis.layout(bounds),
        }
    }
}

impl PaneAxis {
    /// Lays this container and every container below it out in `bounds`.
    pub fn layout(&mut self, bounds: Bounds)
        requires
            Member::Axis(*old(self)).wf(),
            Member::Axis(*old(self)).fits_in(bounds),
        ensures
            Member::Axis(*final(self)).wf(),
            Member::Axis(*old(self)).laid_out(Member::Axis(*final(self)), bounds),
            panes_of_members(final(self).members@) == panes_of_members(old(self).members@),
        decreases *old(self),
    {
        let ghost before = *self;
        let frame = self.prepaint(bounds, None);
        let ghost boxed = *self;
        let n = self.members.len();
        let mut k: usize = 0;
        while k < n
            invariant
                before == *old(self),
                before.wf(),
                Member::Axis(before).fits_in(bounds),
                n == self.members@.len(),
                n == before.members@.len(),
                self.axis == before.axis,
                self.flexes == before.flexes,
                self.bounding_boxes == boxed.bounding_boxes,
                self.bounding_boxes@.len() == n,
                frame.children@.len() == n,
                forall|j: int| 0 <= j < n ==> (#[trigger] frame.children@[j]).bounds == child_bounds(before.axis, bounds, before.flexes@, j),
                forall|j: int| 0 <= j < n ==> self.bounding_boxes@[j] == Some(
                    child_bounds(before.axis, bounds, before.flexes@, j),
                ),
                self.shallow_wf(),
                k <= n,
                forall|j: int|
                    0 <= j < k ==> (#[trigger] before.members@[j]).laid_out(
                        self.members@[j],
                        child_bounds(before.axis, bounds, before.flexes@, j),
                    ),
                forall|j: int| 0 <= j < k ==> (#[trigger] self.members@[j]).wf(),
                forall|j: int| 0 <= j < k ==> (#[trigger] self.members@[j]).panes_spec() == before.members@[j].panes_spec(),
                forall|j: int| k <= j < n ==> self.members@[j] == before.members@[j],
            decreases n - k,
        {
            proof {
                lemma_child_decreases(before, k as int);
                assert(before.members@[k as int].wf());
                assert(before.members@[k as int].fits_in(child_bounds(before.axis, bounds, before.flexes@, k as int)));
            }
            let member = &mut self.members[k];
            member.layout(frame.children[k].bounds);
            k += 1;
        }
        proof {
            assert forall|j: int| 0 <= j < n implies (#[trigger] self.members@[j]).wf() by {}
            lemma_panes_pointwise(before.members@, self.members@);
        }
    }
}

/// Sequences of members with the same leaves, position by position, have the same leaves.
pub proof fn lemma_panes_pointwise(s: Seq<Member>, t: Seq<Member>)
    requires
        s.len() == t.len(),
        forall|j: int| 0 <= j < s.len() ==> (#[trigger] t[j]).panes_spec() == s[j].panes_spec(),
    ensures
        panes_of_members(t) == panes_of_members(s),
    decreases s.len(),
{
    if s.len() > 0 {
        let n = s.len() - 1;
        lemma_panes_pointwise(s.subrange(0, n), t.subrange(0, n));
        assert(t[n].panes_spec() == s[n].panes_spec());
    }
}

impl PaneGroup {
    /// Lays the whole group out in `bounds`; a bare pane caches nothing.
    pub fn layout(&mut self, bounds: Bounds)
        requires
            old(self).wf(),
            old(self).root.fits_in(bounds),
        ensures
            final(self).wf(),
            old(self).root.laid_out(final(self).root, bounds),
            final(self).root.panes_spec() == old(self).root.panes_spec(),
    {
        self.root.layout(bounds);
    }
}

} // verus!
