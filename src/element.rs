use vstd::prelude::*;

use crate::geometry::Point;
use crate::layout::{total_flex, PaneAxisChildLayout, PaneAxisLayout};
use crate::resize::{compute_resize, resize_refused, resized};
use crate::tree::{lemma_uniform_sum, uniform, uniform_flexes, PaneAxis};

verus! {

/// Member `k` has a handle whose hit strip holds `pt`.
pub open spec fn handle_hit(children: Seq<PaneAxisChildLayout>, pt: Point, k: int) -> bool {
    &&& 0 <= k < children.len()
    &&& children[k].handle is Some
    &&& children[k].handle->Some_0.hitbox.contains_spec(pt)
}

/// The handle under `pt`: the last one whose hit strip holds it, as later strips lie on top.
pub open spec fn handle_under(children: Seq<PaneAxisChildLayout>, pt: Point, r: Option<usize>) -> bool {
    match r {
        Some(k) => handle_hit(children, pt, k as int) && forall|j: int|
            k < j < children.len() ==> !#[trigger] handle_hit(children, pt, j),
        None => forall|j: int| 0 <= j < children.len() ==> !#[trigger] handle_hit(children, pt, j),
    }
}

impl PaneAxisLayout {
    /// The handle under `position`, if any.
    pub fn handle_at(&self, position: &Point) -> (r: Option<usize>)
        ensures
            handle_under(self.children@, *position, r),
    {
        let mut k: usize = self.children.len();
        while k > 0
            invariant
                k <= self.children@.len(),
                forall|j: int| k <= j < self.children@.len() ==> !#[trigger] handle_hit(self.children@, *position, j),
            decreases k,
        {
            k -= 1;
            if let Some(handle) = self.children[k].handle {
                if handle.hitbox.contains(position) {
                    return Some(k);
                }
            }
        }
        None
    }

    /// A release anywhere lets go of the dragged handle.
    pub fn handle_mouse_up(&mut self)
        ensures
            final(self).dragged_handle is None,
            final(self).bounds == old(self).bounds,
            final(self).children == old(self).children,
    {
        self.dragged_handle = None;
    }
}

impl PaneAxis {
    /// A press at `position`: grabs the handle under it, and on a double press also
    /// resets every weight to one unit. Answers whether a handle was hit.
    pub fn handle_mouse_down(&mut self, layout: &mut PaneAxisLayout, position: Point, click_count: usize) -> (r: bool)
        requires
            old(self).wf(),
        ensures
            final(self).wf(),
            final(self).axis == old(self).axis,
            final(self).members == old(self).members,
            final(self).bounding_boxes == old(self).bounding_boxes,
            final(layout).bounds == old(layout).bounds,
            final(layout).children == old(layout).children,
            handle_under(old(layout).children@, position, if r { final(layout).dragged_handle } else { None }),
            !r ==> final(layout).dragged_handle == old(layout).dragged_handle,
            r && click_count >= 2 ==> uniform_flexes(final(self).flexes@, old(self).members@.len() as int),
            !(r && click_count >= 2) ==> final(self).flexes == old(self).flexes,
    {
        match layout.handle_at(&position) {
            Some(ix) => {
                layout.dragged_handle = Some(ix);
                if click_count >= 2 {
                    self.flexes = uniform(self.members.len());
                    proof {
                        lemma_uniform_sum(self.flexes@, self.members@.len() as int);
                    }
                }
                true
            },
            None => false,
        }
    }

    /// A pointer move to `position` while the handle after member `ix` is dragged:
    /// the weights become `resized(..)` for that member's cached start and the
    /// container's size. Answers whether a resize step was applied (a handle was
    /// being dragged and the step was not refused), after which the host saves the
    /// layout and redraws.
    pub fn handle_mouse_move(&mut self, layout: &PaneAxisLayout, position: Point) -> (r: bool)
        requires
            old(self).wf(),
            layout.children@.len() == old(self).members@.len(),
            layout.bounds.wf(),
            total_flex(old(self).flexes@) <= u64::MAX,
        ensures
            final(self).wf(),
            final(self).axis == old(self).axis,
            final(self).members == old(self).members,
            final(self).bounding_boxes == old(self).bounding_boxes,
            r <==> (layout.dragged_handle matches Some(ix) && ix + 1 < old(self).members@.len()
                && !resize_refused(old(self).flexes@, ix as int, old(self).axis, layout.bounds.size)),
            (layout.dragged_handle matches Some(ix) && ix + 1 < old(self).members@.len())
                ==> final(self).flexes@ == resized(
                old(self).flexes@,
                layout.dragged_handle->Some_0 as int,
                old(self).axis,
                position,
                layout.children@[layout.dragged_handle->Some_0 as int].bounds.origin,
                layout.bounds.size,
            ),
            !(layout.dragged_handle matches Some(ix) && ix + 1 < old(self).members@.len())
                ==> final(self).flexes == old(self).flexes,
    {
        match layout.dragged_handle {
            Some(ix) => {
                if ix < self.members.len() - 1 {
                    let child_start = layout.children[ix].bounds.origin;
                    compute_resize(&mut self.flexes, position, ix, self.axis, child_start, layout.bounds.size)
                } else {
                    false
                }
            },
            None => false,
        }
    }
}

} // verus!
