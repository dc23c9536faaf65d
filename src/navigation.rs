use vstd::prelude::*;

use crate::direction::SplitDirection;
use crate::geometry::{Bounds, Point};
use crate::group::PaneGroup;
use crate::layout::HANDLE_HITBOX_SIZE;
use crate::tree::{lemma_child_decreases, Member, PaneAxis, PaneId};

verus! {

/// Where to look for the neighbour of a pane with rectangle `bb` towards `direction`:
/// from the cursor if it lies in `bb`, else from the centre of `bb`, moved just past
/// the edge of `bb` that faces `direction`.
pub open spec fn probe(bb: Bounds, cursor: Option<Point>, direction: SplitDirection) -> (int, int) {
    let from_x = if cursor is Some && bb.contains_spec(cursor->Some_0) {
        cursor->Some_0.x as int
    } else {
        bb.origin.x + bb.size.width / 2
    };
    let from_y = if cursor is Some && bb.contains_spec(cursor->Some_0) {
        cursor->Some_0.y as int
    } else {
        bb.origin.y + bb.size.height / 2
    };
    match direction {
        SplitDirection::Left => (bb.origin.x - HANDLE_HITBOX_SIZE, from_y),
        SplitDirection::Right => (bb.origin.x + bb.size.width + HANDLE_HITBOX_SIZE, from_y),
        SplitDirection::Up => (from_x, bb.origin.y - HANDLE_HITBOX_SIZE),
        SplitDirection::Down => (from_x, bb.origin.y + bb.size.height + HANDLE_HITBOX_SIZE),
    }
}

pub open spec fn in_i64(v: int) -> bool {
    i64::MIN <= v <= i64::MAX
}

/// The pane next to `active` towards `direction`, by the cached rectangles: the
/// pane at the probe point, if `active` has a rectangle and the point is representable.
pub open spec fn pane_in_direction(root: Member, active: PaneId, cursor: Option<Point>, direction: SplitDirection) -> Option<PaneId> {
    match root.bounding_box_spec(active) {
        None => None,
        Some(bb) => {
            let (x, y) = probe(bb, cursor, direction);
            if in_i64(x) && in_i64(y) {
                root.pane_at_spec(Point { x: x as i64, y: y as i64 })
            } else {
                None
            }
        },
    }
}

/// Every rectangle cached in a well-formed tree has non-negative extents.
pub proof fn lemma_cached_bounds_wf(a: PaneAxis, p: PaneId, i: int)
    requires
        Member::Axis(a).wf(),
    ensures
        a.bounding_box_from(p, i) matches Some(b) ==> b.wf(),
    decreases a, a.members@.len() - i,
{
    if 0 <= i < a.members@.len() {
        match a.members@[i] {
            Member::Pane(q) => {
                if q != p {
                    lemma_cached_bounds_wf(a, p, i + 1);
                }
            },
            Member::Axis(c) => {
                lemma_child_decreases(a, i);
                assert(a.members@[i].wf());
                lemma_cached_bounds_wf(c, p, 0);
                lemma_cached_bounds_wf(a, p, i + 1);
            },
        }
    }
}

/// A pane with a cached rectangle is in the tree.
pub proof fn lemma_boxed_pane_present(a: PaneAxis, p: PaneId, i: int)
    ensures
        a.bounding_box_from(p, i) is Some ==> Member::Axis(a).contains_spec(p),
    decreases a, a.members@.len() - i,
{
    if 0 <= i < a.members@.len() {
        match a.members@[i] {
            Member::Pane(q) => {
                if q != p {
                    lemma_boxed_pane_present(a, p, i + 1);
                } else {
                    assert(a.members@[i].contains_spec(p));
                }
            },
            Member::Axis(c) => {
                lemma_child_decreases(a, i);
                lemma_boxed_pane_present(c, p, 0);
                lemma_boxed_pane_present(a, p, i + 1);
                if c.bounding_box_from(p, 0) is Some {
                    assert(a.members@[i].contains_spec(p));
                }
            },
        }
    }
}

/// A pane found by hit testing is in the tree.
pub proof fn lemma_hit_pane_present(a: PaneAxis, pt: Point, i: int)
    ensures
        a.pane_at_from(pt, i) matches Some(q) ==> Member::Axis(a).contains_spec(q),
    decreases a, a.members@.len() - i,
{
    if 0 <= i < a.members@.len() {
        if a.bounding_boxes@[i] is Some && a.bounding_boxes@[i]->Some_0.contains_spec(pt) {
            match a.members@[i] {
                Member::Pane(q) => {
                    assert(a.members@[i].contains_spec(q));
                },
                Member::Axis(c) => {
                    lemma_child_decreases(a, i);
                    lemma_hit_pane_present(c, pt, 0);
                    if let Some(q) = c.pane_at_from(pt, 0) {
                        assert(a.members@[i].contains_spec(q));
                    }
                },
            }
        } else {
            lemma_hit_pane_present(a, pt, i + 1);
        }
    }
}

impl PaneGroup {
    /// The pane next to `active_pane` towards `direction`, given the cursor's last
    /// known position.
    pub fn find_pane_in_direction(&self, active_pane: &PaneId, cursor: Option<Point>, direction: SplitDirection) -> (r: Option<PaneId>)
        requires
            self.wf(),
        ensures
            r == pane_in_direction(self.root, *active_pane, cursor, direction),
    {
        let bb = match self.bounding_box_for_pane(active_pane) {
            Some(bb) => bb,
            None => return None,
        };
        proof {
            if self.root is Axis {
                lemma_cached_bounds_wf(self.root->Axis_0, *active_pane, 0);
            }
        }
        let from = match cursor {
            Some(c) => if bb.contains(&c) {
                c
            } else {
                bb.center()
            },
            None => bb.center(),
        };
        let (x, y): (i128, i128) = match direction {
            SplitDirection::Left => (bb.origin.x as i128 - HANDLE_HITBOX_SIZE as i128, from.y as i128),
            SplitDirection::Right => (bb.right() as i128 + HANDLE_HITBOX_SIZE as i128, from.y as i128),
            SplitDirection::Up => (from.x as i128, bb.origin.y as i128 - HANDLE_HITBOX_SIZE as i128),
            SplitDirection::Down => (from.x as i128, bb.bottom() as i128 + HANDLE_HITBOX_SIZE as i128),
        };
        if i64::MIN as i128 <= x && x <= i64::MAX as i128 && i64::MIN as i128 <= y && y <= i64::MAX as i128 {
            self.pane_at_pixel_position(&Point { x: x as i64, y: y as i64 })
        } else {
            None
        }
    }

    /// Exchanges `active_pane` with its neighbour towards `direction`, if it has one.
    pub fn swap_pane_in_direction(&mut self, active_pane: &PaneId, cursor: Option<Point>, direction: SplitDirection)
        requires
            old(self).wf(),
        ensures
            final(self).wf(),
            pane_in_direction(old(self).root, *active_pane, cursor, direction) is None ==> *final(self) == *old(self),
            pane_in_direction(old(self).root, *active_pane, cursor, direction) matches Some(to)
                ==> old(self).root.swap_spec(final(self).root, *active_pane, to),
    {
        if let Some(to) = self.find_pane_in_direction(active_pane, cursor, direction) {
            proof {
                let a = self.root->Axis_0;
                lemma_boxed_pane_present(a, *active_pane, 0);
                let (x, y) = probe(self.root.bounding_box_spec(*active_pane)->Some_0, cursor, direction);
                lemma_hit_pane_present(a, Point { x: x as i64, y: y as i64 }, 0);
                assert(self.root.swap_applies(*active_pane, to));
            }
            self.swap(active_pane, &to);
        }
    }
}

} // verus!
