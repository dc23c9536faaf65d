use vstd::prelude::*;

use crate::direction::SplitDirection;
use crate::geometry::{Bounds, Point};
use crate::tree::{collapsed, Member, PaneAxis, PaneId, PaneNotFound};

verus! {

impl Member {
    /// `after` is the tree `self` once `new` has been split off `old`.
    pub open spec fn split_into(self, after: Member, old: PaneId, new: PaneId, direction: SplitDirection) -> bool {
        match self {
            Member::Pane(q) => q == old && after.is_split_of(old, new, direction),
            Member::Axis(a) => after is Axis && a.split_spec(after->Axis_0, old, new, direction),
        }
    }

    /// `after` is the tree `self`, a container, once `p` has been removed from it and
    /// the container has collapsed if it was left with one member.
    pub open spec fn remove_into(self, after: Member, p: PaneId) -> bool {
        match self {
            Member::Pane(_) => false,
            Member::Axis(a) => exists|a2: PaneAxis, r2: Option<Member>|
                #![trigger collapsed(a2, r2)]
                a.remove_spec(a2, r2, p) && after == collapsed(a2, r2),
        }
    }
}

/// One or more panes, arranged by splits into nested horizontal and vertical
/// containers. A group of one pane is that bare pane.
pub struct PaneGroup {
    pub root: Member,
}

impl PaneGroup {
    /// Every container of the tree has at least two members and weights that
    /// average exactly one unit (see `PaneAxis::shallow_wf`).
    pub open spec fn wf(self) -> bool {
        self.root.wf()
    }

    /// A group of the single pane `pane`.
    pub fn new(pane: PaneId) -> (r: PaneGroup)
        ensures
            r.root == Member::Pane(pane),
            r.wf(),
    {
        PaneGroup { root: Member::Pane(pane) }
    }

    /// Splits `new_pane` off the first occurrence of `old_pane`, towards `direction`.
    pub fn split(&mut self, old_pane: &PaneId, new_pane: &PaneId, direction: SplitDirection) -> (r: Result<(), PaneNotFound>)
        requires
            old(self).wf(),
        ensures
            final(self).wf(),
            r is Ok <==> old(self).root.contains_spec(*old_pane),
            r is Ok ==> old(self).root.split_into(final(self).root, *old_pane, *new_pane, direction),
            r is Err ==> *final(self) == *old(self),
    {
        match &mut self.root {
            Member::Pane(pane) => {
                if *pane == *old_pane {
                    self.root = Member::new_axis(*old_pane, *new_pane, direction);
                    Ok(())
                } else {
                    Err(PaneNotFound)
                }
            },
            Member::Axis(axis) => axis.split(old_pane, new_pane, direction),
        }
    }

    /// The rectangle cached for `pane` by the latest layout; a bare pane has none.
    pub fn bounding_box_for_pane(&self, pane: &PaneId) -> (r: Option<Bounds>)
        requires
            self.wf(),
        ensures
            r == self.root.bounding_box_spec(*pane),
    {
        match &self.root {
            Member::Pane(_) => None,
            Member::Axis(axis) => axis.bounding_box_for_pane(pane),
        }
    }

    /// The pane whose cached rectangle holds `coordinate`; a bare pane holds every point.
    pub fn pane_at_pixel_position(&self, coordinate: &Point) -> (r: Option<PaneId>)
        requires
            self.wf(),
        ensures
            r == self.root.pane_at_spec(*coordinate),
    {
        match &self.root {
            Member::Pane(pane) => Some(*pane),
            Member::Axis(axis) => axis.pane_at_pixel_position(coordinate),
        }
    }

    /// Removes the first occurrence of `pane`. A group of one pane is left as it is
    /// and answers `Ok(false)`; otherwise `Ok(true)` once the pane is removed.
    pub fn remove(&mut self, pane: &PaneId) -> (r: Result<bool, PaneNotFound>)
        requires
            old(self).wf(),
        ensures
            final(self).wf(),
            old(self).root is Pane ==> r == Ok::<bool, PaneNotFound>(false) && *final(self) == *old(self),
            old(self).root is Axis ==> (r is Err <==> !old(self).root.contains_spec(*pane)),
            old(self).root is Axis ==> (r is Ok ==> r == Ok::<bool, PaneNotFound>(true)),
            r is Err ==> *final(self) == *old(self),
            r == Ok::<bool, PaneNotFound>(true) ==> old(self).root.remove_into(final(self).root, *pane),
    {
        match &mut self.root {
            Member::Pane(_) => Ok(false),
            Member::Axis(axis) => {
                let ghost a = *axis;
                match axis.remove(pane) {
                    Ok(Some(last_pane)) => {
                        let ghost a2 = *axis;
                        self.root = last_pane;
                        assert(a.remove_spec(a2, Some(last_pane), *pane));
                        assert(collapsed(a2, Some(last_pane)) == last_pane);
                        Ok(true)
                    },
                    Ok(None) => {
                        let ghost a2 = *axis;
                        assert(a.remove_spec(a2, None, *pane));
                        assert(collapsed(a2, None) == Member::Axis(a2));
                        Ok(true)
                    },
                    Err(e) => Err(e),
                }
            },
        }
    }

    /// Exchanges the leaves `from` and `to` wherever they occur. Nothing happens
    /// unless both are in the group, nor to a bare pane.
    pub fn swap(&mut self, from: &PaneId, to: &PaneId)
        requires
            old(self).wf(),
        ensures
            final(self).wf(),
            !old(self).root.swap_applies(*from, *to) ==> *final(self) == *old(self),
            old(self).root.swap_applies(*from, *to) ==> old(self).root.swap_spec(final(self).root, *from, *to),
    {
        if !(self.root.contains(from) && self.root.contains(to)) {
            return;
        }
        match &mut self.root {
            Member::Pane(_) => {},
            Member::Axis(axis) => axis.swap(from, to),
        }
    }

    /// Every pane of the group, in pre-order.
    pub fn panes(&self) -> (r: Vec<PaneId>)
        ensures
            r@ == self.root.panes_spec(),
    {
        let mut panes: Vec<PaneId> = Vec::new();
        self.root.collect_panes(&mut panes);
        assert(panes@ == Seq::<PaneId>::empty() + self.root.panes_spec());
        panes
    }

    /// The pane reached by always descending into the first member.
    pub fn first_pane(&self) -> (r: PaneId)
        requires
            self.wf(),
        ensures
            r == self.root.first_pane_spec(),
    {
        self.root.first_pane()
    }
}

/// The first position of `p` in `panes`.
pub open spec fn first_position(panes: Seq<PaneId>, p: PaneId, i: int) -> bool {
    &&& 0 <= i < panes.len()
    &&& panes[i] == p
    &&& forall|j: int| 0 <= j < i ==> panes[j] != p
}

fn position(panes: &Vec<PaneId>, p: &PaneId) -> (r: Option<usize>)
    ensures
        r matches Some(i) ==> first_position(panes@, *p, i as int),
        r is None ==> !panes@.contains(*p),
{
    let mut i: usize = 0;
    while i < panes.len()
        invariant
            i <= panes@.len(),
            forall|j: int| 0 <= j < i ==> panes@[j] != *p,
        decreases panes@.len() - i,
    {
        if panes[i] == *p {
            return Some(i);
        }
        i += 1;
    }
    None
}

impl PaneGroup {
    /// The pane after `active` in the pre-order list, wrapping around to the first.
    pub fn next_pane(&self, active: &PaneId) -> (r: Option<PaneId>)
        ensures
            !self.root.panes_spec().contains(*active) ==> r is None,
            forall|i: int|
                first_position(self.root.panes_spec(), *active, i) ==> r == Some(
                    self.root.panes_spec()[(i + 1) % (self.root.panes_spec().len() as int)],
                ),
    {
        let panes = self.panes();
        match position(&panes, active) {
            Some(ix) => {
                let next = if ix < panes.len() - 1 { ix + 1 } else { 0 };
                let ghost len = panes@.len() as int;
                assert(next as int == (ix + 1) % len) by (nonlinear_arith)
                    requires
                        0 <= ix < len,
                        next == if ix < len - 1 { ix + 1 } else { 0 },
                ;
                Some(panes[next])
            },
            None => None,
        }
    }

    /// The pane before `active` in the pre-order list, wrapping around to the last.
    pub fn previous_pane(&self, active: &PaneId) -> (r: Option<PaneId>)
        ensures
            !self.root.panes_spec().contains(*active) ==> r is None,
            forall|i: int|
                first_position(self.root.panes_spec(), *active, i) ==> r == Some(
                    self.root.panes_spec()[if i == 0 { self.root.panes_spec().len() - 1 } else { i - 1 }],
                ),
    {
        let panes = self.panes();
        match position(&panes, active) {
            Some(ix) => Some(panes[if ix == 0 { panes.len() - 1 } else { ix - 1 }]),
            None => None,
        }
    }

    /// The pane at `index` of the pre-order list, if there is one.
    pub fn pane_at_index(&self, index: usize) -> (r: Option<PaneId>)
        ensures
            index < self.root.panes_spec().len() ==> r == Some(self.root.panes_spec()[index as int]),
            index >= self.root.panes_spec().len() ==> r is None,
    {
        let panes = self.panes();
        if index < panes.len() {
            Some(panes[index])
        } else {
            None
        }
    }
}

} // verus!
