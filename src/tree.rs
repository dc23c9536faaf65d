use vstd::prelude::*;

use crate::direction::SplitDirection;
use crate::geometry::{Axis, Bounds, Point};

verus! {

/// The flex weight of a member of average size; weights are stored in these units.
pub const FLEX_UNIT: u64 = 1000;

/// An opaque, comparable token standing for a content pane owned elsewhere.
#[derive(Clone, Copy, Debug, PartialEq, Eq, Hash, Structural)]
pub struct PaneId(pub u64);

/// The error of `split` and `remove` when the pane is nowhere in the tree.
#[derive(Clone, Copy, Debug, PartialEq, Eq, Structural)]
pub struct PaneNotFound;

/// A node of the pane tree: a leaf pane or an axis container.
pub enum Member {
    Axis(PaneAxis),
    Pane(PaneId),
}

/// A container whose members share one orientation, with one flex weight and one
/// cached rectangle (from the latest layout pass) per member.
pub struct PaneAxis {
    pub axis: Axis,
    pub members: Vec<Member>,
    pub flexes: Vec<u64>,
    pub bounding_boxes: Vec<Option<Bounds>>,
}

/// The sum of a sequence of flex weights.
pub open spec fn flex_sum(s: Seq<u64>) -> int
    decreases s.len(),
{
    if s.len() == 0 {
        0
    } else {
        flex_sum(s.drop_last()) + s.last()
    }
}

/// `n` weights of one unit each.
pub open spec fn uniform_flexes(s: Seq<u64>, n: int) -> bool {
    &&& s.len() == n
    &&& forall|i: int| 0 <= i < n ==> s[i] == FLEX_UNIT
}

/// `n` rectangles, none of them known yet.
pub open spec fn no_bounds(s: Seq<Option<Bounds>>, n: int) -> bool {
    &&& s.len() == n
    &&& forall|i: int| 0 <= i < n ==> s[i].is_none()
}

impl PaneAxis {
    /// The invariants of one container, not looking into its members: at least two
    /// members, one weight and one cached rectangle per member, positive weights that
    /// average exactly one unit, and cached rectangles of non-negative extent.
    pub open spec fn shallow_wf(self) -> bool {
        &&& self.members@.len() >= 2
        &&& self.flexes@.len() == self.members@.len()
        &&& self.bounding_boxes@.len() == self.members@.len()
        &&& flex_sum(self.flexes@) == self.members@.len() * FLEX_UNIT
        &&& forall|i: int| 0 <= i < self.flexes@.len() ==> self.flexes@[i] > 0
        &&& forall|i: int|
            0 <= i < self.bounding_boxes@.len() && (#[trigger] self.bounding_boxes@[i]) is Some
                ==> self.bounding_boxes@[i]->Some_0.wf()
    }

    /// The container and every container below it are well formed.
    pub open spec fn wf(self) -> bool {
        &&& self.shallow_wf()
        &&& forall|i: int| 0 <= i < self.members@.len() ==> (#[trigger] self.members@[i]).wf()
    }
}

impl Member {
    /// Every container in the tree satisfies `PaneAxis::shallow_wf`.
    pub open spec fn wf(self) -> bool
        decreases self,
    {
        match self {
            Member::Pane(_) => true,
            Member::Axis(a) => {
                &&& a.shallow_wf()
                &&& forall|i: int| 0 <= i < a.members@.len() ==> (#[trigger] a.members@[i]).wf()
            },
        }
    }

    /// Whether `p` is one of the leaves of the tree.
    pub open spec fn contains_spec(self, p: PaneId) -> bool
        decreases self,
    {
        match self {
            Member::Pane(q) => q == p,
            Member::Axis(a) => exists|i: int|
                0 <= i < a.members@.len() && (#[trigger] a.members@[i]).contains_spec(p),
        }
    }

    /// The leaves of the tree, in pre-order.
    pub open spec fn panes_spec(self) -> Seq<PaneId>
        decreases self,
    {
        match self {
            Member::Pane(q) => seq![q],
            Member::Axis(a) => panes_of_members(a.members@),
        }
    }

    /// The leaf reached by always descending into the first member.
    pub open spec fn first_pane_spec(self) -> PaneId
        decreases self,
    {
        match self {
            Member::Pane(q) => q,
            Member::Axis(a) => if a.members@.len() > 0 {
                a.members@[0].first_pane_spec()
            } else {
                PaneId(0)
            },
        }
    }
}

/// The leaves of a sequence of members, in pre-order.
pub open spec fn panes_of_members(s: Seq<Member>) -> Seq<PaneId>
    decreases s,
{
    if s.len() == 0 {
        Seq::empty()
    } else {
        panes_of_members(s.subrange(0, s.len() - 1)) + s[s.len() - 1].panes_spec()
    }
}

/// `i` is the first position of `s` whose subtree holds `p`.
pub open spec fn first_holding(s: Seq<Member>, p: PaneId, i: int) -> bool {
    &&& 0 <= i < s.len()
    &&& s[i].contains_spec(p)
    &&& forall|j: int| 0 <= j < i ==> !(#[trigger] s[j]).contains_spec(p)
}

/// Each member of a container lies below the container in the tree.
pub proof fn lemma_child_decreases(a: PaneAxis, i: int)
    requires
        0 <= i < a.members@.len(),
    ensures
        decreases_to!(Member::Axis(a) => a.members@[i]),
{
    let m = Member::Axis(a);
    assert(decreases_to!(m => m->Axis_0));
    assert(decreases_to!(a => a.members));
    assert(decreases_to!(a.members => a.members@));
    assert(decreases_to!(a.members@ => a.members@[i]));
}

pub(crate) fn uniform(n: usize) -> (r: Vec<u64>)
    ensures
        uniform_flexes(r@, n as int),
{
    let mut r: Vec<u64> = Vec::new();
    while r.len() < n
        invariant
            r@.len() <= n,
            forall|i: int| 0 <= i < r@.len() ==> r@[i] == FLEX_UNIT,
        decreases n - r@.len(),
    {
        r.push(FLEX_UNIT);
    }
    r
}

fn unknown_bounds(n: usize) -> (r: Vec<Option<Bounds>>)
    ensures
        no_bounds(r@, n as int),
{
    let mut r: Vec<Option<Bounds>> = Vec::new();
    while r.len() < n
        invariant
            r@.len() <= n,
            forall|i: int| 0 <= i < r@.len() ==> r@[i].is_none(),
        decreases n - r@.len(),
    {
        r.push(None);
    }
    r
}

pub proof fn lemma_uniform_sum(s: Seq<u64>, n: int)
    requires
        0 <= n,
        uniform_flexes(s, n),
    ensures
        flex_sum(s) == n * FLEX_UNIT,
    decreases n,
{
    if n > 0 {
        lemma_uniform_sum(s.drop_last(), n - 1);
    }
}

impl PaneAxis {
    /// A container of `members` with uniform weights and no cached rectangles.
    pub fn new(axis: Axis, members: Vec<Member>) -> (r: PaneAxis)
        ensures
            r.axis == axis,
            r.members == members,
            uniform_flexes(r.flexes@, members@.len() as int),
            no_bounds(r.bounding_boxes@, members@.len() as int),
    {
        let n = members.len();
        PaneAxis { axis, members, flexes: uniform(n), bounding_boxes: unknown_bounds(n) }
    }

    /// A container of `members` with the given weights, or uniform ones.
    pub fn load(axis: Axis, members: Vec<Member>, flexes: Option<Vec<u64>>) -> (r: PaneAxis)
        requires
            flexes is Some ==> flexes->Some_0@.len() == members@.len(),
        ensures
            r.axis == axis,
            r.members == members,
            flexes is Some ==> r.flexes == flexes->Some_0,
            flexes is None ==> uniform_flexes(r.flexes@, members@.len() as int),
            no_bounds(r.bounding_boxes@, members@.len() as int),
    {
        let n = members.len();
        let flexes = match flexes {
            Some(f) => f,
            None => uniform(n),
        };
        PaneAxis { axis, members, flexes, bounding_boxes: unknown_bounds(n) }
    }
}

impl Member {
    /// `self` is the two-pane container that splitting `old` towards `direction` creates.
    pub open spec fn is_split_of(self, old: PaneId, new: PaneId, direction: SplitDirection) -> bool {
        &&& self is Axis
        &&& self->Axis_0.axis == direction.axis_spec()
        &&& self->Axis_0.members@ == if direction.increasing_spec() {
            seq![Member::Pane(old), Member::Pane(new)]
        } else {
            seq![Member::Pane(new), Member::Pane(old)]
        }
        &&& uniform_flexes(self->Axis_0.flexes@, 2)
        &&& no_bounds(self->Axis_0.bounding_boxes@, 2)
    }

    /// The container of `old` and `new` that a split of `old` towards `direction` creates.
    pub fn new_axis(old_pane: PaneId, new_pane: PaneId, direction: SplitDirection) -> (r: Member)
        ensures
            r.is_split_of(old_pane, new_pane, direction),
            r.wf(),
    {
        let axis = direction.axis();
        let members = if direction.increasing() {
            vec![Member::Pane(old_pane), Member::Pane(new_pane)]
        } else {
            vec![Member::Pane(new_pane), Member::Pane(old_pane)]
        };
        let r = PaneAxis::new(axis, members);
        proof {
            lemma_uniform_sum(r.flexes@, 2);
            assert(r.members@[0].wf());
            assert(r.members@[1].wf());
        }
        Member::Axis(r)
    }

    /// Whether `needle` is one of the leaves of the tree.
    pub fn contains(&self, needle: &PaneId) -> (r: bool)
        ensures
            r == self.contains_spec(*needle),
        decreases self,
    {
        match self {
            Member::Axis(axis) => {
                let mut i: usize = 0;
                while i < axis.members.len()
                    invariant
                        *self == Member::Axis(*axis),
                        i <= axis.members@.len(),
                        forall|j: int| 0 <= j < i ==> !(#[trigger] axis.members@[j]).contains_spec(*needle),
                    decreases axis.members@.len() - i,
                {
                    proof {
                        lemma_child_decreases(*axis, i as int);
                    }
                    if axis.members[i].contains(needle) {
                        assert(axis.members@[i as int].contains_spec(*needle));
                        return true;
                    }
                    i += 1;
                }
                false
            },
            Member::Pane(pane) => *pane == *needle,
        }
    }

    /// The leaf reached by always descending into the first member.
    pub fn first_pane(&self) -> (r: PaneId)
        requires
            self.wf(),
        ensures
            r == self.first_pane_spec(),
        decreases self,
    {
        match self {
            Member::Axis(axis) => {
                assert(axis.members@[0].wf());
                axis.members[0].first_pane()
            },
            Member::Pane(pane) => *pane,
        }
    }

    /// Appends the leaves of the tree to `panes`, in pre-order.
    pub fn collect_panes(&self, panes: &mut Vec<PaneId>)
        ensures
            final(panes)@ == old(panes)@ + self.panes_spec(),
        decreases self,
    {
        match self {
            Member::Axis(axis) => {
                let ghost start = panes@;
                let mut i: usize = 0;
                while i < axis.members.len()
                    invariant
                        *self == Member::Axis(*axis),
                        i <= axis.members@.len(),
                        panes@ == start + panes_of_members(axis.members@.subrange(0, i as int)),
                    decreases axis.members@.len() - i,
                {
                    proof {
                        lemma_child_decreases(*axis, i as int);
                    }
                    axis.members[i].collect_panes(panes);
                    proof {
                        let s = axis.members@.subrange(0, i + 1);
                        assert(s.subrange(0, i as int) == axis.members@.subrange(0, i as int));
                        assert(s[i as int] == axis.members@[i as int]);
                    }
                    i += 1;
                }
                assert(axis.members@.subrange(0, axis.members@.len() as int) == axis.members@);
            },
            Member::Pane(pane) => {
                panes.push(*pane);
            },
        }
    }
}

impl PaneAxis {
    /// `after` is `self` once `new` has been split off the first occurrence of `old`,
    /// found in pre-order: inside a nested container the split happens there; beside
    /// a direct leaf `new` joins this container when the direction runs along its axis
    /// (before `old` for up and left, after it for down and right, all weights reset),
    /// and otherwise the leaf's slot becomes a two-pane container across it.
    pub open spec fn split_spec(self, after: PaneAxis, old: PaneId, new: PaneId, direction: SplitDirection) -> bool
        decreases self,
    {
        &&& after.axis == self.axis
        &&& exists|i: int|
            #![trigger first_holding(self.members@, old, i)]
            first_holding(self.members@, old, i) && match self.members@[i] {
                Member::Axis(c) => {
                    &&& after.members@ == self.members@.update(i, after.members@[i])
                    &&& after.members@[i] is Axis
                    &&& c.split_spec(after.members@[i]->Axis_0, old, new, direction)
                    &&& after.flexes == self.flexes
                    &&& after.bounding_boxes == self.bounding_boxes
                },
                Member::Pane(_) => if direction.axis_spec() == self.axis {
                    &&& after.members@ == self.members@.insert(
                        if direction.increasing_spec() { i + 1 } else { i },
                        Member::Pane(new),
                    )
                    &&& uniform_flexes(after.flexes@, after.members@.len() as int)
                    &&& no_bounds(after.bounding_boxes@, after.members@.len() as int)
                } else {
                    &&& after.members@ == self.members@.update(i, after.members@[i])
                    &&& after.members@[i].is_split_of(old, new, direction)
                    &&& after.flexes == self.flexes
                    &&& after.bounding_boxes == self.bounding_boxes
                },
            }
    }

    /// The first position whose subtree holds `pane`, or the number of members.
    fn position_of(&self, pane: &PaneId) -> (r: usize)
        ensures
            r <= self.members@.len(),
            r < self.members@.len() ==> first_holding(self.members@, *pane, r as int),
            r == self.members@.len() ==> !Member::Axis(*self).contains_spec(*pane),
    {
        let mut idx: usize = 0;
        while idx < self.members.len()
            invariant
                idx <= self.members@.len(),
                forall|j: int| 0 <= j < idx ==> !(#[trigger] self.members@[j]).contains_spec(*pane),
            decreases self.members@.len() - idx,
        {
            if self.members[idx].contains(pane) {
                return idx;
            }
            idx += 1;
        }
        idx
    }

    pub(crate) fn split(&mut self, old_pane: &PaneId, new_pane: &PaneId, direction: SplitDirection) -> (r: Result<(), PaneNotFound>)
        requires
            old(self).wf(),
        ensures
            r is Ok <==> Member::Axis(*old(self)).contains_spec(*old_pane),
            r is Ok ==> old(self).split_spec(*final(self), *old_pane, *new_pane, direction),
            r is Err ==> *final(self) == *old(self),
            final(self).wf(),
        decreases *old(self),
    {
        let idx = self.position_of(old_pane);
        if idx == self.members.len() {
            return Err(PaneNotFound);
        }
        let ghost before = *self;
        proof {
            lemma_child_decreases(*self, idx as int);
        }
        let along = match &self.members[idx] {
            Member::Axis(_) => false,
            Member::Pane(_) => direction.axis() == self.axis,
        };
        if along {
            let at = if direction.increasing() { idx + 1 } else { idx };
            self.members.insert(at, Member::Pane(*new_pane));
            self.flexes = uniform(self.members.len());
            self.bounding_boxes = unknown_bounds(self.members.len());
            proof {
                lemma_uniform_sum(self.flexes@, self.members@.len() as int);
                assert forall|j: int| 0 <= j < self.members@.len() implies (#[trigger] self.members@[j]).wf() by {
                    if j < at {
                        assert(self.members@[j] == before.members@[j]);
                    } else if j > at {
                        assert(self.members@[j] == before.members@[j - 1]);
                    }
                }
            }
        } else {
            let member = &mut self.members[idx];
            match member {
                Member::Axis(axis) => {
                    let _ = axis.split(old_pane, new_pane, direction);
                },
                Member::Pane(_) => {
                    *member = Member::new_axis(*old_pane, *new_pane, direction);
                },
            }
            proof {
                assert(self.members@ == before.members@.update(idx as int, self.members@[idx as int]));
                assert forall|j: int| 0 <= j < self.members@.len() implies (#[trigger] self.members@[j]).wf() by {
                    if j != idx {
                        assert(self.members@[j] == before.members@[j]);
                    }
                }
            }
        }
        assert(first_holding(before.members@, *old_pane, idx as int));
        Ok(())
    }
}

/// What a container's slot holds after a removal inside it: the container itself,
/// or the sole member it collapsed to.
pub open spec fn collapsed(c: PaneAxis, r: Option<Member>) -> Member {
    match r {
        Some(m) => m,
        None => Member::Axis(c),
    }
}

/// `after` and `r` are what a container ends as once its members have become `mid`:
/// a single remaining member is handed back in `r` and the container is emptied.
pub open spec fn settled(after: PaneAxis, r: Option<Member>, mid: Seq<Member>) -> bool {
    if mid.len() == 1 {
        &&& r == Some(mid[0])
        &&& after.members@.len() == 0
        &&& after.flexes@.len() == 0
        &&& after.bounding_boxes@.len() == 0
    } else {
        &&& r is None
        &&& after.members@ == mid
    }
}

impl PaneAxis {
    /// `after` and `r` result from removing the first occurrence of `p`, found in
    /// pre-order: inside a nested container the removal happens there and the slot
    /// takes what that container collapsed to; a direct leaf is dropped and the
    /// weights are reset.
    pub open spec fn remove_spec(self, after: PaneAxis, r: Option<Member>, p: PaneId) -> bool
        decreases self,
    {
        &&& after.axis == self.axis
        &&& exists|i: int|
            #![trigger first_holding(self.members@, p, i)]
            first_holding(self.members@, p, i) && match self.members@[i] {
                Member::Axis(c) => exists|c2: PaneAxis, r2: Option<Member>|
                    #![trigger collapsed(c2, r2)]
                    {
                        &&& c.remove_spec(c2, r2, p)
                        &&& settled(after, r, self.members@.update(i, collapsed(c2, r2)))
                        &&& r is None ==> after.flexes == self.flexes && after.bounding_boxes == self.bounding_boxes
                    },
                Member::Pane(_) => {
                    &&& settled(after, r, self.members@.remove(i))
                    &&& r is None ==> uniform_flexes(after.flexes@, after.members@.len() as int)
                    &&& r is None ==> no_bounds(after.bounding_boxes@, after.members@.len() as int)
                },
            }
    }

    pub(crate) fn remove(&mut self, pane: &PaneId) -> (r: Result<Option<Member>, PaneNotFound>)
        requires
            old(self).wf(),
        ensures
            r is Err <==> !Member::Axis(*old(self)).contains_spec(*pane),
            r is Err ==> *final(self) == *old(self),
            r is Ok ==> old(self).remove_spec(*final(self), r->Ok_0, *pane),
            r == Ok::<Option<Member>, PaneNotFound>(None) ==> final(self).wf(),
            r matches Ok(Some(m)) ==> m.wf(),
        decreases *old(self),
    {
        let idx = self.position_of(pane);
        if idx == self.members.len() {
            return Err(PaneNotFound);
        }
        let ghost before = *self;
        proof {
            lemma_child_decreases(*self, idx as int);
        }
        let nested = match &self.members[idx] {
            Member::Axis(_) => true,
            Member::Pane(_) => false,
        };
        let ghost mut c2: PaneAxis = arbitrary();
        let ghost mut r2: Option<Member> = None;
        if nested {
            let member = &mut self.members[idx];
            match member {
                Member::Axis(axis) => {
                    let removed = axis.remove(pane);
                    proof {
                        c2 = *axis;
                        r2 = removed->Ok_0;
                    }
                    if let Ok(Some(last)) = removed {
                        *member = last;
                    }
                },
                Member::Pane(_) => {},
            }
            proof {
                assert(self.members@ == before.members@.update(idx as int, collapsed(c2, r2)));
                assert forall|j: int| 0 <= j < self.members@.len() implies (#[trigger] self.members@[j]).wf() by {
                    if j != idx {
                        assert(self.members@[j] == before.members@[j]);
                    }
                }
            }
        } else {
            self.members.remove(idx);
            self.flexes = uniform(self.members.len());
            self.bounding_boxes = unknown_bounds(self.members.len());
            proof {
                lemma_uniform_sum(self.flexes@, self.members@.len() as int);
                assert forall|j: int| 0 <= j < self.members@.len() implies (#[trigger] self.members@[j]).wf() by {
                    if j < idx {
                        assert(self.members@[j] == before.members@[j]);
                    } else {
                        assert(self.members@[j] == before.members@[j + 1]);
                    }
                }
            }
        }
        let ghost mid = self.members@;
        assert(first_holding(before.members@, *pane, idx as int));
        let result = if self.members.len() == 1 {
            let last = self.members.pop();
            self.flexes = Vec::new();
            self.bounding_boxes = Vec::new();
            assert(mid[0].wf());
            last
        } else {
            None
        };
        proof {
            if nested {
                let c = before.members@[idx as int]->Axis_0;
                assert(c.remove_spec(c2, r2, *pane));
            }
            assert(before.remove_spec(*self, result, *pane));
        }
        Ok(result)
    }
}

/// The pane that `q` becomes when `from` and `to` trade places.
pub open spec fn swapped(q: PaneId, from: PaneId, to: PaneId) -> PaneId {
    if q == from {
        to
    } else if q == to {
        from
    } else {
        q
    }
}

impl Member {
    /// `after` is `self` with every leaf `from` replaced by `to` and every leaf `to`
    /// by `from`; containers, weights and rectangles are untouched.
    pub open spec fn swap_spec(self, after: Member, from: PaneId, to: PaneId) -> bool
        decreases self,
    {
        match self {
            Member::Pane(q) => after == Member::Pane(swapped(q, from, to)),
            Member::Axis(a) => {
                &&& after is Axis
                &&& after->Axis_0.axis == a.axis
                &&& after->Axis_0.flexes == a.flexes
                &&& after->Axis_0.bounding_boxes == a.bounding_boxes
                &&& after->Axis_0.members@.len() == a.members@.len()
                &&& forall|i: int|
                    0 <= i < a.members@.len() ==> (#[trigger] a.members@[i]).swap_spec(
                        after->Axis_0.members@[i],
                        from,
                        to,
                    )
            },
        }
    }

    /// A swap of `from` and `to` takes effect: the tree is a container holding both.
    pub open spec fn swap_applies(self, from: PaneId, to: PaneId) -> bool {
        &&& self is Axis
        &&& self.contains_spec(from)
        &&& self.contains_spec(to)
    }

    /// The rectangle cached for the first leaf `p` met in pre-order, where a nested
    /// container that has none for it is passed over.
    pub open spec fn bounding_box_spec(self, p: PaneId) -> Option<Bounds>
        decreases self,
    {
        match self {
            Member::Pane(_) => None,
            Member::Axis(a) => a.bounding_box_from(p, 0),
        }
    }

    /// The leaf whose cached rectangle holds `pt`, descending from the root through
    /// the first member whose cached rectangle holds it.
    pub open spec fn pane_at_spec(self, pt: Point) -> Option<PaneId>
        decreases self,
    {
        match self {
            Member::Pane(q) => Some(q),
            Member::Axis(a) => a.pane_at_from(pt, 0),
        }
    }
}

impl PaneAxis {
    /// `Member::bounding_box_spec` on the members from position `i` on.
    pub open spec fn bounding_box_from(self, p: PaneId, i: int) -> Option<Bounds>
        decreases self, self.members@.len() - i,
    {
        if i < 0 || i >= self.members@.len() {
            None
        } else {
            match self.members@[i] {
                Member::Pane(q) => if q == p {
                    self.bounding_boxes@[i]
                } else {
                    self.bounding_box_from(p, i + 1)
                },
                Member::Axis(c) => match c.bounding_box_from(p, 0) {
                    Some(r) => Some(r),
                    None => self.bounding_box_from(p, i + 1),
                },
            }
        }
    }

    /// `Member::pane_at_spec` on the members from position `i` on.
    pub open spec fn pane_at_from(self, pt: Point, i: int) -> Option<PaneId>
        decreases self, self.members@.len() - i,
    {
        if i < 0 || i >= self.members@.len() {
            None
        } else if self.bounding_boxes@[i] is Some && self.bounding_boxes@[i]->Some_0.contains_spec(pt) {
            match self.members@[i] {
                Member::Pane(q) => Some(q),
                Member::Axis(c) => c.pane_at_from(pt, 0),
            }
        } else {
            self.pane_at_from(pt, i + 1)
        }
    }

    pub(crate) fn swap(&mut self, from: &PaneId, to: &PaneId)
        requires
            old(self).wf(),
        ensures
            Member::Axis(*old(self)).swap_spec(Member::Axis(*final(self)), *from, *to),
            final(self).wf(),
        decreases *old(self),
    {
        let ghost before = *self;
        let mut i: usize = 0;
        while i < self.members.len()
            invariant
                before == *old(self),
                self.axis == before.axis,
                self.flexes == before.flexes,
                self.bounding_boxes == before.bounding_boxes,
                self.members@.len() == before.members@.len(),
                before.wf(),
                i <= self.members@.len(),
                forall|j: int| 0 <= j < i ==> (#[trigger] before.members@[j]).swap_spec(self.members@[j], *from, *to),
                forall|j: int| 0 <= j < i ==> (#[trigger] self.members@[j]).wf(),
                forall|j: int| i <= j < self.members@.len() ==> self.members@[j] == before.members@[j],
            decreases self.members@.len() - i,
        {
            proof {
                lemma_child_decreases(before, i as int);
                assert(before.members@[i as int].wf());
            }
            let member = &mut self.members[i];
            match member {
                Member::Axis(axis) => axis.swap(from, to),
                Member::Pane(pane) => {
                    if *pane == *from {
                        *member = Member::Pane(*to);
                    } else if *pane == *to {
                        *member = Member::Pane(*from);
                    }
                },
            }
            i += 1;
        }
    }

    pub(crate) fn bounding_box_for_pane(&self, pane: &PaneId) -> (r: Option<Bounds>)
        requires
            self.wf(),
        ensures
            r == self.bounding_box_from(*pane, 0),
        decreases self,
    {
        let mut idx: usize = 0;
        while idx < self.members.len()
            invariant
                self.wf(),
                idx <= self.members@.len(),
                self.bounding_box_from(*pane, 0) == self.bounding_box_from(*pane, idx as int),
            decreases self.members@.len() - idx,
        {
            proof {
                lemma_child_decreases(*self, idx as int);
                assert(self.members@[idx as int].wf());
            }
            match &self.members[idx] {
                Member::Pane(found) => {
                    if *pane == *found {
                        return self.bounding_boxes[idx];
                    }
                },
                Member::Axis(axis) => {
                    if let Some(rect) = axis.bounding_box_for_pane(pane) {
                        return Some(rect);
                    }
                },
            }
            idx += 1;
        }
        None
    }

    pub(crate) fn pane_at_pixel_position(&self, coordinate: &Point) -> (r: Option<PaneId>)
        requires
            self.wf(),
        ensures
            r == self.pane_at_from(*coordinate, 0),
        decreases self,
    {
        let mut idx: usize = 0;
        while idx < self.members.len()
            invariant
                self.wf(),
                idx <= self.members@.len(),
                self.pane_at_from(*coordinate, 0) == self.pane_at_from(*coordinate, idx as int),
            decreases self.members@.len() - idx,
        {
            proof {
                lemma_child_decreases(*self, idx as int);
                assert(self.members@[idx as int].wf());
            }
            if let Some(rect) = self.bounding_boxes[idx] {
                if rect.contains(coordinate) {
                    return match &self.members[idx] {
                        Member::Pane(found) => Some(*found),
                        Member::Axis(axis) => axis.pane_at_pixel_position(coordinate),
                    };
                }
            }
            idx += 1;
        }
        None
    }
}

/// After a swap a tree holds `p` exactly where it held the pane that `p` traded
/// places with.
pub proof fn lemma_swap_contains(x: Member, y: Member, from: PaneId, to: PaneId, p: PaneId)
    requires
        x.swap_spec(y, from, to),
    ensures
        y.contains_spec(p) <==> x.contains_spec(swapped(p, from, to)),
    decreases x,
{
    match x {
        Member::Pane(q) => {
            assert(swapped(swapped(q, from, to), from, to) == q);
            assert(swapped(swapped(p, from, to), from, to) == p);
        },
        Member::Axis(a) => {
            let b = y->Axis_0;
            assert forall|i: int| 0 <= i < a.members@.len() implies (#[trigger] b.members@[i]).contains_spec(p)
                == a.members@[i].contains_spec(swapped(p, from, to)) by {
                lemma_child_decreases(a, i);
                lemma_swap_contains(a.members@[i], b.members@[i], from, to, p);
            }
            if y.contains_spec(p) {
                let i = choose|i: int| 0 <= i < b.members@.len() && (#[trigger] b.members@[i]).contains_spec(p);
                assert(a.members@[i].contains_spec(swapped(p, from, to)));
            }
            if x.contains_spec(swapped(p, from, to)) {
                let i = choose|i: int|
                    0 <= i < a.members@.len() && (#[trigger] a.members@[i]).contains_spec(swapped(p, from, to));
                assert(b.members@[i].contains_spec(p));
            }
        },
    }
}

} // verus!
