use vstd::prelude::*;

use crate::group::PaneGroup;
use crate::direction::SplitDirection;
use crate::tree::{
    collapsed, first_holding, lemma_child_decreases, lemma_swap_contains, no_bounds, settled, swapped, uniform_flexes, Member, PaneAxis,
    PaneId,
};

verus! {

impl Member {
    /// The same leaves in the same containers of the same orientations, whatever
    /// the weights and cached rectangles.
    pub open spec fn same_shape(self, other: Member) -> bool
        decreases self,
    {
        match self {
            Member::Pane(p) => other == Member::Pane(p),
            Member::Axis(a) => {
                &&& other is Axis
                &&& other->Axis_0.axis == a.axis
                &&& other->Axis_0.members@.len() == a.members@.len()
                &&& forall|i: int|
                    0 <= i < a.members@.len() ==> (#[trigger] a.members@[i]).same_shape(other->Axis_0.members@[i])
            },
        }
    }

    /// The same shape, and the same weights and cached rectangles in every container.
    pub open spec fn same_layout(self, other: Member) -> bool
        decreases self,
    {
        match self {
            Member::Pane(p) => other == Member::Pane(p),
            Member::Axis(a) => {
                &&& other is Axis
                &&& other->Axis_0.axis == a.axis
                &&& other->Axis_0.flexes@ == a.flexes@
                &&& other->Axis_0.bounding_boxes@ == a.bounding_boxes@
                &&& other->Axis_0.members@.len() == a.members@.len()
                &&& forall|i: int|
                    0 <= i < a.members@.len() ==> (#[trigger] a.members@[i]).same_layout(other->Axis_0.members@[i])
            },
        }
    }
}

impl Member {
    /// The same shape, and the same weights in every container.
    pub open spec fn same_weights(self, other: Member) -> bool
        decreases self,
    {
        match self {
            Member::Pane(p) => other == Member::Pane(p),
            Member::Axis(a) => {
                &&& other is Axis
                &&& other->Axis_0.flexes@ == a.flexes@
                &&& other->Axis_0.members@.len() == a.members@.len()
                &&& forall|i: int|
                    0 <= i < a.members@.len() ==> (#[trigger] a.members@[i]).same_weights(other->Axis_0.members@[i])
            },
        }
    }

    /// `self` has the weights of `other` in every container but at most one, found
    /// by descending through one member per level, whose weights are all one unit.
    pub open spec fn weights_restored(self, other: Member) -> bool
        decreases self,
    {
        match self {
            Member::Pane(p) => other == Member::Pane(p),
            Member::Axis(a) => {
                &&& other is Axis
                &&& other->Axis_0.members@.len() == a.members@.len()
                &&& {
                    ||| {
                        &&& uniform_flexes(a.flexes@, a.members@.len() as int)
                        &&& forall|i: int|
                            0 <= i < a.members@.len() ==> (#[trigger] a.members@[i]).same_weights(
                                other->Axis_0.members@[i],
                            )
                    }
                    ||| {
                        &&& a.flexes@ == other->Axis_0.flexes@
                        &&& exists|j: int|
                            #![trigger a.members@[j]]
                            {
                                &&& 0 <= j < a.members@.len()
                                &&& a.members@[j].weights_restored(other->Axis_0.members@[j])
                                &&& forall|i: int|
                                    0 <= i < a.members@.len() && i != j ==> (#[trigger] a.members@[i]).same_weights(
                                        other->Axis_0.members@[i],
                                    )
                            }
                    }
                }
            },
        }
    }
}

/// Every tree has its own weights.
pub proof fn lemma_same_weights_refl(m: Member)
    ensures
        m.same_weights(m),
    decreases m,
{
    if let Member::Axis(a) = m {
        assert forall|i: int| 0 <= i < a.members@.len() implies (#[trigger] a.members@[i]).same_weights(a.members@[i]) by {
            lemma_child_decreases(a, i);
            lemma_same_weights_refl(a.members@[i]);
        }
    }
}

/// Every tree has its own layout.
pub proof fn lemma_same_layout_refl(m: Member)
    ensures
        m.same_layout(m),
    decreases m,
{
    if let Member::Axis(a) = m {
        assert forall|i: int| 0 <= i < a.members@.len() implies (#[trigger] a.members@[i]).same_layout(a.members@[i]) by {
            lemma_child_decreases(a, i);
            lemma_same_layout_refl(a.members@[i]);
        }
    }
}

/// Every tree has its own shape.
pub proof fn lemma_same_shape_refl(m: Member)
    ensures
        m.same_shape(m),
    decreases m,
{
    if let Member::Axis(a) = m {
        assert forall|i: int| 0 <= i < a.members@.len() implies (#[trigger] a.members@[i]).same_shape(a.members@[i]) by {
            lemma_child_decreases(a, i);
            lemma_same_shape_refl(a.members@[i]);
        }
    }
}

/// Swapping the same two panes twice over gives back the tree it started from.
pub proof fn lemma_swap_spec_twice(x: Member, y: Member, z: Member, from: PaneId, to: PaneId)
    requires
        x.swap_spec(y, from, to),
        y.swap_spec(z, from, to),
    ensures
        z.same_layout(x),
    decreases x,
{
    match x {
        Member::Pane(q) => {
            assert(swapped(swapped(q, from, to), from, to) == q);
        },
        Member::Axis(a) => {
            let b = y->Axis_0;
            let c = z->Axis_0;
            assert forall|i: int| 0 <= i < c.members@.len() implies (#[trigger] c.members@[i]).same_layout(a.members@[i]) by {
                lemma_child_decreases(a, i);
                assert(b.members@[i].swap_spec(c.members@[i], from, to));
                lemma_swap_spec_twice(a.members@[i], b.members@[i], c.members@[i], from, to);
            }
        },
    }
}

/// `swap(from, to)` followed by `swap(from, to)` restores the group: the same
/// panes in the same places, with the same weights and cached rectangles.
pub proof fn lemma_swap_twice(g0: PaneGroup, g1: PaneGroup, g2: PaneGroup, from: PaneId, to: PaneId)
    requires
        g0.wf(),
        !g0.root.swap_applies(from, to) ==> g1 == g0,
        g0.root.swap_applies(from, to) ==> g0.root.swap_spec(g1.root, from, to),
        !g1.root.swap_applies(from, to) ==> g2 == g1,
        g1.root.swap_applies(from, to) ==> g1.root.swap_spec(g2.root, from, to),
    ensures
        g2.root.same_layout(g0.root),
{
    if g0.root.swap_applies(from, to) {
        lemma_swap_contains(g0.root, g1.root, from, to, from);
        lemma_swap_contains(g0.root, g1.root, from, to, to);
        assert(g1.root.swap_applies(from, to));
        lemma_swap_spec_twice(g0.root, g1.root, g2.root, from, to);
    } else {
        assert(g2 == g0);
        lemma_same_layout_refl(g0.root);
    }
}

/// At most one position is the first to hold a pane.
pub proof fn lemma_first_holding_unique(s: Seq<Member>, p: PaneId, i: int, j: int)
    requires
        first_holding(s, p, i),
        first_holding(s, p, j),
    ensures
        i == j,
{
    if i < j {
        assert(!s[i].contains_spec(p));
    } else if j < i {
        assert(!s[j].contains_spec(p));
    }
}

/// A split leaves the new pane in the container.
pub proof fn lemma_split_holds_new(a: PaneAxis, b: PaneAxis, old: PaneId, new: PaneId, direction: SplitDirection)
    requires
        a.split_spec(b, old, new, direction),
    ensures
        Member::Axis(b).contains_spec(new),
    decreases a,
{
    let i = choose|i: int|
        #![trigger first_holding(a.members@, old, i)]
        first_holding(a.members@, old, i) && match a.members@[i] {
            Member::Axis(c) => {
                &&& b.members@ == a.members@.update(i, b.members@[i])
                &&& b.members@[i] is Axis
                &&& c.split_spec(b.members@[i]->Axis_0, old, new, direction)
                &&& b.flexes == a.flexes
                &&& b.bounding_boxes == a.bounding_boxes
            },
            Member::Pane(_) => if direction.axis_spec() == a.axis {
                &&& b.members@ == a.members@.insert(
                    if direction.increasing_spec() { i + 1 } else { i },
                    Member::Pane(new),
                )
                &&& uniform_flexes(b.flexes@, b.members@.len() as int)
                &&& no_bounds(b.bounding_boxes@, b.members@.len() as int)
            } else {
                &&& b.members@ == a.members@.update(i, b.members@[i])
                &&& b.members@[i].is_split_of(old, new, direction)
                &&& b.flexes == a.flexes
                &&& b.bounding_boxes == a.bounding_boxes
            },
        };
    match a.members@[i] {
        Member::Axis(c) => {
            lemma_child_decreases(a, i);
            lemma_split_holds_new(c, b.members@[i]->Axis_0, old, new, direction);
            assert(b.members@[i].contains_spec(new));
        },
        Member::Pane(_) => {
            if direction.axis_spec() == a.axis {
                let at = if direction.increasing_spec() { i + 1 } else { i };
                assert(b.members@[at] == Member::Pane(new));
                assert(b.members@[at].contains_spec(new));
            } else {
                let s = b.members@[i]->Axis_0;
                let k = if direction.increasing_spec() { 1int } else { 0int };
                assert(s.members@[k] == Member::Pane(new));
                assert(s.members@[k].contains_spec(new));
                assert(b.members@[i].contains_spec(new));
            }
        },
    }
}

/// Removing the new pane from the container that a split of a leaf created hands
/// back the old leaf.
pub proof fn lemma_remove_from_fresh_split(
    s: PaneAxis,
    s2: PaneAxis,
    r: Option<Member>,
    old: PaneId,
    new: PaneId,
    direction: SplitDirection,
)
    requires
        Member::Axis(s).is_split_of(old, new, direction),
        old != new,
        s.remove_spec(s2, r, new),
    ensures
        r == Some(Member::Pane(old)),
{
    let k = if direction.increasing_spec() { 1int } else { 0int };
    assert(s.members@[k].contains_spec(new));
    assert(!s.members@[1 - k].contains_spec(new));
    assert(first_holding(s.members@, new, k));
    let j = choose|j: int|
        #![trigger first_holding(s.members@, new, j)]
        first_holding(s.members@, new, j) && match s.members@[j] {
            Member::Axis(c) => exists|c2: PaneAxis, r2: Option<Member>|
                #![trigger collapsed(c2, r2)]
                {
                    &&& c.remove_spec(c2, r2, new)
                    &&& settled(s2, r, s.members@.update(j, collapsed(c2, r2)))
                    &&& r is None ==> s2.flexes == s.flexes && s2.bounding_boxes == s.bounding_boxes
                },
            Member::Pane(_) => {
                &&& settled(s2, r, s.members@.remove(j))
                &&& r is None ==> uniform_flexes(s2.flexes@, s2.members@.len() as int)
                &&& r is None ==> no_bounds(s2.bounding_boxes@, s2.members@.len() as int)
            },
        };
    lemma_first_holding_unique(s.members@, new, j, k);
    assert(s.members@.remove(k)[0] == Member::Pane(old));
}

/// Splitting `new` off `old` inside container `a` and then removing `new` gives
/// back a container of the shape of `a`, which does not collapse, with the weights
/// of `a` except in the container that took `new` in beside `old`, whose weights
/// are reset.
pub proof fn lemma_axis_split_remove(
    a: PaneAxis,
    b: PaneAxis,
    a2: PaneAxis,
    r2: Option<Member>,
    old: PaneId,
    new: PaneId,
    direction: SplitDirection,
)
    requires
        Member::Axis(a).wf(),
        !Member::Axis(a).contains_spec(new),
        a.split_spec(b, old, new, direction),
        b.remove_spec(a2, r2, new),
    ensures
        r2 is None,
        Member::Axis(a2).same_shape(Member::Axis(a)),
        Member::Axis(a2).weights_restored(Member::Axis(a)),
    decreases a,
{
    let i = choose|i: int|
        #![trigger first_holding(a.members@, old, i)]
        first_holding(a.members@, old, i) && match a.members@[i] {
            Member::Axis(c) => {
                &&& b.members@ == a.members@.update(i, b.members@[i])
                &&& b.members@[i] is Axis
                &&& c.split_spec(b.members@[i]->Axis_0, old, new, direction)
                &&& b.flexes == a.flexes
                &&& b.bounding_boxes == a.bounding_boxes
            },
            Member::Pane(_) => if direction.axis_spec() == a.axis {
                &&& b.members@ == a.members@.insert(
                    if direction.increasing_spec() { i + 1 } else { i },
                    Member::Pane(new),
                )
                &&& uniform_flexes(b.flexes@, b.members@.len() as int)
                &&& no_bounds(b.bounding_boxes@, b.members@.len() as int)
            } else {
                &&& b.members@ == a.members@.update(i, b.members@[i])
                &&& b.members@[i].is_split_of(old, new, direction)
                &&& b.flexes == a.flexes
                &&& b.bounding_boxes == a.bounding_boxes
            },
        };
    let j = choose|j: int|
        #![trigger first_holding(b.members@, new, j)]
        first_holding(b.members@, new, j) && match b.members@[j] {
            Member::Axis(c) => exists|c2: PaneAxis, r3: Option<Member>|
                #![trigger collapsed(c2, r3)]
                {
                    &&& c.remove_spec(c2, r3, new)
                    &&& settled(a2, r2, b.members@.update(j, collapsed(c2, r3)))
                    &&& r2 is None ==> a2.flexes == b.flexes && a2.bounding_boxes == b.bounding_boxes
                },
            Member::Pane(_) => {
                &&& settled(a2, r2, b.members@.remove(j))
                &&& r2 is None ==> uniform_flexes(a2.flexes@, a2.members@.len() as int)
                &&& r2 is None ==> no_bounds(a2.bounding_boxes@, a2.members@.len() as int)
            },
        };
    assert forall|k: int| 0 <= k < a.members@.len() implies !(#[trigger] a.members@[k]).contains_spec(new) by {}
    lemma_child_decreases(a, i);
    let n = a.members@.len();
    // The slot that now holds `new`, and what it holds after the removal.
    let (at, back): (int, Member) = match a.members@[i] {
        Member::Axis(c) => {
            let c1 = b.members@[i]->Axis_0;
            lemma_split_holds_new(c, c1, old, new, direction);
            assert(forall|k: int| 0 <= k < i ==> b.members@[k] == a.members@[k]);
            assert(first_holding(b.members@, new, i));
            lemma_first_holding_unique(b.members@, new, i, j);
            let (c2, r3) = choose|c2: PaneAxis, r3: Option<Member>|
                #![trigger collapsed(c2, r3)]
                {
                    &&& c1.remove_spec(c2, r3, new)
                    &&& settled(a2, r2, b.members@.update(j, collapsed(c2, r3)))
                    &&& r2 is None ==> a2.flexes == b.flexes && a2.bounding_boxes == b.bounding_boxes
                };
            assert(a.members@[i].wf());
            lemma_axis_split_remove(c, c1, c2, r3, old, new, direction);
            (i, collapsed(c2, r3))
        },
        Member::Pane(q) => {
            assert(q == old);
            if direction.axis_spec() == a.axis {
                let at = if direction.increasing_spec() { i + 1 } else { i };
                assert(b.members@[at] == Member::Pane(new));
                assert(forall|k: int| 0 <= k < at ==> b.members@[k] == a.members@[k] || b.members@[k] == Member::Pane(old));
                assert(old != new);
                assert(first_holding(b.members@, new, at));
                lemma_first_holding_unique(b.members@, new, at, j);
                assert(b.members@.remove(at) =~= a.members@);
                (at, Member::Pane(old))
            } else {
                let s1 = b.members@[i]->Axis_0;
                let k = if direction.increasing_spec() { 1int } else { 0int };
                assert(s1.members@[k] == Member::Pane(new));
                assert(s1.members@[k].contains_spec(new));
                assert(forall|k: int| 0 <= k < i ==> b.members@[k] == a.members@[k]);
                assert(first_holding(b.members@, new, i));
                lemma_first_holding_unique(b.members@, new, i, j);
                let (c2, r3) = choose|c2: PaneAxis, r3: Option<Member>|
                    #![trigger collapsed(c2, r3)]
                    {
                        &&& s1.remove_spec(c2, r3, new)
                        &&& settled(a2, r2, b.members@.update(j, collapsed(c2, r3)))
                        &&& r2 is None ==> a2.flexes == b.flexes && a2.bounding_boxes == b.bounding_boxes
                    };
                lemma_remove_from_fresh_split(s1, c2, r3, old, new, direction);
                (i, collapsed(c2, r3))
            }
        },
    };
    assert forall|k: int| 0 <= k < n implies (#[trigger] a2.members@[k]).same_shape(a.members@[k]) by {
        lemma_child_decreases(a, k);
        if k != i {
            assert(a2.members@[k] == a.members@[k]);
            lemma_same_shape_refl(a.members@[k]);
        } else if !(a.members@[i] is Axis) {
            lemma_same_shape_refl(a.members@[k]);
        }
    }
    assert forall|k: int| 0 <= k < n && k != i implies (#[trigger] a2.members@[k]).same_weights(a.members@[k]) by {
        assert(a2.members@[k] == a.members@[k]);
        lemma_same_weights_refl(a.members@[k]);
    }
    if a.members@[i] is Axis {
        assert(a2.flexes@ == a.flexes@);
        assert(a2.members@[i].weights_restored(a.members@[i]));
    } else if direction.axis_spec() == a.axis {
        assert(a2.members@[i] == a.members@[i]);
        lemma_same_weights_refl(a.members@[i]);
    } else {
        assert(a2.flexes@ == a.flexes@);
        assert(a2.members@[i] == a.members@[i]);
        assert(a2.members@[i].weights_restored(a.members@[i]));
    }
}

/// `split(old, new, direction)` followed by `remove(new)`, with `new` not yet in the
/// group, gives back a group of the original shape. The removal finds `new`. Every
/// container keeps its weights, but for the one that took `new` in as a direct
/// sibling of `old`, whose weights are all reset to one unit.
pub proof fn lemma_split_then_remove(
    g0: PaneGroup,
    g1: PaneGroup,
    g2: PaneGroup,
    old: PaneId,
    new: PaneId,
    direction: SplitDirection,
)
    requires
        g0.wf(),
        !g0.root.contains_spec(new),
        g0.root.split_into(g1.root, old, new, direction),
        g1.root.remove_into(g2.root, new),
    ensures
        g1.root is Axis,
        g1.root.contains_spec(new),
        g2.root.same_shape(g0.root),
        g2.root.weights_restored(g0.root),
{
    let (a2, r2) = choose|a2: PaneAxis, r2: Option<Member>|
        #![trigger collapsed(a2, r2)]
        g1.root->Axis_0.remove_spec(a2, r2, new) && g2.root == collapsed(a2, r2);
    match g0.root {
        Member::Pane(q) => {
            let s = g1.root->Axis_0;
            let k = if direction.increasing_spec() { 1int } else { 0int };
            assert(s.members@[k] == Member::Pane(new));
            assert(s.members@[k].contains_spec(new));
            lemma_remove_from_fresh_split(s, a2, r2, old, new, direction);
        },
        Member::Axis(a) => {
            lemma_split_holds_new(a, g1.root->Axis_0, old, new, direction);
            lemma_axis_split_remove(a, g1.root->Axis_0, a2, r2, old, new, direction);
        },
    }
}

} // verus!
