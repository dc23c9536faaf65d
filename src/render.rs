use vstd::prelude::*;

use crate::geometry::Bounds;
use crate::group::PaneGroup;
use crate::tree::{lemma_child_decreases, Member, PaneId};

verus! {

/// What the host draws for one leaf in a frame: the pane's content in `bounds`
/// (the whole surface when `None`), or an empty placeholder when the pane is the
/// zoomed one and is drawn elsewhere.
#[derive(Clone, Copy, Debug, PartialEq, Eq, Structural)]
pub struct PaneFrame {
    pub pane: PaneId,
    pub bounds: Option<Bounds>,
    pub placeholder: bool,
}

impl Member {
    /// The frames of the tree's leaves in pre-order; `bounds` is the rectangle of
    /// the tree itself, and each container hands its members their cached rectangles.
    pub open spec fn frames_spec(self, bounds: Option<Bounds>, zoomed: Option<PaneId>) -> Seq<PaneFrame>
        decreases self,
    {
        match self {
            Member::Pane(q) => seq![PaneFrame { pane: q, bounds, placeholder: zoomed == Some(q) }],
            Member::Axis(a) => frames_of_members(a.members@, a.bounding_boxes@, zoomed),
        }
    }

    /// Appends the frames of the tree's leaves to `frames`.
    pub fn render(&self, bounds: Option<Bounds>, zoomed: Option<PaneId>, frames: &mut Vec<PaneFrame>)
        requires
            self.wf(),
        ensures
            final(frames)@ == old(frames)@ + self.frames_spec(bounds, zoomed),
        decreases self,
    {
        match self {
            Member::Pane(pane) => {
                let placeholder = match zoomed {
                    Some(z) => z == *pane,
                    None => false,
                };
                frames.push(PaneFrame { pane: *pane, bounds, placeholder });
            },
            Member::Axis(axis) => {
                let ghost start = frames@;
                let mut i: usize = 0;
                while i < axis.members.len()
                    invariant
                        *self == Member::Axis(*axis),
                        self.wf(),
                        i <= axis.members@.len(),
                        frames@ == start + frames_of_members(
                            axis.members@.subrange(0, i as int),
                            axis.bounding_boxes@,
                            zoomed,
                        ),
                    decreases axis.members@.len() - i,
                {
                    proof {
                        lemma_child_decreases(*axis, i as int);
                        assert(axis.members@[i as int].wf());
                        let s = axis.members@.subrange(0, i + 1);
                        assert(s.subrange(0, i as int) == axis.members@.subrange(0, i as int));
                    }
                    axis.members[i].render(axis.bounding_boxes[i], zoomed, frames);
                    i += 1;
                }
                assert(axis.members@.subrange(0, axis.members@.len() as int) == axis.members@);
            },
        }
    }
}

/// The frames of a sequence of members, member `k` in rectangle `boxes[k]`.
pub open spec fn frames_of_members(s: Seq<Member>, boxes: Seq<Option<Bounds>>, zoomed: Option<PaneId>) -> Seq<PaneFrame>
    decreases s,
{
    if s.len() == 0 {
        Seq::empty()
    } else {
        frames_of_members(s.subrange(0, s.len() - 1), boxes, zoomed) + s[s.len() - 1].frames_spec(
            boxes[s.len() - 1],
            zoomed,
        )
    }
}

impl PaneGroup {
    /// What the host draws this frame: one entry per pane, in pre-order, each with
    /// its cached rectangle; a bare pane fills the whole surface.
    pub fn render(&self, zoomed: Option<PaneId>) -> (r: Vec<PaneFrame>)
        requires
            self.wf(),
        ensures
            r@ == self.root.frames_spec(None, zoomed),
    {
        let mut frames: Vec<PaneFrame> = Vec::new();
        self.root.render(None, zoomed, &mut frames);
        assert(frames@ == Seq::<PaneFrame>::empty() + self.root.frames_spec(None, zoomed));
        frames
    }
}

} // verus!
