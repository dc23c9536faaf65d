use vstd::prelude::*;

use crate::direction::SplitDirection;

verus! {

/// Focus the pane at this position of the pre-order list of panes.
#[derive(Clone, Copy, Debug, PartialEq, Eq, Structural)]
pub struct ActivatePane(pub usize);

/// Focus the neighbour of the active pane in this direction.
#[derive(Clone, Copy, Debug, PartialEq, Eq, Structural)]
pub struct ActivatePaneInDirection(pub SplitDirection);

/// Exchange the active pane with its neighbour in this direction.
#[derive(Clone, Copy, Debug, PartialEq, Eq, Structural)]
pub struct SwapPaneInDirection(pub SplitDirection);

} // verus!
