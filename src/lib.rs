//! A split-pane layout engine: a tree of panes and axis containers with split,
//! remove and swap, a layout pass that turns flex weights into pixel rectangles,
//! drag-to-resize that keeps weights balanced and members above a minimum size,
//! and hit testing over the cached rectangles for directional navigation.

pub mod actions;
pub mod direction;
pub mod element;
pub mod geometry;
pub mod group;
pub mod laws;
pub mod layout;
pub mod navigation;
pub mod render;
pub mod resize;
pub mod tree;

pub use actions::{ActivatePane, ActivatePaneInDirection, SwapPaneInDirection};
pub use direction::SplitDirection;
pub use geometry::{Axis, Bounds, Point, Size};
pub use group::PaneGroup;
pub use layout::{PaneAxisChildLayout, PaneAxisHandleLayout, PaneAxisLayout};
pub use tree::{Member, PaneAxis, PaneId, PaneNotFound, FLEX_UNIT};
