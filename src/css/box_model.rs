use vstd::prelude::*;

verus! {

/// The areas of a laid-out node: its content, and the padding, border and
/// margin around it.
#[derive(Debug, Clone, Copy, PartialEq, Eq, Structural)]
pub struct Box {
    pub content: Rectangle,
    pub padding: Edges,
    pub border: Edges,
    pub margin: Edges,
}

/// The thickness of each side of an area.
#[derive(Debug, Clone, Copy, PartialEq, Eq, Structural)]
pub struct Edges {
    pub top: u32,
    pub bottom: u32,
    pub right: u32,
    pub left: u32,
}

#[derive(Debug, Clone, Copy, PartialEq, Eq, Structural)]
pub struct Rectangle {
    /// x position of the rectangle, relative to a (0,0) origin at
    /// the top left of the parent container
    pub x: u32,
    /// y position of the rectangle, relative to a (0,0) origin at
    /// the top left of the parent container
    pub y: u32,
    pub height: u32,
    pub width: u32,
}

/// Edges of thickness zero.
pub open spec fn zero_edges() -> Edges {
    Edges { top: 0, bottom: 0, right: 0, left: 0 }
}

/// The box with every area empty.
pub open spec fn zero_box() -> Box {
    Box {
        content: Rectangle { x: 0, y: 0, height: 0, width: 0 },
        padding: zero_edges(),
        border: zero_edges(),
        margin: zero_edges(),
    }
}

impl Box {
    pub fn default() -> (r: Box)
        ensures
            r == zero_box(),
    {
        Box {
            content: Rectangle { x: 0, y: 0, height: 0, width: 0 },
            padding: Edges { top: 0, bottom: 0, right: 0, left: 0 },
            border: Edges { top: 0, bottom: 0, right: 0, left: 0 },
            margin: Edges { top: 0, bottom: 0, right: 0, left: 0 },
        }
    }
}

} // verus!
