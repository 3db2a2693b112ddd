//! Plain data carried between the input/render adapter and the core:
//! grain coordinates, visible rectangles, and the fetch-slot status.

use vstd::prelude::*;

verus! {

/// Whether the right mouse button is currently held (camera panning).
pub struct MouseRightButtonPressed(pub bool);

/// The color currently chosen in the color picker, as RGB bytes.
pub struct PickedColor(pub [u8; 3]);

/// State of the color-picker widget, as the adapter reports it.
#[derive(Debug)]
pub struct ColorPickerUIInfo {
    pub is_open: bool,
    pub contains_pointer: bool,
}

/// Shared handle on the color-picker widget state.
pub struct ColorPickerUIInfoResource(pub ColorPickerUIInfo);

/// A grain coordinate: one pixel cell of the shared canvas, in grid units.
#[derive(Clone, Copy, PartialEq, Eq, Structural, Debug)]
pub struct PixelGrain {
    pub x: i64,
    pub y: i64,
}

impl PixelGrain {
    pub fn new(x: i64, y: i64) -> (g: Self)
        ensures
            g.x == x,
            g.y == y,
    {
        Self { x, y }
    }
}

/// An axis-aligned rectangle in grain-coordinate space. `top_left` is the
/// visually upper-left corner: y grows upward, so
/// `top_left.y >= bottom_right.y` and `top_left.x <= bottom_right.x`
/// whenever the rectangle is well formed.
#[derive(Clone, Copy, PartialEq, Eq, Structural, Debug)]
pub struct PixelRectangle {
    pub top_left: PixelGrain,
    pub bottom_right: PixelGrain,
}

impl PixelRectangle {
    /// A well-formed rectangle has ordered corners.
    pub open spec fn wf(self) -> bool {
        self.top_left.x <= self.bottom_right.x && self.top_left.y >= self.bottom_right.y
    }

    /// Whether the grain coordinate `(x, y)` lies in the closed rectangle.
    pub open spec fn spec_contains(self, x: int, y: int) -> bool {
        self.top_left.x <= x <= self.bottom_right.x && self.bottom_right.y <= y
            <= self.top_left.y
    }

    /// Closed-rectangle membership test for a grain coordinate.
    pub fn contains(&self, x: i64, y: i64) -> (r: bool)
        ensures
            r == self.spec_contains(x as int, y as int),
    {
        self.top_left.x <= x && x <= self.bottom_right.x && self.bottom_right.y <= y && y
            <= self.top_left.y
    }
}

/// The single fetch slot: at most one region fetch is outstanding, and this
/// records whether one is running, the last one failed, or the last one
/// succeeded and which region it covered.
#[derive(Clone, Copy, PartialEq, Eq, Structural, Debug)]
pub enum PixelRectRequestStatus {
    InProgress,
    Failed,
    Success(PixelRectangle),
}

impl PixelRectRequestStatus {
    /// The initial status. `Failed` makes the very first scheduler tick
    /// issue a fetch at once.
    pub fn initial() -> (s: Self)
        ensures
            s == PixelRectRequestStatus::Failed,
    {
        PixelRectRequestStatus::Failed
    }
}

} // verus!
