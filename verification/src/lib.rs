//! Core logic of a collaborative pixel-canvas viewer: mapping the camera's
//! viewport to a rectangle of grain (pixel-cell) coordinates, deciding when
//! that rectangle needs a fresh fetch from the canvas service, encoding the
//! outbound requests, decoding the service's replies, and reconciling the
//! live set of grains with what arrives.

use vstd::prelude::*;

pub mod components;
pub mod fetch;
pub mod geometry;
pub mod grains;
pub mod text;
pub mod wire;

pub use components::MouseRightButtonPressed;
pub use components::PickedColor;
pub use components::ColorPickerUIInfo;
pub use components::ColorPickerUIInfoResource;
pub use components::PixelGrain;
pub use components::PixelRectangle;
pub use components::PixelRectRequestStatus;

verus! {

/// World units that one grain cell spans, by default.
pub const PIXEL_SIZE: i64 = 10;

/// Extra cells kept around the strictly visible area, by default.
pub const OVERSCAN_CELLS: i64 = 3;

/// Seconds between two polls of the fetch scheduler, by default.
pub const POLL_INTERVAL_SECS: u64 = 1;

} // verus!
