//! A scrolling strip chart: a bounded window of timestamped samples, a
//! packed 32-bit pixel surface with a byte view over the same cells, the
//! geometry that maps samples into the plotting region, and the state
//! machine that paces the render loop.
use vstd::prelude::*;

pub mod presenter;
pub mod render;
pub mod source;
pub mod surface;
pub mod window;

pub use presenter::{next_state, LoopState, Session};
pub use render::{map_point, plan_frame, plot_area, FramePlan, PlotArea, Point, Segment};
pub use source::SampleSource;
pub use surface::{rgb, PixelSurface};
pub use window::{Sample, SampleWindow, VALUE_SCALE};

verus! {

/// Width of the chart image, in pixels.
pub const WIDTH: usize = 800;

/// Height of the chart image, in pixels.
pub const HEIGHT: usize = 600;

/// How many of the most recent samples stay visible.
pub const CAPACITY: usize = 10;

/// Time between frames, in milliseconds.
pub const FRAME_PERIOD_MS: u64 = 500;

} // verus!
