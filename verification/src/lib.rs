//! Layout partitioning, frame timing and glyph rasterisation for terminal
//! user interfaces built on a character-cell buffer.
//!
//! - `geometry`: rectangles of cells.
//! - `partition`: cutting an area into pieces along one direction.
//! - `layout`: responsive grids and centred boxes.
//! - `timer`: the time since a start and between ticks.
//! - `canvas`: the buffer of cells that is painted on.
//! - `pattern`: painting waves and rain onto a buffer.

pub mod canvas;
pub mod geometry;
pub mod layout;
pub mod partition;
pub mod pattern;
pub mod timer;

pub use crate::geometry::Rect;
pub use crate::layout::{centered_rect, centered_rect_with_size, ResponsiveGrid};
pub use crate::pattern::Pattern;
pub use crate::timer::AnimationTimer;
