//! Reconstruction and rendering of flat span traces.
//!
//! An instrumented matcher emits a chronologically ordered sequence of
//! "span entered" / "span exited" events.  [`reconstruct`] rebuilds the
//! implied call tree as a table of records linking each entry to its exit,
//! and [`render`] walks that table into indented, status-tagged lines.

pub mod event;
pub mod nesting;
pub mod reconstruct;
pub mod render;
pub mod laws;
pub mod engine;

pub use event::{DisplayLine, EventData, FilePos, Status, TraceError, TraceEvent, TraceResult};
pub use reconstruct::reconstruct;
pub use render::render;
pub use engine::investigate;
