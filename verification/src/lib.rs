//! A small on-screen tag bar: a retained widget tree rendered into a
//! shared-memory pixel buffer, driven by a window manager's tag state.
//!
//! The library owns the logic: decoding the compositor-pushed tag bitmasks,
//! laying out and rendering the widget tree, compositing damage into the
//! frame buffer, and the configure/redraw state machine. The display-server
//! transport around it only moves events in and finished buffers out.

pub mod app;
pub mod bar;
pub mod buffer;
pub mod surface;
pub mod tags;
pub mod widget;

use vstd::prelude::*;

verus! {

/// What can go wrong inside the library. Everything here is recoverable:
/// the caller keeps its last good frame and retries on the next redraw.
#[derive(Clone, Copy, PartialEq, Eq, Structural, Debug)]
pub enum Error {
    /// The shared-memory pool cannot hold the requested bytes.
    Alloc,
    /// A child widget does not fit inside the container it was handed to.
    Oversize,
}

} // verus!
