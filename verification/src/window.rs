//! The window model: the rendering context plus the frame's clear color.
//!
//! The OS window, the GL surface, and the event pump live outside the
//! library; the shell that owns them keeps one `Window` per OS window and
//! presents a frame by replaying `window.context` and swapping buffers.

use vstd::prelude::*;
use crate::context::Color;
use crate::context::CommandV;
use crate::context::Context;

verus! {

/// The model of one window: the commands recorded for the current frame and
/// the background color every frame starts from.
pub struct Window {
    pub context: Context,
    pub background: Color,
}

impl Window {
    /// A window model with an empty command list and an opaque black
    /// background.
    pub fn new() -> (w: Window)
        ensures
            w.context@ == Seq::<CommandV>::empty(),
            w.background == (Color { r: 0, g: 0, b: 0, a: 1000 }),
    {
        Window { context: Context::new(), background: Color { r: 0, g: 0, b: 0, a: 1000 } }
    }
}

} // verus!
