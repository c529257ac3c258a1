//! Verified core of an animated Towers-of-Hanoi visualization.
//!
//! The library models the parts of the program whose behaviour can be pinned
//! down exactly: the geometry of the rectangles that stand for rods and
//! disks, the ordered list of rendering commands that one frame submits, and
//! the puzzle state machine that advances one move per timer tick.  A thin
//! unverified shell around the library owns the OS window and the GPU device
//! and replays each frame's command list against them.
//!
//! All coordinates and color channels are kept in fixed point (thousandths of
//! a clip-space unit), so every contract is stated over exact integers.

pub mod context;
pub mod geometry;
pub mod puzzle;
pub mod scene;
pub mod solution;
pub mod window;
