//! Frame composition and the driver's per-iteration decisions.
//!
//! Every frame records, in this order: one clear of each target, the three
//! fixed rod markers, and one centered rectangle per disk, rod by rod.  The
//! unverified shell replays the recorded commands, polls events, presents,
//! and calls `advance_on_tick` with the true elapsed time.

use vstd::prelude::*;
use crate::context::Color;
use crate::context::CommandV;
use crate::geometry::centered_rect;
use crate::geometry::centered_rect_spec;
use crate::geometry::rect;
use crate::geometry::rect_spec;
use crate::puzzle::Puzzle;
use crate::puzzle::PuzzleV;
use crate::puzzle::step_spec;
use crate::window::Window;

verus! {

/// The translucent red of the three rod markers.
pub open spec fn marker_color() -> Color {
    Color { r: 1000, g: 0, b: 0, a: 600 }
}

/// The translucent white of every disk.
pub open spec fn disk_color() -> Color {
    Color { r: 1000, g: 1000, b: 1000, a: 800 }
}

/// The draw command of the rod marker whose left edge is at `x`: a thin
/// full-height red rectangle.
pub open spec fn marker_command(x: int) -> CommandV {
    CommandV::Draw { vertices: rect_spec(x, 100, 20, 1000), color: marker_color() }
}

/// The three fixed rod markers, in submission order.
pub open spec fn marker_commands() -> Seq<CommandV> {
    seq![marker_command(700), marker_command(-700), marker_command(0)]
}

/// Draw the three fixed rod markers.
pub fn draw_some(w: &mut Window)
    ensures
        final(w).context@ == old(w).context@ + marker_commands(),
        final(w).background == old(w).background,
{
    let vertices = rect(700, 100, 20, 1000);
    w.context.add_triangles(&vertices, Color { r: 1000, g: 0, b: 0, a: 600 });
    let vertices = rect(-700, 100, 20, 1000);
    w.context.add_triangles(&vertices, Color { r: 1000, g: 0, b: 0, a: 600 });
    let vertices = rect(0, 100, 20, 1000);
    w.context.add_triangles(&vertices, Color { r: 1000, g: 0, b: 0, a: 600 });
    proof {
        assert(w.context@ =~= old(w).context@ + marker_commands());
    }
}

/// The draw command of the disk of the given width lying at height `idx`
/// (counted from 0 at the bottom) on rod `rod`.
pub open spec fn disk_command(rod: int, idx: int, width: int) -> CommandV {
    CommandV::Draw {
        vertices: centered_rect_spec(-700 + rod * 700 + 10, -880 + (idx + 1) * 30, width, 20),
        color: disk_color(),
    }
}

/// The draw commands of one rod's stack of disks, bottom to top.
pub open spec fn disk_commands(rod: int, widths: Seq<i32>) -> Seq<CommandV> {
    Seq::new(widths.len(), |i: int| disk_command(rod, i, widths[i] as int))
}

/// One rod's stack can be rendered: the widths are nonnegative and, with the
/// stack height, small enough for the fixed-point arithmetic.
pub open spec fn rod_renderable(rod: Seq<i32>) -> bool {
    &&& rod.len() <= 1_000_000
    &&& forall|i: int| 0 <= i < rod.len() ==> 0 <= #[trigger] rod[i] <= 1_000_000
}

/// The whole puzzle can be rendered.
pub open spec fn renderable(s: PuzzleV) -> bool {
    &&& s.rods.len() == 3
    &&& rod_renderable(s.rods[0])
    &&& rod_renderable(s.rods[1])
    &&& rod_renderable(s.rods[2])
}

/// Draw rod `n_rod`'s disks: one centered rectangle per disk, bottom up,
/// horizontally offset by the rod index.
pub fn render_disks(n_rod: u8, disks: &Vec<i32>, w: &mut Window)
    requires
        n_rod < 3,
        rod_renderable(disks@),
    ensures
        final(w).context@ == old(w).context@ + disk_commands(n_rod as int, disks@),
        final(w).background == old(w).background,
{
    let mut index: usize = 0;
    while index < disks.len()
        invariant
            n_rod < 3,
            rod_renderable(disks@),
            index <= disks@.len(),
            w.background == old(w).background,
            w.context@ == old(w).context@ + disk_commands(n_rod as int, disks@).take(index as int),
        decreases disks@.len() - index,
    {
        let x: i32 = -700 + (n_rod as i32) * 700 + 10;
        let y: i32 = -880 + ((index as i32) + 1) * 30;
        let vertices = centered_rect(x, y, disks[index], 20);
        w.context.add_triangles(&vertices, Color { r: 1000, g: 1000, b: 1000, a: 800 });
        proof {
            let dc = disk_commands(n_rod as int, disks@);
            assert(dc.take(index + 1 as int) =~= dc.take(index as int).push(dc[index as int]));
            assert(w.context@ =~= old(w).context@ + dc.take(index + 1 as int));
        }
        index = index + 1;
    }
    proof {
        assert(disk_commands(n_rod as int, disks@).take(disks@.len() as int)
            =~= disk_commands(n_rod as int, disks@));
    }
}

/// Everything one frame records, in order: the two clears, the rod markers,
/// then the disks of rods 0, 1 and 2.
pub open spec fn frame_commands(background: Color, s: PuzzleV) -> Seq<CommandV> {
    seq![
        CommandV::ClearColor { color: background },
        CommandV::ClearDepth { depth: 1000 },
    ] + marker_commands()
        + disk_commands(0, s.rods[0])
        + disk_commands(1, s.rods[1])
        + disk_commands(2, s.rods[2])
}

/// Record one whole frame: clear both targets, then draw the markers and
/// every disk.  The clears come first, so every draw of the frame follows a
/// clear of the targets it writes.
pub fn compose_frame(w: &mut Window, p: &Puzzle)
    requires
        renderable(p@),
    ensures
        final(w).context@ == old(w).context@ + frame_commands(old(w).background, p@),
        final(w).background == old(w).background,
{
    let bg = w.background;
    w.context.clear_color(bg);
    w.context.clear_depth(1000);
    draw_some(w);
    render_disks(0, p.rod(0), w);
    render_disks(1, p.rod(1), w);
    render_disks(2, p.rod(2), w);
    proof {
        assert(w.context@ =~= old(w).context@ + frame_commands(old(w).background, p@));
    }
}

/// Runtime test of `renderable`, for callers that cannot establish it by
/// proof.
pub fn is_renderable(p: &Puzzle) -> (b: bool)
    ensures
        b == renderable(p@),
{
    rod_widths_renderable(p.rod(0)) && rod_widths_renderable(p.rod(1))
        && rod_widths_renderable(p.rod(2))
}

/// Runtime test of `rod_renderable`.
fn rod_widths_renderable(rod: &Vec<i32>) -> (b: bool)
    ensures
        b == rod_renderable(rod@),
{
    if rod.len() > 1_000_000 {
        return false;
    }
    let mut i: usize = 0;
    while i < rod.len()
        invariant
            i <= rod@.len(),
            rod@.len() <= 1_000_000,
            forall|k: int| 0 <= k < i ==> 0 <= #[trigger] rod@[k] <= 1_000_000,
        decreases rod@.len() - i,
    {
        if rod[i] < 0 || rod[i] > 1_000_000 {
            return false;
        }
        i = i + 1;
    }
    true
}

/// The driver's per-iteration decision: if at least one full interval has
/// elapsed since the last state change, advance the puzzle one step.
pub fn advance_on_tick(p: &mut Puzzle, elapsed_ms: u64, interval_ms: u64) -> (stepped: bool)
    requires
        old(p).wf(),
    ensures
        stepped == (elapsed_ms >= interval_ms),
        stepped ==> final(p)@ == step_spec(old(p)@),
        !stepped ==> *final(p) == *old(p),
        final(p).wf(),
{
    if elapsed_ms >= interval_ms {
        p.do_move();
        true
    } else {
        false
    }
}

} // verus!
