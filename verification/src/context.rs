//! The rendering context: an ordered command list that one frame accumulates.
//!
//! The GPU side of a rendering context (device, shader pipeline, transient
//! buffers) lives outside the library; here a context is exactly the sequence
//! of commands that a frame submits, in submission order.  The unverified
//! shell replays that sequence against the device, one command at a time, so
//! every ordering obligation (clears before draws, flush before swap) can be
//! stated and checked over this list.

use vstd::prelude::*;
use crate::geometry::Vertex;
use crate::geometry::VertexV;
use crate::geometry::vertex_views;

verus! {

/// An RGBA color in fixed point: each channel counts thousandths of full
/// intensity, so `1000` is `1.0` on the GPU side.
#[derive(Clone, Copy, PartialEq, Eq, Structural, Debug)]
pub struct Color {
    pub r: u16,
    pub g: u16,
    pub b: u16,
    pub a: u16,
}

/// An opaque identifier for a GPU-side resource.
#[derive(Clone, Copy, PartialEq, Eq, Structural, Hash, Debug)]
pub struct Handle(pub u32);

/// One rendering command, in the order the encoder received it.
#[derive(PartialEq, Debug)]
pub enum Command {
    /// Fill the color target with one color.
    ClearColor { color: Color },
    /// Reset the depth target to one depth, in thousandths (1000 is the far
    /// plane).
    ClearDepth { depth: u16 },
    /// Draw a triangle list: every three consecutive vertices form one
    /// triangle, all filled with one color.
    Draw { vertices: Vec<Vertex>, color: Color },
}

/// Mathematical image of a `Command`, with the vertex list as a sequence of
/// unbounded-integer vertices.
pub ghost enum CommandV {
    ClearColor { color: Color },
    ClearDepth { depth: u16 },
    Draw { vertices: Seq<VertexV>, color: Color },
}

impl View for Command {
    type V = CommandV;

    open spec fn view(&self) -> CommandV {
        match self {
            Command::ClearColor { color } => CommandV::ClearColor { color: *color },
            Command::ClearDepth { depth } => CommandV::ClearDepth { depth: *depth },
            Command::Draw { vertices, color } => CommandV::Draw {
                vertices: vertex_views(vertices@),
                color: *color,
            },
        }
    }
}

/// The views of a command list, element by element.
pub open spec fn command_views(s: Seq<Command>) -> Seq<CommandV> {
    s.map_values(|c: Command| c@)
}

/// The rendering context: the commands recorded for the frame in flight, in
/// submission order.
pub struct Context {
    pub commands: Vec<Command>,
}

impl View for Context {
    type V = Seq<CommandV>;

    open spec fn view(&self) -> Seq<CommandV> {
        command_views(self.commands@)
    }
}

impl Context {
    /// A context with nothing recorded yet.
    pub fn new() -> (c: Context)
        ensures
            c@ == Seq::<CommandV>::empty(),
    {
        let c = Context { commands: Vec::new() };
        proof {
            assert(c@ =~= Seq::<CommandV>::empty());
        }
        c
    }

    /// Record a clear of the color target.
    pub fn clear_color(&mut self, color: Color)
        ensures
            final(self)@ == old(self)@.push(CommandV::ClearColor { color }),
    {
        self.commands.push(Command::ClearColor { color });
        proof {
            assert(final(self)@ =~= old(self)@.push(CommandV::ClearColor { color }));
        }
    }

    /// Record a clear of the depth target.
    pub fn clear_depth(&mut self, depth: u16)
        ensures
            final(self)@ == old(self)@.push(CommandV::ClearDepth { depth }),
    {
        self.commands.push(Command::ClearDepth { depth });
        proof {
            assert(final(self)@ =~= old(self)@.push(CommandV::ClearDepth { depth }));
        }
    }

    /// Record one draw call over a triangle list.  An empty vertex list
    /// records nothing: no draw command with an empty primitive range ever
    /// reaches the device.
    pub fn add_triangles(&mut self, vertices: &Vec<Vertex>, color: Color)
        ensures
            vertices@.len() == 0 ==> final(self)@ == old(self)@,
            vertices@.len() > 0 ==> final(self)@ == old(self)@.push(
                CommandV::Draw { vertices: vertex_views(vertices@), color }),
    {
        if vertices.len() == 0 {
            return;
        }
        let owned = copy_vertices(vertices);
        self.commands.push(Command::Draw { vertices: owned, color });
        proof {
            assert(final(self)@ =~= old(self)@.push(
                CommandV::Draw { vertices: vertex_views(vertices@), color }));
        }
    }

    /// Hand the recorded commands over for replay, oldest first, and leave
    /// the context empty: the encoder is drained by a flush, so the next
    /// frame starts from nothing.
    pub fn flush(&mut self) -> (cmds: Vec<Command>)
        ensures
            command_views(cmds@) == old(self)@,
            final(self)@ == Seq::<CommandV>::empty(),
    {
        let mut cmds: Vec<Command> = Vec::new();
        core::mem::swap(&mut cmds, &mut self.commands);
        proof {
            assert(final(self)@ =~= Seq::<CommandV>::empty());
        }
        cmds
    }
}

/// An owned copy of a vertex list, element by element.
fn copy_vertices(vertices: &Vec<Vertex>) -> (r: Vec<Vertex>)
    ensures
        r@ == vertices@,
{
    let mut r: Vec<Vertex> = Vec::new();
    let mut i: usize = 0;
    while i < vertices.len()
        invariant
            i <= vertices@.len(),
            r@ == vertices@.take(i as int),
        decreases vertices@.len() - i,
    {
        r.push(vertices[i]);
        proof {
            assert(vertices@.take(i + 1 as int) =~= vertices@.take(i as int).push(vertices@[i as int]));
        }
        i = i + 1;
    }
    proof {
        assert(vertices@.take(vertices@.len() as int) =~= vertices@);
    }
    r
}

} // verus!
