use hanoi_towers::context::Color;
use hanoi_towers::context::Command;
use hanoi_towers::context::Context;
use hanoi_towers::geometry::Vertex;
use hanoi_towers::geometry::rect;

fn red() -> Color {
    Color { r: 1000, g: 0, b: 0, a: 600 }
}

#[test]
fn add_triangles_records_one_draw_call() {
    let mut ctx = Context::new();
    let verts = rect(0, 0, 10, 10);
    ctx.add_triangles(&verts, red());
    assert_eq!(ctx.commands.len(), 1);
    match &ctx.commands[0] {
        Command::Draw { vertices, color } => {
            assert_eq!(*vertices, verts);
            assert_eq!(*color, red());
        }
        other => panic!("expected a draw command, got {:?}", other),
    }
}

#[test]
fn empty_vertex_list_records_nothing() {
    let mut ctx = Context::new();
    let empty: Vec<Vertex> = Vec::new();
    ctx.add_triangles(&empty, red());
    assert!(ctx.commands.is_empty());
}

#[test]
fn commands_keep_submission_order() {
    let mut ctx = Context::new();
    ctx.clear_color(Color { r: 0, g: 0, b: 0, a: 1000 });
    ctx.clear_depth(1000);
    let verts = rect(1, 2, 3, 4);
    ctx.add_triangles(&verts, red());
    assert_eq!(ctx.commands.len(), 3);
    assert!(matches!(ctx.commands[0], Command::ClearColor { .. }));
    assert!(matches!(ctx.commands[1], Command::ClearDepth { depth: 1000 }));
    assert!(matches!(ctx.commands[2], Command::Draw { .. }));
}

#[test]
fn flush_drains_the_context_in_order() {
    let mut ctx = Context::new();
    ctx.clear_depth(500);
    let verts = rect(1, 2, 3, 4);
    ctx.add_triangles(&verts, red());
    let drained = ctx.flush();
    assert_eq!(drained.len(), 2);
    assert!(matches!(drained[0], Command::ClearDepth { depth: 500 }));
    assert!(matches!(drained[1], Command::Draw { .. }));
    assert!(ctx.commands.is_empty());
}
