use hanoi_towers::context::Color;
use hanoi_towers::context::Command;
use hanoi_towers::puzzle::Puzzle;
use hanoi_towers::scene::advance_on_tick;
use hanoi_towers::scene::compose_frame;
use hanoi_towers::scene::draw_some;
use hanoi_towers::scene::is_renderable;
use hanoi_towers::scene::render_disks;
use hanoi_towers::window::Window;

#[test]
fn draw_some_records_the_three_rod_markers() {
    let mut w = Window::new();
    draw_some(&mut w);
    assert_eq!(w.context.commands.len(), 3);
    let marker_xs = [700, -700, 0];
    for (cmd, x) in w.context.commands.iter().zip(marker_xs) {
        match cmd {
            Command::Draw { vertices, color } => {
                assert_eq!(*color, Color { r: 1000, g: 0, b: 0, a: 600 });
                assert_eq!(vertices.len(), 6);
                assert_eq!(vertices[0].x, x);
                assert_eq!(vertices[0].y, 100);
                assert_eq!(vertices[1].x, x + 20);
                assert_eq!(vertices[2].y, -900);
            }
            other => panic!("expected a draw command, got {:?}", other),
        }
    }
}

#[test]
fn render_disks_records_one_rectangle_per_disk() {
    let mut w = Window::new();
    let disks = vec![460, 430];
    render_disks(1, &disks, &mut w);
    assert_eq!(w.context.commands.len(), 2);
    match &w.context.commands[0] {
        Command::Draw { vertices, color } => {
            assert_eq!(*color, Color { r: 1000, g: 1000, b: 1000, a: 800 });
            assert_eq!(vertices[0].x, 10 - 230);
            assert_eq!(vertices[0].y, -850 - 10);
            assert_eq!(vertices[2].x, 10 + 230);
            assert_eq!(vertices[2].y, -850 + 10);
        }
        other => panic!("expected a draw command, got {:?}", other),
    }
    match &w.context.commands[1] {
        Command::Draw { vertices, .. } => {
            assert_eq!(vertices[0].x, 10 - 215);
            assert_eq!(vertices[0].y, -820 - 10);
        }
        other => panic!("expected a draw command, got {:?}", other),
    }
}

#[test]
fn render_disks_on_an_empty_rod_records_nothing() {
    let mut w = Window::new();
    let disks: Vec<i32> = Vec::new();
    render_disks(0, &disks, &mut w);
    assert!(w.context.commands.is_empty());
}

#[test]
fn compose_frame_clears_before_it_draws() {
    let mut w = Window::new();
    let p = Puzzle::new(1);
    compose_frame(&mut w, &p);
    assert_eq!(w.context.commands.len(), 6);
    match &w.context.commands[0] {
        Command::ClearColor { color } => {
            assert_eq!(*color, Color { r: 0, g: 0, b: 0, a: 1000 });
        }
        other => panic!("expected a color clear, got {:?}", other),
    }
    assert!(matches!(w.context.commands[1], Command::ClearDepth { depth: 1000 }));
    for cmd in &w.context.commands[2..] {
        assert!(matches!(cmd, Command::Draw { .. }));
    }
}

#[test]
fn advance_on_tick_steps_only_after_the_interval() {
    let mut p = Puzzle::new(2);
    assert!(!advance_on_tick(&mut p, 99, 100));
    assert_eq!(p.rod0, vec![460, 430]);
    assert!(advance_on_tick(&mut p, 100, 100));
    assert_eq!(p.rod0, vec![460]);
    assert_eq!(p.rod1, vec![430]);
}

#[test]
fn fresh_puzzles_are_renderable() {
    assert!(is_renderable(&Puzzle::new(9)));
    assert!(is_renderable(&Puzzle::new(0)));
}

#[test]
fn negative_widths_are_not_renderable() {
    let p = Puzzle {
        rod0: vec![-5],
        rod1: Vec::new(),
        rod2: Vec::new(),
        smallest_pos: 0,
        smallest_move: true,
        solved: false,
    };
    assert!(!is_renderable(&p));
}
