use hanoi_towers::geometry::Vertex;
use hanoi_towers::geometry::centered_rect;
use hanoi_towers::geometry::rect;

fn v(x: i32, y: i32) -> Vertex {
    Vertex { x, y, z: 0, w: 1000 }
}

#[test]
fn rect_produces_the_two_triangles_of_the_rectangle() {
    let got = rect(700, 100, 20, 1000);
    let want = vec![
        v(700, 100),
        v(720, 100),
        v(720, -900),
        v(720, -900),
        v(700, -900),
        v(700, 100),
    ];
    assert_eq!(got, want);
}

#[test]
fn rect_anchors_at_the_top_left_corner() {
    let got = rect(-3, 5, 10, 4);
    assert_eq!(got[0], v(-3, 5));
    assert_eq!(got[1], v(7, 5));
    assert_eq!(got[2], v(7, 1));
    assert_eq!(got[3], v(7, 1));
    assert_eq!(got[4], v(-3, 1));
    assert_eq!(got[5], v(-3, 5));
}

#[test]
fn rect_with_zero_extent_collapses_to_a_point() {
    let got = rect(5, 7, 0, 0);
    assert_eq!(got.len(), 6);
    for vertex in &got {
        assert_eq!(*vertex, v(5, 7));
    }
}

#[test]
fn centered_rect_centers_the_rectangle() {
    let got = centered_rect(10, -850, 460, 20);
    let want = vec![
        v(-220, -860),
        v(-220, -840),
        v(240, -840),
        v(240, -860),
        v(-220, -860),
        v(240, -840),
    ];
    assert_eq!(got, want);
}

#[test]
fn centered_rect_covers_the_same_box_as_the_matching_rect() {
    let centered = centered_rect(0, 0, 8, 6);
    let cornered = rect(-4, 3, 8, 6);
    let centered_xs: Vec<i32> = centered.iter().map(|p| p.x).collect();
    let cornered_xs: Vec<i32> = cornered.iter().map(|p| p.x).collect();
    assert_eq!(centered_xs.iter().min(), cornered_xs.iter().min());
    assert_eq!(centered_xs.iter().max(), cornered_xs.iter().max());
    let centered_ys: Vec<i32> = centered.iter().map(|p| p.y).collect();
    let cornered_ys: Vec<i32> = cornered.iter().map(|p| p.y).collect();
    assert_eq!(centered_ys.iter().min(), cornered_ys.iter().min());
    assert_eq!(centered_ys.iter().max(), cornered_ys.iter().max());
}
