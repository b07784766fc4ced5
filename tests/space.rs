use gui_layout::{Direction, Sense, Space};

fn px(s: &Space) -> (u32, u32, u32, u32) {
    s.pixel_coords
}

#[test]
fn new_covers_the_screen() {
    let s = Space::new(800, 600);
    assert_eq!(s.total, (800, 600));
    assert_eq!(px(&s), (0, 0, 800, 600));
}

#[test]
fn new_clamps_zero_size_to_one() {
    let s = Space::new(0, 0);
    assert_eq!(s.total, (1, 1));
    assert_eq!(px(&s), (0, 0, 1, 1));
}

#[test]
fn split_horizontal_forward_halves() {
    let (a, b) = Space::new(800, 600).split(1, 2, Direction::Horizontal, Sense::Forward);
    assert_eq!(px(&a), (0, 0, 400, 600));
    assert_eq!(px(&b), (400, 0, 800, 600));
}

#[test]
fn split_horizontal_backwards_measures_from_the_end() {
    let (a, b) = Space::new(800, 600).split(1, 4, Direction::Horizontal, Sense::Backwards);
    assert_eq!(px(&a), (600, 0, 800, 600));
    assert_eq!(px(&b), (0, 0, 600, 600));
}

#[test]
fn split_vertical_forward_takes_the_top() {
    let (a, b) = Space::new(800, 600).split(1, 3, Direction::Vertical, Sense::Forward);
    assert_eq!(px(&a), (0, 0, 800, 200));
    assert_eq!(px(&b), (0, 200, 800, 600));
}

#[test]
fn split_vertical_backwards_takes_the_bottom() {
    let (a, b) = Space::new(800, 600).split(1, 3, Direction::Vertical, Sense::Backwards);
    assert_eq!(px(&a), (0, 400, 800, 600));
    assert_eq!(px(&b), (0, 0, 800, 400));
}

#[test]
fn split_rounds_down_and_halves_still_concatenate() {
    let (a, b) = Space::new(7, 5).split(1, 2, Direction::Horizontal, Sense::Forward);
    assert_eq!(px(&a), (0, 0, 3, 5));
    assert_eq!(px(&b), (3, 0, 7, 5));
    for (num, den) in [(1u32, 3u32), (2, 3), (99, 100), (1, 1000)] {
        let (a, b) = Space::new(801, 599).split(num, den, Direction::Vertical, Sense::Backwards);
        assert_eq!(b.pixel_coords.1, 0);
        assert_eq!(b.pixel_coords.3, a.pixel_coords.1);
        assert_eq!(a.pixel_coords.3, 599);
        assert!(a.pixel_coords.1 <= a.pixel_coords.3);
    }
}

#[test]
fn trim_forward_and_backwards() {
    let (a, b) = Space::new(800, 600).trim(158, Direction::Vertical, Sense::Forward);
    assert_eq!(px(&a), (0, 0, 800, 158));
    assert_eq!(px(&b), (0, 158, 800, 600));
    let (a, b) = Space::new(800, 600).trim(100, Direction::Horizontal, Sense::Backwards);
    assert_eq!(px(&a), (700, 0, 800, 600));
    assert_eq!(px(&b), (0, 0, 700, 600));
}

#[test]
fn trim_never_exceeds_the_extent() {
    let (a, b) = Space::new(800, 600).trim(5000, Direction::Horizontal, Sense::Forward);
    assert_eq!(px(&a), (0, 0, 800, 600));
    assert_eq!(px(&b), (800, 0, 800, 600));
    let (a, b) = Space::new(800, 600).trim(u32::MAX, Direction::Vertical, Sense::Backwards);
    assert_eq!(px(&a), (0, 0, 800, 600));
    assert_eq!(px(&b), (0, 0, 800, 0));
}

#[test]
fn divide_forward_tiles_in_order() {
    let parts = Space::new(800, 600).divide(4, Direction::Horizontal, Sense::Forward);
    let got: Vec<_> = parts.iter().map(px).collect();
    assert_eq!(got, vec![(0, 0, 200, 600), (200, 0, 400, 600), (400, 0, 600, 600), (600, 0, 800, 600)]);
}

#[test]
fn divide_backwards_reverses_the_order() {
    let parts = Space::new(800, 600).divide(3, Direction::Vertical, Sense::Backwards);
    let got: Vec<_> = parts.iter().map(px).collect();
    assert_eq!(got, vec![(0, 400, 800, 600), (0, 200, 800, 400), (0, 0, 800, 200)]);
}

#[test]
fn divide_uneven_extents_differ_by_at_most_one_pixel() {
    let parts = Space::new(800, 600).divide(3, Direction::Horizontal, Sense::Forward);
    let got: Vec<_> = parts.iter().map(px).collect();
    assert_eq!(got, vec![(0, 0, 266, 600), (266, 0, 533, 600), (533, 0, 800, 600)]);
    let widths: Vec<u32> = parts.iter().map(|p| p.pixel_coords.2 - p.pixel_coords.0).collect();
    assert!(widths.iter().all(|w| *w == 266 || *w == 267));
    assert_eq!(widths.iter().sum::<u32>(), 800);
}

#[test]
fn divide_into_one_is_the_whole() {
    let parts = Space::new(640, 480).divide(1, Direction::Horizontal, Sense::Backwards);
    assert_eq!(parts.len(), 1);
    assert_eq!(px(&parts[0]), (0, 0, 640, 480));
}

#[test]
fn shrink_insets_each_side() {
    let s = Space::new(800, 600).shrink(15, 20);
    assert_eq!(px(&s), (15, 20, 785, 580));
    assert_eq!(s.total, (800, 600));
}

#[test]
fn shrink_never_turns_the_rectangle_over() {
    let s = Space::new(10, 7).shrink(100, 100);
    assert_eq!(px(&s), (5, 3, 5, 4));
}

#[test]
fn is_inside_is_strict() {
    let (s, _) = Space::new(800, 600).trim(100, Direction::Horizontal, Sense::Backwards);
    let (x1, y1, x2, y2) = px(&s);
    assert!(!s.is_inside(x1, 300));
    assert!(!s.is_inside(x2, 300));
    assert!(!s.is_inside(750, y1));
    assert!(!s.is_inside(750, y2));
    assert!(s.is_inside((x1 + x2) / 2, (y1 + y2) / 2));
    assert!(s.is_inside(701, 1));
    assert!(!s.is_inside(10, 10));
}

#[test]
fn normalized_numerators_map_the_corners() {
    let s = Space::new(800, 600);
    assert_eq!(s.normalized_numerators(), (-800, 600, 800, -600));
    let (a, _) = s.split(1, 4, Direction::Horizontal, Sense::Forward);
    assert_eq!(a.normalized_numerators(), (-800, 600, -400, -600));
}
