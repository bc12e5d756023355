use tui_toolkit::Rect;

#[test]
fn new_keeps_a_rect_that_fits() {
    let r = Rect::new(1, 2, 3, 4);
    assert_eq!((r.x, r.y, r.width, r.height), (1, 2, 3, 4));
    assert_eq!(r.left(), 1);
    assert_eq!(r.right(), 4);
    assert_eq!(r.top(), 2);
    assert_eq!(r.bottom(), 6);
}

#[test]
fn new_cuts_a_rect_that_reaches_too_far() {
    let r = Rect::new(65_530, 65_000, 10, 1_000);
    assert_eq!((r.x, r.y, r.width, r.height), (65_530, 65_000, 5, 535));
    assert_eq!(r.right(), u16::MAX);
    assert_eq!(r.bottom(), u16::MAX);
    let edge = Rect::new(u16::MAX, 0, 1, 1);
    assert_eq!(edge.width, 0);
}

#[test]
fn edges_are_clamped() {
    let r = Rect { x: 65_000, y: 65_535, width: 1_000, height: 3 };
    assert_eq!(r.right(), u16::MAX);
    assert_eq!(r.bottom(), u16::MAX);
    assert!(!r.contains(65_000, 65_535));
}

#[test]
fn empty_means_no_width_or_no_height() {
    assert!(Rect::new(3, 4, 0, 5).is_empty());
    assert!(Rect::new(3, 4, 5, 0).is_empty());
    assert!(!Rect::new(3, 4, 1, 1).is_empty());
}

#[test]
fn contains_the_cells_between_the_edges() {
    let r = Rect::new(2, 3, 4, 5);
    assert!(r.contains(2, 3));
    assert!(r.contains(5, 7));
    assert!(!r.contains(6, 7));
    assert!(!r.contains(5, 8));
    assert!(!r.contains(1, 3));
    assert!(!r.contains(2, 2));
}
