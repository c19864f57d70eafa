//! Rectangle math: containment and splitting.

use alacritty_multiplexer::rect::Rect;

#[test]
fn contains_inside() {
    let r = Rect::new(10, 20, 30, 40);
    assert!(r.contains(10, 20));
    assert!(r.contains(25, 35));
    assert!(r.contains(39, 59));
}

#[test]
fn contains_outside() {
    let r = Rect::new(10, 20, 30, 40);
    assert!(!r.contains(9, 20));
    assert!(!r.contains(10, 19));
    assert!(!r.contains(40, 20));
    assert!(!r.contains(10, 60));
}

#[test]
fn split_horizontal_halves() {
    let r = Rect::new(0, 0, 80, 24);
    let (top, bottom) = r.split_horizontal(500);
    assert_eq!(top.height + bottom.height, r.height);
    assert_eq!(top.width, r.width);
    assert_eq!(bottom.width, r.width);
    assert_eq!(top.y, 0);
    assert_eq!(bottom.y, top.height);
}

#[test]
fn split_vertical_halves() {
    let r = Rect::new(0, 0, 80, 24);
    let (left, right) = r.split_vertical(500);
    assert_eq!(left.width + right.width, r.width);
    assert_eq!(left.height, r.height);
    assert_eq!(right.height, r.height);
    assert_eq!(left.x, 0);
    assert_eq!(right.x, left.width);
}

#[test]
fn split_preserves_total_area() {
    let r = Rect::new(5, 10, 100, 50);
    let (top, bottom) = r.split_horizontal(300);
    assert_eq!(top.height + bottom.height, r.height);

    let (left, right) = r.split_vertical(700);
    assert_eq!(left.width + right.width, r.width);
}

#[test]
fn split_clamped_ratio() {
    let r = Rect::new(0, 0, 80, 24);
    let (top, bottom) = r.split_horizontal(0);
    assert!(top.height >= 1);
    assert!(bottom.height >= 1);

    let (top, bottom) = r.split_horizontal(1000);
    assert!(top.height >= 1);
    assert!(bottom.height >= 1);
}

#[test]
fn rect_contains_exact_boundary() {
    let r = Rect::new(10, 20, 30, 40);
    // Last valid cell.
    assert!(r.contains(39, 59));
    // Just outside.
    assert!(!r.contains(40, 59));
    assert!(!r.contains(39, 60));
}

#[test]
fn rect_split_tiny() {
    let r = Rect::new(0, 0, 2, 2);
    let (top, bottom) = r.split_horizontal(500);
    assert!(top.height >= 1);
    assert!(bottom.height >= 1);
    assert_eq!(top.height + bottom.height, 2);

    let (left, right) = r.split_vertical(500);
    assert!(left.width >= 1);
    assert!(right.width >= 1);
    assert_eq!(left.width + right.width, 2);
}

#[test]
fn rect_split_extreme_ratios_tiny() {
    let r = Rect::new(0, 0, 3, 3);
    let (top, bottom) = r.split_horizontal(10);
    assert!(top.height >= 1);
    assert!(bottom.height >= 1);

    let (left, right) = r.split_vertical(990);
    assert!(left.width >= 1);
    assert!(right.width >= 1);
}

#[test]
fn split_ratio_beyond_unit_clamps() {
    // A ratio above the unit still leaves one cell to the second
    // child whenever the parent has two.
    let r = Rect::new(0, 0, 10, 10);
    let (top, bottom) = r.split_horizontal(5000);
    assert!(top.height >= 1);
    assert!(bottom.height >= 1);
    assert_eq!(top.height + bottom.height, 10);
}
