use dungeon::{Rect, Tile};

#[test]
fn rect_new_keeps_corner_and_adds_size() {
    let r = Rect::new(3, 4, 5, 6);
    assert_eq!((r.x1, r.y1, r.x2, r.y2), (3, 4, 8, 10));
}

#[test]
fn rect_new_accepts_negative_corner() {
    let r = Rect::new(-7, -2, 3, 1);
    assert_eq!((r.x1, r.y1, r.x2, r.y2), (-7, -2, -4, -1));
}

#[test]
fn rect_center_is_midway() {
    assert_eq!(Rect::new(0, 0, 10, 6).center(), (5, 3));
    assert_eq!(Rect::new(2, 3, 5, 4).center(), (4, 5));
}

#[test]
fn rect_center_rounds_toward_zero() {
    let below = Rect { x1: -4, y1: -3, x2: -1, y2: 0 };
    assert_eq!(below.center(), (-2, -1));
    let above = Rect { x1: 1, y1: 0, x2: 4, y2: 3 };
    assert_eq!(above.center(), (2, 1));
}

#[test]
fn rect_center_does_not_overflow() {
    let wide = Rect { x1: i32::MAX - 1, y1: i32::MIN, x2: i32::MAX, y2: i32::MIN + 2 };
    assert_eq!(wide.center(), (i32::MAX - 1, i32::MIN + 1));
}

#[test]
fn rects_that_overlap_intersect() {
    let a = Rect::new(0, 0, 5, 5);
    let b = Rect::new(3, 3, 5, 5);
    assert!(a.intersects_with(&b));
    assert!(b.intersects_with(&a));
}

#[test]
fn rects_that_share_an_edge_intersect() {
    let a = Rect::new(0, 0, 5, 5);
    let b = Rect::new(5, 0, 5, 5);
    assert!(a.intersects_with(&b));
    assert!(b.intersects_with(&a));
    let c = Rect::new(5, 5, 2, 2);
    assert!(a.intersects_with(&c));
}

#[test]
fn rects_one_cell_apart_do_not_intersect() {
    let a = Rect::new(0, 0, 5, 5);
    let right = Rect::new(6, 0, 5, 5);
    let below = Rect::new(0, 6, 5, 5);
    assert!(!a.intersects_with(&right));
    assert!(!right.intersects_with(&a));
    assert!(!a.intersects_with(&below));
    assert!(!below.intersects_with(&a));
}

#[test]
fn rect_intersects_itself() {
    let a = Rect::new(2, 2, 4, 4);
    assert!(a.intersects_with(&a));
}

#[test]
fn floor_is_open_and_unexplored() {
    let t = Tile::floor();
    assert!(!t.blocked);
    assert!(!t.block_sight);
    assert!(!t.explored);
}

#[test]
fn wall_is_solid_and_unexplored() {
    let t = Tile::wall();
    assert!(t.blocked);
    assert!(t.block_sight);
    assert!(!t.explored);
}

#[test]
fn fov_flags_are_the_opposite_of_the_blocks() {
    assert_eq!(Tile::floor().fov_flags(), (true, true));
    assert_eq!(Tile::wall().fov_flags(), (false, false));
    let window = Tile { blocked: true, block_sight: false, explored: true };
    assert_eq!(window.fov_flags(), (true, false));
    let curtain = Tile { blocked: false, block_sight: true, explored: false };
    assert_eq!(curtain.fov_flags(), (false, true));
}

#[test]
fn floor_and_wall_differ() {
    assert_ne!(Tile::floor(), Tile::wall());
    assert_eq!(Tile::floor(), Tile::floor());
}
