use dungeon::tile::{Tile, TileMap};
use dungeon::visibility::{tile_shade, Shade, VisibilityTracker};

fn sample_map() -> TileMap {
    // 3 by 2: a wall at (1, 0), floor elsewhere
    let mut m = TileMap::filled(3, 2, Tile::empty());
    m.set(1, 0, Tile::wall());
    m
}

#[test]
fn new_tracker_needs_a_first_computation() {
    let t = VisibilityTracker::new(3, 2);
    assert!(t.needs_recompute(0, 0));
    assert!(!t.needs_recompute(-1, -1));
    assert!(!t.is_visible(0, 0));
}

#[test]
fn sync_copies_layout() {
    let m = sample_map();
    let mut t = VisibilityTracker::new(3, 2);
    t.sync_transparency(&m);
    assert!(!t.is_transparent(1, 0));
    assert!(!t.is_walkable(1, 0));
    assert!(t.is_transparent(0, 0));
    assert!(t.is_walkable(2, 1));
}

#[test]
fn recompute_only_after_moving() {
    let mut t = VisibilityTracker::new(3, 2);
    t.record_fov(1, 1, vec![true; 6]);
    assert!(!t.needs_recompute(1, 1));
    assert!(t.needs_recompute(2, 1));
    assert!(t.needs_recompute(1, 0));
}

#[test]
fn fold_marks_visible_tiles_explored() {
    let mut m = sample_map();
    let mut t = VisibilityTracker::new(3, 2);
    t.record_fov(0, 1, vec![true, false, false, true, true, false]);
    t.fold_explored(&mut m);
    let explored: Vec<bool> = (0..2).flat_map(|y| (0..3).map(move |x| (x, y))).map(|(x, y)| m.get(x, y).explored).collect();
    assert_eq!(explored, vec![true, false, false, true, true, false]);
    assert!(m.get(1, 0).blocked);
}

#[test]
fn explored_never_reverts() {
    let mut m = sample_map();
    let mut t = VisibilityTracker::new(3, 2);
    t.record_fov(0, 0, vec![true, true, false, false, false, false]);
    t.fold_explored(&mut m);
    t.record_fov(0, 0, vec![false, false, false, false, false, true]);
    t.fold_explored(&mut m);
    assert!(m.get(0, 0).explored);
    assert!(m.get(1, 0).explored);
    assert!(!m.get(2, 0).explored);
    assert!(m.get(2, 1).explored);
    assert!(!t.is_visible(0, 0));
}

#[test]
fn shades() {
    assert_eq!(tile_shade(false, true), Shade::DarkWall);
    assert_eq!(tile_shade(false, false), Shade::DarkGround);
    assert_eq!(tile_shade(true, true), Shade::LightWall);
    assert_eq!(tile_shade(true, false), Shade::LightGround);
}

#[test]
fn unexplored_tiles_are_not_drawn() {
    let mut m = sample_map();
    let mut t = VisibilityTracker::new(3, 2);
    t.record_fov(0, 1, vec![true, true, false, false, false, false]);
    t.fold_explored(&mut m);
    assert_eq!(t.shade_at(&m, 0, 0), Some(Shade::LightGround));
    assert_eq!(t.shade_at(&m, 1, 0), Some(Shade::LightWall));
    assert_eq!(t.shade_at(&m, 2, 0), None);
    t.record_fov(0, 0, vec![false; 6]);
    assert_eq!(t.shade_at(&m, 0, 0), Some(Shade::DarkGround));
    assert_eq!(t.shade_at(&m, 1, 0), Some(Shade::DarkWall));
}

#[test]
fn refresh_records_and_folds() {
    let mut m = sample_map();
    let mut t = VisibilityTracker::new(3, 2);
    t.sync_transparency(&m);
    t.refresh(&mut m, 2, 1, vec![false, false, true, false, true, true]);
    assert!(!t.needs_recompute(2, 1));
    assert!(t.is_visible(2, 0));
    assert!(!t.is_visible(0, 0));
    assert!(m.get(2, 0).explored && m.get(1, 1).explored && m.get(2, 1).explored);
    assert!(!m.get(0, 0).explored && !m.get(1, 0).explored && !m.get(0, 1).explored);
    t.refresh(&mut m, 2, 1, vec![false; 6]);
    assert!(m.get(2, 0).explored && m.get(1, 1).explored && m.get(2, 1).explored);
}
