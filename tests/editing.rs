use tilemap_editor::editor::{EditError, Editor};
use tilemap_editor::grid::Grid;
use tilemap_editor::input::{shortcuts, Keys};
use tilemap_editor::tile::TileRegion;

fn region(u_min: f32, v_min: f32, u_max: f32, v_max: f32) -> TileRegion {
    TileRegion::new(u_min.to_bits(), v_min.to_bits(), u_max.to_bits(), v_max.to_bits())
}

fn tile_a() -> TileRegion {
    region(0.0, 0.0, 0.5, 0.5)
}

fn tile_b() -> TileRegion {
    region(0.5, 0.0, 1.0, 0.5)
}

fn tile_c() -> TileRegion {
    region(0.0, 0.5, 0.5, 1.0)
}

fn paint(editor: &mut Editor, cells: &[((i32, i32), TileRegion)]) {
    editor.begin_stroke();
    for (pos, tile) in cells {
        editor.touch(*pos, *tile);
    }
    editor.end_stroke();
}

#[test]
fn scenario_stroke_undo_redo_on_empty_grid() {
    let mut e = Editor::new();
    paint(&mut e, &[((0, 0), tile_a()), ((1, 0), tile_b())]);
    assert_eq!(e.tiles(), vec![((0, 0), tile_a()), ((1, 0), tile_b())]);
    e.undo();
    assert!(e.tiles().is_empty());
    e.redo();
    assert_eq!(e.get((0, 0)), Some(tile_a()));
    assert_eq!(e.get((1, 0)), Some(tile_b()));
    assert_eq!(e.tiles().len(), 2);
}

#[test]
fn scenario_overwrite_then_undo() {
    let mut e = Editor::new();
    paint(&mut e, &[((0, 0), tile_a())]);
    paint(&mut e, &[((0, 0), tile_b()), ((1, 1), tile_c())]);
    assert_eq!(e.get((0, 0)), Some(tile_b()));
    assert_eq!(e.get((1, 1)), Some(tile_c()));
    e.undo();
    assert_eq!(e.tiles(), vec![((0, 0), tile_a())]);
    assert_eq!(e.get((1, 1)), None);
}

#[test]
fn scenario_six_strokes_five_undos() {
    let mut e = Editor::new();
    for i in 0..6 {
        e.commit_stroke(&vec![(i, 0)], tile_a());
    }
    assert_eq!(e.undo_len(), 5);
    for _ in 0..5 {
        e.undo();
    }
    assert_eq!(e.tiles(), vec![((0, 0), tile_a())]);
    assert_eq!(e.undo_len(), 0);
    e.undo();
    assert_eq!(e.tiles(), vec![((0, 0), tile_a())]);
    assert_eq!(e.redo_len(), 5);
}

#[test]
fn scenario_save_without_spritesheet() {
    let mut e = Editor::new();
    paint(&mut e, &[((0, 0), tile_a())]);
    assert_eq!(e.save(), Err(EditError::NoSpriteSheet));
    assert!(e.document().is_err());
}

#[test]
fn stroke_then_undo_restores_grid() {
    let mut e = Editor::new();
    paint(&mut e, &[((0, 0), tile_a()), ((2, 3), tile_b())]);
    let before = e.tiles();
    e.commit_stroke(&vec![(0, 0), (5, 5), (-1, -7), (5, 5)], tile_c());
    assert_eq!(e.get((-1, -7)), Some(tile_c()));
    e.undo();
    let mut after = e.tiles();
    let mut expected = before.clone();
    after.sort_by_key(|p| p.0);
    expected.sort_by_key(|p| p.0);
    assert_eq!(after, expected);
}

#[test]
fn undo_then_redo_restores_grid() {
    let mut e = Editor::new();
    paint(&mut e, &[((0, 0), tile_a())]);
    paint(&mut e, &[((0, 0), tile_b()), ((4, 4), tile_c())]);
    let before = e.tiles();
    e.undo();
    e.redo();
    assert_eq!(e.get((0, 0)), Some(tile_b()));
    assert_eq!(e.get((4, 4)), Some(tile_c()));
    assert_eq!(e.tiles().len(), before.len());
    assert_eq!(e.undo_len(), 2);
    assert_eq!(e.redo_len(), 0);
}

#[test]
fn history_keeps_five() {
    let mut e = Editor::new();
    for i in 0..7 {
        e.commit_stroke(&vec![(0, i)], tile_b());
        assert!(e.undo_len() <= 5);
    }
    assert_eq!(e.undo_len(), 5);
    for _ in 0..7 {
        e.undo();
        assert!(e.redo_len() <= 5);
    }
    assert_eq!(e.redo_len(), 5);
    assert_eq!(e.tiles(), vec![((0, 0), tile_b()), ((0, 1), tile_b())]);
}

#[test]
fn new_stroke_drops_redo() {
    let mut e = Editor::new();
    e.commit_stroke(&vec![(0, 0)], tile_a());
    e.undo();
    assert_eq!(e.redo_len(), 1);
    e.begin_stroke();
    assert_eq!(e.redo_len(), 0);
    e.touch((3, 3), tile_b());
    e.end_stroke();
    e.redo();
    assert_eq!(e.tiles(), vec![((3, 3), tile_b())]);
}

#[test]
fn reset_drops_redo_and_is_undoable() {
    let mut e = Editor::new();
    e.commit_stroke(&vec![(0, 0), (1, 0)], tile_a());
    e.commit_stroke(&vec![(2, 0)], tile_a());
    e.undo();
    assert_eq!(e.redo_len(), 1);
    e.reset();
    assert_eq!(e.redo_len(), 0);
    assert!(e.tiles().is_empty());
    e.redo();
    assert!(e.tiles().is_empty());
    e.undo();
    assert_eq!(e.tiles(), vec![((0, 0), tile_a()), ((1, 0), tile_a())]);
}

#[test]
fn reset_of_empty_grid_pushes_nothing() {
    let mut e = Editor::new();
    e.reset();
    assert_eq!(e.undo_len(), 0);
}

#[test]
fn revisit_keeps_pre_stroke_value() {
    let mut e = Editor::new();
    e.commit_stroke(&vec![(0, 0)], tile_a());
    e.begin_stroke();
    e.touch((0, 0), tile_b());
    e.touch((1, 0), tile_b());
    e.touch((0, 0), tile_c());
    assert_eq!(e.get((0, 0)), Some(tile_b()));
    e.end_stroke();
    e.undo();
    assert_eq!(e.tiles(), vec![((0, 0), tile_a())]);
}

#[test]
fn touch_outside_stroke_changes_nothing() {
    let mut e = Editor::new();
    e.touch((0, 0), tile_a());
    assert!(e.tiles().is_empty());
    assert!(!e.is_stroking());
    e.end_stroke();
    assert_eq!(e.undo_len(), 0);
}

#[test]
fn undo_and_redo_on_empty_histories() {
    let mut e = Editor::new();
    e.undo();
    e.redo();
    assert!(e.tiles().is_empty());
    assert_eq!(e.undo_len(), 0);
    assert_eq!(e.redo_len(), 0);
}

#[test]
fn pointer_drag_paints_one_stroke() {
    let mut e = Editor::new();
    e.pointer(Some((0, 0)), Some(tile_a()), true, false);
    e.pointer(Some((1, 0)), Some(tile_a()), false, false);
    e.pointer(Some((1, 0)), Some(tile_a()), false, true);
    assert_eq!(e.undo_len(), 1);
    assert_eq!(e.tiles(), vec![((0, 0), tile_a()), ((1, 0), tile_a())]);
    e.pointer(Some((5, 5)), None, true, false);
    e.pointer(None, Some(tile_a()), true, false);
    assert!(!e.is_stroking());
    e.undo();
    assert!(e.tiles().is_empty());
}

#[test]
fn keys_drive_undo_redo_and_save() {
    let mut e = Editor::new();
    e.commit_stroke(&vec![(0, 0)], tile_a());
    let undo = Keys { z_pressed: true, s_pressed: false, ctrl_held: true, shift_held: false };
    let redo = Keys { z_pressed: true, s_pressed: false, ctrl_held: true, shift_held: true };
    let save = Keys { z_pressed: false, s_pressed: true, ctrl_held: true, shift_held: false };
    assert!(!e.keys(undo));
    assert!(e.tiles().is_empty());
    assert!(!e.keys(redo));
    assert_eq!(e.tiles().len(), 1);
    assert!(e.keys(save));
    let plain_z = Keys { z_pressed: true, s_pressed: false, ctrl_held: false, shift_held: false };
    let s = shortcuts(plain_z);
    assert!(!s.undo && !s.redo && !s.save);
}

#[test]
fn grid_operations() {
    let mut g = Grid::new();
    assert!(g.is_empty());
    assert_eq!(g.set((0, 0), tile_a()), None);
    assert_eq!(g.set((1, 0), tile_b()), None);
    assert_eq!(g.set((2, 0), tile_c()), None);
    assert_eq!(g.set((0, 0), tile_c()), Some(tile_a()));
    assert_eq!(g.to_vec(), vec![((0, 0), tile_c()), ((1, 0), tile_b()), ((2, 0), tile_c())]);
    assert_eq!(g.remove((0, 0)), Some(tile_c()));
    assert_eq!(g.remove((0, 0)), None);
    assert_eq!(g.to_vec(), vec![((1, 0), tile_b()), ((2, 0), tile_c())]);
    assert_eq!(g.len(), 2);
    assert_eq!(g.get((1, 0)), Some(tile_b()));
    g.clear();
    assert!(g.is_empty());
}

#[test]
fn release_off_grid_ends_stroke() {
    let mut e = Editor::new();
    e.pointer(Some((0, 0)), Some(tile_a()), true, false);
    e.pointer(Some((1, 0)), Some(tile_a()), false, false);
    e.pointer(None, Some(tile_a()), false, true);
    assert!(!e.is_stroking());
    assert_eq!(e.undo_len(), 1);
    e.pointer(Some((2, 0)), Some(tile_b()), true, false);
    e.pointer(Some((2, 0)), None, false, true);
    assert!(!e.is_stroking());
    assert_eq!(e.undo_len(), 2);
    e.undo();
    e.undo();
    assert!(e.tiles().is_empty());
}
