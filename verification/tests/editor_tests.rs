use revom::editor::{CursorKind, DragMode, Editor, GridStatus, Key, Probe};
use revom::selection::{clicked_path, draw_order};

fn probe(mv: bool, w: bool, h: bool, hits: Vec<bool>) -> Probe {
    Probe { on_move_circle: mv, on_width_circle: w, on_height_circle: h, path_hits: hits }
}

fn editor3() -> Editor<u32> {
    let mut e = Editor::new(10u32);
    e.add_path(11);
    e.add_path(12);
    e
}

#[test]
fn new_editor_selects_its_path() {
    let e = Editor::new(5u32);
    assert_eq!(e.paths, vec![5]);
    assert_eq!(e.curr_path, Some(0));
    assert_eq!(e.grid_status, GridStatus::OnAndVisible);
}

#[test]
fn add_selects_new_path() {
    let e = editor3();
    assert_eq!(e.paths, vec![10, 11, 12]);
    assert_eq!(e.curr_path, Some(2));
}

#[test]
fn delete_removes_selected_and_selects_first() {
    let mut e = editor3();
    e.curr_path = Some(1);
    e.delete_path();
    assert_eq!(e.paths, vec![10, 12]);
    assert_eq!(e.curr_path, Some(0));
}

#[test]
fn delete_keeps_last_path() {
    let mut e = Editor::new(1u32);
    e.delete_path();
    assert_eq!(e.paths, vec![1]);
    assert_eq!(e.curr_path, Some(0));
}

#[test]
fn delete_without_selection_does_nothing() {
    let mut e = editor3();
    e.curr_path = None;
    e.delete_path();
    assert_eq!(e.paths.len(), 3);
    assert_eq!(e.curr_path, None);
}

#[test]
fn next_cycles_through_paths() {
    let mut e = editor3();
    e.curr_path = Some(0);
    let mut seen = vec![];
    for _ in 0..3 {
        e.next_path();
        seen.push(e.curr_path);
    }
    assert_eq!(seen, vec![Some(1), Some(2), Some(0)]);
    e.curr_path = None;
    e.next_path();
    assert_eq!(e.curr_path, Some(0));
}

#[test]
fn held_key_fires_once() {
    let mut e = Editor::new(0u32);
    assert!(!e.press_key(Key::P, true));
    assert!(!e.press_key(Key::P, false));
    assert!(e.press_key(Key::P, true));
    assert!(!e.press_key(Key::P, true));
    assert!(!e.press_key(Key::P, false));
    assert!(e.press_key(Key::P, true));
    assert!(!e.press_key(Key::N, true));
}

#[test]
fn grid_button_cycles() {
    let mut e = Editor::new(0u32);
    e.click_grid_button();
    assert_eq!(e.grid_status, GridStatus::OnButInvisible);
    e.click_grid_button();
    assert_eq!(e.grid_status, GridStatus::Off);
    assert!(!e.grid_status.is_visible());
    e.click_grid_button();
    assert_eq!(e.grid_status, GridStatus::OnAndVisible);
    assert!(e.grid_status.is_visible());
}

#[test]
fn import_takes_last_map_and_clears_selection() {
    let mut e = editor3();
    e.import_map(vec![vec![1, 2], vec![7]]);
    assert_eq!(e.paths, vec![7]);
    assert_eq!(e.curr_path, None);
    e.curr_path = Some(0);
    e.import_map(vec![]);
    assert_eq!(e.paths, vec![7]);
    assert_eq!(e.curr_path, None);
}

#[test]
fn clicked_path_searches_after_selection_first() {
    let hits = vec![true, false, true, false, true];
    assert_eq!(clicked_path(&hits, Some(2)), Some(4));
    assert_eq!(clicked_path(&hits, Some(4)), Some(0));
    assert_eq!(clicked_path(&hits, None), Some(0));
    assert_eq!(clicked_path(&vec![false, true, false], Some(1)), Some(1));
    assert_eq!(clicked_path(&vec![false, false], None), None);
    assert_eq!(clicked_path(&vec![false, true], Some(7)), Some(1));
}

#[test]
fn press_on_move_handle_starts_moving() {
    let mut e = editor3();
    e.pointer_up();
    let probes = vec![
        probe(false, true, false, vec![false; 3]),
        probe(true, false, false, vec![false; 3]),
        probe(false, false, true, vec![false; 3]),
    ];
    assert_eq!(e.cursor(&probes), CursorKind::ResizeVertical);
    e.pointer_down(true, &probes);
    assert!(e.move_path);
    assert_eq!(e.adjust_w, 2);
    assert!(!e.adjust_h);
    assert!(!e.click_armed);
    assert_eq!(e.drag_mode(), DragMode::Move);
    e.pointer_up();
    assert_eq!(e.drag_mode(), DragMode::Idle);
}

#[test]
fn press_on_width_handle_records_handle() {
    let mut e = editor3();
    e.pointer_up();
    let probes = vec![
        probe(false, false, false, vec![false; 3]),
        probe(false, true, false, vec![false; 3]),
        probe(false, false, false, vec![false; 3]),
    ];
    e.pointer_down(true, &probes);
    assert_eq!(e.adjust_w, 1);
    assert_eq!(e.drag_mode(), DragMode::Width(1));
    assert_eq!(e.curr_path, Some(2));
}

#[test]
fn press_on_path_selects_it() {
    let mut e = editor3();
    e.curr_path = Some(0);
    e.pointer_up();
    let probes = vec![
        probe(false, false, false, vec![false, false, true]),
        probe(false, false, false, vec![false, true, false]),
        probe(false, false, false, vec![false; 3]),
    ];
    e.pointer_down(true, &probes);
    assert_eq!(e.curr_path, Some(1));
    // Holding the button does nothing more.
    let probes2 = vec![
        probe(false, false, false, vec![true, true, true]),
        probe(false, false, false, vec![true, true, true]),
        probe(false, false, false, vec![true, true, true]),
    ];
    e.pointer_down(true, &probes2);
    assert_eq!(e.curr_path, Some(1));
}

#[test]
fn press_on_empty_map_clears_selection() {
    let mut e = editor3();
    e.pointer_up();
    let probes = vec![
        probe(false, false, false, vec![false; 3]),
        probe(false, false, false, vec![false; 3]),
        probe(false, false, false, vec![false; 3]),
    ];
    e.pointer_down(true, &probes);
    assert_eq!(e.curr_path, None);
    assert_eq!(e.drag_mode(), DragMode::Idle);
}

#[test]
fn press_on_toolbar_disarms() {
    let mut e = editor3();
    e.pointer_up();
    let probes = vec![
        probe(true, false, false, vec![false; 3]),
        probe(false, false, false, vec![false; 3]),
        probe(false, false, false, vec![false; 3]),
    ];
    e.pointer_down(false, &probes);
    assert!(!e.click_armed);
    assert!(!e.move_path);
    assert_eq!(e.curr_path, Some(2));
}

#[test]
fn draws_by_layer_then_position() {
    assert_eq!(draw_order(&vec![3, 1, 3, 0, 11, 1, 10]), vec![1, 5, 0, 2, 6]);
    assert_eq!(draw_order(&vec![]), Vec::<usize>::new());
}
