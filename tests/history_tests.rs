use pixelarteditor::document::{Document, EditCommand};
use pixelarteditor::history::HistoryStack;
use pixelarteditor::pixel::{Color, EditorError};

fn cells(d: &Document) -> Vec<Color> {
    d.frames()[0].layers[0].pixels.cells.clone()
}

fn paint(d: &Document, c: Color) -> EditCommand {
    let before = cells(d);
    let after = vec![c; before.len()];
    EditCommand::Paint { frame: 0, layer: 0, before, after }
}

#[test]
fn n_commands_then_n_undos_restore() {
    let mut d = Document::new(2, 1, "bg".to_string());
    let orig = cells(&d);
    let mut h = HistoryStack::new(10);
    for i in 1..=4u8 {
        let c = paint(&d, Color::rgba(i, i, i, 255));
        assert_eq!(h.push_and_apply(c, &mut d), Ok(()));
        let add = EditCommand::AddColor { index: 0, color: Color::rgba(i, 0, 0, 255) };
        assert_eq!(h.push_and_apply(add, &mut d), Ok(()));
    }
    assert_eq!(h.undo_len(), 8);
    for _ in 0..8 {
        assert!(h.undo(&mut d));
    }
    assert!(!h.undo(&mut d));
    assert_eq!(cells(&d), orig);
    assert!(d.palette().is_empty());
}

#[test]
fn redo_after_undo_restores() {
    let mut d = Document::new(2, 2, "bg".to_string());
    let mut h = HistoryStack::new(5);
    let red = Color::rgba(255, 0, 0, 255);
    assert_eq!(h.push_and_apply(paint(&d, red), &mut d), Ok(()));
    let painted = cells(&d);
    assert!(h.undo(&mut d));
    assert_eq!(cells(&d), vec![Color::clear(); 4]);
    assert_eq!(h.redo_len(), 1);
    assert!(h.redo(&mut d));
    assert_eq!(cells(&d), painted);
    assert!(!h.redo(&mut d));
}

#[test]
fn push_after_undo_clears_redo() {
    let mut d = Document::new(1, 1, "bg".to_string());
    let mut h = HistoryStack::new(5);
    assert_eq!(h.push_and_apply(paint(&d, Color::rgba(1, 1, 1, 255)), &mut d), Ok(()));
    assert!(h.undo(&mut d));
    assert_eq!(h.redo_len(), 1);
    assert_eq!(h.push_and_apply(paint(&d, Color::rgba(2, 2, 2, 255)), &mut d), Ok(()));
    assert_eq!(h.redo_len(), 0);
    assert!(!h.redo(&mut d));
}

#[test]
fn failed_push_changes_nothing() {
    let mut d = Document::new(1, 1, "bg".to_string());
    let mut h = HistoryStack::new(5);
    let bad = EditCommand::Paint { frame: 3, layer: 0, before: vec![], after: vec![] };
    assert_eq!(h.push_and_apply(bad, &mut d), Err(EditorError::InvalidTarget));
    assert_eq!(h.undo_len(), 0);
    assert_eq!(cells(&d), vec![Color::clear()]);
}

#[test]
fn oldest_entries_are_evicted() {
    let mut d = Document::new(1, 1, "bg".to_string());
    let mut h = HistoryStack::new(2);
    for i in 1..=3u8 {
        assert_eq!(h.push_and_apply(paint(&d, Color::rgba(i, 0, 0, 255)), &mut d), Ok(()));
    }
    assert_eq!(h.undo_len(), 2);
    assert!(h.undo(&mut d));
    assert!(h.undo(&mut d));
    assert!(!h.undo(&mut d));
    assert_eq!(cells(&d), vec![Color::rgba(1, 0, 0, 255)]);
}

#[test]
fn zero_capacity_keeps_nothing() {
    let mut d = Document::new(1, 1, "bg".to_string());
    let mut h = HistoryStack::new(0);
    assert_eq!(h.push_and_apply(paint(&d, Color::rgba(9, 0, 0, 255)), &mut d), Ok(()));
    assert_eq!(h.undo_len(), 0);
    assert!(!h.undo(&mut d));
    assert_eq!(cells(&d), vec![Color::rgba(9, 0, 0, 255)]);
}
