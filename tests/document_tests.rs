use pixelarteditor::document::{BlendMode, Cursor, Document, EditCommand, Frame, Layer};
use pixelarteditor::pixel::{Color, EditorError, PixelBuffer};
use pixelarteditor::resize::{resize_canvas, Anchor};

type LayerSnap = (String, bool, u8, BlendMode, usize, usize, Vec<Color>);

fn snapshot(d: &Document) -> (usize, usize, Cursor, Vec<Color>, Vec<Vec<LayerSnap>>) {
    let frames = d
        .frames()
        .iter()
        .map(|f| {
            f.layers
                .iter()
                .map(|l| {
                    (
                        l.name.clone(),
                        l.visible,
                        l.opacity,
                        l.blend_mode,
                        l.pixels.width,
                        l.pixels.height,
                        l.pixels.cells.clone(),
                    )
                })
                .collect()
        })
        .collect();
    (d.width(), d.height(), d.cursor(), d.palette().clone(), frames)
}

fn red() -> Color {
    Color::rgba(255, 0, 0, 255)
}

fn cells_of(d: &Document, f: usize, l: usize) -> Vec<Color> {
    d.frames()[f].layers[l].pixels.cells.clone()
}

fn paint_all(d: &Document, c: Color) -> EditCommand {
    let before = cells_of(d, 0, 0);
    let after = vec![c; before.len()];
    EditCommand::Paint { frame: 0, layer: 0, before, after }
}

#[test]
fn new_document_is_transparent() {
    let d = Document::new(3, 2, "bg".to_string());
    assert_eq!(d.width(), 3);
    assert_eq!(d.height(), 2);
    assert_eq!(d.frame_count(), 1);
    assert_eq!(cells_of(&d, 0, 0), vec![Color::clear(); 6]);
    assert_eq!(d.cursor(), Cursor { frame: 0, layer: 0 });
}

#[test]
fn pixel_buffer_get_and_set() {
    let mut b = PixelBuffer::new(2, 2);
    assert_eq!(b.set(1, 0, red()), Ok(()));
    assert_eq!(b.get(1, 0), Ok(red()));
    assert_eq!(b.cells[1], red());
    assert_eq!(b.get(2, 0), Err(EditorError::OutOfBounds));
    assert_eq!(b.set(0, 2, red()), Err(EditorError::OutOfBounds));
}

#[test]
fn apply_then_inverse_restores_paint() {
    let mut d = Document::new(2, 2, "bg".to_string());
    let orig = snapshot(&d);
    let c = paint_all(&d, red());
    assert_eq!(d.apply(&c), Ok(()));
    assert_eq!(cells_of(&d, 0, 0), vec![red(); 4]);
    let inv = c.inverse();
    assert_eq!(d.apply(&inv), Ok(()));
    assert_eq!(snapshot(&d), orig);
}

#[test]
fn apply_then_inverse_restores_palette_and_layers() {
    let mut d = Document::new(2, 2, "bg".to_string());
    let orig = snapshot(&d);
    let add = EditCommand::AddColor { index: 0, color: red() };
    assert_eq!(d.apply(&add), Ok(()));
    assert_eq!(d.palette().clone(), vec![red()]);
    assert_eq!(d.apply(&add.inverse()), Ok(()));
    assert_eq!(snapshot(&d), orig);

    let layer = Layer::new("top".to_string(), 2, 2);
    let add_layer = EditCommand::AddLayer {
        frame: 0,
        index: 1,
        layer,
        cursor_before: Cursor { frame: 0, layer: 0 },
        cursor_after: Cursor { frame: 0, layer: 1 },
    };
    assert_eq!(d.apply(&add_layer), Ok(()));
    assert_eq!(d.frames()[0].layers.len(), 2);
    assert_eq!(d.cursor(), Cursor { frame: 0, layer: 1 });
    assert_eq!(d.apply(&add_layer.inverse()), Ok(()));
    assert_eq!(snapshot(&d), orig);
}

#[test]
fn add_and_remove_frame() {
    let mut d = Document::new(1, 1, "bg".to_string());
    let orig = snapshot(&d);
    let frame = Frame::new(Layer::new("f2".to_string(), 1, 1));
    let add = EditCommand::AddFrame {
        index: 1,
        frame,
        cursor_before: Cursor { frame: 0, layer: 0 },
        cursor_after: Cursor { frame: 1, layer: 0 },
    };
    assert_eq!(d.apply(&add), Ok(()));
    assert_eq!(d.frame_count(), 2);
    let rm = add.inverse();
    assert_eq!(d.apply(&rm), Ok(()));
    assert_eq!(snapshot(&d), orig);
}

#[test]
fn removing_the_last_frame_is_refused() {
    let mut d = Document::new(1, 1, "bg".to_string());
    let frame = Frame::new(Layer::new("bg".to_string(), 1, 1));
    let rm = EditCommand::RemoveFrame {
        index: 0,
        frame,
        cursor_before: Cursor { frame: 0, layer: 0 },
        cursor_after: Cursor { frame: 0, layer: 0 },
    };
    let before = snapshot(&d);
    assert_eq!(d.apply(&rm), Err(EditorError::InvalidTarget));
    assert_eq!(snapshot(&d), before);
}

#[test]
fn paint_with_wrong_size_is_dimension_mismatch() {
    let mut d = Document::new(2, 2, "bg".to_string());
    let before = snapshot(&d);
    let c = EditCommand::Paint {
        frame: 0,
        layer: 0,
        before: vec![Color::clear(); 4],
        after: vec![red(); 3],
    };
    assert_eq!(d.apply(&c), Err(EditorError::DimensionMismatch));
    assert_eq!(snapshot(&d), before);
}

#[test]
fn paint_on_missing_layer_is_invalid_target() {
    let mut d = Document::new(2, 2, "bg".to_string());
    let c = EditCommand::Paint {
        frame: 0,
        layer: 5,
        before: vec![Color::clear(); 4],
        after: vec![red(); 4],
    };
    assert_eq!(d.apply(&c), Err(EditorError::InvalidTarget));
    let stale = EditCommand::Paint {
        frame: 0,
        layer: 0,
        before: vec![red(); 4],
        after: vec![Color::clear(); 4],
    };
    assert_eq!(d.apply(&stale), Err(EditorError::InvalidTarget));
}

#[test]
fn duplicate_palette_color_is_refused() {
    let mut d = Document::new(1, 1, "bg".to_string());
    assert_eq!(d.apply(&EditCommand::AddColor { index: 0, color: red() }), Ok(()));
    assert_eq!(
        d.apply(&EditCommand::AddColor { index: 1, color: red() }),
        Err(EditorError::InvalidTarget)
    );
    assert_eq!(d.palette().len(), 1);
}

#[test]
fn select_out_of_bounds() {
    let mut d = Document::new(1, 1, "bg".to_string());
    assert_eq!(d.select(1, 0), Err(EditorError::OutOfBounds));
    assert_eq!(d.select(0, 0), Ok(()));
}

#[test]
fn opacity_is_clamped() {
    let mut l = Layer::new("l".to_string(), 1, 1);
    l.set_opacity(250);
    assert_eq!(l.opacity, 100);
    l.set_opacity(40);
    assert_eq!(l.opacity, 40);
}

#[test]
fn resize_top_left_and_undo() {
    let mut d = Document::new(2, 2, "bg".to_string());
    let c = Color::rgba(10, 20, 30, 255);
    assert_eq!(d.apply(&paint_all(&d, c)), Ok(()));
    let orig = snapshot(&d);
    let cmd = resize_canvas(&d, 4, 4, Anchor::TopLeft);
    assert_eq!(d.apply(&cmd), Ok(()));
    assert_eq!(d.width(), 4);
    assert_eq!(d.height(), 4);
    let cells = cells_of(&d, 0, 0);
    assert_eq!(cells.len(), 16);
    let mut transparent_count = 0;
    for y in 0..4 {
        for x in 0..4 {
            let v = cells[y * 4 + x];
            if x < 2 && y < 2 {
                assert_eq!(v, c);
            } else {
                assert_eq!(v, Color::clear());
                transparent_count += 1;
            }
        }
    }
    assert_eq!(transparent_count, 12);
    assert_eq!(d.apply(&cmd.inverse()), Ok(()));
    assert_eq!(snapshot(&d), orig);
}

#[test]
fn resize_center_and_shrink() {
    let mut d = Document::new(2, 2, "bg".to_string());
    let c = Color::rgba(1, 2, 3, 255);
    assert_eq!(d.apply(&paint_all(&d, c)), Ok(()));
    let grow = resize_canvas(&d, 4, 4, Anchor::Center);
    assert_eq!(d.apply(&grow), Ok(()));
    let cells = cells_of(&d, 0, 0);
    assert_eq!(cells[1 * 4 + 1], c);
    assert_eq!(cells[2 * 4 + 2], c);
    assert_eq!(cells[0], Color::clear());
    let shrink = resize_canvas(&d, 1, 1, Anchor::BottomRight);
    assert_eq!(d.apply(&shrink), Ok(()));
    assert_eq!(cells_of(&d, 0, 0), vec![Color::clear()]);
}

#[test]
fn removing_current_last_frame_clamps_cursor_and_undo_restores_it() {
    let mut d = Document::new(1, 1, "bg".to_string());
    let add = d.add_frame_command(1, Frame::new(Layer::new("f2".to_string(), 1, 1))).unwrap();
    assert_eq!(d.apply(&add), Ok(()));
    assert_eq!(d.cursor(), Cursor { frame: 1, layer: 0 });
    let before = snapshot(&d);
    let rm = d.remove_frame_command(1).unwrap();
    assert_eq!(d.apply(&rm), Ok(()));
    assert_eq!(d.frame_count(), 1);
    assert_eq!(d.cursor(), Cursor { frame: 0, layer: 0 });
    assert_eq!(d.apply(&rm.inverse()), Ok(()));
    assert_eq!(snapshot(&d), before);
    assert!(d.remove_frame_command(5).is_err());
}

#[test]
fn removing_layers_clamps_cursor() {
    let mut d = Document::new(1, 1, "bg".to_string());
    let add = d.add_layer_command(0, 1, Layer::new("top".to_string(), 1, 1)).unwrap();
    assert_eq!(d.apply(&add), Ok(()));
    assert_eq!(d.cursor(), Cursor { frame: 0, layer: 1 });
    let rm = d.remove_layer_command(0, 1).unwrap();
    assert_eq!(d.apply(&rm), Ok(()));
    assert_eq!(d.cursor(), Cursor { frame: 0, layer: 0 });
    assert_eq!(d.remove_layer_command(0, 0).err(), Some(EditorError::InvalidTarget));
    assert_eq!(
        d.add_layer_command(0, 0, Layer::new("big".to_string(), 2, 2)).err(),
        Some(EditorError::DimensionMismatch)
    );
}
