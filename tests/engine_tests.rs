use pixelarteditor::clock::AnimationClock;
use pixelarteditor::composite::{blend, composite_frame};
use pixelarteditor::document::{BlendMode, Document, EditCommand, Layer};
use pixelarteditor::fill::{fill_command, flood_fill_cells};
use pixelarteditor::history::HistoryStack;
use pixelarteditor::pixel::{Color, EditorError};
use pixelarteditor::plugin::{Capabilities, PluginDescriptor, PluginRegistry};
use pixelarteditor::resize::{resize_canvas, Anchor};
use pixelarteditor::shortcuts::{shortcut, EditorAction, Key, Modifiers};
use pixelarteditor::tools::{ToolEngine, ToolKind};

fn red() -> Color {
    Color::rgba(255, 0, 0, 255)
}

fn cells(d: &Document) -> Vec<Color> {
    d.frames()[0].layers[0].pixels.cells.clone()
}

#[test]
fn fill_uniform_buffer_fills_everything() {
    let d = Document::new(3, 3, "bg".to_string());
    let cmd = fill_command(&d, 1, 1, red()).unwrap().unwrap();
    match &cmd {
        EditCommand::Paint { after, .. } => assert_eq!(after.clone(), vec![red(); 9]),
        _ => panic!("fill must paint"),
    }
    let mut d = d;
    assert_eq!(d.apply(&cmd), Ok(()));
    assert_eq!(cells(&d), vec![red(); 9]);
}

#[test]
fn fill_single_pixel_same_color_is_noop() {
    let d = Document::new(1, 1, "bg".to_string());
    assert!(fill_command(&d, 0, 0, Color::clear()).unwrap().is_none());
}

#[test]
fn fill_off_canvas_is_out_of_bounds() {
    let d = Document::new(2, 2, "bg".to_string());
    assert_eq!(fill_command(&d, 2, 0, red()).err(), Some(EditorError::OutOfBounds));
}

#[test]
fn fill_stops_at_other_colors() {
    let w = Color::rgba(255, 255, 255, 255);
    let k = Color::rgba(0, 0, 0, 255);
    // a 3x3 grid with a black middle column
    let grid = vec![w, k, w, w, k, w, w, k, w];
    let out = flood_fill_cells(&grid, 3, 0, red());
    assert_eq!(out, vec![red(), k, w, red(), k, w, red(), k, w]);
    // does not wrap across the row edge
    let row = vec![w, k, w, w];
    let out = flood_fill_cells(&row, 2, 1, red());
    assert_eq!(out, vec![w, red(), w, w]);
}

#[test]
fn zero_fps_never_advances() {
    let mut c = AnimationClock::new(0);
    c.set_playing(true);
    for _ in 0..1000 {
        c.tick(1_000_000, 5);
    }
    assert_eq!(c.current_frame, 0);
}

#[test]
fn clock_advances_and_wraps() {
    let mut c = AnimationClock::new(10);
    c.tick(200_000, 3);
    assert_eq!(c.current_frame, 0);
    c.set_playing(true);
    c.tick(100_000, 3);
    assert_eq!(c.current_frame, 0);
    assert_eq!(c.accumulated_us, 100_000);
    c.tick(1, 3);
    assert_eq!(c.current_frame, 1);
    assert_eq!(c.accumulated_us, 0);
    c.tick(150_000, 3);
    c.tick(150_000, 3);
    assert_eq!(c.current_frame, 0);
    c.set_playing(false);
    c.tick(500_000, 3);
    assert_eq!(c.current_frame, 0);
}

#[test]
fn view_only_plugin_cannot_resize() {
    let mut reg = PluginRegistry::new();
    reg.register(PluginDescriptor {
        id: 7,
        name: "viewer".to_string(),
        capabilities: Capabilities::view_only(),
    });
    let mut d = Document::new(2, 2, "bg".to_string());
    let mut h = HistoryStack::new(4);
    let cmd = resize_canvas(&d, 4, 4, Anchor::TopLeft);
    assert_eq!(reg.submit_command(7, cmd, &mut h, &mut d), Err(EditorError::Unauthorized));
    assert_eq!(d.width(), 2);
    assert_eq!(d.height(), 2);
    assert_eq!(h.undo_len(), 0);
}

#[test]
fn granted_plugin_goes_through_history() {
    let mut reg = PluginRegistry::new();
    reg.register(PluginDescriptor {
        id: 1,
        name: "resizer".to_string(),
        capabilities: Capabilities::view_only(),
    });
    let mut caps = Capabilities::view_only();
    caps.resize = true;
    assert!(reg.configure(1, caps));
    assert!(!reg.configure(2, caps));
    assert_eq!(reg.list_plugins().len(), 1);
    let mut d = Document::new(2, 2, "bg".to_string());
    let mut h = HistoryStack::new(4);
    let cmd = resize_canvas(&d, 3, 3, Anchor::TopLeft);
    assert_eq!(reg.submit_command(1, cmd, &mut h, &mut d), Ok(()));
    assert_eq!(d.width(), 3);
    assert_eq!(h.undo_len(), 1);
    let unknown = resize_canvas(&d, 1, 1, Anchor::TopLeft);
    assert_eq!(reg.submit_command(9, unknown, &mut h, &mut d), Err(EditorError::Unauthorized));
}

#[test]
fn composite_blends_visible_layers() {
    let mut d = Document::new(1, 1, "bg".to_string());
    let before = cells(&d);
    let paint = EditCommand::Paint { frame: 0, layer: 0, before, after: vec![red()] };
    assert_eq!(d.apply(&paint), Ok(()));
    assert_eq!(composite_frame(&d, 0).unwrap(), vec![red()]);
    assert_eq!(composite_frame(&d, 1), Err(EditorError::FrameIndexOutOfRange));

    let mut top = Layer::new("top".to_string(), 1, 1);
    top.pixels.cells[0] = Color::rgba(0, 0, 255, 255);
    top.set_opacity(50);
    let add = EditCommand::AddLayer {
        frame: 0,
        index: 1,
        layer: top,
        cursor_before: d.cursor(),
        cursor_after: d.cursor(),
    };
    assert_eq!(d.apply(&add), Ok(()));
    // effective alpha 255 * 50 / 100 = 127
    // red: (0 * 127 + 255 * 128) / 255 = 128, blue: (255 * 127) / 255 = 127
    assert_eq!(composite_frame(&d, 0).unwrap(), vec![Color::rgba(128, 0, 127, 255)]);
}

#[test]
fn blend_modes_exact_values() {
    let s = Color::rgba(100, 200, 50, 255);
    let dst = Color::rgba(200, 100, 250, 255);
    assert_eq!(blend(s, dst, BlendMode::Normal, 100), s);
    assert_eq!(blend(s, dst, BlendMode::Multiply, 100), Color::rgba(78, 78, 49, 255));
    assert_eq!(blend(s, dst, BlendMode::Add, 100), Color::rgba(255, 255, 255, 255));
    assert_eq!(blend(s, dst, BlendMode::Screen, 100), Color::rgba(222, 222, 251, 255));
    assert_eq!(blend(s, Color::clear(), BlendMode::Normal, 0), Color::clear());
}

#[test]
fn shortcuts_map_to_actions() {
    let ctrl = Modifiers { ctrl: true, shift: false, alt: false };
    let ctrl_shift = Modifiers { ctrl: true, shift: true, alt: false };
    let ctrl_alt = Modifiers { ctrl: true, shift: false, alt: true };
    let none = Modifiers { ctrl: false, shift: false, alt: false };
    assert_eq!(shortcut(ctrl, Key::Z), Some(EditorAction::Undo));
    assert_eq!(shortcut(ctrl_shift, Key::Z), Some(EditorAction::Redo));
    assert_eq!(shortcut(ctrl, Key::S), Some(EditorAction::QuickSave));
    assert_eq!(shortcut(ctrl_shift, Key::S), Some(EditorAction::SaveAll));
    assert_eq!(shortcut(ctrl_alt, Key::S), Some(EditorAction::OpenExport));
    assert_eq!(shortcut(ctrl, Key::Plus), Some(EditorAction::ZoomIn));
    assert_eq!(shortcut(ctrl, Key::Minus), Some(EditorAction::ZoomOut));
    assert_eq!(shortcut(ctrl, Key::Num0), Some(EditorAction::ResetZoom));
    assert_eq!(shortcut(ctrl, Key::Home), Some(EditorAction::CenterCanvas));
    assert_eq!(shortcut(none, Key::Z), None);
    assert_eq!(shortcut(ctrl, Key::Other), None);
}

#[test]
fn pencil_stroke_emits_on_up() {
    let d = Document::new(3, 1, "bg".to_string());
    let mut t = ToolEngine::new(ToolKind::Pencil, red());
    t.pointer_down(0, 0, 3, 1);
    t.pointer_move(2, 0, 3, 1);
    t.pointer_move(9, 0, 3, 1);
    let cmd = t.pointer_up(&d).unwrap();
    match &cmd {
        EditCommand::Paint { after, .. } => {
            assert_eq!(after.clone(), vec![red(), Color::clear(), red()])
        }
        _ => panic!("pencil must paint"),
    }
    assert!(!t.active);
    assert!(t.pointer_up(&d).is_none());
}

#[test]
fn cancel_and_empty_strokes_emit_nothing() {
    let d = Document::new(2, 1, "bg".to_string());
    let mut t = ToolEngine::new(ToolKind::Eraser, red());
    t.pointer_down(0, 0, 2, 1);
    assert!(t.pointer_up(&d).is_none());
    let mut p = ToolEngine::new(ToolKind::Pencil, red());
    p.pointer_down(1, 0, 2, 1);
    p.cancel();
    assert!(p.pointer_up(&d).is_none());
    let mut s = ToolEngine::new(ToolKind::Select, red());
    s.pointer_down(1, 0, 2, 1);
    assert!(s.pointer_up(&d).is_none());
}

#[test]
fn switching_tool_flushes_stroke() {
    let d = Document::new(2, 1, "bg".to_string());
    let mut t = ToolEngine::new(ToolKind::Pencil, red());
    t.pointer_down(1, 0, 2, 1);
    let cmd = t.switch_tool(ToolKind::Fill, &d);
    assert!(cmd.is_some());
    assert_eq!(t.kind, ToolKind::Fill);
    assert_eq!(t.phase_ms, 0);
    t.pointer_down(0, 0, 2, 1);
    let fill = t.pointer_up(&d).unwrap();
    match &fill {
        EditCommand::Paint { after, .. } => assert_eq!(after.clone(), vec![red(), red()]),
        _ => panic!("fill must paint"),
    }
}

#[test]
fn tool_phase_wraps_at_period() {
    let mut t = ToolEngine::new(ToolKind::Select, red());
    t.tick(500);
    assert_eq!(t.phase_ms, 500);
    t.tick(500);
    assert_eq!(t.phase_ms, 200);
    t.tick(1600);
    assert_eq!(t.phase_ms, 200);
}

#[test]
fn out_of_range_opacity_is_drawn_clamped() {
    let mut d = Document::new(1, 1, "bg".to_string());
    let mut top = Layer::new("top".to_string(), 1, 1);
    top.pixels.cells[0] = Color::rgba(0, 255, 0, 255);
    top.opacity = 200;
    assert_eq!(top.effective_opacity(), 100);
    let add = d.add_layer_command(0, 1, top).unwrap();
    assert_eq!(d.apply(&add), Ok(()));
    assert_eq!(d.frames()[0].layers[1].opacity, 200);
    assert_eq!(composite_frame(&d, 0).unwrap(), vec![Color::rgba(0, 255, 0, 255)]);
}

#[test]
fn clock_wraps_modulo_frame_count() {
    let mut c = AnimationClock::new(1);
    c.set_playing(true);
    c.current_frame = 6;
    c.tick(2_000_000, 3);
    assert_eq!(c.current_frame, 1);
}

#[test]
fn half_transparent_over_transparent_keeps_color() {
    let half_red = Color::rgba(255, 0, 0, 255);
    assert_eq!(blend(half_red, Color::clear(), BlendMode::Normal, 50), Color::rgba(255, 0, 0, 127));
    assert_eq!(
        blend(Color::rgba(255, 0, 0, 128), Color::clear(), BlendMode::Normal, 100),
        Color::rgba(255, 0, 0, 128)
    );
}

#[test]
fn blend_clamps_opacity() {
    let s = Color::rgba(10, 20, 30, 255);
    let d = Color::rgba(200, 200, 200, 255);
    assert_eq!(blend(s, d, BlendMode::Normal, 250), blend(s, d, BlendMode::Normal, 100));
    assert_eq!(blend(s, d, BlendMode::Normal, 250), s);
}

#[test]
fn configure_leaves_other_plugins_alone() {
    let mut reg = PluginRegistry::new();
    let mut all = Capabilities::view_only();
    all.paint = true;
    reg.register(PluginDescriptor { id: 1, name: "a".to_string(), capabilities: all });
    reg.register(PluginDescriptor { id: 2, name: "b".to_string(), capabilities: Capabilities::view_only() });
    let mut caps = Capabilities::view_only();
    caps.resize = true;
    assert!(reg.configure(2, caps));
    assert_eq!(reg.list_plugins()[0].capabilities, all);
    assert_eq!(reg.list_plugins()[1].capabilities, caps);
    assert_eq!(reg.list_plugins()[1].name, "b");
}

#[test]
fn shape_fills_rectangle_between_corners() {
    let d = Document::new(3, 3, "bg".to_string());
    let mut t = ToolEngine::new(ToolKind::Shape, red());
    t.pointer_down(2, 1, 3, 3);
    t.pointer_move(0, 0, 3, 3);
    let cmd = t.pointer_up(&d).unwrap();
    let z = Color::clear();
    match &cmd {
        EditCommand::Paint { after, .. } => {
            assert_eq!(after.clone(), vec![red(), red(), red(), red(), red(), red(), z, z, z])
        }
        _ => panic!("shape must paint"),
    }
}

#[test]
fn release_off_canvas_aborts_stroke() {
    let d = Document::new(2, 2, "bg".to_string());
    let mut t = ToolEngine::new(ToolKind::Pencil, red());
    t.pointer_down(0, 0, 2, 2);
    assert!(t.pointer_up_at(5, 0, &d).is_none());
    assert!(!t.active);
    t.pointer_down(0, 0, 2, 2);
    let cmd = t.pointer_up_at(1, 1, &d).unwrap();
    match &cmd {
        EditCommand::Paint { after, .. } => {
            assert_eq!(after.clone(), vec![red(), Color::clear(), Color::clear(), red()])
        }
        _ => panic!("pencil must paint"),
    }
}
