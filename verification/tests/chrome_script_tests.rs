use voidgrid::chrome::{ChromeInput, CursorShape, ResizeEdge, WindowChrome, WindowCommand};
use voidgrid::input::DropZone;
use voidgrid::resource::{normalize_archive_path, strip_bom};
use voidgrid::script::{
    buffer_extent, buffer_z_action, cell_at, char_action, cursor_action, mouse_cell, report_key, script_color,
    variant_text_actions, BufferSnapshot, ScriptBook,
};
use voidgrid::strmap::StrMap;
use voidgrid::terminal::Action;
use voidgrid::types::Color;

fn idle_input(mx: i32, my: i32) -> ChromeInput {
    ChromeInput {
        mouse_x: mx,
        mouse_y: my,
        in_chrome_zone: my < 40,
        over_close: false,
        over_maximize: false,
        over_minimize: false,
        over_drag: false,
        pressed: false,
        down: false,
        released: false,
        screen_w: 800,
        screen_h: 600,
        window_pos: (100, 100),
        monitor_size: (1920, 1080),
        key_f10: false,
        key_f11: false,
        key_escape: false,
    }
}

#[test]
fn chrome_layout_from_the_right() {
    let c = WindowChrome::new(800, 600);
    let r = c.layout(800);
    assert_eq!((r.close.x, r.close.y, r.close.w), (800 - 4 - 24, 4, 24));
    assert_eq!(r.maximize.x, 800 - 8 - 48);
    assert_eq!(r.minimize.x, 800 - 12 - 72);
    assert_eq!((r.drag.x, r.drag.w), (800 - 16 - 72 - 60, 60));
}

#[test]
fn chrome_detects_edges() {
    let c = WindowChrome::new(800, 600);
    assert_eq!(c.detect_edge(2, 2, 800, 600), ResizeEdge::TopLeft);
    assert_eq!(c.detect_edge(798, 300, 800, 600), ResizeEdge::Right);
    assert_eq!(c.detect_edge(400, 599, 800, 600), ResizeEdge::Bottom);
    assert_eq!(c.detect_edge(400, 300, 800, 600), ResizeEdge::NoEdge);
    assert_eq!(ResizeEdge::Right.cursor_type(), CursorShape::ResizeEw);
}

#[test]
fn chrome_close_button_closes() {
    let mut c = WindowChrome::new(800, 600);
    let mut i = idle_input(780, 10);
    i.over_close = true;
    i.pressed = true;
    let step = c.update(&i);
    assert!(step.close);
    assert!(c.chrome_visible);
}

#[test]
fn chrome_escape_closes_when_windowed() {
    let mut c = WindowChrome::new(800, 600);
    let mut i = idle_input(400, 300);
    i.key_escape = true;
    assert!(c.update(&i).close);
}

#[test]
fn chrome_hover_sets_cursor() {
    let mut c = WindowChrome::new(800, 600);
    let step = c.update(&idle_input(400, 300));
    assert!(!step.close);
    assert_eq!(step.commands, vec![WindowCommand::SetCursor(CursorShape::Default)]);
    assert!(!c.chrome_visible);
}

#[test]
fn chrome_drag_starts_and_moves_window() {
    let mut c = WindowChrome::new(800, 600);
    let mut i = idle_input(660, 10);
    i.over_drag = true;
    i.pressed = true;
    let step = c.update(&i);
    assert!(!step.close);
    assert!(c.is_dragging());
    assert_eq!(c.drag_offset, (660, 10));
    let mut j = idle_input(670, 20);
    j.down = true;
    let step = c.update(&j);
    assert!(step.commands.contains(&WindowCommand::SetPosition(100 + 670 - 660, 100 + 20 - 10)));
    let mut k = idle_input(670, 20);
    k.released = true;
    c.update(&k);
    assert!(!c.is_dragging());
}

#[test]
fn chrome_check_resize_reports_once() {
    let mut c = WindowChrome::new(800, 600);
    assert_eq!(c.check_resize((800, 600)), None);
    assert_eq!(c.check_resize((1024, 768)), Some((1024, 768)));
    assert_eq!(c.check_resize((1024, 768)), None);
    assert_eq!(c.recommended_buffer_size(1024, 768, 8, 16), (128, 48));
}

#[test]
fn drop_zone_keeps_file_name() {
    let mut d = DropZone::new();
    assert_eq!(d.update(&vec![]), None);
    assert_eq!(d.update(&vec!["/tmp/dir/level.vtp".to_string(), "/x/other".to_string()]), Some("level.vtp".to_string()));
    assert_eq!(d.last_file(), Some("level.vtp"));
    d.clear();
    assert_eq!(d.last_file(), None);
}

#[test]
fn script_actions_cut_integers() {
    assert_eq!(script_color(300, -1, 7, 255), Color::new(44, 255, 7, 255));
    assert!(matches!(cursor_action(3, 4), Action::SetCursor(3, 4)));
    assert!(matches!(cursor_action(-1, 0), Action::SetCursor(u32::MAX, 0)));
    assert!(matches!(char_action(0x41), Action::PrintChar(0x41)));
    assert!(matches!(buffer_z_action("ui", 1 << 33 | 5), Action::SetBufferZ(n, 5) if n == "ui"));
}

#[test]
fn write_text_with_variant_switches_back() {
    let v = variant_text_actions("hi", "bold");
    assert_eq!(v.len(), 3);
    assert!(matches!(&v[0], Action::SetVariantByName(s) if s == "bold"));
    assert!(matches!(&v[1], Action::PrintString(s) if s == "hi"));
    assert!(matches!(&v[2], Action::SetVariantByName(s) if s == "default"));
}

#[test]
fn buffer_extent_defaults_to_zero() {
    let mut sizes = StrMap::new();
    sizes.insert("main".to_string(), (80u32, 25u32));
    assert_eq!(buffer_extent(&sizes, "main"), (80, 25));
    assert_eq!(buffer_extent(&sizes, "other"), (0, 0));
}

#[test]
fn snapshot_cell_lookup() {
    let w = Color::white();
    let k = Color::blank();
    let snap = BufferSnapshot { w: 2, h: 2, cells: vec![(1, w, k), (2, w, k), (3, w, k), (4, w, k)] };
    assert_eq!(cell_at(&snap, 1, 1), Some((4, w, k)));
    assert_eq!(cell_at(&snap, 0, 1), Some((3, w, k)));
    assert_eq!(cell_at(&snap, 2, 0), None);
    assert_eq!(cell_at(&snap, -1, 0), None);
}

#[test]
fn mouse_to_cell_hit_testing() {
    let screen = Some((100, 50, 8, 16));
    assert_eq!(mouse_cell(screen, Some((10, 5)), 117, 83), Some((2, 2)));
    assert_eq!(mouse_cell(screen, Some((10, 5)), 99, 83), None);
    assert_eq!(mouse_cell(screen, Some((2, 5)), 117, 83), None);
    assert_eq!(mouse_cell(screen, None, 117, 83), Some((2, 2)));
    assert_eq!(mouse_cell(None, None, 117, 83), None);
    assert_eq!(mouse_cell(Some((0, 0, 0, 16)), None, 5, 5), None);
}

#[test]
fn script_book_tracks_missing_functions() {
    let mut b = ScriptBook::new();
    b.record_script("a", true, false);
    b.record_script("b", false, true);
    assert!(b.calls_init("a"));
    assert!(!b.calls_update("a"));
    assert!(!b.calls_init("b"));
    assert!(b.calls_update("b"));
    b.mark_no_update("b");
    assert!(!b.calls_update("b"));
    assert_eq!(b.script_names(), vec!["a".to_string(), "b".to_string()]);
    assert_eq!(b.script_info(), vec![("a".to_string(), true, false), ("b".to_string(), false, false)]);
}

#[test]
fn script_book_throttles_reports() {
    let mut b = ScriptBook::new();
    let key = report_key("a", "boom");
    assert_eq!(key, "a:boom");
    for _ in 0..179 {
        b.begin_frame();
    }
    assert!(!b.should_report(&key));
    assert_eq!(b.begin_frame(), 180);
    assert!(b.should_report(&key));
    assert!(!b.should_report(&key));
    for _ in 0..179 {
        b.begin_frame();
    }
    assert!(!b.should_report(&key));
    b.begin_frame();
    assert!(b.should_report(&key));
}

#[test]
fn bom_is_stripped_once() {
    assert_eq!(strip_bom("\u{FEFF}\u{FEFF}x"), "\u{FEFF}x");
    assert_eq!(strip_bom("plain"), "plain");
    assert_eq!(strip_bom(""), "");
}

#[test]
fn archive_paths_use_slashes() {
    assert_eq!(normalize_archive_path("fonts\\crt\\font.png"), "fonts/crt/font.png");
    assert_eq!(normalize_archive_path("a/b"), "a/b");
}

#[test]
fn chrome_maximize_twice_restores_window() {
    let mut c = WindowChrome::new(800, 600);
    let mut i = idle_input(400, 300);
    i.key_f10 = true;
    let step = c.update(&i);
    assert!(c.is_maximized());
    assert!(step.commands.contains(&WindowCommand::SetPosition(0, 0)));
    assert!(step.commands.contains(&WindowCommand::SetSize(1920, 1080 - 40)));
    let mut j = idle_input(400, 300);
    j.screen_w = 1920;
    j.screen_h = 1040;
    j.window_pos = (0, 0);
    j.key_f10 = true;
    let step = c.update(&j);
    assert!(!c.is_maximized());
    assert!(step.commands.contains(&WindowCommand::SetSize(800, 600)));
    assert!(step.commands.contains(&WindowCommand::SetPosition(100, 100)));
}

#[test]
fn chrome_fullscreen_twice_restores_window() {
    let mut c = WindowChrome::new(800, 600);
    let mut i = idle_input(400, 300);
    i.key_f11 = true;
    let step = c.update(&i);
    assert!(c.is_fullscreen());
    assert!(step.commands.contains(&WindowCommand::SetSize(1920, 1080)));
    let mut j = idle_input(400, 300);
    j.screen_w = 1920;
    j.screen_h = 1080;
    j.window_pos = (0, 0);
    j.key_f11 = true;
    let step = c.update(&j);
    assert!(!c.is_fullscreen());
    assert!(step.commands.contains(&WindowCommand::SetSize(800, 600)));
    assert!(step.commands.contains(&WindowCommand::SetPosition(100, 100)));
}

#[test]
fn drop_zone_takes_the_first_file_name_of_a_frame() {
    let mut d = DropZone::new();
    let got = d.update(&vec!["/home/u/pics/cat.png".to_string(), "b.txt".to_string()]);
    assert_eq!(got, Some("cat.png".to_string()));
    assert_eq!(d.last_dropped, Some("cat.png".to_string()));
    assert_eq!(d.update(&vec!["plain".to_string()]), Some("plain".to_string()));
    assert_eq!(d.update(&vec![]), None);
    assert_eq!(d.last_file(), Some("plain"));
}

#[test]
fn chrome_left_resize_keeps_the_right_side() {
    let mut c = WindowChrome::new(800, 600);
    c.is_resizing = true;
    c.resize_edge = ResizeEdge::Left;
    c.resize_start_size = (800, 600);
    c.resize_start_pos = (100, 100);
    c.resize_start_mouse = (100, 300);
    let mut i = idle_input(50, 200);
    i.down = true;
    let step = c.update(&i);
    assert!(!step.close);
    assert!(step.commands.contains(&WindowCommand::SetSize(750, 600)));
    assert!(step.commands.contains(&WindowCommand::SetPosition(150, 100)));
    let mut j = idle_input(700, 200);
    j.down = true;
    let step = c.update(&j);
    let (mw, _) = c.min_size;
    assert!(step.commands.contains(&WindowCommand::SetSize(mw, 600)));
    assert!(step.commands.contains(&WindowCommand::SetPosition(900 - mw, 100)));
}

#[test]
fn drop_zone_names_plain_paths_by_their_last_part() {
    let mut d = DropZone::new();
    for (path, name) in [("/home/u/pics/cat.png", "cat.png"), ("b.txt", "b.txt"), ("a//b/notes.md", "notes.md"), ("./x/.hidden", ".hidden")] {
        assert_eq!(d.update(&vec![path.to_string()]), Some(name.to_string()));
        assert_eq!(d.last_file(), Some(name));
    }
}

#[test]
fn range_tests_match_their_functions() {
    let c = WindowChrome::new(800, 600);
    assert!(c.layout_fits(800));
    assert!(!c.layout_fits(i32::MIN + 2));
    assert!(voidgrid::script::mouse_cell_ok(Some((10, 10, 8, 8)), 100, 100));
    assert!(voidgrid::script::mouse_cell_ok(None, i32::MIN, i32::MAX));
    assert!(!voidgrid::script::mouse_cell_ok(Some((1, 0, 8, 8)), i32::MIN, 0));
}

#[test]
fn can_update_tests_the_update_limits() {
    let c = WindowChrome::new(800, 600);
    assert!(c.can_update(&idle_input(10, 10)));
    let mut maximize = idle_input(10, 10);
    maximize.key_f10 = true;
    assert!(c.can_update(&maximize));
    maximize.monitor_size = (1920, i32::MIN + 5);
    assert!(!c.can_update(&maximize));
    let mut wide = idle_input(10, 10);
    wide.screen_w = i32::MIN + 2;
    assert!(!c.can_update(&wide));
}
