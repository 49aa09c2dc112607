use std::collections::HashMap;
use voidgrid::grids::Grids;
use voidgrid::hierarchy::{Anchor, Hierarchy, RenderItem, ZPolicy};
use voidgrid::keys::{AtlasKey, BufferKey, GlyphsetKey};
use voidgrid::semantic::AtlasConfig;
use voidgrid::strmap::StrMap;
use voidgrid::terminal::{Action, TerminalState};
use voidgrid::types::Color;
use voidgrid::vtp::{VtpColor, VtpCommand, VtpParser};

fn bk(n: u64) -> BufferKey {
    BufferKey { ffi: n | 0x1_0000_0000 }
}

#[test]
fn anchor_offsets() {
    assert_eq!(Anchor::TopLeft.offset(10, 5), (0, 0));
    assert_eq!(Anchor::Center.offset(10, 5), (5, 2));
    assert_eq!(Anchor::BottomRight.offset(10, 5), (10, 5));
    assert_eq!(Anchor::TopCenter.offset(-7, 3), (-3, 0));
}

#[test]
fn layout_places_child_by_anchor_offset_and_pivot() {
    let mut h = Hierarchy::new();
    let root = h.set_root(Some(bk(1)));
    let child = h.attach(Some(bk(2))).to(root).at(1, 0).anchor(Anchor::Center).pivot(Anchor::Center).key();
    let mut info = HashMap::new();
    info.insert(bk(1).ffi, (10u32, 5u32, 8u32, 16u32));
    info.insert(bk(2).ffi, (4u32, 2u32, 8u32, 16u32));
    let list = h.collect_render_list(&info);
    assert_eq!(
        list,
        vec![
            RenderItem { buffer: bk(1), screen_x: 0, screen_y: 0, z_index: 0 },
            RenderItem { buffer: bk(2), screen_x: 32, screen_y: 16, z_index: 0 },
        ]
    );
    assert_ne!(root, child);
}

#[test]
fn layout_orders_by_z_and_skips_hidden() {
    let mut h = Hierarchy::new();
    let root = h.set_root(Some(bk(1)));
    h.attach(Some(bk(2))).to(root).with_z(ZPolicy::Absolute(-3)).key();
    let hidden = h.attach(Some(bk(3))).to(root).key();
    h.attach(Some(bk(4))).to(hidden).key();
    // hide node 3 and with it node 4
    h.set_visible(hidden, false);
    assert!(!h.node(hidden).unwrap().visible);
    let info: HashMap<u64, (u32, u32, u32, u32)> = HashMap::new();
    let list = h.collect_render_list(&info);
    let order: Vec<BufferKey> = list.iter().map(|i| i.buffer).collect();
    assert_eq!(order, vec![bk(2), bk(1)]);
    assert_eq!(list[0].z_index, -3);
}

#[test]
fn layout_without_root_is_empty() {
    let h = Hierarchy::new();
    let info: HashMap<u64, (u32, u32, u32, u32)> = HashMap::new();
    assert!(h.collect_render_list(&info).is_empty());
}

fn packet(op: u8, body: &[u8]) -> Vec<u8> {
    let mut v = vec![op];
    v.extend_from_slice(body);
    v
}

fn with_len(op: u8, text: &str) -> Vec<u8> {
    let mut v = vec![op];
    v.extend_from_slice(&(text.len() as u16).to_le_bytes());
    v.extend_from_slice(text.as_bytes());
    v
}

#[test]
fn parser_decodes_each_command() {
    let mut p = VtpParser::new();
    let mut bytes = with_len(0x01, "main");
    bytes.extend(packet(0x02, &[3, 0, 4, 0]));
    bytes.extend(packet(0x03, &[1, 2, 3, 4]));
    bytes.extend(packet(0x05, &[2]));
    bytes.extend(packet(0x10, &65u32.to_le_bytes()));
    bytes.extend(with_len(0x11, "hi"));
    p.push_bytes(&bytes);
    assert!(matches!(p.next_command(), Some(VtpCommand::SetBuffer(s)) if s == "main"));
    assert!(matches!(p.next_command(), Some(VtpCommand::SetCursor { x: 3, y: 4 })));
    assert!(matches!(p.next_command(), Some(VtpCommand::SetFgColor(c)) if c == VtpColor { r: 1, g: 2, b: 3, a: 4 }));
    assert!(matches!(p.next_command(), Some(VtpCommand::SetVariant(2))));
    assert!(matches!(p.next_command(), Some(VtpCommand::PrintChar(65))));
    assert!(matches!(p.next_command(), Some(VtpCommand::PrintString(s)) if s == "hi"));
    assert!(p.next_command().is_none());
}

#[test]
fn parser_waits_for_complete_packet_and_skips_unknown_bytes() {
    let mut p = VtpParser::new();
    p.push_bytes(&[0xFF, 0x02, 7, 0]);
    assert!(p.next_command().is_none());
    p.push_bytes(&[9, 0]);
    assert!(matches!(p.next_command(), Some(VtpCommand::SetCursor { x: 7, y: 9 })));
    assert!(p.next_command().is_none());
}

#[test]
fn parser_load_scene_payload() {
    let mut p = VtpParser::new();
    p.push_bytes(&[0x20, 3, 0, 0, 0, 9, 8, 7]);
    match p.next_command() {
        Some(VtpCommand::LoadScene { size, data }) => {
            assert_eq!(size, 3);
            assert_eq!(data, vec![9, 8, 7]);
        },
        _ => panic!("expected a scene"),
    }
}

fn grids_with_buffer() -> (Grids, BufferKey, GlyphsetKey) {
    let mut g = Grids::new();
    let config = AtlasConfig {
        tile_width: 8,
        tile_height: 8,
        columns: 16,
        texture_path: "f.png".to_string(),
        default_glyph: 0,
        semantic_groups: StrMap::new(),
    };
    let gs = g.assets.create_glyphset_from_atlas("f", AtlasKey { ffi: 0x1_0000_0001 }, &config);
    let b = g.create_buffer("main", 8, 2, gs);
    (g, b, gs)
}

#[test]
fn process_prints_into_named_buffer() {
    let (mut g, b, _) = grids_with_buffer();
    let mut names = StrMap::new();
    names.insert("main".to_string(), b);
    let mut p = VtpParser::new();
    let mut bytes = with_len(0x01, "main");
    bytes.extend(packet(0x02, &[2, 0, 1, 0]));
    bytes.extend(with_len(0x11, "ok"));
    assert!(p.process(&mut g, &names, &bytes));
    let buf = g.get(b).unwrap();
    assert_eq!(buf.get(2, 1).unwrap().code, 'o' as u32);
    assert_eq!(buf.get(3, 1).unwrap().code, 'k' as u32);
    assert_eq!(p.state().cursor_x, 4);
}

#[test]
fn terminal_actions_drive_the_pen() {
    let (mut g, b, _) = grids_with_buffer();
    let mut t = TerminalState::new();
    let mut names = StrMap::new();
    names.insert("main".to_string(), b);
    t.register_buffers(names);
    t.apply_action(&mut g, Action::SetBuffer("main".to_string()));
    assert_eq!(t.active_buffer, Some(b));
    t.apply_action(&mut g, Action::SetCursor(1, 0));
    t.apply_action(&mut g, Action::SetFgColor(Color::new(1, 2, 3, 4)));
    t.apply_action(&mut g, Action::PrintChar('A' as u32));
    assert_eq!(t.cursor_x, 2);
    let c = g.get(b).unwrap().get(1, 0).unwrap();
    assert_eq!(c.code, 'A' as u32);
    assert_eq!(c.fcolor, Color::new(1, 2, 3, 4));
    // a surrogate is no character: nothing printed, cursor stays
    t.apply_action(&mut g, Action::PrintChar(0xD800));
    assert_eq!(t.cursor_x, 2);
    t.apply_action(&mut g, Action::SetBufferZ("main".to_string(), 9));
    assert_eq!(g.get(b).unwrap().z_index, 9);
    t.apply_action(&mut g, Action::SetBufferVisible("main".to_string(), false));
    assert!(!g.get(b).unwrap().visible);
    t.apply_action(&mut g, Action::ClearBuffer("main".to_string()));
    assert_eq!(g.get(b).unwrap().get(1, 0).unwrap().code, 32);
    // an unknown buffer name changes nothing
    t.apply_action(&mut g, Action::SetBuffer("nope".to_string()));
    assert_eq!(t.active_buffer, Some(b));
}

#[test]
fn terminal_print_string_newline_returns_to_start_column() {
    let (mut g, b, _) = grids_with_buffer();
    let mut t = TerminalState::new();
    let mut names = StrMap::new();
    names.insert("main".to_string(), b);
    t.register_buffers(names);
    t.apply_action(&mut g, Action::SetBuffer("main".to_string()));
    t.apply_action(&mut g, Action::SetCursor(3, 0));
    t.apply_action(&mut g, Action::PrintString("ab\nc".to_string()));
    let buf = g.get(b).unwrap();
    assert_eq!(buf.get(3, 0).unwrap().code, 'a' as u32);
    assert_eq!(buf.get(4, 0).unwrap().code, 'b' as u32);
    assert_eq!(buf.get(3, 1).unwrap().code, 'c' as u32);
    assert_eq!((t.cursor_x, t.cursor_y), (4, 1));
}

fn drain(p: &mut VtpParser) -> Vec<VtpCommand> {
    let mut out = Vec::new();
    while let Some(c) = p.next_command() {
        out.push(c);
    }
    out
}

#[test]
fn parser_split_stream_gives_same_commands() {
    let mut bytes = vec![0xEE];
    bytes.extend(with_len(0x11, "split"));
    bytes.extend(packet(0x02, &[1, 0, 2, 0]));
    bytes.push(0x00);
    bytes.extend(packet(0x10, &66u32.to_le_bytes()));
    let mut whole = VtpParser::new();
    whole.push_bytes(&bytes);
    let expected = drain(&mut whole);
    assert_eq!(expected.len(), 3);
    for cut in 0..=bytes.len() {
        let mut p = VtpParser::new();
        p.push_bytes(&bytes[..cut]);
        let mut got = drain(&mut p);
        p.push_bytes(&bytes[cut..]);
        got.extend(drain(&mut p));
        assert_eq!(format!("{:?}", got), format!("{:?}", expected), "split at {}", cut);
    }
}

#[test]
fn terminal_can_apply_checks_cursor_range() {
    let mut t = TerminalState::new();
    let mut names = StrMap::new();
    names.insert("b".to_string(), bk(3));
    t.register_buffers(names);
    assert!(t.can_apply(&Action::PrintChar(65)));
    let mut g = Grids::new();
    t.apply_action(&mut g, Action::SetBuffer("b".to_string()));
    t.apply_action(&mut g, Action::SetCursor(u32::MAX, 0));
    assert!(!t.can_apply(&Action::PrintChar(65)));
    assert!(t.can_apply(&Action::PrintChar(0xD800)));
    assert!(!t.can_apply(&Action::PrintString("a".to_string())));
    assert!(t.can_apply(&Action::PrintString(String::new())));
    assert!(voidgrid::terminal::text_fits(0, 0, "ab\ncd"));
    assert!(!voidgrid::terminal::text_fits(0, u32::MAX, "a\nb"));
    assert!(voidgrid::terminal::text_fits(0, u32::MAX, "ab"));
}

#[test]
fn layout_out_of_range_gives_none() {
    let mut h = Hierarchy::new();
    let root = h.set_root(Some(bk(1)));
    h.attach(Some(bk(2))).to(root).at(i32::MAX, 0).key();
    let mut info = HashMap::new();
    info.insert(bk(1).ffi, (10u32, 5u32, 8u32, 16u32));
    info.insert(bk(2).ffi, (4u32, 2u32, 8u32, 16u32));
    assert!(h.try_collect_render_list(&info).is_none());
    let mut small = Hierarchy::new();
    small.set_root(Some(bk(1)));
    assert_eq!(small.try_collect_render_list(&info).map(|l| l.len()), Some(1));
}

#[test]
fn layout_keeps_order_of_equal_z() {
    let mut h = Hierarchy::new();
    let root = h.set_root(Some(bk(1)));
    h.attach(Some(bk(2))).to(root).with_z(ZPolicy::Absolute(5)).key();
    h.attach(Some(bk(3))).to(root).with_z(ZPolicy::Absolute(-1)).key();
    h.attach(Some(bk(4))).to(root).with_z(ZPolicy::Absolute(5)).key();
    let info: HashMap<u64, (u32, u32, u32, u32)> = HashMap::new();
    let order: Vec<BufferKey> = h.collect_render_list(&info).iter().map(|i| i.buffer).collect();
    assert_eq!(order, vec![bk(3), bk(1), bk(2), bk(4)]);
}
