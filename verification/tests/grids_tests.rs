use voidgrid::grids::Grids;
use voidgrid::keys::{AtlasKey, BufferKey, GlyphsetKey};
use voidgrid::semantic::AtlasConfig;
use voidgrid::strmap::StrMap;
use voidgrid::types::{Blend, Character, Color, Transform};

fn config(tile_w: u32, tile_h: u32) -> AtlasConfig {
    AtlasConfig {
        tile_width: tile_w,
        tile_height: tile_h,
        columns: 16,
        texture_path: "font.png".to_string(),
        default_glyph: 0,
        semantic_groups: StrMap::new(),
    }
}

fn setup() -> (Grids, GlyphsetKey) {
    let mut g = Grids::new();
    let gs = g.assets.create_glyphset_from_atlas("font", AtlasKey { ffi: 0x1_0000_0001 }, &config(8, 16));
    (g, gs)
}

fn code_at(g: &Grids, b: BufferKey, x: u32, y: u32) -> u32 {
    g.get(b).unwrap().get(x, y).unwrap().code
}

#[test]
fn new_buffer_is_blank() {
    let (mut g, gs) = setup();
    let b = g.create_buffer("main", 4, 3, gs);
    let buf = g.get(b).unwrap();
    assert_eq!((buf.w, buf.h, buf.z_index), (4, 3, 0));
    assert!(buf.visible);
    assert_eq!(buf.get(3, 2), Some(Character::blank(32)));
    assert_eq!(buf.get(4, 0), None);
    assert_eq!(g.buffer_size(b), Some((4, 3)));
}

#[test]
fn builder_applies_settings() {
    let (mut g, gs) = setup();
    let b = g.buffer("ui", 2, 2, gs).z_index(5).dynamic(true).visible(false).build();
    let buf = g.get(b).unwrap();
    assert_eq!(buf.z_index, 5);
    assert!(buf.dynamic);
    assert!(!buf.visible);
}

#[test]
fn set_char_then_get() {
    let (mut g, gs) = setup();
    let b = g.create_buffer("m", 3, 3, gs);
    let ch = Character::new(65, 0, Color::white(), Color::blank());
    g.set_char(b, 1, 2, ch);
    assert_eq!(g.get(b).unwrap().get(1, 2), Some(ch));
    // out of range writes change nothing
    g.set_char(b, 3, 0, ch);
    assert_eq!(code_at(&g, b, 0, 0), 32);
}

#[test]
fn write_string_writes_codes_left_to_right() {
    let (mut g, gs) = setup();
    let b = g.create_buffer("m", 5, 2, gs);
    g.write_string(b, 1, 0, "Hi\nok", Color::white(), Color::blank());
    assert_eq!(code_at(&g, b, 1, 0), 'H' as u32);
    assert_eq!(code_at(&g, b, 2, 0), 'i' as u32);
    // a newline returns to the start column one row down
    assert_eq!(code_at(&g, b, 1, 1), 'o' as u32);
    assert_eq!(code_at(&g, b, 2, 1), 'k' as u32);
    assert_eq!(code_at(&g, b, 0, 0), 32);
}

#[test]
fn write_string_variant_uses_variant_id() {
    let (mut g, gs) = setup();
    let b = g.create_buffer("m", 5, 1, gs);
    g.write_string_variant(b, 0, 0, "ab", Color::white(), Color::blank(), "missing");
    let c = g.get(b).unwrap().get(0, 0).unwrap();
    assert_eq!((c.code, c.variant_id), ('a' as u32, 0));
}

#[test]
fn clear_buffer_blanks_cells() {
    let (mut g, gs) = setup();
    let b = g.create_buffer("m", 2, 1, gs);
    g.write_string(b, 0, 0, "xy", Color::white(), Color::blank());
    g.clear_buffer(b);
    assert_eq!(code_at(&g, b, 0, 0), 32);
    assert_eq!(code_at(&g, b, 1, 0), 32);
}

#[test]
fn area_operations() {
    let (mut g, gs) = setup();
    let b = g.create_buffer("m", 3, 3, gs);
    g.set_area_blend(b, 1, 1, 5, 5, Blend::Additive, Blend::Multiplied);
    let buf = g.get(b).unwrap();
    assert_eq!(buf.get(0, 0).unwrap().fg_blend, Blend::Alpha);
    assert_eq!(buf.get(2, 2).unwrap().fg_blend, Blend::Additive);
    assert_eq!(buf.get(2, 2).unwrap().bg_blend, Blend::Multiplied);
    g.set_char_transform(b, 0, 0, Transform::flipped_h());
    assert!(g.get(b).unwrap().get(0, 0).unwrap().transform.flip_h);
}

#[test]
fn resize_keeps_common_cells_and_reports_orphans() {
    let (mut g, gs) = setup();
    let parent = g.create_buffer("p", 4, 4, gs);
    let c1 = g.create_buffer("c1", 1, 1, gs);
    let c2 = g.create_buffer("c2", 1, 1, gs);
    g.attach(parent, (3, 3), c1);
    g.attach(parent, (0, 1), c2);
    g.write_string(parent, 0, 0, "ab", Color::white(), Color::blank());
    let orphans = g.resize_buffer(parent, 2, 2);
    assert_eq!(orphans.len(), 1);
    assert_eq!(orphans[0].position, (3, 3));
    assert_eq!(orphans[0].buffer, c1);
    assert_eq!(g.buffer_size(parent), Some((2, 2)));
    assert_eq!(code_at(&g, parent, 1, 0), 'b' as u32);
    // links are kept
    assert_eq!(g.all_children(parent).len(), 2);
}

#[test]
fn attachments_are_ordered_by_z_and_not_duplicated() {
    let (mut g, gs) = setup();
    let p = g.create_buffer("p", 4, 4, gs);
    let a = g.create_buffer("a", 1, 1, gs);
    let b = g.create_buffer("b", 1, 1, gs);
    g.attach_z(p, (1, 1), a, 5);
    g.attach_z(p, (1, 1), b, -1);
    g.attach_z(p, (1, 1), a, 7);
    assert_eq!(g.children_at(p, (1, 1)), vec![b, a]);
    assert_eq!(g.find_child_position(p, a), Some((1, 1)));
    g.move_child(p, a, (2, 3));
    assert_eq!(g.find_child_position(p, a), Some((2, 3)));
    g.detach(p, (2, 3), a);
    assert_eq!(g.find_child_position(p, a), None);
    g.detach_all_children(p);
    assert!(g.all_children(p).is_empty());
}

#[test]
fn clear_tree_clears_children() {
    let (mut g, gs) = setup();
    let root = g.create_buffer("r", 2, 1, gs);
    let child = g.create_buffer("c", 2, 1, gs);
    let other = g.create_buffer("o", 2, 1, gs);
    g.attach(root, (0, 0), child);
    for k in [root, child, other] {
        g.write_string(k, 0, 0, "zz", Color::white(), Color::blank());
    }
    g.clear_tree(root);
    assert_eq!(code_at(&g, root, 0, 0), 32);
    assert_eq!(code_at(&g, child, 1, 0), 32);
    assert_eq!(code_at(&g, other, 0, 0), 'z' as u32);
}

#[test]
fn screen_to_cell_divides_by_tile_size() {
    let (mut g, gs) = setup();
    let b = g.create_buffer("m", 10, 5, gs);
    assert_eq!(g.screen_to_cell(b, 100 + 17, 50 + 33, 100, 50), Some((2, 2)));
    assert_eq!(g.screen_to_cell(b, 99, 60, 100, 50), None);
    assert_eq!(g.screen_to_cell(b, 100 + 80, 50, 100, 50), None);
}

#[test]
fn remove_buffer_returns_it() {
    let (mut g, gs) = setup();
    let b = g.create_buffer("gone", 1, 1, gs);
    assert!(g.remove_buffer(b).is_some());
    assert!(g.get(b).is_none());
    assert!(g.remove_buffer(b).is_none());
}

#[test]
fn glyphset_size_and_variant() {
    let (mut g, gs) = setup();
    assert_eq!(g.glyphset_size(gs), Some((8, 16)));
    let b = g.create_buffer("m", 1, 1, gs);
    g.set_buffer_variant(b, Some("nothing"));
    assert_eq!(g.get(b).unwrap().default_variant_id, 0);
}

#[test]
fn plan_buffer_cuts_runs_by_sheet_and_blend() {
    let (mut g, gs) = setup();
    let b = g.create_buffer("plan", 4, 1, gs);
    let red = Color::new(200, 0, 0, 255);
    g.set_char(b, 1, 0, Character::full('x' as u32, 0, Color::white(), red, Blend::Additive, Blend::Alpha, Transform::new(), None));
    g.set_char(b, 2, 0, Character::new('y' as u32, 0, Color::new(1, 2, 3, 0), Color::blank()));
    let buf = g.get(b).unwrap();
    let set = g.assets.glyphset(gs).unwrap();
    let plan = voidgrid::batch::plan_buffer(buf, set, &g.assets.global_registry).unwrap();
    assert_eq!(plan.background.len(), 1);
    assert_eq!(plan.background[0].cell, 1);
    assert_eq!(plan.background[0].color, red);
    let shape: Vec<(u64, Blend, Vec<u32>)> =
        plan.runs.iter().map(|r| (r.atlas.ffi, r.blend, r.quads.iter().map(|q| q.cell).collect())).collect();
    assert_eq!(
        shape,
        vec![
            (0x1_0000_0001, Blend::Alpha, vec![0]),
            (0x1_0000_0001, Blend::Additive, vec![1]),
            (0x1_0000_0001, Blend::Alpha, vec![3]),
        ]
    );
    assert_eq!(plan.runs[1].quads[0].color, Color::white());
    assert_eq!(plan.runs[0].quads[0].sprite, 0);
}

#[test]
fn plan_buffer_merges_neighbouring_glyphs() {
    let (mut g, gs) = setup();
    let b = g.create_buffer("plan2", 2, 2, gs);
    let buf = g.get(b).unwrap();
    let set = g.assets.glyphset(gs).unwrap();
    let plan = voidgrid::batch::plan_buffer(buf, set, &g.assets.global_registry).unwrap();
    assert!(plan.background.is_empty());
    assert_eq!(plan.runs.len(), 1);
    assert_eq!(plan.runs[0].quads.iter().map(|q| q.cell).collect::<Vec<_>>(), vec![0, 1, 2, 3]);
}

#[test]
fn plan_buffer_reports_unregistered_glyph() {
    let (mut g, gs) = setup();
    let b = g.create_buffer("plan3", 1, 1, gs);
    let buf = g.get(b).unwrap();
    let set = g.assets.glyphset(gs).unwrap();
    let empty = voidgrid::registry::GlobalGlyphRegistry::new();
    assert!(voidgrid::batch::plan_buffer(buf, set, &empty).is_none());
}

#[test]
fn bloom_mip_chain_halves_until_too_small() {
    assert_eq!(
        voidgrid::bloom::mip_sizes(800, 600),
        Some(vec![(400, 300), (200, 150), (100, 75), (50, 37), (25, 18), (12, 9)])
    );
    assert_eq!(voidgrid::bloom::mip_sizes(8, 8), Some(vec![(4, 4), (2, 2)]));
    assert_eq!(voidgrid::bloom::mip_sizes(5, 5), None);
    assert_eq!(voidgrid::bloom::mip_sizes(4000, 4), None);
}
