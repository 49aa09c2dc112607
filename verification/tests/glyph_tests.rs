use voidgrid::glyphset::{Glyphset, LUT_SIZE, UNMAPPED};
use voidgrid::keys::AtlasKey;
use voidgrid::registry::GlobalGlyphRegistry;

fn atlas(n: u64) -> AtlasKey {
    AtlasKey { ffi: n | 0x1_0000_0000 }
}

#[test]
fn register_gives_consecutive_ids() {
    let mut r = GlobalGlyphRegistry::new();
    assert_eq!(r.register_glyph(atlas(1), 7), 0);
    assert_eq!(r.register_glyph(atlas(1), 8), 1);
    assert_eq!(r.register_glyph(atlas(2), 7), 2);
    assert_eq!(r.len(), 3);
}

#[test]
fn register_twice_gives_same_id() {
    let mut r = GlobalGlyphRegistry::new();
    let a = r.register_glyph(atlas(3), 42);
    r.register_glyph(atlas(3), 43);
    let b = r.register_glyph(atlas(3), 42);
    assert_eq!(a, b);
    assert_eq!(r.len(), 2);
}

#[test]
fn entry_gives_back_registered_glyph() {
    let mut r = GlobalGlyphRegistry::new();
    let id = r.register_glyph(atlas(5), 99);
    assert_eq!(r.entry(id), Some((atlas(5), 99)));
    assert_eq!(r.entry(id + 1), None);
}

#[test]
fn query_after_map_path() {
    let mut r = GlobalGlyphRegistry::new();
    let id = r.register_glyph(atlas(1), 1);
    r.map_path("ui/borders:corner".to_string(), id);
    assert_eq!(r.query("ui/borders:corner"), Some(id));
    assert_eq!(r.query("ui/borders:edge"), None);
    r.map_path("ui/borders:corner".to_string(), 17);
    assert_eq!(r.query("ui/borders:corner"), Some(17));
}

#[test]
fn new_glyphset_has_only_default_variant() {
    let gs = Glyphset::new("font".to_string(), 8, 16, 5);
    assert_eq!(gs.luts.len(), 1);
    assert_eq!(gs.luts[0].len(), LUT_SIZE);
    assert!(gs.luts[0].iter().all(|&x| x == UNMAPPED));
    assert_eq!(gs.variant_names.get("default"), Some(&0));
    assert_eq!((gs.tile_w, gs.tile_h), (8, 16));
}

#[test]
fn ensure_variant_creates_once() {
    let mut gs = Glyphset::new("font".to_string(), 8, 8, 0);
    assert_eq!(gs.ensure_variant("bold"), 1);
    assert_eq!(gs.ensure_variant("inverted"), 2);
    assert_eq!(gs.ensure_variant("bold"), 1);
    assert_eq!(gs.ensure_variant("default"), 0);
    assert_eq!(gs.luts.len(), 3);
    assert_eq!(gs.variant_id_or_default("inverted"), 2);
    assert_eq!(gs.variant_id_or_default("italic"), 0);
}

#[test]
fn fallbacks_fill_default_then_variants() {
    let mut gs = Glyphset::new("font".to_string(), 8, 8, 9);
    let bold = gs.ensure_variant("bold") as usize;
    gs.luts[0][65] = 100;
    gs.luts[bold][66] = 200;
    gs.apply_fallbacks();
    // default table: mapped entries kept, holes take the default glyph
    assert_eq!(gs.luts[0][65], 100);
    assert_eq!(gs.luts[0][66], 9);
    // other tables: holes take the default table's entry
    assert_eq!(gs.luts[bold][65], 100);
    assert_eq!(gs.luts[bold][66], 200);
    assert_eq!(gs.luts[bold][67], 9);
    assert!(gs.luts.iter().all(|l| l.iter().all(|&x| x != UNMAPPED)));
}

#[test]
fn global_id_out_of_range_uses_default() {
    let mut gs = Glyphset::new("font".to_string(), 8, 8, 3);
    gs.luts[0][10] = 11;
    assert_eq!(gs.global_id_for(10, 0), 11);
    assert_eq!(gs.global_id_for(70000, 0), 3);
    assert_eq!(gs.global_id_for(10, 4), 3);
}

#[test]
fn named_codes_and_groups() {
    let mut gs = Glyphset::new("font".to_string(), 8, 8, 0);
    assert_eq!(gs.resolve_code("arrow_left"), None);
    gs.named_codes.insert("arrow_left".to_string(), 0x2190);
    assert_eq!(gs.resolve_code("arrow_left"), Some(0x2190));
    gs.named_groups.insert("arrows".to_string(), vec![1, 2, 3]);
    assert_eq!(gs.resolve_group("arrows"), Some(&vec![1, 2, 3]));
    assert_eq!(gs.resolve_group("none"), None);
}

#[test]
fn ensure_variant_numbers_new_names_by_table_count() {
    let mut gs = Glyphset::new("g".to_string(), 8, 8, 0);
    for (k, name) in ["a", "b", "c"].iter().enumerate() {
        assert_eq!(gs.luts.len(), k + 1);
        assert_eq!(gs.ensure_variant(name) as usize, k + 1);
    }
    assert_eq!(gs.ensure_variant("b"), 2);
    assert_eq!(gs.luts.len(), 4);
}
