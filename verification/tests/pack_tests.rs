use voidgrid::asset_manager::AssetManager;
use voidgrid::grids::Grids;
use voidgrid::hierarchy::{Anchor, Hierarchy};
use voidgrid::keys::{AtlasKey, GlyphsetKey, ShaderKey};
use voidgrid::pack::{
    build_glyphsets, build_scene, parse_anchor, GlyphsetConfig, LoadedAtlas, PackError, SceneNode, ShaderAttachment,
};
use voidgrid::semantic::{AtlasConfig, SemanticGroup, SourceType, VariantMapping};
use voidgrid::strmap::StrMap;

fn config(default_glyph: u32, groups: Vec<(&str, SemanticGroup)>) -> AtlasConfig {
    let mut g = StrMap::new();
    for (n, grp) in groups {
        g.insert(n.to_string(), grp);
    }
    AtlasConfig {
        tile_width: 8,
        tile_height: 8,
        columns: 16,
        texture_path: "x.png".to_string(),
        default_glyph,
        semantic_groups: g,
    }
}

fn letters(start: u32) -> SemanticGroup {
    let mut v = StrMap::new();
    v.insert("default".to_string(), VariantMapping::StartId(start));
    SemanticGroup { source: SourceType::String("chars:AB".to_string()), variants: v }
}

fn atlases() -> StrMap<LoadedAtlas> {
    let mut m = StrMap::new();
    m.insert("base".to_string(), LoadedAtlas { key: AtlasKey { ffi: 0x1_0000_0001 }, config: config(0, vec![("abc", letters(10))]) });
    m.insert("extra".to_string(), LoadedAtlas { key: AtlasKey { ffi: 0x1_0000_0002 }, config: config(0, vec![("abc", letters(20))]) });
    m
}

#[test]
fn anchors_by_name() {
    assert_eq!(parse_anchor("Center"), Anchor::Center);
    assert_eq!(parse_anchor("BottomRight"), Anchor::BottomRight);
    assert_eq!(parse_anchor("TopLeft"), Anchor::TopLeft);
    assert_eq!(parse_anchor("sideways"), Anchor::TopLeft);
}

#[test]
fn glyphsets_merge_listed_sheets_in_order() {
    let mut am = AssetManager::new();
    let mut cfgs = StrMap::new();
    cfgs.insert("ui".to_string(), GlyphsetConfig { base: "base".to_string(), merges: vec!["extra".to_string(), "missing".to_string()] });
    let out = build_glyphsets(&mut am, &cfgs, &atlases()).unwrap();
    let k = *out.get("ui").unwrap();
    let gs = am.glyphset(k).unwrap();
    assert_eq!(gs.name, "ui");
    // 'A' was written from the base sheet, then overwritten by the merged sheet
    let id = gs.luts[0]['A' as usize];
    assert_eq!(am.global_registry.entry(id), Some((AtlasKey { ffi: 0x1_0000_0002 }, 20)));
}

#[test]
fn glyphsets_fail_on_missing_base() {
    let mut am = AssetManager::new();
    let mut cfgs = StrMap::new();
    cfgs.insert("ok".to_string(), GlyphsetConfig { base: "base".to_string(), merges: vec![] });
    cfgs.insert("bad".to_string(), GlyphsetConfig { base: "nope".to_string(), merges: vec![] });
    let e = build_glyphsets(&mut am, &cfgs, &atlases()).err().unwrap();
    assert_eq!(e, PackError::MissingBaseAtlas { atlas: "nope".to_string(), glyphset: "bad".to_string() });
    assert_eq!(e.message(), "Base atlas 'nope' not found for glyphset 'bad'");
}

fn scene_node(id: &str, glyphset: &str, parent: Option<&str>) -> SceneNode {
    SceneNode {
        id: id.to_string(),
        kind: "buffer".to_string(),
        name: format!("{}-buf", id),
        width: 4,
        height: 2,
        glyphset: glyphset.to_string(),
        z_index: None,
        dynamic: None,
        parent: parent.map(|p| p.to_string()),
        anchor: None,
        local_x: None,
        local_y: None,
        shader: None,
        shaders: None,
        shader_padding: None,
    }
}

fn gs_map(g: &mut Grids) -> StrMap<GlyphsetKey> {
    let mut cfgs = StrMap::new();
    cfgs.insert("ui".to_string(), GlyphsetConfig { base: "base".to_string(), merges: vec![] });
    build_glyphsets(&mut g.assets, &cfgs, &atlases()).unwrap()
}

#[test]
fn scene_builds_buffers_nodes_and_shader_list() {
    let mut g = Grids::new();
    let mut h = Hierarchy::new();
    let gsets = gs_map(&mut g);
    let mut shaders = StrMap::new();
    shaders.insert("glow".to_string(), ShaderKey { ffi: 7 });
    shaders.insert("crt".to_string(), ShaderKey { ffi: 8 });
    let mut root = scene_node("root", "ui", None);
    root.z_index = Some(3);
    root.dynamic = Some(true);
    root.shader = Some("glow".to_string());
    root.shaders = Some(vec!["crt".to_string(), "none".to_string(), "glow".to_string()]);
    root.shader_padding = Some(2);
    let mut child = scene_node("child", "ui", Some("root"));
    child.anchor = Some("Center".to_string());
    child.local_x = Some(1);
    child.local_y = Some(-1);
    let orphan = scene_node("orphan", "ui", Some("nobody"));
    let nodes = vec![root, child, orphan];
    let scene = build_scene(&mut g, &mut h, &nodes, &gsets, &shaders).ok().unwrap();

    let rb = *scene.buffers.get("root").unwrap();
    let buf = g.get(rb).unwrap();
    assert_eq!((buf.w, buf.h, buf.z_index, buf.dynamic), (4, 2, 3, true));
    assert_eq!(buf.name, "root-buf");

    let rn = *scene.nodes.get("root").unwrap();
    let cn = *scene.nodes.get("child").unwrap();
    let on = *scene.nodes.get("orphan").unwrap();
    assert_eq!(h.root, Some(rn));
    let child_node = h.node(cn).unwrap();
    assert_eq!(child_node.parent, Some(rn));
    assert_eq!(child_node.anchor, Anchor::Center);
    assert_eq!((child_node.local_x, child_node.local_y), (1, -1));
    assert_eq!(h.node(rn).unwrap().children, vec![cn]);
    // a parent that was not built: the node stays unattached, not the root
    assert_eq!(h.node(on).unwrap().parent, None);

    assert_eq!(
        scene.shader_attachments,
        vec![
            ShaderAttachment { buffer: rb, shader: ShaderKey { ffi: 7 }, padding: 2 },
            ShaderAttachment { buffer: rb, shader: ShaderKey { ffi: 8 }, padding: 2 },
            ShaderAttachment { buffer: rb, shader: ShaderKey { ffi: 7 }, padding: 2 },
        ]
    );
}

#[test]
fn scene_fails_on_unknown_glyphset() {
    let mut g = Grids::new();
    let mut h = Hierarchy::new();
    let gsets = gs_map(&mut g);
    let shaders = StrMap::new();
    let nodes = vec![scene_node("a", "ui", None), scene_node("b", "nope", Some("a"))];
    match build_scene(&mut g, &mut h, &nodes, &gsets, &shaders) {
        Err(e) => {
            assert_eq!(e, PackError::MissingGlyphset { glyphset: "nope".to_string(), node: "b-buf".to_string() });
            assert_eq!(e.message(), "Glyphset 'nope' not found for node 'b-buf'");
        },
        Ok(_) => panic!("expected an error"),
    }
    // the first node was built before the failure
    assert!(h.root.is_some());
}

#[test]
fn text_in_a_variant_draws_that_variants_sprites() {
    let mut g = Grids::new();
    let mut variants = StrMap::new();
    variants.insert("default".to_string(), VariantMapping::StartId(10));
    variants.insert("bold".to_string(), VariantMapping::StartId(40));
    let group = SemanticGroup { source: SourceType::String("chars:AB".to_string()), variants };
    let sheet = AtlasKey { ffi: 0x1_0000_0007 };
    let gs = g.assets.create_glyphset_from_atlas("font", sheet, &config(0, vec![("abc", group)]));
    let b = g.create_buffer("text", 4, 1, gs);
    let white = voidgrid::types::Color::white();
    g.write_string_variant(b, 0, 0, "BA", white, voidgrid::types::Color::blank(), "bold");
    let cell = g.get(b).unwrap().get(0, 0).unwrap();
    assert_eq!(cell.code, 'B' as u32);
    assert_ne!(cell.variant_id, 0);
    let plan = voidgrid::batch::plan_buffer(g.get(b).unwrap(), g.assets.glyphset(gs).unwrap(), &g.assets.global_registry).unwrap();
    let quads: Vec<(u32, u32)> = plan.runs.iter().flat_map(|r| r.quads.iter().map(|q| (q.cell, q.sprite))).collect();
    assert_eq!(quads[0], (0, 41));
    assert_eq!(quads[1], (1, 40));
    assert!(plan.runs.iter().all(|r| r.atlas == sheet));
}

#[test]
fn glyphsets_refuse_merging_another_tile_size() {
    let mut am = AssetManager::new();
    let mut ats = atlases();
    let mut wide = config(0, vec![("abc", letters(30))]);
    wide.tile_width = 16;
    ats.insert("wide".to_string(), LoadedAtlas { key: AtlasKey { ffi: 0x1_0000_0003 }, config: wide });
    let mut cfgs = StrMap::new();
    cfgs.insert("ui".to_string(), GlyphsetConfig { base: "base".to_string(), merges: vec!["extra".to_string(), "wide".to_string()] });
    let e = build_glyphsets(&mut am, &cfgs, &ats).err().unwrap();
    assert_eq!(e, PackError::TileSizeMismatch { atlas: "wide".to_string(), glyphset: "ui".to_string() });
    assert_eq!(e.message(), "Tile size mismatch: atlas 'wide' cannot be merged into glyphset 'ui'");
}

#[test]
fn glyphsets_fit_checks_group_limits() {
    let am = AssetManager::new();
    let mut cfgs = StrMap::new();
    cfgs.insert("ui".to_string(), GlyphsetConfig { base: "base".to_string(), merges: vec!["extra".to_string()] });
    assert!(voidgrid::pack::glyphsets_fit(&am, &cfgs, &atlases()));
    let mut bad_variants = StrMap::new();
    bad_variants.insert("default".to_string(), VariantMapping::Range([5, 2]));
    let bad = SemanticGroup { source: SourceType::String("chars:AB".to_string()), variants: bad_variants };
    let mut ats = atlases();
    ats.insert("bad".to_string(), LoadedAtlas { key: AtlasKey { ffi: 0x1_0000_0009 }, config: config(0, vec![("g", bad)]) });
    assert!(!voidgrid::pack::glyphsets_fit(&am, &cfgs, &ats));
    assert_eq!(voidgrid::semantic::config_check(&config(0, vec![("abc", letters(10))])), Some((2, 1)));
}

#[test]
fn glyphset_room_counts_stored_glyphsets() {
    let mut am = AssetManager::new();
    assert_eq!(am.glyphsets_added, 0);
    assert!(am.has_room_for_glyphsets(0));
    assert!(am.has_room_for_glyphsets(0xFFFF_FFFD));
    assert!(!am.has_room_for_glyphsets(0xFFFF_FFFE));
    let mut cfgs = StrMap::new();
    cfgs.insert("ui".to_string(), GlyphsetConfig { base: "base".to_string(), merges: vec!["extra".to_string()] });
    build_glyphsets(&mut am, &cfgs, &atlases()).unwrap();
    assert_eq!(am.glyphsets_added, 1);
    assert!(am.has_room_for_glyphsets(0xFFFF_FFFC));
    assert!(!am.has_room_for_glyphsets(0xFFFF_FFFD));
}
