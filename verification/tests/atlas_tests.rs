use voidgrid::asset_manager::AssetManager;
use voidgrid::atlas::{
    AtlasDescriptor, AtlasDescriptorRaw, AtlasLayer, AtlasLayerRaw, AtlasNode, AtlasNodeRaw, LayerMapping, LayerSource,
    NodeSource,
};
use voidgrid::compose::{ComposeRule, RemapConfig};
use voidgrid::keys::AtlasKey;
use voidgrid::strmap::StrMap;
use voidgrid::vtree::VirtualTree;

fn src(file: &str, start: u32) -> LayerSource {
    LayerSource { file: file.to_string(), w: 8, h: 16, cols: 16, start }
}

fn range_layer(file: &str, from: u32, to: u32, start: u32) -> AtlasLayer {
    AtlasLayer { mapping: LayerMapping::Range { bytes: [from, to] }, source: src(file, start) }
}

fn node(layers: Vec<AtlasLayer>) -> AtlasNode {
    AtlasNode { layers }
}

fn descriptor(name: &str, default_byte: u32, nodes: Vec<(&str, AtlasNode)>) -> AtlasDescriptor {
    let mut m = StrMap::new();
    for (k, n) in nodes {
        m.insert(k.to_string(), n);
    }
    AtlasDescriptor { name: name.to_string(), default_byte, nodes: m }
}

fn raw_layer(bytes: Option<[u32; 2]>, chars: Option<&str>, source: Option<LayerSource>, start: Option<u32>) -> AtlasLayerRaw {
    AtlasLayerRaw { bytes, chars: chars.map(|c| c.to_string()), entries: None, source, start }
}

#[test]
fn range_pairs() {
    let l = range_layer("a.png", 65, 67, 10);
    assert_eq!(l.byte_sprite_pairs(), vec![(65, 10), (66, 11), (67, 12)]);
    let empty = range_layer("a.png", 5, 4, 0);
    assert_eq!(empty.byte_sprite_pairs(), vec![]);
}

#[test]
fn chars_and_entries_pairs() {
    let l = AtlasLayer { mapping: LayerMapping::Chars { chars: "Aø".to_string() }, source: src("a.png", 3) };
    assert_eq!(l.byte_sprite_pairs(), vec![(65, 3), (0xF8, 4)]);
    let e = AtlasLayer { mapping: LayerMapping::Entries { entries: vec![[1, 9], [2, 7]] }, source: src("a.png", 0) };
    assert_eq!(e.byte_sprite_pairs(), vec![(1, 9), (2, 7)]);
}

#[test]
fn from_raw_resolves_node_source() {
    let mut nodes = StrMap::new();
    nodes.insert(
        "/".to_string(),
        AtlasNodeRaw {
            source: Some(NodeSource { file: "font.png".to_string(), w: 8, h: 8, cols: 16 }),
            layers: vec![raw_layer(Some([32, 127]), None, None, Some(5))],
        },
    );
    let d = AtlasDescriptor::from_raw(AtlasDescriptorRaw { name: "crt".to_string(), default_byte: 32, nodes }).unwrap();
    assert_eq!(d.name, "crt");
    let root = d.nodes.get("/").unwrap();
    assert_eq!(root.layers[0].source.file, "font.png");
    assert_eq!(root.layers[0].source.start, 5);
    assert_eq!(d.tile_size(), Some((8, 8)));
}

#[test]
fn from_raw_rejects_layer_without_mapping() {
    let mut nodes = StrMap::new();
    nodes.insert("/x".to_string(), AtlasNodeRaw { source: None, layers: vec![raw_layer(None, None, Some(src("a.png", 0)), None)] });
    match AtlasDescriptor::from_raw(AtlasDescriptorRaw { name: "d".to_string(), default_byte: 0, nodes }) {
        Err(e) => assert_eq!(e, "Node '/x': layer has no mapping (bytes, chars, or entries)"),
        Ok(_) => panic!("expected an error"),
    }
}

#[test]
fn from_raw_rejects_layer_without_source() {
    let mut nodes = StrMap::new();
    nodes.insert("/".to_string(), AtlasNodeRaw { source: None, layers: vec![raw_layer(Some([0, 1]), None, None, None)] });
    match AtlasDescriptor::from_raw(AtlasDescriptorRaw { name: "d".to_string(), default_byte: 0, nodes }) {
        Err(e) => assert_eq!(e, "Node '/': layer has no source and node has no default source"),
        Ok(_) => panic!("expected an error"),
    }
}

#[test]
fn from_raw_rejects_layer_with_two_mappings() {
    let mut nodes = StrMap::new();
    nodes.insert("/".to_string(), AtlasNodeRaw { source: None, layers: vec![raw_layer(Some([0, 1]), Some("ab"), Some(src("a.png", 0)), None)] });
    match AtlasDescriptor::from_raw(AtlasDescriptorRaw { name: "d".to_string(), default_byte: 0, nodes }) {
        Err(e) => assert_eq!(e, "Node '/': layer has more than one mapping (bytes, chars, or entries)"),
        Ok(_) => panic!("expected an error"),
    }
}

#[test]
fn referenced_files_are_distinct() {
    let d = descriptor(
        "d",
        0,
        vec![
            ("/", node(vec![range_layer("a.png", 0, 1, 0), range_layer("b.png", 2, 3, 0)])),
            ("/:bold", node(vec![range_layer("a.png", 0, 1, 10)])),
        ],
    );
    assert_eq!(d.referenced_files(), vec!["a.png".to_string(), "b.png".to_string()]);
}

#[test]
fn root_variants_and_children() {
    let d = descriptor(
        "d",
        0,
        vec![
            ("/:zeta", node(vec![])),
            ("/child", node(vec![])),
            ("/", node(vec![])),
            ("/:alpha", node(vec![])),
        ],
    );
    let rv: Vec<&str> = d.root_and_variants().iter().map(|(k, _)| *k).collect();
    assert_eq!(rv, vec!["/", "/:alpha", "/:zeta"]);
    let ch: Vec<&str> = d.child_nodes().iter().map(|(k, _)| *k).collect();
    assert_eq!(ch, vec!["/child"]);
}

#[test]
fn tile_size_none_without_layers() {
    let d = descriptor("d", 0, vec![("/", node(vec![]))]);
    assert_eq!(d.tile_size(), None);
}

fn tree_fixture() -> (VirtualTree, StrMap<AtlasDescriptor>) {
    let mut descs = StrMap::new();
    descs.insert(
        "crt".to_string(),
        descriptor(
            "crt",
            32,
            vec![
                ("/", node(vec![range_layer("crt.png", 32, 34, 0)])),
                ("/:inverted", node(vec![range_layer("crt.png", 32, 34, 100)])),
                ("/cyrillic", node(vec![range_layer("cyr.png", 1040, 1041, 0)])),
            ],
        ),
    );
    let mut tree = VirtualTree::new();
    tree.mount("/fonts/crt/", "crt");
    (tree, descs)
}

#[test]
fn resolve_mount_root_variant_and_child() {
    let (tree, descs) = tree_fixture();
    let root = tree.resolve("/fonts/crt", &descs).unwrap();
    assert_eq!(root.descriptor_name, "crt");
    assert_eq!(root.variant_name, None);
    assert_eq!(root.node.layers[0].source.start, 0);
    let inv = tree.resolve("/fonts/crt/:inverted", &descs).unwrap();
    assert_eq!(inv.variant_name, Some("inverted"));
    assert_eq!(inv.node.layers[0].source.start, 100);
    let cyr = tree.resolve("/fonts/crt/cyrillic/", &descs).unwrap();
    assert_eq!(cyr.node.layers[0].source.file, "cyr.png");
    assert!(tree.resolve("/fonts/other", &descs).is_none());
    assert!(tree.resolve("/fonts/crt/missing", &descs).is_none());
}

#[test]
fn resolve_with_variants_lists_root_and_variants() {
    let (tree, descs) = tree_fixture();
    let all = tree.resolve_with_variants("/fonts/crt", &descs);
    let names: Vec<Option<&str>> = all.iter().map(|r| r.variant_name).collect();
    assert_eq!(names, vec![None, Some("inverted")]);
    let one = tree.resolve_with_variants("/fonts/crt/:inverted", &descs);
    assert_eq!(one.len(), 1);
    let child = tree.resolve_with_variants("/fonts/crt/cyrillic", &descs);
    assert_eq!(child.len(), 1);
    assert!(tree.resolve_with_variants("/nowhere", &descs).is_empty());
}

fn assets_fixture() -> (AssetManager, AtlasKey, AtlasKey) {
    let (_, descs) = tree_fixture();
    let mut am = AssetManager::new();
    for (name, d) in descs.into_entries() {
        assert_eq!(am.store_descriptor(d), name);
    }
    am.tree.mount("/fonts/crt", "crt");
    let crt = AtlasKey { ffi: 0x1_0000_0001 };
    let cyr = AtlasKey { ffi: 0x1_0000_0002 };
    am.register_png("crt.png", crt);
    am.register_png("cyr.png", cyr);
    (am, crt, cyr)
}

#[test]
fn compose_glyphset_fills_tables() {
    let (mut am, crt, cyr) = assets_fixture();
    let rules = vec![
        ComposeRule { node: "/fonts/crt".to_string(), remap: None, as_variant: None },
        ComposeRule { node: "/fonts/crt/cyrillic".to_string(), remap: None, as_variant: Some("cyr".to_string()) },
    ];
    let k = am.compose_glyphset("main", &rules).unwrap();
    let gs = am.glyphset(k).unwrap();
    assert_eq!((gs.tile_w, gs.tile_h), (8, 16));
    // default byte 32 maps to sprite 0 of crt.png, registered first
    assert_eq!(gs.default_global_id, 0);
    assert_eq!(am.global_registry.entry(0), Some((crt, 0)));
    let inverted = *gs.variant_names.get("inverted").unwrap() as usize;
    let cyr_id = *gs.variant_names.get("cyr").unwrap() as usize;
    assert_eq!(am.global_registry.entry(gs.luts[0][33]), Some((crt, 1)));
    assert_eq!(am.global_registry.entry(gs.luts[inverted][33]), Some((crt, 101)));
    assert_eq!(am.global_registry.entry(gs.luts[cyr_id][1040]), Some((cyr, 0)));
    // holes fall back to the default table
    assert_eq!(gs.luts[cyr_id][33], gs.luts[0][33]);
    assert_eq!(gs.luts[0][65], gs.default_global_id);
}

#[test]
fn compose_glyphset_remap_shifts_codes() {
    let (mut am, crt, _) = assets_fixture();
    let rules = vec![ComposeRule {
        node: "/fonts/crt".to_string(),
        remap: Some(RemapConfig { src: [33, 34], dst: 200 }),
        as_variant: None,
    }];
    let k = am.compose_glyphset("shifted", &rules).unwrap();
    let gs = am.glyphset(k).unwrap();
    assert_eq!(am.global_registry.entry(gs.luts[0][200]), Some((crt, 1)));
    assert_eq!(am.global_registry.entry(gs.luts[0][201]), Some((crt, 2)));
    // byte 32 lies outside the remapped range: only the fallback is there
    assert_eq!(gs.luts[0][32], gs.default_global_id);
}

#[test]
fn compose_glyphset_errors() {
    let (mut am, _, _) = assets_fixture();
    let none: Vec<ComposeRule> = vec![];
    assert_eq!(am.compose_glyphset("x", &none), Err("Cannot determine tile size for glyphset 'x'".to_string()));
    let missing = vec![
        ComposeRule { node: "/fonts/crt".to_string(), remap: None, as_variant: None },
        ComposeRule { node: "/fonts/nothing".to_string(), remap: None, as_variant: None },
    ];
    assert_eq!(am.compose_glyphset("y", &missing), Err("Node '/fonts/nothing' not found in virtual tree".to_string()));
    let mut am2 = AssetManager::new();
    let (_, descs) = tree_fixture();
    for (_, d) in descs.into_entries() {
        am2.store_descriptor(d);
    }
    am2.tree.mount("/fonts/crt", "crt");
    let rules = vec![ComposeRule { node: "/fonts/crt".to_string(), remap: None, as_variant: None }];
    assert_eq!(am2.compose_glyphset("z", &rules), Err("PNG 'crt.png' not loaded".to_string()));
}

#[test]
fn descriptor_without_nodes_resolves_to_an_empty_root() {
    let mut descs = StrMap::new();
    descs.insert("bare".to_string(), descriptor("bare", 0, vec![]));
    let mut tree = VirtualTree::new();
    tree.mount("/x", "bare");
    let root = tree.resolve("/x", &descs).unwrap();
    assert_eq!(root.descriptor_name, "bare");
    assert_eq!(root.variant_name, None);
    assert!(root.node.layers.is_empty());
    let all = tree.resolve_with_variants("/x/", &descs);
    assert_eq!(all.len(), 1);
    assert!(tree.resolve("/x/sub", &descs).is_none());
}

#[test]
fn compose_glyphset_refuses_mixed_tile_sizes() {
    let (mut am, _, _) = assets_fixture();
    let big = LayerSource { file: "big.png".to_string(), w: 16, h: 16, cols: 16, start: 0 };
    am.store_descriptor(descriptor(
        "big",
        0,
        vec![("/", node(vec![AtlasLayer { mapping: LayerMapping::Range { bytes: [0, 1] }, source: big }]))],
    ));
    am.tree.mount("/fonts/big", "big");
    am.register_png("big.png", AtlasKey { ffi: 0x1_0000_0003 });
    let before = am.global_registry.len();
    let rules = vec![
        ComposeRule { node: "/fonts/crt".to_string(), remap: None, as_variant: None },
        ComposeRule { node: "/fonts/big".to_string(), remap: None, as_variant: Some("big".to_string()) },
    ];
    assert_eq!(am.compose_glyphset("mixed", &rules), Err("Tile size mismatch in glyphset 'mixed'".to_string()));
    assert_eq!(am.global_registry.len(), before);
}

#[test]
fn empty_tree_resolves_nothing() {
    let mut descs = StrMap::new();
    descs.insert("bare".to_string(), descriptor("bare", 0, vec![]));
    let tree = VirtualTree::new();
    for path in ["/", "/x", "/x/", "/x/:bold", ""] {
        assert!(tree.resolve(path, &descs).is_none());
        assert!(tree.resolve_with_variants(path, &descs).is_empty());
    }
}
