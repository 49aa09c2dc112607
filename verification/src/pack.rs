//! Building a resource pack from its manifest: the scene of buffers and
//! layout nodes it describes.  The renderer loads the sprite sheets and
//! shaders the manifest names first and hands over their keys; it
//! attaches the listed shaders to the buffers afterwards.

use vstd::prelude::*;
use crate::arena::{is_slot_key, slot_key};
use crate::keys::{AtlasKey, BufferKey, GlyphsetKey, NodeKey, ShaderKey};
use crate::strmap::StrMap;
use crate::text::{owned, push_str, str_eq};
use crate::buffer::{Buffer, SPACE_CODE};
use crate::types::blank_char;
use crate::grids::{Grids, keeps_rest};
use crate::hierarchy::{Anchor, Hierarchy, Node, ZPolicy, child_appended, node_with_parent};
use crate::asset_manager::{AssetManager, glyphset_slot_count};
use crate::semantic::{AtlasConfig, config_check, config_fits, group_list, groups_regs, groups_variants, glyphset_created, atlas_merged};

verus! {

broadcast use vstd::string::group_string_axioms;

// ---------------------------------------------------------------------------
// Manifest values
// ---------------------------------------------------------------------------

/// The anchor a manifest names; an unknown name means top-left.
pub open spec fn anchor_named(s: Seq<char>) -> Anchor {
    if s == "TopCenter"@ {
        Anchor::TopCenter
    } else if s == "TopRight"@ {
        Anchor::TopRight
    } else if s == "CenterLeft"@ {
        Anchor::CenterLeft
    } else if s == "Center"@ {
        Anchor::Center
    } else if s == "CenterRight"@ {
        Anchor::CenterRight
    } else if s == "BottomLeft"@ {
        Anchor::BottomLeft
    } else if s == "BottomCenter"@ {
        Anchor::BottomCenter
    } else if s == "BottomRight"@ {
        Anchor::BottomRight
    } else {
        Anchor::TopLeft
    }
}

/// The anchor named `name` in a manifest.
pub fn parse_anchor(name: &str) -> (a: Anchor)
    ensures
        a == anchor_named(name@),
{
    if str_eq(name, "TopCenter") {
        Anchor::TopCenter
    } else if str_eq(name, "TopRight") {
        Anchor::TopRight
    } else if str_eq(name, "CenterLeft") {
        Anchor::CenterLeft
    } else if str_eq(name, "Center") {
        Anchor::Center
    } else if str_eq(name, "CenterRight") {
        Anchor::CenterRight
    } else if str_eq(name, "BottomLeft") {
        Anchor::BottomLeft
    } else if str_eq(name, "BottomCenter") {
        Anchor::BottomCenter
    } else if str_eq(name, "BottomRight") {
        Anchor::BottomRight
    } else {
        Anchor::TopLeft
    }
}

/// A node of a pack's scene, as the manifest describes it.
#[derive(Debug, Clone)]
pub struct SceneNode {
    pub id: String,
    pub kind: String,
    pub name: String,
    pub width: u32,
    pub height: u32,
    /// Name of the glyphset the buffer is drawn with.
    pub glyphset: String,
    pub z_index: Option<i32>,
    pub dynamic: Option<bool>,
    /// Id of the parent node; a node without one becomes the root.
    pub parent: Option<String>,
    pub anchor: Option<String>,
    pub local_x: Option<i32>,
    pub local_y: Option<i32>,
    pub shader: Option<String>,
    pub shaders: Option<Vec<String>>,
    pub shader_padding: Option<u32>,
}

/// A shader that the renderer is to attach to a buffer.
#[derive(Debug, Clone, Copy, PartialEq, Eq, Structural)]
pub struct ShaderAttachment {
    pub buffer: BufferKey,
    pub shader: ShaderKey,
    pub padding: u32,
}

/// Why a pack could not be built.
#[derive(Debug, Clone, PartialEq, Eq)]
pub enum PackError {
    /// A glyphset names a base sheet the pack did not load.
    MissingBaseAtlas { atlas: String, glyphset: String },
    /// A scene node names a glyphset the pack does not define.
    MissingGlyphset { glyphset: String, node: String },
    /// A glyphset merges a sheet whose tiles differ from its base sheet's.
    TileSizeMismatch { atlas: String, glyphset: String },
}

/// Text of a pack error.
pub open spec fn pack_error_text(e: PackError) -> Seq<char> {
    match e {
        PackError::MissingBaseAtlas { atlas, glyphset } => "Base atlas '"@ + atlas@ + "' not found for glyphset '"@
            + glyphset@ + "'"@,
        PackError::MissingGlyphset { glyphset, node } => "Glyphset '"@ + glyphset@ + "' not found for node '"@ + node@
            + "'"@,
        PackError::TileSizeMismatch { atlas, glyphset } => "Tile size mismatch: atlas '"@ + atlas@
            + "' cannot be merged into glyphset '"@ + glyphset@ + "'"@,
    }
}

impl PackError {
    /// What went wrong, in words.
    pub fn message(&self) -> (s: String)
        ensures
            s@ == pack_error_text(*self),
    {
        let mut s = String::new();
        match self {
            PackError::MissingBaseAtlas { atlas, glyphset } => {
                push_str(&mut s, "Base atlas '");
                push_str(&mut s, atlas.as_str());
                push_str(&mut s, "' not found for glyphset '");
                push_str(&mut s, glyphset.as_str());
                push_str(&mut s, "'");
            },
            PackError::MissingGlyphset { glyphset, node } => {
                push_str(&mut s, "Glyphset '");
                push_str(&mut s, glyphset.as_str());
                push_str(&mut s, "' not found for node '");
                push_str(&mut s, node.as_str());
                push_str(&mut s, "'");
            },
            PackError::TileSizeMismatch { atlas, glyphset } => {
                push_str(&mut s, "Tile size mismatch: atlas '");
                push_str(&mut s, atlas.as_str());
                push_str(&mut s, "' cannot be merged into glyphset '");
                push_str(&mut s, glyphset.as_str());
                push_str(&mut s, "'");
            },
        }
        proof {
            assert(s@ =~= pack_error_text(*self));
        }
        s
    }
}

// ---------------------------------------------------------------------------
// One scene node
// ---------------------------------------------------------------------------

/// The buffer built for `node`, drawn with glyphset `gk`: blank, visible,
/// with the node's size, name, z-index (0 if none) and dynamic flag
/// (static if none).
pub open spec fn scene_buffer(b: Buffer, node: SceneNode, gk: GlyphsetKey) -> bool {
    &&& b.wf()
    &&& b.name@ == node.name@
    &&& b.w == node.width && b.h == node.height
    &&& b.z_index == (match node.z_index {
        Some(z) => z,
        None => 0i32,
    })
    &&& b.dynamic == (match node.dynamic {
        Some(d) => d,
        None => false,
    })
    &&& b.visible && b.default_variant_id == 0
    &&& b.cells() == Seq::new((node.width * node.height) as nat, |i: int| blank_char(SPACE_CODE))
    &&& b.is_dirty()
    &&& b.glyphset == gk
    &&& b.palette is None
}

/// The layout node of an earlier scene node named as `node`'s parent.
pub open spec fn scene_parent(node: SceneNode, ids: Map<Seq<char>, NodeKey>) -> Option<NodeKey> {
    match node.parent {
        Some(p) => if ids.contains_key(p@) {
            Some(ids[p@])
        } else {
            None
        },
        None => None,
    }
}

/// Offset of a node: both coordinates when the manifest gives both,
/// none otherwise.
pub open spec fn scene_offset(node: SceneNode) -> (i32, i32) {
    match (node.local_x, node.local_y) {
        (Some(x), Some(y)) => (x, y),
        _ => (0i32, 0i32),
    }
}

/// The layout node built for `node`: shows buffer `bk`, hangs under
/// `parent`, has no children, the node's offset and anchor (top-left if
/// none), a top-left pivot, z relative by 0, and is visible.
pub open spec fn scene_layout_node(n: Node, node: SceneNode, bk: BufferKey, parent: Option<NodeKey>) -> bool {
    &&& n.buffer == Some(bk)
    &&& n.parent == parent
    &&& n.children@.len() == 0
    &&& n.local_x == scene_offset(node).0
    &&& n.local_y == scene_offset(node).1
    &&& n.anchor == (match node.anchor {
        Some(a) => anchor_named(a@),
        None => Anchor::TopLeft,
    })
    &&& n.pivot == Anchor::TopLeft
    &&& n.z_policy == ZPolicy::Relative(0)
    &&& n.visible
}

/// The shaders among `names` that the pack loaded, in order.
pub open spec fn found_shaders(names: Seq<String>, shaders: Map<Seq<char>, ShaderKey>) -> Seq<ShaderKey>
    decreases names.len(),
{
    if names.len() == 0 {
        Seq::empty()
    } else {
        let prev = found_shaders(names.drop_last(), shaders);
        if shaders.contains_key(names.last()@) {
            prev.push(shaders[names.last()@])
        } else {
            prev
        }
    }
}

/// Shaders for `node`: its single shader, then its shader chain, each
/// where the pack loaded it.
pub open spec fn node_shader_keys(node: SceneNode, shaders: Map<Seq<char>, ShaderKey>) -> Seq<ShaderKey> {
    let single = match node.shader {
        Some(s) => if shaders.contains_key(s@) {
            seq![shaders[s@]]
        } else {
            Seq::empty()
        },
        None => Seq::empty(),
    };
    let chain = match node.shaders {
        Some(v) => found_shaders(v@, shaders),
        None => Seq::empty(),
    };
    single + chain
}

/// Shader padding of a node, 0 if none.
pub open spec fn padding_of(node: SceneNode) -> u32 {
    match node.shader_padding {
        Some(p) => p,
        None => 0,
    }
}

/// The attachments of shaders `keys` to buffer `bk` with padding `pad`.
pub open spec fn attach_all(keys: Seq<ShaderKey>, bk: BufferKey, pad: u32) -> Seq<ShaderAttachment> {
    keys.map_values(|k: ShaderKey| ShaderAttachment { buffer: bk, shader: k, padding: pad })
}

/// Grids, layout, buffers by node id, layout nodes by node id, and the
/// shader attachments, while a scene is built.
pub type SceneState = (Grids, Hierarchy, Map<Seq<char>, BufferKey>, Map<Seq<char>, NodeKey>, Seq<ShaderAttachment>);

/// Adding `node` (drawn with glyphset `gk`) takes `a` to `b`, making
/// buffer `bk` and layout node `nk`: the buffer is added and nothing else
/// of the grids changes; the layout node is added, appended to its
/// parent's children (if the parent was built before), and made the
/// root when the manifest gives no parent; the node id now names `bk`
/// and `nk`; the node's shaders are listed for `bk`.
pub open spec fn scene_step(
    a: SceneState,
    b: SceneState,
    node: SceneNode,
    gk: GlyphsetKey,
    shaders: Map<Seq<char>, ShaderKey>,
    bk: BufferKey,
    nk: NodeKey,
) -> bool {
    let parent = scene_parent(node, a.3);
    &&& !a.0.buffers.map().contains_key(bk.ffi)
    &&& b.0.buffers.map() == a.0.buffers.map().insert(bk.ffi, b.0.buffers.map()[bk.ffi])
    &&& scene_buffer(b.0.buffers.map()[bk.ffi], node, gk)
    &&& keeps_rest(a.0, b.0)
    &&& !a.1.slots().contains_key(nk.ffi)
    &&& b.1.slots().dom() == a.1.slots().dom().insert(nk.ffi)
    &&& scene_layout_node(b.1.slots()[nk.ffi], node, bk, parent)
    &&& forall|k: u64| #[trigger]
        a.1.slots().contains_key(k) && parent != Some(NodeKey { ffi: k }) ==> b.1.slots()[k] == a.1.slots()[k]
    &&& (parent matches Some(p) ==> child_appended(a.1.slots()[p.ffi], b.1.slots()[p.ffi], nk))
    &&& b.1.root == (if node.parent is None {
        Some(nk)
    } else {
        a.1.root
    })
    &&& b.2 == a.2.insert(node.id@, bk)
    &&& b.3 == a.3.insert(node.id@, nk)
    &&& b.4 == a.4 + attach_all(node_shader_keys(node, shaders), bk, padding_of(node))
}

/// Appends the attachments of the loaded shaders among `names`.
fn attach_found(
    names: &Vec<String>,
    shaders: &StrMap<ShaderKey>,
    bk: BufferKey,
    pad: u32,
    atts: &mut Vec<ShaderAttachment>,
)
    requires
        shaders.wf(),
    ensures
        final(atts)@ == old(atts)@ + attach_all(found_shaders(names@, shaders@), bk, pad),
{
    let mut j: usize = 0;
    while j < names.len()
        invariant
            j <= names@.len(),
            shaders.wf(),
            atts@ == old(atts)@ + attach_all(found_shaders(names@.take(j as int), shaders@), bk, pad),
        decreases names@.len() - j,
    {
        proof {
            assert(names@.take(j + 1).drop_last() =~= names@.take(j as int));
        }
        match shaders.get(names[j].as_str()) {
            Some(k) => {
                atts.push(ShaderAttachment { buffer: bk, shader: *k, padding: pad });
                assert(atts@ =~= old(atts)@ + attach_all(found_shaders(names@.take(j + 1), shaders@), bk, pad));
            },
            None => {},
        }
        j += 1;
    }
    assert(names@.take(names@.len() as int) =~= names@);
}

/// Builds the buffer and layout node of one scene node.
fn add_scene_node(
    grids: &mut Grids,
    hierarchy: &mut Hierarchy,
    node: &SceneNode,
    gk: GlyphsetKey,
    shaders: &StrMap<ShaderKey>,
    buffers: &mut StrMap<BufferKey>,
    ids: &mut StrMap<NodeKey>,
    atts: &mut Vec<ShaderAttachment>,
) -> (r: (BufferKey, NodeKey))
    requires
        old(grids).wf(),
        old(hierarchy).wf(),
        shaders.wf(),
        old(buffers).wf(),
        old(ids).wf(),
        old(grids).buffers.can_grow(),
        old(hierarchy).can_grow(),
        node.width as int * node.height as int <= u32::MAX,
        forall|p: Seq<char>| #[trigger]
            old(ids)@.contains_key(p) ==> old(hierarchy).slots().contains_key(old(ids)@[p].ffi) && is_slot_key(
                old(ids)@[p].ffi,
            ),
    ensures
        final(grids).wf(),
        final(hierarchy).wf(),
        final(buffers).wf(),
        final(ids).wf(),
        final(grids).buffers.slot_count() <= old(grids).buffers.slot_count() + 1,
        final(hierarchy).slot_count() <= old(hierarchy).slot_count() + 1,
        is_slot_key(r.1.ffi),
        scene_step(
            (*old(grids), *old(hierarchy), old(buffers)@, old(ids)@, old(atts)@),
            (*final(grids), *final(hierarchy), final(buffers)@, final(ids)@, final(atts)@),
            *node,
            gk,
            shaders@,
            r.0,
            r.1,
        ),
{
    let z: i32 = match node.z_index {
        Some(z) => z,
        None => 0,
    };
    let d: bool = match node.dynamic {
        Some(d) => d,
        None => false,
    };
    let bk = grids.buffer(node.name.as_str(), node.width, node.height, gk).z_index(z).dynamic(d).build();
    buffers.insert(owned(node.id.as_str()), bk);

    let parent: Option<NodeKey> = match &node.parent {
        Some(pid) => match ids.get(pid.as_str()) {
            Some(k) => Some(*k),
            None => None,
        },
        None => None,
    };
    let (lx, ly): (i32, i32) = match (node.local_x, node.local_y) {
        (Some(x), Some(y)) => (x, y),
        _ => (0, 0),
    };
    let anchor = match &node.anchor {
        Some(a) => parse_anchor(a.as_str()),
        None => Anchor::TopLeft,
    };
    let ghost h0 = *hierarchy;
    let b1 = hierarchy.attach(Some(bk));
    let ghost nk0 = b1.node_key;
    let ghost s1 = *b1.hierarchy;
    let b2 = b1.at(lx, ly);
    let ghost s2 = *b2.hierarchy;
    let b3 = b2.anchor(anchor);
    let ghost s3 = *b3.hierarchy;
    let nk = match parent {
        Some(p) => {
            assert(h0.slots().contains_key(p.ffi));
            assert(slot_key(p.ffi) == p.ffi);
            assert(s3.slots().contains_key(p.ffi));
            assert(s3.slots().contains_key(nk0.ffi));
            assert(nk0.ffi != p.ffi);
            let b4 = b3.to(p);
            let r = b4.key();
            assert forall|k: u64| #[trigger]
                s3.slots().contains_key(k) && k != p.ffi && k != nk0.ffi implies hierarchy.slots()[k] == s3.slots()[k] by {}
            r
        },
        None => {
            b3.key()
        }
    };
    assert(s1.slots().dom() =~= h0.slots().dom().insert(nk0.ffi));
    assert(s2.slots().dom() =~= s1.slots().dom());
    assert(s3.slots().dom() =~= s2.slots().dom());
    assert(hierarchy.slots().dom() =~= h0.slots().dom().insert(nk.ffi));
    assert forall|k: u64| #[trigger]
        h0.slots().contains_key(k) && parent != Some(NodeKey { ffi: k }) implies hierarchy.slots()[k] == h0.slots()[k] by {
        assert(k != nk0.ffi);
        assert(s1.slots()[k] == h0.slots()[k]);
        assert(s2.slots()[k] == s1.slots()[k]);
        assert(s3.slots()[k] == s2.slots()[k]);
        assert(s3.slots().contains_key(k));
        if let Some(p) = parent {
            assert(k != p.ffi);
        }
        assert(hierarchy.slots()[k] == s3.slots()[k]);
    }
    if node.parent.is_none() {
        hierarchy.root = Some(nk);
    }
    ids.insert(owned(node.id.as_str()), nk);

    let pad: u32 = match node.shader_padding {
        Some(p) => p,
        None => 0,
    };
    let ghost atts0 = atts@;
    match &node.shader {
        Some(s) => match shaders.get(s.as_str()) {
            Some(k) => {
                atts.push(ShaderAttachment { buffer: bk, shader: *k, padding: pad });
            },
            None => {},
        },
        None => {},
    }
    let ghost atts1 = atts@;
    match &node.shaders {
        Some(list) => {
            attach_found(list, shaders, bk, pad, atts);
        },
        None => {},
    }
    proof {
        let keys = node_shader_keys(*node, shaders@);
        assert(atts@ =~= atts0 + attach_all(keys, bk, pad));
    }
    (bk, nk)
}


// ---------------------------------------------------------------------------
// The scene
// ---------------------------------------------------------------------------

/// Every one of the first `n` nodes names a glyphset of `glyphsets`.
pub open spec fn glyphsets_found(nodes: Seq<SceneNode>, n: int, glyphsets: Map<Seq<char>, GlyphsetKey>) -> bool {
    forall|i: int| 0 <= i < n ==> glyphsets.contains_key(#[trigger] nodes[i].glyphset@)
}

/// `tr` is a run of the first `n` scene nodes from grids `g0` and layout
/// `h0`: it starts with no buffers, nodes or attachments recorded, and
/// step `j` adds node `j` with the glyphset it names, making the keys
/// `ks[j]`.
pub open spec fn scene_run(
    tr: Seq<SceneState>,
    ks: Seq<(BufferKey, NodeKey)>,
    g0: Grids,
    h0: Hierarchy,
    nodes: Seq<SceneNode>,
    n: int,
    glyphsets: Map<Seq<char>, GlyphsetKey>,
    shaders: Map<Seq<char>, ShaderKey>,
) -> bool {
    &&& 0 <= n <= nodes.len()
    &&& tr.len() == n + 1
    &&& ks.len() == n
    &&& tr[0].0 == g0
    &&& tr[0].1 == h0
    &&& tr[0].2.is_empty()
    &&& tr[0].3.is_empty()
    &&& tr[0].4.len() == 0
    &&& glyphsets_found(nodes, n, glyphsets)
    &&& forall|j: int|
        0 <= j < n ==> scene_step(
            tr[j],
            tr[j + 1],
            nodes[j],
            glyphsets[nodes[j].glyphset@],
            shaders,
            (#[trigger] ks[j]).0,
            ks[j].1,
        )
}

/// `e` reports that node `node` names an unknown glyphset.
pub open spec fn missing_glyphset(e: PackError, node: SceneNode) -> bool {
    e matches PackError::MissingGlyphset { glyphset, node: n } && glyphset@ == node.glyphset@ && n@ == node.name@
}

/// What a built scene records: the buffer and layout node of each scene
/// node id, and the shaders the renderer is to attach, in order.
pub struct LoadedScene {
    pub buffers: StrMap<BufferKey>,
    pub nodes: StrMap<NodeKey>,
    pub shader_attachments: Vec<ShaderAttachment>,
}

/// Builds the scene of a pack: for each node in order, a buffer drawn
/// with the glyphset it names and a layout node placed under its parent
/// (or made the root), and the list of shaders to attach.  Fails at the
/// first node whose glyphset the pack does not define; the nodes before
/// it stay built.
pub fn build_scene(
    grids: &mut Grids,
    hierarchy: &mut Hierarchy,
    nodes: &Vec<SceneNode>,
    glyphsets: &StrMap<GlyphsetKey>,
    shaders: &StrMap<ShaderKey>,
) -> (r: Result<LoadedScene, PackError>)
    requires
        old(grids).wf(),
        old(hierarchy).wf(),
        glyphsets.wf(),
        shaders.wf(),
        old(grids).buffers.slot_count() + nodes@.len() < u32::MAX,
        old(hierarchy).slot_count() + nodes@.len() < u32::MAX,
        forall|i: int| 0 <= i < nodes@.len() ==> (#[trigger] nodes@[i]).width as int * nodes@[i].height as int <= u32::MAX,
    ensures
        final(grids).wf(),
        final(hierarchy).wf(),
        r is Ok <==> glyphsets_found(nodes@, nodes@.len() as int, glyphsets@),
        match r {
            Ok(scene) => {
                &&& scene.buffers.wf()
                &&& scene.nodes.wf()
                &&& exists|tr: Seq<SceneState>, ks: Seq<(BufferKey, NodeKey)>|
                    #[trigger] scene_run(tr, ks, *old(grids), *old(hierarchy), nodes@, nodes@.len() as int, glyphsets@, shaders@)
                        && tr.last() == (*final(grids), *final(hierarchy), scene.buffers@, scene.nodes@, scene.shader_attachments@)
            },
            Err(e) => exists|i: int, tr: Seq<SceneState>, ks: Seq<(BufferKey, NodeKey)>|
                {
                    &&& #[trigger] scene_run(tr, ks, *old(grids), *old(hierarchy), nodes@, i, glyphsets@, shaders@)
                    &&& i < nodes@.len()
                    &&& !glyphsets@.contains_key(nodes@[i].glyphset@)
                    &&& tr.last().0 == *final(grids)
                    &&& tr.last().1 == *final(hierarchy)
                    &&& missing_glyphset(e, nodes@[i])
                },
        },
{
    let ghost g0 = *grids;
    let ghost h0 = *hierarchy;
    let mut buffers: StrMap<BufferKey> = StrMap::new();
    let mut ids: StrMap<NodeKey> = StrMap::new();
    let mut atts: Vec<ShaderAttachment> = Vec::new();
    let ghost mut tr: Seq<SceneState> = seq![(g0, h0, buffers@, ids@, atts@)];
    let ghost mut ks: Seq<(BufferKey, NodeKey)> = Seq::empty();
    let mut i: usize = 0;
    while i < nodes.len()
        invariant
            i <= nodes@.len(),
            g0 == *old(grids),
            h0 == *old(hierarchy),
            grids.wf(),
            hierarchy.wf(),
            buffers.wf(),
            ids.wf(),
            glyphsets.wf(),
            shaders.wf(),
            grids.buffers.slot_count() <= g0.buffers.slot_count() + i,
            hierarchy.slot_count() <= h0.slot_count() + i,
            g0.buffers.slot_count() + nodes@.len() < u32::MAX,
            h0.slot_count() + nodes@.len() < u32::MAX,
            forall|j: int| 0 <= j < nodes@.len() ==> (#[trigger] nodes@[j]).width as int * nodes@[j].height as int <= u32::MAX,
            forall|p: Seq<char>| #[trigger]
                ids@.contains_key(p) ==> hierarchy.slots().contains_key(ids@[p].ffi) && is_slot_key(ids@[p].ffi),
            scene_run(tr, ks, g0, h0, nodes@, i as int, glyphsets@, shaders@),
            tr.last() == (*grids, *hierarchy, buffers@, ids@, atts@),
        decreases nodes@.len() - i,
    {
        let node = &nodes[i];
        let gk: GlyphsetKey = match glyphsets.get(node.glyphset.as_str()) {
            Some(k) => *k,
            None => {
                let e = PackError::MissingGlyphset { glyphset: owned(node.glyphset.as_str()), node: owned(node.name.as_str()) };
                assert(scene_run(tr, ks, g0, h0, nodes@, i as int, glyphsets@, shaders@));
                proof {
                    assert(!glyphsets_found(nodes@, nodes@.len() as int, glyphsets@)) by {
                        assert(!glyphsets@.contains_key(nodes@[i as int].glyphset@));
                    }
                }
                return Err(e);
            },
        };
        let ghost before: SceneState = (*grids, *hierarchy, buffers@, ids@, atts@);
        let (bk, nk) = add_scene_node(grids, hierarchy, node, gk, shaders, &mut buffers, &mut ids, &mut atts);
        proof {
            let after: SceneState = (*grids, *hierarchy, buffers@, ids@, atts@);
            tr = tr.push(after);
            ks = ks.push((bk, nk));
            assert forall|p: Seq<char>| #[trigger]
                ids@.contains_key(p) implies hierarchy.slots().contains_key(ids@[p].ffi) && is_slot_key(ids@[p].ffi) by {
                if p != node.id@ {
                    assert(before.3.contains_key(p));
                    assert(before.1.slots().contains_key(ids@[p].ffi));
                }
            }
            assert forall|j: int| 0 <= j < i + 1 implies scene_step(
                tr[j],
                tr[j + 1],
                nodes@[j],
                glyphsets@[nodes@[j].glyphset@],
                shaders@,
                (#[trigger] ks[j]).0,
                ks[j].1,
            ) by {
                if j < i {
                    assert(ks[j] == ks.drop_last()[j]);
                }
            }
        }
        i += 1;
    }
    proof {
        assert(tr.last() == (*grids, *hierarchy, buffers@, ids@, atts@));
    }
    let scene = LoadedScene { buffers, nodes: ids, shader_attachments: atts };
    assert(scene_run(tr, ks, g0, h0, nodes@, nodes@.len() as int, glyphsets@, shaders@));
    Ok(scene)
}


// ---------------------------------------------------------------------------
// Glyphsets
// ---------------------------------------------------------------------------

/// A sprite sheet the renderer loaded for a pack: its key and its
/// configuration.
pub struct LoadedAtlas {
    pub key: AtlasKey,
    pub config: AtlasConfig,
}

/// How a pack composes a glyphset: from a base sheet, with further sheets
/// merged into it.
#[derive(Debug, Clone)]
pub struct GlyphsetConfig {
    pub base: String,
    pub merges: Vec<String>,
}

/// Glyphs the groups of sheet `name` register at most (none for a sheet
/// the pack did not load).
pub open spec fn atlas_regs(name: Seq<char>, atlases: Map<Seq<char>, LoadedAtlas>) -> nat {
    if atlases.contains_key(name) {
        groups_regs(group_list(atlases[name].config))
    } else {
        0
    }
}

/// Variants the groups of sheet `name` name.
pub open spec fn atlas_variants(name: Seq<char>, atlases: Map<Seq<char>, LoadedAtlas>) -> nat {
    if atlases.contains_key(name) {
        groups_variants(group_list(atlases[name].config))
    } else {
        0
    }
}

pub open spec fn merges_regs(ms: Seq<String>, atlases: Map<Seq<char>, LoadedAtlas>) -> nat
    decreases ms.len(),
{
    if ms.len() == 0 {
        0
    } else {
        merges_regs(ms.drop_last(), atlases) + atlas_regs(ms.last()@, atlases)
    }
}

pub open spec fn merges_variants(ms: Seq<String>, atlases: Map<Seq<char>, LoadedAtlas>) -> nat
    decreases ms.len(),
{
    if ms.len() == 0 {
        0
    } else {
        merges_variants(ms.drop_last(), atlases) + atlas_variants(ms.last()@, atlases)
    }
}

/// Glyphs composing the glyphsets `cs` registers at most.
pub open spec fn configs_regs(cs: Seq<GlyphsetConfig>, atlases: Map<Seq<char>, LoadedAtlas>) -> nat
    decreases cs.len(),
{
    if cs.len() == 0 {
        0
    } else {
        configs_regs(cs.drop_last(), atlases) + 1 + atlas_regs(cs.last().base@, atlases) + merges_regs(
            cs.last().merges@,
            atlases,
        )
    }
}

/// Composing glyphset `c` stays within the variant ids a table list can hold.
pub open spec fn config_room(c: GlyphsetConfig, atlases: Map<Seq<char>, LoadedAtlas>) -> bool {
    2 + atlas_variants(c.base@, atlases) + merges_variants(c.merges@, atlases) < usize::MAX
}

/// Merging sheet `name` into glyphset `gk` takes `a` to `b`; a sheet the
/// pack did not load is skipped.
pub open spec fn merge_or_skip(
    a: AssetManager,
    b: AssetManager,
    gk: GlyphsetKey,
    name: Seq<char>,
    atlases: Map<Seq<char>, LoadedAtlas>,
) -> bool {
    if atlases.contains_key(name) {
        atlas_merged(a, b, gk, atlases[name].key, atlases[name].config)
    } else {
        b == a
    }
}

/// `ms` runs the merges of sheets `merges` into glyphset `gk`, one by one.
pub open spec fn merges_run(
    ms: Seq<AssetManager>,
    gk: GlyphsetKey,
    merges: Seq<String>,
    atlases: Map<Seq<char>, LoadedAtlas>,
) -> bool {
    &&& ms.len() == merges.len() + 1
    &&& forall|j: int| 0 <= j < merges.len() ==> merge_or_skip(ms[j], ms[j + 1], gk, (#[trigger] merges[j])@, atlases)
}

/// Composing glyphset `name` from `c` takes `a` to `b` through the
/// states `ms`: the glyphset `k` is made from the base sheet, then each
/// listed sheet is merged into it.
pub open spec fn glyphset_step(
    a: AssetManager,
    b: AssetManager,
    name: Seq<char>,
    c: GlyphsetConfig,
    atlases: Map<Seq<char>, LoadedAtlas>,
    k: GlyphsetKey,
    ms: Seq<AssetManager>,
) -> bool {
    &&& atlases.contains_key(c.base@)
    &&& glyphset_created(a, ms[0], name, atlases[c.base@].key, atlases[c.base@].config, k)
    &&& merges_run(ms, k, c.merges@, atlases)
    &&& b == ms.last()
}

/// Every loaded sheet that glyphset `c` merges has the tile size of its
/// loaded base sheet: a glyphset's grid cannot mix tile sizes.
pub open spec fn tiles_match(c: GlyphsetConfig, atlases: Map<Seq<char>, LoadedAtlas>) -> bool {
    atlases.contains_key(c.base@) ==> forall|j: int|
        0 <= j < c.merges@.len() && atlases.contains_key((#[trigger] c.merges@[j])@) ==> {
            &&& atlases[c.merges@[j]@].config.tile_width == atlases[c.base@].config.tile_width
            &&& atlases[c.merges@[j]@].config.tile_height == atlases[c.base@].config.tile_height
        }
}

/// Merge `j` of glyphset `c` is a loaded sheet whose tiles differ from
/// those of `c`'s loaded base sheet.
pub open spec fn mismatched(c: GlyphsetConfig, atlases: Map<Seq<char>, LoadedAtlas>, j: int) -> bool {
    &&& atlases.contains_key(c.merges@[j]@)
    &&& (atlases[c.merges@[j]@].config.tile_width != atlases[c.base@].config.tile_width
        || atlases[c.merges@[j]@].config.tile_height != atlases[c.base@].config.tile_height)
}

/// Every one of the first `n` glyphsets of `cs` has a loaded base sheet,
/// and merges only sheets of its tile size.
pub open spec fn configs_ok(cs: Seq<GlyphsetConfig>, n: int, atlases: Map<Seq<char>, LoadedAtlas>) -> bool {
    forall|i: int| 0 <= i < n ==> atlases.contains_key(#[trigger] cs[i].base@) && tiles_match(cs[i], atlases)
}

/// `e` reports the first merge of glyphset `c` (named `name`) whose tile
/// size differs from the base sheet's.
pub open spec fn first_mismatch(e: PackError, c: GlyphsetConfig, atlases: Map<Seq<char>, LoadedAtlas>, name: Seq<char>) -> bool {
    exists|j: int|
        0 <= j < c.merges@.len() && #[trigger] mismatched(c, atlases, j) && (forall|q: int| 0 <= q < j ==> !mismatched(c, atlases, q))
            && (e matches PackError::TileSizeMismatch { atlas, glyphset } && atlas@ == c.merges@[j]@ && glyphset@ == name)
}


/// `tr` runs the composition of the first `n` glyphsets (names `names`,
/// configurations `cs`) from `a0`; `maps[j]` records the keys made so far.
pub open spec fn glyphsets_run(
    tr: Seq<AssetManager>,
    maps: Seq<Map<Seq<char>, GlyphsetKey>>,
    ks: Seq<GlyphsetKey>,
    mss: Seq<Seq<AssetManager>>,
    a0: AssetManager,
    names: Seq<Seq<char>>,
    cs: Seq<GlyphsetConfig>,
    n: int,
    atlases: Map<Seq<char>, LoadedAtlas>,
) -> bool {
    &&& 0 <= n <= cs.len()
    &&& names.len() == cs.len()
    &&& tr.len() == n + 1
    &&& maps.len() == n + 1
    &&& ks.len() == n
    &&& mss.len() == n
    &&& tr[0] == a0
    &&& maps[0].is_empty()
    &&& forall|j: int|
        0 <= j < n ==> glyphset_step(tr[j], tr[j + 1], names[j], cs[j], atlases, #[trigger] ks[j], mss[j]) && maps[j
            + 1] == maps[j].insert(names[j], ks[j])
}

proof fn lemma_merges_prefix(ms: Seq<String>, atlases: Map<Seq<char>, LoadedAtlas>, k: int)
    requires
        0 <= k < ms.len(),
    ensures
        merges_regs(ms.take(k + 1), atlases) == merges_regs(ms.take(k), atlases) + atlas_regs(ms[k]@, atlases),
        merges_variants(ms.take(k + 1), atlases) == merges_variants(ms.take(k), atlases) + atlas_variants(ms[k]@, atlases),
        merges_regs(ms.take(k + 1), atlases) <= merges_regs(ms, atlases),
        merges_variants(ms.take(k + 1), atlases) <= merges_variants(ms, atlases),
    decreases ms.len(),
{
    assert(ms.take(k + 1).drop_last() =~= ms.take(k));
    if k + 1 < ms.len() {
        lemma_merges_prefix(ms.drop_last(), atlases, k);
        assert(ms.drop_last().take(k + 1) =~= ms.take(k + 1));
        assert(ms.drop_last().take(k) =~= ms.take(k));
    } else {
        assert(ms.take(k + 1) =~= ms);
    }
}

proof fn lemma_configs_prefix(cs: Seq<GlyphsetConfig>, atlases: Map<Seq<char>, LoadedAtlas>, k: int)
    requires
        0 <= k < cs.len(),
    ensures
        configs_regs(cs.take(k + 1), atlases) == configs_regs(cs.take(k), atlases) + 1 + atlas_regs(cs[k].base@, atlases)
            + merges_regs(cs[k].merges@, atlases),
        configs_regs(cs.take(k + 1), atlases) <= configs_regs(cs, atlases),
    decreases cs.len(),
{
    assert(cs.take(k + 1).drop_last() =~= cs.take(k));
    if k + 1 < cs.len() {
        lemma_configs_prefix(cs.drop_last(), atlases, k);
        assert(cs.drop_last().take(k + 1) =~= cs.take(k + 1));
        assert(cs.drop_last().take(k) =~= cs.take(k));
    } else {
        assert(cs.take(k + 1) =~= cs);
    }
}

/// Makes glyphset `name` from sheet `base`, then merges each listed sheet
/// the pack loaded into it.
fn compose_one(
    assets: &mut AssetManager,
    name: &str,
    c: &GlyphsetConfig,
    base: &LoadedAtlas,
    atlases: &StrMap<LoadedAtlas>,
) -> (r: (GlyphsetKey, Ghost<Seq<AssetManager>>))
    requires
        old(assets).wf(),
        old(assets).can_add_glyphset(),
        atlases.wf(),
        atlases@.contains_key(c.base@),
        atlases@[c.base@] == *base,
        forall|n: Seq<char>| #[trigger] atlases@.contains_key(n) ==> config_fits(atlases@[n].config),
        old(assets).global_registry.entry_seq().len() + 1 + atlas_regs(c.base@, atlases@) + merges_regs(c.merges@, atlases@)
            < u32::MAX,
        config_room(*c, atlases@),
        tiles_match(*c, atlases@),
    ensures
        final(assets).wf(),
        glyphset_step(*old(assets), *final(assets), name@, *c, atlases@, r.0, r.1@),
        glyphset_slot_count(final(assets).glyphsets) <= glyphset_slot_count(old(assets).glyphsets) + 1,
        final(assets).global_registry.entry_seq().len() <= old(assets).global_registry.entry_seq().len() + 1
            + atlas_regs(c.base@, atlases@) + merges_regs(c.merges@, atlases@),
{
    let gk = assets.create_glyphset_from_atlas(name, base.key, &base.config);
    let ghost a1 = *assets;
    let ghost mut ms: Seq<AssetManager> = seq![a1];
    let ghost start = old(assets).global_registry.entry_seq().len() + 1 + atlas_regs(c.base@, atlases@);
    let mut j: usize = 0;
    while j < c.merges.len()
        invariant
            j <= c.merges@.len(),
            assets.wf(),
            atlases.wf(),
            forall|n: Seq<char>| #[trigger] atlases@.contains_key(n) ==> config_fits(atlases@[n].config),
            start + merges_regs(c.merges@, atlases@) < u32::MAX,
            config_room(*c, atlases@),
            tiles_match(*c, atlases@),
            atlases@.contains_key(c.base@),
            atlases@[c.base@] == *base,
            assets.glyphset_map().contains_key(gk.ffi),
            assets.glyphset_map()[gk.ffi].tile_w == base.config.tile_width,
            assets.glyphset_map()[gk.ffi].tile_h == base.config.tile_height,
            is_slot_key(gk.ffi),
            assets.global_registry.entry_seq().len() <= start + merges_regs(c.merges@.take(j as int), atlases@),
            assets.glyphset_map()[gk.ffi].luts@.len() <= 1 + atlas_variants(c.base@, atlases@) + merges_variants(
                c.merges@.take(j as int),
                atlases@,
            ),
            glyphset_slot_count(assets.glyphsets) == glyphset_slot_count(a1.glyphsets),
            ms.len() == j + 1,
            ms[0] == a1,
            ms.last() == *assets,
            forall|t: int| 0 <= t < j ==> merge_or_skip(ms[t], ms[t + 1], gk, (#[trigger] c.merges@[t])@, atlases@),
        decreases c.merges@.len() - j,
    {
        proof {
            lemma_merges_prefix(c.merges@, atlases@, j as int);
        }
        match atlases.get(c.merges[j].as_str()) {
            Some(m) => {
                proof {
                    assert(slot_key(gk.ffi) == gk.ffi);
                    assert(config_fits(m.config));
                    assert(atlases@.contains_key(c.merges@[j as int]@));
                }
                assets.merge_atlas(gk, m.key, &m.config);
            },
            None => {},
        }
        proof {
            ms = ms.push(*assets);
        }
        j += 1;
    }
    proof {
        assert(c.merges@.take(c.merges@.len() as int) =~= c.merges@);
    }
    (gk, Ghost(ms))
}

/// Composes the glyphsets of a pack, in order: each is made from its base
/// sheet, and every listed sheet the pack loaded is merged into it (an
/// unknown one is skipped); a merged sheet must have the tile size of the
/// base sheet.  Fails at the first glyphset whose base sheet
/// the pack did not load; the glyphsets before it stay made.
pub fn build_glyphsets(
    assets: &mut AssetManager,
    configs: &StrMap<GlyphsetConfig>,
    atlases: &StrMap<LoadedAtlas>,
) -> (r: Result<StrMap<GlyphsetKey>, PackError>)
    requires
        old(assets).wf(),
        configs.wf(),
        atlases.wf(),
        forall|n: Seq<char>| #[trigger] atlases@.contains_key(n) ==> config_fits(atlases@[n].config),
        glyphset_slot_count(old(assets).glyphsets) + configs.key_seq().len() < u32::MAX,
        old(assets).global_registry.entry_seq().len() + configs_regs(configs.value_seq(), atlases@) < u32::MAX,
        forall|i: int| 0 <= i < configs.value_seq().len() ==> config_room(#[trigger] configs.value_seq()[i], atlases@),
    ensures
        final(assets).wf(),
        r is Ok <==> configs_ok(configs.value_seq(), configs.value_seq().len() as int, atlases@),
        match r {
            Ok(m) => {
                &&& m.wf()
                &&& exists|tr: Seq<AssetManager>, maps: Seq<Map<Seq<char>, GlyphsetKey>>, ks: Seq<GlyphsetKey>, mss: Seq<Seq<AssetManager>>|
                    {
                        &&& #[trigger] glyphsets_run(tr, maps, ks, mss, *old(assets), configs.key_seq(), configs.value_seq(),
                            configs.value_seq().len() as int, atlases@)
                        &&& tr.last() == *final(assets)
                        &&& maps.last() == m@
                    }
            },
            Err(e) => exists|i: int, tr: Seq<AssetManager>, maps: Seq<Map<Seq<char>, GlyphsetKey>>, ks: Seq<GlyphsetKey>, mss: Seq<Seq<AssetManager>>|
                {
                    &&& #[trigger] glyphsets_run(tr, maps, ks, mss, *old(assets), configs.key_seq(), configs.value_seq(), i, atlases@)
                    &&& i < configs.value_seq().len()
                    &&& tr.last() == *final(assets)
                    &&& if atlases@.contains_key(configs.value_seq()[i].base@) {
                        first_mismatch(e, configs.value_seq()[i], atlases@, configs.key_seq()[i])
                    } else {
                        missing_base(e, configs.value_seq()[i].base@, configs.key_seq()[i])
                    }
                },
        },
{
    let ghost a0 = *assets;
    let ghost names = configs.key_seq();
    let ghost cs = configs.value_seq();
    proof {
        configs.lemma_keys();
    }
    let mut out: StrMap<GlyphsetKey> = StrMap::new();
    let ghost mut tr: Seq<AssetManager> = seq![a0];
    let ghost mut maps: Seq<Map<Seq<char>, GlyphsetKey>> = seq![out@];
    let ghost mut ks: Seq<GlyphsetKey> = Seq::empty();
    let ghost mut mss: Seq<Seq<AssetManager>> = Seq::empty();
    let n = configs.len();
    let mut i: usize = 0;
    while i < n
        invariant
            i <= n,
            n == cs.len(),
            names == configs.key_seq(),
            cs == configs.value_seq(),
            names.len() == cs.len(),
            a0 == *old(assets),
            configs.wf(),
            atlases.wf(),
            out.wf(),
            assets.wf(),
            forall|q: Seq<char>| #[trigger] atlases@.contains_key(q) ==> config_fits(atlases@[q].config),
            glyphset_slot_count(a0.glyphsets) + n < u32::MAX,
            glyphset_slot_count(assets.glyphsets) <= glyphset_slot_count(a0.glyphsets) + i,
            a0.global_registry.entry_seq().len() + configs_regs(cs, atlases@) < u32::MAX,
            assets.global_registry.entry_seq().len() <= a0.global_registry.entry_seq().len() + configs_regs(
                cs.take(i as int),
                atlases@,
            ),
            forall|t: int| 0 <= t < cs.len() ==> config_room(#[trigger] cs[t], atlases@),
            glyphsets_run(tr, maps, ks, mss, a0, names, cs, i as int, atlases@),
            tr.last() == *assets,
            maps.last() == out@,
            configs_ok(cs, i as int, atlases@),
        decreases n - i,
    {
        let (name, c) = configs.entry_at(i);
        proof {
            lemma_configs_prefix(cs, atlases@, i as int);
        }
        let base = match atlases.get(c.base.as_str()) {
            Some(b) => b,
            None => {
                let e = PackError::MissingBaseAtlas { atlas: owned(c.base.as_str()), glyphset: owned(name.as_str()) };
                assert(glyphsets_run(tr, maps, ks, mss, a0, names, cs, i as int, atlases@));
                proof {
                    assert(!configs_ok(cs, cs.len() as int, atlases@)) by {
                        assert(!atlases@.contains_key(cs[i as int].base@));
                    }
                }
                return Err(e);
            },
        };
        match first_tile_mismatch(c, base, atlases) {
            Some(j) => {
                let e = PackError::TileSizeMismatch { atlas: owned(c.merges[j].as_str()), glyphset: owned(name.as_str()) };
                assert(glyphsets_run(tr, maps, ks, mss, a0, names, cs, i as int, atlases@));
                proof {
                    assert(mismatched(cs[i as int], atlases@, j as int));
                    assert(first_mismatch(e, cs[i as int], atlases@, names[i as int]));
                    assert(!configs_ok(cs, cs.len() as int, atlases@)) by {
                        assert(!tiles_match(cs[i as int], atlases@));
                    }
                }
                return Err(e);
            },
            None => {},
        }
        let ghost before = *assets;
        let (gk, ms) = compose_one(assets, name.as_str(), c, base, atlases);
        out.insert(owned(name.as_str()), gk);
        proof {
            tr = tr.push(*assets);
            maps = maps.push(out@);
            ks = ks.push(gk);
            mss = mss.push(ms@);
            assert forall|j: int| 0 <= j < i + 1 implies glyphset_step(tr[j], tr[j + 1], names[j], cs[j], atlases@, #[trigger] ks[j], mss[j])
                && maps[j + 1] == maps[j].insert(names[j], ks[j]) by {
                if j < i {
                    assert(ks[j] == ks.drop_last()[j]);
                }
            }
        }
        i += 1;
    }
    proof {
        assert(cs.take(n as int) =~= cs);
    }
    assert(glyphsets_run(tr, maps, ks, mss, a0, names, cs, n as int, atlases@));
    Ok(out)
}

/// Every sheet's groups, and the variants of each, are well-formed maps
/// (as every map built through `StrMap`'s own functions is).
pub open spec fn sheets_ready(atlases: StrMap<LoadedAtlas>) -> bool {
    &&& atlases.wf()
    &&& forall|n: Seq<char>| #[trigger] atlases@.contains_key(n) ==> {
        &&& atlases@[n].config.semantic_groups.wf()
        &&& forall|i: int|
            0 <= i < atlases@[n].config.semantic_groups.value_seq().len()
                ==> (#[trigger] atlases@[n].config.semantic_groups.value_seq()[i]).variants.wf()
    }
}

/// Every group of sheet `c` can be merged, and its counts fit in `u64`.
pub open spec fn config_counts_fit(c: AtlasConfig) -> bool {
    &&& config_fits(c)
    &&& groups_regs(group_list(c)) <= u64::MAX
    &&& groups_variants(group_list(c)) <= u64::MAX
}

/// Glyphs and variants the groups of loaded sheet `name` register at most
/// (none for a sheet the pack did not load); `None` when a group of it
/// cannot be merged without leaving `u32` or the counts leave `u64`.
fn sheet_counts(name: &str, atlases: &StrMap<LoadedAtlas>) -> (r: Option<(u64, u64)>)
    requires
        sheets_ready(*atlases),
    ensures
        r is Some ==> r.unwrap().0 == atlas_regs(name@, atlases@) && r.unwrap().1 == atlas_variants(name@, atlases@)
            && (atlases@.contains_key(name@) ==> config_fits(atlases@[name@].config)),
        r is None <==> atlases@.contains_key(name@) && !config_counts_fit(atlases@[name@].config),
{
    match atlases.get(name) {
        Some(a) => config_check(&a.config),
        None => Some((0, 0)),
    }
}

/// The limits that composing the glyphsets `configs` from the sheets
/// `atlases` is checked against: a fresh arena slot for each glyphset,
/// every loaded sheet's groups mergeable with counts inside `u64`, fewer
/// than `u32::MAX` variant tables for each glyphset, and registry ids
/// inside `u32`.
pub open spec fn pack_limits(assets: AssetManager, configs: StrMap<GlyphsetConfig>, atlases: Map<Seq<char>, LoadedAtlas>) -> bool {
    let cs = configs.value_seq();
    &&& assets.glyphsets_added + 1 + configs.key_seq().len() < u32::MAX
    &&& forall|n: Seq<char>| #[trigger] atlases.contains_key(n) ==> config_counts_fit(atlases[n].config)
    &&& forall|i: int|
        0 <= i < cs.len() ==> 2 + atlas_variants((#[trigger] cs[i]).base@, atlases) + merges_variants(cs[i].merges@, atlases)
            < u32::MAX
    &&& assets.global_registry.entry_seq().len() + configs_regs(cs, atlases) < u32::MAX
}

/// Whether composing the glyphsets `configs` from the sheets `atlases`
/// stays inside the limits of `pack_limits`; those give what
/// `build_glyphsets` asks for.
pub fn glyphsets_fit(assets: &AssetManager, configs: &StrMap<GlyphsetConfig>, atlases: &StrMap<LoadedAtlas>) -> (b: bool)
    requires
        assets.wf(),
        configs.wf(),
        sheets_ready(*atlases),
    ensures
        b == pack_limits(*assets, *configs, atlases@),
        b ==> glyphset_slot_count(assets.glyphsets) + configs.key_seq().len() < u32::MAX,
        b ==> forall|n: Seq<char>| #[trigger] atlases@.contains_key(n) ==> config_fits(atlases@[n].config),
        b ==> assets.global_registry.entry_seq().len() + configs_regs(configs.value_seq(), atlases@) < u32::MAX,
        b ==> forall|i: int| 0 <= i < configs.value_seq().len() ==> config_room(#[trigger] configs.value_seq()[i], atlases@),
{
    proof {
        atlases.lemma_keys();
        configs.lemma_keys();
    }
    if !assets.has_room_for_glyphsets(configs.len()) {
        return false;
    }
    let na = atlases.len();
    let mut a: usize = 0;
    while a < na
        invariant
            na == atlases.key_seq().len(),
            sheets_ready(*atlases),
            a <= na,
            atlases.key_seq().len() == atlases.value_seq().len(),
            forall|i: int| 0 <= i < atlases.key_seq().len() ==> atlases@.contains_key(#[trigger] atlases.key_seq()[i]),
            forall|q: int| 0 <= q < a ==> config_counts_fit(atlases@[#[trigger] atlases.key_seq()[q]].config),
        decreases na - a,
    {
        let (k, _) = atlases.entry_at(a);
        if sheet_counts(k.as_str(), atlases).is_none() {
            return false;
        }
        a += 1;
    }
    proof {
        assert forall|n: Seq<char>| #[trigger] atlases@.contains_key(n) implies config_counts_fit(atlases@[n].config) by {
            let q = choose|q: int| 0 <= q < atlases.key_seq().len() && atlases.key_seq()[q] == n;
            assert(config_counts_fit(atlases@[atlases.key_seq()[q]].config));
        }
    }
    let ghost cs = configs.value_seq();
    let n = configs.len();
    let mut total: u64 = 0;
    let mut i: usize = 0;
    while i < n
        invariant
            n == cs.len(),
            cs == configs.value_seq(),
            configs.wf(),
            configs.key_seq().len() == cs.len(),
            sheets_ready(*atlases),
            forall|m: Seq<char>| #[trigger] atlases@.contains_key(m) ==> config_counts_fit(atlases@[m].config),
            i <= n,
            total == configs_regs(cs.take(i as int), atlases@),
            total < u32::MAX,
            forall|q: int|
                0 <= q < i ==> 2 + atlas_variants((#[trigger] cs[q]).base@, atlases@) + merges_variants(cs[q].merges@, atlases@)
                    < u32::MAX,
        decreases n - i,
    {
        let (_, c) = configs.entry_at(i);
        proof {
            lemma_configs_prefix(cs, atlases@, i as int);
            assert(cs[i as int] == *c);
        }
        let (br, bv) = match sheet_counts(c.base.as_str(), atlases) {
            Some(x) => x,
            None => return false,
        };
        if br >= 0x1_0000_0000u64 || bv >= 0x1_0000_0000u64 {
            return false;
        }
        let mut mr: u64 = 0;
        let mut mv: u64 = 0;
        let mut j: usize = 0;
        while j < c.merges.len()
            invariant
                j <= c.merges@.len(),
                sheets_ready(*atlases),
                forall|m: Seq<char>| #[trigger] atlases@.contains_key(m) ==> config_counts_fit(atlases@[m].config),
                mr == merges_regs(c.merges@.take(j as int), atlases@),
                mv == merges_variants(c.merges@.take(j as int), atlases@),
                mr < 0x1_0000_0000u64,
                mv < 0x1_0000_0000u64,
                i < cs.len(),
                cs == configs.value_seq(),
                cs[i as int] == *c,
                configs_regs(cs, atlases@) >= merges_regs(c.merges@, atlases@),
            decreases c.merges@.len() - j,
        {
            proof {
                lemma_merges_prefix(c.merges@, atlases@, j as int);
            }
            let (r, v) = match sheet_counts(c.merges[j].as_str(), atlases) {
                Some(x) => x,
                None => return false,
            };
            if r >= 0x1_0000_0000u64 - mr || v >= 0x1_0000_0000u64 - mv {
                return false;
            }
            mr = mr + r;
            mv = mv + v;
            j += 1;
        }
        proof {
            assert(c.merges@.take(c.merges@.len() as int) =~= c.merges@);
        }
        if 2 + bv + mv >= 0xFFFF_FFFFu64 {
            return false;
        }
        let step = 1 + br + mr;
        if total + step >= 0xFFFF_FFFFu64 {
            return false;
        }
        total = total + step;
        i += 1;
    }
    proof {
        assert(cs.take(n as int) =~= cs);
        assert forall|q: int| 0 <= q < cs.len() implies config_room(#[trigger] cs[q], atlases@) by {
            assert(2 + atlas_variants(cs[q].base@, atlases@) + merges_variants(cs[q].merges@, atlases@) < u32::MAX);
        }
    }
    let len = assets.global_registry.len() as u64;
    len < 0xFFFF_FFFFu64 - total
}

/// The first merge of `c` whose loaded sheet has another tile size than
/// the base sheet `base`, if any.
fn first_tile_mismatch(c: &GlyphsetConfig, base: &LoadedAtlas, atlases: &StrMap<LoadedAtlas>) -> (r: Option<usize>)
    requires
        atlases.wf(),
        atlases@.contains_key(c.base@),
        atlases@[c.base@] == *base,
    ensures
        match r {
            Some(j) => j < c.merges@.len() && mismatched(*c, atlases@, j as int) && forall|q: int|
                0 <= q < j ==> !mismatched(*c, atlases@, q),
            None => tiles_match(*c, atlases@),
        },
{
    let mut j: usize = 0;
    while j < c.merges.len()
        invariant
            j <= c.merges@.len(),
            atlases.wf(),
            atlases@.contains_key(c.base@),
            atlases@[c.base@] == *base,
            forall|q: int| 0 <= q < j ==> !mismatched(*c, atlases@, q),
        decreases c.merges@.len() - j,
    {
        match atlases.get(c.merges[j].as_str()) {
            Some(m) => {
                if m.config.tile_width != base.config.tile_width || m.config.tile_height != base.config.tile_height {
                    return Some(j);
                }
            },
            None => {},
        }
        j += 1;
    }
    proof {
        assert forall|q: int| 0 <= q < c.merges@.len() && atlases@.contains_key((#[trigger] c.merges@[q])@) implies {
            &&& atlases@[c.merges@[q]@].config.tile_width == atlases@[c.base@].config.tile_width
            &&& atlases@[c.merges@[q]@].config.tile_height == atlases@[c.base@].config.tile_height
        } by {
            assert(!mismatched(*c, atlases@, q));
        }
    }
    None
}

/// `e` reports that glyphset `glyphset` names base sheet `atlas`, which
/// the pack did not load.
pub open spec fn missing_base(e: PackError, atlas: Seq<char>, glyphset: Seq<char>) -> bool {
    e matches PackError::MissingBaseAtlas { atlas: a, glyphset: g } && a@ == atlas && g@ == glyphset
}

} // verus!
