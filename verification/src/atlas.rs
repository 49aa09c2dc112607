//! Atlas descriptors: how the sprites of one or more sprite sheets are
//! assembled into byte -> sprite mappings, organised as a tree of nodes
//! (`"/"` the root, `"/:name"` variants, other `"/..."` child nodes).

use vstd::prelude::*;
use crate::order::{lex_lt, sort_indices_by_key};
use crate::strmap::StrMap;
use crate::text::{owned, push_str, reversed, str_chars, str_eq};

verus! {

broadcast use vstd::string::group_string_axioms;

// ---------------------------------------------------------------------------
// Raw descriptor (as read from a descriptor file)
// ---------------------------------------------------------------------------

/// A sprite sheet shared by all layers of a node (no start offset).
#[derive(Debug, Clone)]
pub struct NodeSource {
    pub file: String,
    pub w: u32,
    pub h: u32,
    pub cols: u32,
}

/// A layer as written in a descriptor: exactly one of `bytes`, `chars`,
/// `entries` must be set.
#[derive(Debug, Clone)]
pub struct AtlasLayerRaw {
    pub bytes: Option<[u32; 2]>,
    pub chars: Option<String>,
    pub entries: Option<Vec<[u32; 2]>>,
    pub source: Option<LayerSource>,
    pub start: Option<u32>,
}

#[derive(Debug, Clone)]
pub struct AtlasNodeRaw {
    pub source: Option<NodeSource>,
    pub layers: Vec<AtlasLayerRaw>,
}

pub struct AtlasDescriptorRaw {
    pub name: String,
    pub default_byte: u32,
    pub nodes: StrMap<AtlasNodeRaw>,
}

// ---------------------------------------------------------------------------
// Resolved descriptor
// ---------------------------------------------------------------------------

/// The sprite sheet a layer reads from, and the sprite its first byte
/// maps to.
#[derive(Debug, Clone)]
pub struct LayerSource {
    pub file: String,
    pub w: u32,
    pub h: u32,
    pub cols: u32,
    pub start: u32,
}

/// How bytes map to sprites in a layer.
#[derive(Debug, Clone)]
pub enum LayerMapping {
    /// Bytes `from ..= to` map to consecutive sprites from `source.start`.
    Range { bytes: [u32; 2] },
    /// The code points of `chars` map to consecutive sprites.
    Chars { chars: String },
    /// Explicit `[byte, sprite]` pairs.
    Entries { entries: Vec<[u32; 2]> },
}

#[derive(Debug, Clone)]
pub struct AtlasLayer {
    pub mapping: LayerMapping,
    pub source: LayerSource,
}

#[derive(Debug, Clone)]
pub struct AtlasNode {
    pub layers: Vec<AtlasLayer>,
}

pub struct AtlasDescriptor {
    pub name: String,
    pub default_byte: u32,
    pub nodes: StrMap<AtlasNode>,
}

/// Why a raw layer cannot be resolved.
pub enum LayerFault {
    NoMapping,
    SeveralMappings,
    NoSource,
}

/// The mapping a raw layer declares, if any.
pub open spec fn raw_mapping(l: AtlasLayerRaw) -> Option<LayerMapping> {
    if l.bytes is Some {
        Some(LayerMapping::Range { bytes: l.bytes->0 })
    } else if l.chars is Some {
        Some(LayerMapping::Chars { chars: l.chars->0 })
    } else if l.entries is Some {
        Some(LayerMapping::Entries { entries: l.entries->0 })
    } else {
        None
    }
}

/// The source of a raw layer: its own, or the node's with the layer's
/// start offset (0 when absent).
pub open spec fn raw_source(l: AtlasLayerRaw, ns: Option<NodeSource>) -> Option<LayerSource> {
    if l.source is Some {
        Some(l.source->0)
    } else if ns is Some {
        let n = ns->0;
        Some(LayerSource {
            file: n.file,
            w: n.w,
            h: n.h,
            cols: n.cols,
            start: match l.start {
                Some(s) => s,
                None => 0,
            },
        })
    } else {
        None
    }
}

/// How many of the three mapping fields a raw layer sets.
pub open spec fn mapping_count(l: AtlasLayerRaw) -> nat {
    (if l.bytes is Some { 1nat } else { 0nat }) + (if l.chars is Some { 1nat } else { 0nat }) + (if l.entries is Some {
        1nat
    } else {
        0nat
    })
}

/// The fault of a raw layer, if it has one: exactly one mapping must be
/// set, and a source must be found (a mapping fault is reported first).
pub open spec fn layer_fault(l: AtlasLayerRaw, ns: Option<NodeSource>) -> Option<LayerFault> {
    if raw_mapping(l) is None {
        Some(LayerFault::NoMapping)
    } else if mapping_count(l) > 1 {
        Some(LayerFault::SeveralMappings)
    } else if raw_source(l, ns) is None {
        Some(LayerFault::NoSource)
    } else {
        None
    }
}

/// The layer a faultless raw layer resolves to.
pub open spec fn resolved_layer(l: AtlasLayerRaw, ns: Option<NodeSource>) -> AtlasLayer {
    AtlasLayer { mapping: raw_mapping(l)->0, source: raw_source(l, ns)->0 }
}

/// The error message for a fault in node `key`.
pub open spec fn fault_message(key: Seq<char>, f: LayerFault) -> Seq<char> {
    match f {
        LayerFault::NoMapping => "Node '"@ + key + "': layer has no mapping (bytes, chars, or entries)"@,
        LayerFault::SeveralMappings => "Node '"@ + key + "': layer has more than one mapping (bytes, chars, or entries)"@,
        LayerFault::NoSource => "Node '"@ + key + "': layer has no source and node has no default source"@,
    }
}

/// Whether some layer of some node of `raw` has a fault.
pub open spec fn raw_has_fault(raw: AtlasDescriptorRaw) -> bool {
    exists|k: Seq<char>, i: int|
        #![trigger raw.nodes@[k].layers@[i]]
        raw.nodes@.contains_key(k) && 0 <= i < raw.nodes@[k].layers@.len() && layer_fault(
            raw.nodes@[k].layers@[i],
            raw.nodes@[k].source,
        ) is Some
}

/// No layer of `raw` has a fault.
pub open spec fn node_faultless(raw: AtlasNodeRaw) -> bool {
    forall|i: int| 0 <= i < raw.layers@.len() ==> layer_fault(#[trigger] raw.layers@[i], raw.source) is None
}

/// `node` is what raw node `raw` resolves to.
pub open spec fn node_resolves(raw: AtlasNodeRaw, node: AtlasNode) -> bool {
    &&& node.layers@.len() == raw.layers@.len()
    &&& forall|i: int|
        0 <= i < raw.layers@.len() ==> #[trigger] node.layers@[i] == resolved_layer(raw.layers@[i], raw.source)
}

fn resolve_raw_layer(l: AtlasLayerRaw, ns: &Option<NodeSource>) -> (r: Result<AtlasLayer, LayerFault>)
    ensures
        match r {
            Ok(layer) => layer_fault(l, *ns) is None && layer == resolved_layer(l, *ns),
            Err(f) => layer_fault(l, *ns) == Some(f),
        },
{
    let AtlasLayerRaw { bytes, chars, entries, source, start } = l;
    let count: u8 = (if bytes.is_some() { 1u8 } else { 0u8 }) + (if chars.is_some() { 1u8 } else { 0u8 }) + (if entries.is_some() {
        1u8
    } else {
        0u8
    });
    let mapping = if let Some(bytes) = bytes {
        LayerMapping::Range { bytes }
    } else if let Some(chars) = chars {
        LayerMapping::Chars { chars }
    } else if let Some(entries) = entries {
        LayerMapping::Entries { entries }
    } else {
        return Err(LayerFault::NoMapping);
    };
    if count > 1 {
        return Err(LayerFault::SeveralMappings);
    }
    let source = if let Some(s) = source {
        s
    } else if let Some(n) = ns {
        LayerSource {
            file: n.file.clone(),
            w: n.w,
            h: n.h,
            cols: n.cols,
            start: match start {
                Some(s) => s,
                None => 0,
            },
        }
    } else {
        return Err(LayerFault::NoSource);
    };
    Ok(AtlasLayer { mapping, source })
}

fn fault_message_exec(key: &str, f: LayerFault) -> (m: String)
    ensures
        m@ == fault_message(key@, f),
{
    let mut m = owned("Node '");
    push_str(&mut m, key);
    match f {
        LayerFault::NoMapping => push_str(&mut m, "': layer has no mapping (bytes, chars, or entries)"),
        LayerFault::SeveralMappings => push_str(&mut m, "': layer has more than one mapping (bytes, chars, or entries)"),
        LayerFault::NoSource => push_str(&mut m, "': layer has no source and node has no default source"),
    }
    m
}

// ---------------------------------------------------------------------------
// Key classes
// ---------------------------------------------------------------------------

/// A variant node key: starts with `"/:"`.
pub open spec fn is_variant_key(k: Seq<char>) -> bool {
    k.len() >= 2 && k[0] == '/' && k[1] == ':'
}

/// A child node key: starts with `'/'`, is not `"/"` and not a variant.
pub open spec fn is_child_key(k: Seq<char>) -> bool {
    k.len() >= 1 && k[0] == '/' && k != seq!['/'] && !is_variant_key(k)
}

fn is_variant_key_exec(k: &Vec<char>) -> (r: bool)
    ensures
        r == is_variant_key(k@),
{
    k.len() >= 2 && k[0] == '/' && k[1] == ':'
}

fn is_child_key_exec(k: &Vec<char>) -> (r: bool)
    ensures
        r == is_child_key(k@),
{
    let root = k.len() == 1 && k[0] == '/';
    assert(root == (k@ == seq!['/'])) by {
        if k@.len() == 1 && k@[0] == '/' {
            assert(k@ =~= seq!['/']);
        }
    }
    k.len() >= 1 && k[0] == '/' && !root && !is_variant_key_exec(k)
}

// ---------------------------------------------------------------------------
// Layers
// ---------------------------------------------------------------------------

/// The `(byte, sprite)` pairs of a layer, in order.
pub open spec fn layer_pairs(l: AtlasLayer) -> Seq<(u32, u32)> {
    match l.mapping {
        LayerMapping::Range { bytes } => {
            let from = bytes[0];
            let to = bytes[1];
            if from <= to {
                Seq::new((to - from + 1) as nat, |i: int| ((from + i) as u32, (l.source.start + i) as u32))
            } else {
                Seq::empty()
            }
        },
        LayerMapping::Chars { chars } => Seq::new(
            chars@.len(),
            |i: int| (chars@[i] as u32, (l.source.start + i) as u32),
        ),
        LayerMapping::Entries { entries } => Seq::new(
            entries@.len(),
            |i: int| (entries@[i][0], entries@[i][1]),
        ),
    }
}

/// Whether computing a layer's sprite indices would exceed `u32`.
pub open spec fn layer_overflows(l: AtlasLayer) -> bool {
    match l.mapping {
        LayerMapping::Range { bytes } => bytes[0] <= bytes[1] && l.source.start + (bytes[1] - bytes[0]) > u32::MAX,
        LayerMapping::Chars { chars } => chars@.len() > 0 && l.source.start + (chars@.len() - 1) > u32::MAX,
        LayerMapping::Entries { .. } => false,
    }
}

impl AtlasLayer {
    /// The `(byte, sprite)` pairs this layer contributes, in order.
    pub fn byte_sprite_pairs(&self) -> (r: Vec<(u32, u32)>)
        requires
            !layer_overflows(*self),
        ensures
            r@ == layer_pairs(*self),
    {
        let mut out: Vec<(u32, u32)> = Vec::new();
        match &self.mapping {
            LayerMapping::Range { bytes } => {
                let from = bytes[0];
                let to = bytes[1];
                if from <= to {
                    let n: u64 = (to - from) as u64;
                    let mut i: u64 = 0;
                    while i <= n
                        invariant
                            i <= n + 1,
                            n == to - from,
                            from <= to,
                            self.source.start + n <= u32::MAX,
                            out@ == Seq::new(i as nat, |k: int| ((from + k) as u32, (self.source.start + k) as u32)),
                        decreases n + 1 - i,
                    {
                        out.push(((from as u64 + i) as u32, (self.source.start as u64 + i) as u32));
                        i += 1;
                    }
                    assert(out@ =~= layer_pairs(*self));
                } else {
                    assert(out@ =~= layer_pairs(*self));
                }
            },
            LayerMapping::Chars { chars } => {
                let cs = str_chars(chars.as_str());
                let mut i: usize = 0;
                while i < cs.len()
                    invariant
                        i <= cs@.len(),
                        cs@ == chars@,
                        cs@.len() > 0 ==> self.source.start + (cs@.len() - 1) <= u32::MAX,
                        out@ == Seq::new(i as nat, |k: int| (cs@[k] as u32, (self.source.start + k) as u32)),
                    decreases cs@.len() - i,
                {
                    out.push((cs[i] as u32, self.source.start + i as u32));
                    i += 1;
                }
                assert(out@ =~= layer_pairs(*self));
            },
            LayerMapping::Entries { entries } => {
                let mut i: usize = 0;
                while i < entries.len()
                    invariant
                        i <= entries@.len(),
                        out@ == Seq::new(i as nat, |k: int| (entries@[k][0], entries@[k][1])),
                    decreases entries@.len() - i,
                {
                    out.push((entries[i][0], entries[i][1]));
                    i += 1;
                }
                assert(out@ =~= layer_pairs(*self));
            },
        }
        out
    }
}

// ---------------------------------------------------------------------------
// Descriptor
// ---------------------------------------------------------------------------

/// The tile size of the first layer of some node, if some node has a layer.
pub open spec fn first_tile_size(nodes: Seq<AtlasNode>) -> Option<(u32, u32)>
    decreases nodes.len(),
{
    if nodes.len() == 0 {
        None
    } else if nodes[0].layers@.len() > 0 {
        Some((nodes[0].layers@[0].source.w, nodes[0].layers@[0].source.h))
    } else {
        first_tile_size(nodes.drop_first())
    }
}

/// Variant keys when `variants`, child keys otherwise.
pub open spec fn in_class(variants: bool, k: Seq<char>) -> bool {
    if variants {
        is_variant_key(k)
    } else {
        is_child_key(k)
    }
}

/// The keys of `m` of one class, listed in strictly increasing order
/// after `off` leading entries of `r`; each listed node is the map's.
pub open spec fn sorted_class<'a>(
    m: Map<Seq<char>, AtlasNode>,
    r: Seq<(&'a str, &'a AtlasNode)>,
    off: int,
    variants: bool,
) -> bool {
    &&& 0 <= off <= r.len()
    &&& forall|t: int| off <= t < r.len() ==> in_class(variants, (#[trigger] r[t]).0@) && m.contains_key(r[t].0@) && *r[t].1 == m[r[t].0@]
    &&& forall|k: Seq<char>| #[trigger] m.contains_key(k) && in_class(variants, k) ==> exists|t: int| off <= t < r.len() && (#[trigger] r[t]).0@ == k
    &&& forall|t1: int, t2: int| off <= t1 < t2 < r.len() ==> lex_lt((#[trigger] r[t1]).0@, (#[trigger] r[t2]).0@)
}

/// Some layer of some node in `vals` reads from file `f`.
pub open spec fn file_used(vals: Seq<AtlasNode>, f: Seq<char>) -> bool {
    exists|t: int, li: int|
        0 <= t < vals.len() && 0 <= li < vals[t].layers@.len() && (#[trigger] vals[t].layers@[li]).source.file@ == f
}

/// Some layer of some node of `m` reads from file `f`.
pub open spec fn uses_file(m: Map<Seq<char>, AtlasNode>, f: Seq<char>) -> bool {
    exists|k: Seq<char>, i: int|
        #![trigger m[k].layers@[i]]
        m.contains_key(k) && 0 <= i < m[k].layers@.len() && m[k].layers@[i].source.file@ == f
}

/// `files` holds a string equal to `f`.
pub open spec fn file_listed(files: Seq<String>, f: Seq<char>) -> bool {
    exists|a: int| 0 <= a < files.len() && (#[trigger] files[a])@ == f
}

impl AtlasDescriptor {
    /// Builds a descriptor from its raw form, giving every layer its
    /// mapping and its source (the layer's own, or the node's).
    pub fn from_raw(raw: AtlasDescriptorRaw) -> (r: Result<AtlasDescriptor, String>)
        requires
            raw.nodes.wf(),
        ensures
            r is Ok <==> !raw_has_fault(raw),
            match r {
                Ok(d) => {
                    &&& d.name == raw.name
                    &&& d.default_byte == raw.default_byte
                    &&& d.nodes.wf()
                    &&& d.nodes@.dom() == raw.nodes@.dom()
                    &&& forall|k: Seq<char>| #[trigger] d.nodes@.contains_key(k) ==> node_resolves(raw.nodes@[k], d.nodes@[k])
                },
                Err(e) => exists|k: Seq<char>, i: int|
                    #![trigger raw.nodes@[k].layers@[i]]
                    raw.nodes@.contains_key(k) && 0 <= i < raw.nodes@[k].layers@.len() && layer_fault(
                        raw.nodes@[k].layers@[i],
                        raw.nodes@[k].source,
                    ) is Some && e@ == fault_message(k, layer_fault(raw.nodes@[k].layers@[i], raw.nodes@[k].source)->0),
            },
    {
        let ghost rn = raw.nodes@;
        let ghost keys = raw.nodes.key_seq();
        let ghost vals = raw.nodes.value_seq();
        proof {
            raw.nodes.lemma_keys();
        }
        let AtlasDescriptorRaw { name, default_byte, nodes: raw_nodes } = raw;
        let entries = raw_nodes.into_entries();
        let n = entries.len();
        let mut rev = reversed(entries);
        let mut nodes: StrMap<AtlasNode> = StrMap::new();
        let mut j: usize = 0;
        while j < n
            invariant
                j <= n,
                n == keys.len(),
                keys.len() == vals.len(),
                keys.no_duplicates(),
                forall|t: int| 0 <= t < keys.len() ==> rn.contains_key(#[trigger] keys[t]) && rn[keys[t]] == vals[t],
                forall|k: Seq<char>| #[trigger] rn.contains_key(k) ==> keys.contains(k),
                rev@.len() == n - j,
                forall|t: int| 0 <= t < n - j ==> (#[trigger] rev@[t]).0@ == keys[n - 1 - t] && rev@[t].1 == vals[n - 1 - t],
                nodes.wf(),
                rn == raw.nodes@,
                forall|k: Seq<char>| #[trigger] nodes@.contains_key(k) <==> exists|t: int| 0 <= t < j && keys[t] == k,
                forall|k: Seq<char>| #[trigger] nodes@.contains_key(k) ==> node_resolves(rn[k], nodes@[k])
                    && node_faultless(rn[k]),
            decreases n - j,
        {
            let ghost t0 = j as int;
            let (key, raw_node) = rev.pop().unwrap();
            assert(key@ == keys[t0] && raw_node == vals[t0]);
            let AtlasNodeRaw { source: node_source, layers: raw_layers } = raw_node;
            let ghost rl = raw_layers@;
            assert(rn.contains_key(keys[t0]) && rn[keys[t0]] == vals[t0]);
            assert(vals[t0].layers@ == rl && vals[t0].source == node_source);
            let m = raw_layers.len();
            let mut lrev = reversed(raw_layers);
            let mut layers: Vec<AtlasLayer> = Vec::new();
            let mut i: usize = 0;
            while i < m
                invariant
                    i <= m,
                    m == rl.len(),
                    lrev@.len() == m - i,
                    forall|t: int| 0 <= t < m - i ==> #[trigger] lrev@[t] == rl[m - 1 - t],
                    layers@.len() == i,
                    forall|t: int| 0 <= t < i ==> layer_fault(rl[t], node_source) is None
                        && #[trigger] layers@[t] == resolved_layer(rl[t], node_source),
                    0 <= t0 < keys.len(),
                    key@ == keys[t0],
                    rn.contains_key(keys[t0]),
                    rn[keys[t0]].layers@ == rl,
                    rn[keys[t0]].source == node_source,
                    rn == raw.nodes@,
                decreases m - i,
            {
                let l = lrev.pop().unwrap();
                assert(l == rl[i as int]);
                match resolve_raw_layer(l, &node_source) {
                    Ok(layer) => layers.push(layer),
                    Err(f) => {
                        let msg = fault_message_exec(key.as_str(), f);
                        proof {
                            assert(rn[keys[t0]].layers@[i as int] == rl[i as int]);
                            assert(raw_has_fault(raw)) by {
                                assert(raw.nodes@[keys[t0]].layers@[i as int] == rl[i as int]);
                            }
                        }
                        return Err(msg);
                    },
                }
                i += 1;
            }
            let node = AtlasNode { layers };
            proof {
                assert(node_resolves(rn[keys[t0]], node));
                assert forall|t: int| 0 <= t < rn[keys[t0]].layers@.len() implies layer_fault(
                    #[trigger] rn[keys[t0]].layers@[t], rn[keys[t0]].source) is None by {
                    assert(rn[keys[t0]].layers@[t] == rl[t]);
                    assert(node.layers@[t] == resolved_layer(rl[t], node_source));
                }
                assert(node_faultless(rn[keys[t0]]));
                assert(!nodes@.contains_key(key@)) by {
                    if nodes@.contains_key(key@) {
                        let t = choose|t: int| 0 <= t < j && keys[t] == key@;
                        assert(keys[t] == keys[t0]);
                    }
                }
            }
            nodes.insert(key, node);
            j += 1;
            proof {
                assert forall|k: Seq<char>| #[trigger] nodes@.contains_key(k) <==> exists|t: int| 0 <= t < j && keys[t] == k by {
                    if k == keys[t0] {
                        assert(keys[t0] == k);
                    }
                }
            }
        }
        proof {
            assert forall|k: Seq<char>, i: int|
                #![trigger rn[k].layers@[i]]
                rn.contains_key(k) && 0 <= i < rn[k].layers@.len() implies layer_fault(rn[k].layers@[i], rn[k].source) is None by {
                let t = choose|t: int| 0 <= t < keys.len() && keys[t] == k;
                assert(0 <= t < j && keys[t] == k);
                assert(nodes@.contains_key(k));
                assert(node_resolves(rn[k], nodes@[k]));
                assert(node_faultless(rn[k]));
            }
            assert(nodes@.dom() =~= rn.dom());
        }
        Ok(AtlasDescriptor { name, default_byte, nodes })
    }

    /// Tile size of the first layer of a node that has layers, if any
    /// (all layers of a descriptor are meant to share one tile size).
    pub fn tile_size(&self) -> (r: Option<(u32, u32)>)
        requires
            self.nodes.wf(),
        ensures
            r == first_tile_size(self.nodes.value_seq()),
            match r {
                Some((w, h)) => exists|k: Seq<char>|
                    #[trigger] self.nodes@.contains_key(k) && self.nodes@[k].layers@.len() > 0
                        && self.nodes@[k].layers@[0].source.w == w && self.nodes@[k].layers@[0].source.h == h,
                None => forall|k: Seq<char>| #[trigger] self.nodes@.contains_key(k) ==> self.nodes@[k].layers@.len() == 0,
            },
    {
        proof {
            self.nodes.lemma_keys();
        }
        let ghost vals = self.nodes.value_seq();
        let ghost keys = self.nodes.key_seq();
        let n = self.nodes.len();
        let mut i: usize = 0;
        assert(vals.subrange(0, n as int) =~= vals);
        while i < n
            invariant
                i <= n,
                n == vals.len(),
                self.nodes.wf(),
                vals == self.nodes.value_seq(),
                keys == self.nodes.key_seq(),
                first_tile_size(vals) == first_tile_size(vals.subrange(i as int, n as int)),
                forall|t: int| 0 <= t < i ==> (#[trigger] vals[t]).layers@.len() == 0,
                keys.len() == vals.len(),
                forall|t: int| 0 <= t < keys.len() ==> self.nodes@.contains_key(#[trigger] keys[t]) && self.nodes@[keys[t]] == vals[t],
                forall|k: Seq<char>| #[trigger] self.nodes@.contains_key(k) ==> keys.contains(k),
            decreases n - i,
        {
            let (_k, node) = self.nodes.entry_at(i);
            assert(vals.subrange(i as int, n as int).drop_first() =~= vals.subrange(i + 1, n as int));
            if node.layers.len() > 0 {
                let src = &node.layers[0].source;
                proof {
                    assert(self.nodes@.contains_key(keys[i as int]));
                }
                return Some((src.w, src.h));
            }
            i += 1;
        }
        proof {
            assert(vals.subrange(n as int, n as int).len() == 0);
            assert forall|k: Seq<char>| #[trigger] self.nodes@.contains_key(k) implies self.nodes@[k].layers@.len() == 0 by {
                let t = choose|t: int| 0 <= t < keys.len() && keys[t] == k;
                assert(vals[t].layers@.len() == 0);
            }
        }
        None
    }

    /// The distinct sprite sheet files its layers read from.
    pub fn referenced_files(&self) -> (r: Vec<String>)
        requires
            self.nodes.wf(),
        ensures
            forall|a: int, b: int| 0 <= a < b < r@.len() ==> (#[trigger] r@[a])@ != (#[trigger] r@[b])@,
            forall|a: int| 0 <= a < r@.len() ==> uses_file(self.nodes@, (#[trigger] r@[a])@),
            forall|k: Seq<char>, i: int|
                #![trigger self.nodes@[k].layers@[i]]
                self.nodes@.contains_key(k) && 0 <= i < self.nodes@[k].layers@.len() ==> file_listed(
                    r@, self.nodes@[k].layers@[i].source.file@),
    {
        proof {
            self.nodes.lemma_keys();
        }
        let ghost vals = self.nodes.value_seq();
        let ghost keys = self.nodes.key_seq();
        let mut files: Vec<String> = Vec::new();
        let n = self.nodes.len();
        let mut j: usize = 0;
        while j < n
            invariant
                j <= n,
                n == vals.len() && n == keys.len(),
                self.nodes.wf(),
                vals == self.nodes.value_seq(),
                keys == self.nodes.key_seq(),
                forall|a: int, b: int| 0 <= a < b < files@.len() ==> (#[trigger] files@[a])@ != (#[trigger] files@[b])@,
                forall|a: int| 0 <= a < files@.len() ==> file_used(vals, (#[trigger] files@[a])@),
                forall|t: int, li: int|
                    0 <= t < j && 0 <= li < vals[t].layers@.len() ==> file_listed(files@, (#[trigger] vals[t].layers@[li]).source.file@),
            decreases n - j,
        {
            let (_k, node) = self.nodes.entry_at(j);
            let mut i: usize = 0;
            while i < node.layers.len()
                invariant
                    j < n,
                    n == vals.len() && n == keys.len(),
                    *node == vals[j as int],
                    i <= node.layers@.len(),
                    forall|a: int, b: int| 0 <= a < b < files@.len() ==> (#[trigger] files@[a])@ != (#[trigger] files@[b])@,
                    forall|a: int| 0 <= a < files@.len() ==> file_used(vals, (#[trigger] files@[a])@),
                    forall|t: int, li: int|
                        ((0 <= t < j && 0 <= li < vals[t].layers@.len()) || (t == j && 0 <= li < i)) ==> file_listed(
                            files@, (#[trigger] vals[t].layers@[li]).source.file@),
                decreases node.layers@.len() - i,
            {
                let file = &node.layers[i].source.file;
                let mut found = false;
                let mut f: usize = 0;
                while f < files.len()
                    invariant
                        f <= files@.len(),
                        found ==> file_listed(files@, file@),
                        !found ==> forall|a: int| 0 <= a < f ==> (#[trigger] files@[a])@ != file@,
                    decreases files@.len() - f,
                {
                    if str_eq(files[f].as_str(), file.as_str()) {
                        found = true;
                        assert(files@[f as int]@ == file@);
                    }
                    f += 1;
                }
                let ghost before = files@;
                proof {
                    assert(vals[j as int].layers@[i as int].source.file@ == file@);
                    assert(file_used(vals, file@)) by {
                        assert(vals[j as int].layers@[i as int].source.file@ == file@);
                    }
                }
                if !found {
                    files.push(file.clone());
                }
                proof {
                    assert forall|a: int| 0 <= a < files@.len() implies file_used(vals, (#[trigger] files@[a])@) by {
                        if a < before.len() {
                            assert(files@[a] == before[a]);
                        }
                    }
                    assert forall|a: int, b: int| 0 <= a < b < files@.len() implies (#[trigger] files@[a])@ != (#[trigger] files@[b])@ by {
                        if b == before.len() {
                            assert(files@[a] == before[a]);
                        } else {
                            assert(files@[a] == before[a]);
                            assert(files@[b] == before[b]);
                        }
                    }
                    assert forall|t: int, li: int|
                        ((0 <= t < j && 0 <= li < vals[t].layers@.len()) || (t == j && 0 <= li < i + 1)) implies file_listed(
                            files@, (#[trigger] vals[t].layers@[li]).source.file@) by {
                        if t == j && li == i {
                            if !found {
                                assert(files@[before.len() as int]@ == file@);
                            } else {
                                let a = choose|a: int| 0 <= a < before.len() && (#[trigger] before[a])@ == file@;
                                assert(files@[a] == before[a]);
                            }
                        } else {
                            assert(file_listed(before, vals[t].layers@[li].source.file@));
                            let a = choose|a: int| 0 <= a < before.len() && (#[trigger] before[a])@ == vals[t].layers@[li].source.file@;
                            assert(files@[a] == before[a]);
                        }
                    }
                }
                i += 1;
            }
            j += 1;
        }
        proof {
            assert forall|a: int| 0 <= a < files@.len() implies uses_file(self.nodes@, (#[trigger] files@[a])@) by {
                assert(file_used(vals, files@[a]@));
                let (t, li) = choose|t: int, li: int|
                    0 <= t < vals.len() && 0 <= li < vals[t].layers@.len() && (#[trigger] vals[t].layers@[li]).source.file@
                        == files@[a]@;
                assert(self.nodes@.contains_key(keys[t]));
                assert(self.nodes@[keys[t]].layers@[li] == vals[t].layers@[li]);
            }
            assert forall|k: Seq<char>, i: int|
                #![trigger self.nodes@[k].layers@[i]]
                self.nodes@.contains_key(k) && 0 <= i < self.nodes@[k].layers@.len() implies file_listed(
                    files@, self.nodes@[k].layers@[i].source.file@) by {
                let t = choose|t: int| 0 <= t < keys.len() && keys[t] == k;
                assert(vals[t].layers@[i] == self.nodes@[k].layers@[i]);
            }
        }
        files
    }

    /// Keys of the map, as characters, in insertion order.
    fn key_chars(&self) -> (r: Vec<Vec<char>>)
        requires
            self.nodes.wf(),
        ensures
            r@.len() == self.nodes.key_seq().len(),
            forall|i: int| 0 <= i < r@.len() ==> (#[trigger] r@[i])@ == self.nodes.key_seq()[i],
    {
        let n = self.nodes.len();
        let mut r: Vec<Vec<char>> = Vec::new();
        let mut i: usize = 0;
        while i < n
            invariant
                i <= n,
                n == self.nodes.key_seq().len(),
                self.nodes.wf(),
                r@.len() == i,
                forall|t: int| 0 <= t < i ==> (#[trigger] r@[t])@ == self.nodes.key_seq()[t],
            decreases n - i,
        {
            let (k, _v) = self.nodes.entry_at(i);
            r.push(str_chars(k.as_str()));
            i += 1;
        }
        r
    }

    /// Entries whose keys satisfy `p`, sorted by key, appended to `out`.
    fn push_sorted_class<'a>(
        &'a self,
        out: &mut Vec<(&'a str, &'a AtlasNode)>,
        keys: &Vec<Vec<char>>,
        variants: bool,
    )
        requires
            self.nodes.wf(),
            keys@.len() == self.nodes.key_seq().len(),
            forall|i: int| 0 <= i < keys@.len() ==> (#[trigger] keys@[i])@ == self.nodes.key_seq()[i],
        ensures
            final(out)@.subrange(0, old(out)@.len() as int) == old(out)@,
            sorted_class(self.nodes@, final(out)@, old(out)@.len() as int, variants),
    {
        proof {
            self.nodes.lemma_keys();
        }
        let ghost ks = self.nodes.key_seq();
        let n = keys.len();
        let mut idx: Vec<usize> = Vec::new();
        let mut i: usize = 0;
        while i < n
            invariant
                i <= n,
                n == keys@.len(),
                forall|t: int| 0 <= t < idx@.len() ==> (#[trigger] idx@[t]) < i,
                forall|a: int, b: int| 0 <= a < b < idx@.len() ==> (#[trigger] idx@[a]) < (#[trigger] idx@[b]),
                forall|t: int| 0 <= t < idx@.len() ==> in_class(variants, keys@[#[trigger] idx@[t] as int]@),
                forall|t: int| 0 <= t < i && in_class(variants, keys@[t]@) ==> #[trigger] idx@.contains(t as usize),
            decreases n - i,
        {
            let take = if variants { is_variant_key_exec(&keys[i]) } else { is_child_key_exec(&keys[i]) };
            let ghost before = idx@;
            if take {
                idx.push(i);
            }
            proof {
                assert forall|t: int| 0 <= t < i + 1 && in_class(variants, keys@[t]@) implies #[trigger] idx@.contains(t as usize) by {
                    if t < i {
                        assert(before.contains(t as usize));
                        let q = choose|q: int| 0 <= q < before.len() && before[q] == t as usize;
                        if take {
                            assert(idx@ == before.push(i));
                        }
                        assert(idx@[q] == t as usize);
                    } else {
                        assert(idx@[idx@.len() - 1] == t as usize);
                    }
                }
            }
            i += 1;
        }
        proof {
            assert forall|a: int, b: int| 0 <= a < b < idx@.len() implies keys@[#[trigger] idx@[a] as int]@ != keys@[#[trigger] idx@[b] as int]@ by {
                assert(ks.no_duplicates());
            }
        }
        let ghost idx0 = idx@;
        let sorted = sort_indices_by_key(keys, idx);
        let ghost start = out@.len();
        let mut t: usize = 0;
        while t < sorted.len()
            invariant
                t <= sorted@.len(),
                out@.len() == start + t,
                out@.subrange(0, start as int) == old(out)@,
                start == old(out)@.len(),
                self.nodes.wf(),
                keys@.len() == self.nodes.key_seq().len(),
                forall|q: int| 0 <= q < keys@.len() ==> (#[trigger] keys@[q])@ == self.nodes.key_seq()[q],
                forall|q: int| 0 <= q < sorted@.len() ==> (#[trigger] sorted@[q]) < keys@.len(),
                forall|q: int| start <= q < out@.len() ==> (#[trigger] out@[q]).0@ == keys@[sorted@[q - start] as int]@
                    && self.nodes@.contains_key(out@[q].0@) && *out@[q].1 == self.nodes@[out@[q].0@],
            decreases sorted@.len() - t,
        {
            proof {
                self.nodes.lemma_keys();
            }
            let (k, v) = self.nodes.entry_at(sorted[t]);
            out.push((k.as_str(), v));
            proof {
                assert(out@.subrange(0, start as int) =~= old(out)@);
            }
            t += 1;
        }
        proof {
            let o = out@;
            assert forall|q: int| start <= q < o.len() implies in_class(variants, (#[trigger] o[q]).0@) && self.nodes@.contains_key(o[q].0@)
                && *o[q].1 == self.nodes@[o[q].0@] by {
                assert(idx0.contains(sorted@[q - start]));
            }
            assert forall|k: Seq<char>| #[trigger] self.nodes@.contains_key(k) && in_class(variants, k) implies exists|q: int|
                start <= q < o.len() && (#[trigger] o[q]).0@ == k by {
                let t0 = choose|t0: int| 0 <= t0 < ks.len() && ks[t0] == k;
                assert(idx0.contains(t0 as usize));
                assert(sorted@.contains(t0 as usize));
                let q = choose|q: int| 0 <= q < sorted@.len() && sorted@[q] == t0 as usize;
                assert(o[start + q].0@ == k);
            }
            assert forall|t1: int, t2: int| start <= t1 < t2 < o.len() implies lex_lt((#[trigger] o[t1]).0@, (#[trigger] o[t2]).0@) by {
                assert(lex_lt(keys@[sorted@[t1 - start] as int]@, keys@[sorted@[t2 - start] as int]@));
            }
        }
    }

    /// The root node (as `"/"`, if present) followed by the variant nodes
    /// (`"/:..."`) in key order.
    pub fn root_and_variants(&self) -> (r: Vec<(&str, &AtlasNode)>)
        requires
            self.nodes.wf(),
        ensures
            self.nodes@.contains_key(seq!['/']) ==> r@.len() >= 1 && r@[0].0@ == seq!['/'] && *r@[0].1 == self.nodes@[seq!['/']],
            sorted_class(self.nodes@, r@, if self.nodes@.contains_key(seq!['/']) { 1 } else { 0 }, true),
    {
        proof {
            reveal_strlit("/");
        }
        let mut result: Vec<(&str, &AtlasNode)> = Vec::new();
        assert("/"@ =~= seq!['/']);
        if let Some(root) = self.nodes.get("/") {
            result.push(("/", root));
        }
        let ghost before = result@;
        assert(before.len() == if self.nodes@.contains_key(seq!['/']) { 1int } else { 0int });
        let keys = self.key_chars();
        self.push_sorted_class(&mut result, &keys, true);
        proof {
            if self.nodes@.contains_key(seq!['/']) {
                assert(result@[0] == result@.subrange(0, before.len() as int)[0]);
            }
        }
        result
    }

    /// The child nodes (keys starting with `'/'` that are neither the
    /// root nor variants), in key order.
    pub fn child_nodes(&self) -> (r: Vec<(&str, &AtlasNode)>)
        requires
            self.nodes.wf(),
        ensures
            sorted_class(self.nodes@, r@, 0, false),
    {
        let mut result: Vec<(&str, &AtlasNode)> = Vec::new();
        let keys = self.key_chars();
        self.push_sorted_class(&mut result, &keys, false);
        result
    }
}

} // verus!
