//! Composing a glyphset from nodes of the virtual tree, rule by rule:
//! each rule names a mount path, optionally shifts a range of codes, and
//! optionally files the node's glyphs under a variant.

use vstd::prelude::*;
use crate::keys::{AtlasKey, GlyphsetKey};
use crate::strmap::StrMap;
use crate::text::{owned, push_str};
use crate::atlas::{AtlasDescriptor, AtlasLayer, AtlasNode, layer_pairs, layer_overflows, first_tile_size};
use crate::vtree::{VirtualTree, resolve_spec, resolve_all_spec, variant_of, resolved_as, opt_str, node_layers, ResolvedNode};
use crate::registry::GlobalGlyphRegistry;
use crate::glyphset::{Glyphset, LUT_SIZE, unmapped_lut, next_variant_id};
use crate::semantic::{MergeState, merge_view, entries_with, id_of, filled, same_frame_gs, lemma_id_of};
use crate::asset_manager::{AssetManager, glyphset_arena_insert, glyphset_slot_count};
use crate::arena::is_slot_key;

verus! {

broadcast use vstd::string::group_string_axioms;

/// Shifts the codes `src[0]..=src[1]` of a node to start at `dst`; codes
/// outside the range are left out.
#[derive(Debug, Clone, Copy)]
pub struct RemapConfig {
    pub src: [u32; 2],
    pub dst: u32,
}

/// One step of composing a glyphset.
#[derive(Debug, Clone)]
pub struct ComposeRule {
    /// Mount path of the node(s) to take glyphs from.
    pub node: String,
    pub remap: Option<RemapConfig>,
    /// Files the node's glyphs under this variant instead of the node's own.
    pub as_variant: Option<String>,
}

// ---------------------------------------------------------------------------
// Messages
// ---------------------------------------------------------------------------

pub open spec fn tile_text(name: Seq<char>) -> Seq<char> {
    "Cannot determine tile size for glyphset '"@ + name + "'"@
}

pub open spec fn node_text(node: Seq<char>) -> Seq<char> {
    "Node '"@ + node + "' not found in virtual tree"@
}

pub open spec fn mismatch_text(name: Seq<char>) -> Seq<char> {
    "Tile size mismatch in glyphset '"@ + name + "'"@
}

pub open spec fn png_text(file: Seq<char>) -> Seq<char> {
    "PNG '"@ + file + "' not loaded"@
}

/// Reported when the registry or the glyphset's tables are full.
pub open spec fn cap_text() -> Seq<char> {
    "Glyph capacity exceeded"@
}

fn quoted_message(head: &str, name: &str, tail: &str) -> (s: String)
    ensures
        s@ == head@ + name@ + tail@,
{
    let mut s = String::new();
    push_str(&mut s, head);
    push_str(&mut s, name);
    push_str(&mut s, tail);
    s
}

// ---------------------------------------------------------------------------
// What a rule writes
// ---------------------------------------------------------------------------

/// Every remap range shifts to codes that fit in `u32`.
pub open spec fn remaps_fit(rules: Seq<ComposeRule>) -> bool {
    forall|i: int|
        0 <= i < rules.len() ==> ((#[trigger] rules[i]).remap matches Some(r) ==> (r.src[0] <= r.src[1] ==> r.dst + (
        r.src[1] - r.src[0]) <= u32::MAX))
}

/// Every layer of every node of every descriptor has sprite indices that
/// fit in `u32`.
pub open spec fn layers_fit(descs: Map<Seq<char>, AtlasDescriptor>) -> bool {
    forall|n: Seq<char>, k: Seq<char>, i: int|
        #![trigger descs[n].nodes@[k].layers@[i]]
        descs.contains_key(n) && descs[n].nodes@.contains_key(k) && 0 <= i < descs[n].nodes@[k].layers@.len()
            ==> !layer_overflows(descs[n].nodes@[k].layers@[i])
}

/// Code that `byte` is written at: itself, or shifted by the remap;
/// `None` outside the remapped range.
pub open spec fn remap_dest(byte: u32, remap: Option<RemapConfig>) -> Option<int> {
    match remap {
        None => Some(byte as int),
        Some(r) => if byte < r.src[0] || byte > r.src[1] {
            None
        } else {
            Some(r.dst + (byte - r.src[0]))
        },
    }
}

/// Room for one more registry entry.
pub open spec fn can_register(st: MergeState) -> bool {
    st.entries.len() < u32::MAX
}

/// The pairs `(byte, sprite)` in turn: each whose code lies in the table
/// registers sprite `sprite` of `atlas` and writes its global id at the
/// code in table `id`.  The flag tells that the registry was full.
pub open spec fn write_pairs(
    st: MergeState,
    id: u8,
    pairs: Seq<(u32, u32)>,
    atlas: AtlasKey,
    remap: Option<RemapConfig>,
) -> (MergeState, bool)
    decreases pairs.len(),
{
    if pairs.len() == 0 {
        (st, false)
    } else {
        let (s1, full) = write_pairs(st, id, pairs.drop_last(), atlas, remap);
        let byte = pairs.last().0;
        let x = (atlas, pairs.last().1);
        if full {
            (s1, true)
        } else {
            match remap_dest(byte, remap) {
                None => (s1, false),
                Some(dest) => if dest >= LUT_SIZE {
                    (s1, false)
                } else if !can_register(s1) {
                    (s1, true)
                } else {
                    let ents = entries_with(s1.entries, x);
                    (
                        MergeState {
                            entries: ents,
                            luts: s1.luts.update(id as int, s1.luts[id as int].update(dest, id_of(ents, x))),
                            ..s1
                        },
                        false,
                    )
                },
            }
        }
    }
}

/// The layers in turn, each read from its sprite sheet; stops at the
/// first layer whose sheet is not loaded, or when the registry is full.
pub open spec fn write_layers(
    st: MergeState,
    id: u8,
    layers: Seq<AtlasLayer>,
    pngs: Map<Seq<char>, AtlasKey>,
    remap: Option<RemapConfig>,
) -> (MergeState, Option<Seq<char>>)
    decreases layers.len(),
{
    if layers.len() == 0 {
        (st, None)
    } else {
        let (s1, e1) = write_layers(st, id, layers.drop_last(), pngs, remap);
        let l = layers.last();
        if e1 is Some {
            (s1, e1)
        } else if !pngs.contains_key(l.source.file@) {
            (s1, Some(png_text(l.source.file@)))
        } else {
            let (s2, full) = write_pairs(s1, id, layer_pairs(l), pngs[l.source.file@], remap);
            (
                s2,
                if full {
                    Some(cap_text())
                } else {
                    None
                },
            )
        }
    }
}

/// The table a target writes to: the default one, or variant `v`'s,
/// created with every slot unmapped if new.
pub open spec fn enter_variant(st: MergeState, v: Option<Seq<char>>) -> (MergeState, u8) {
    match v {
        None => (st, 0u8),
        Some(n) => if st.variants.contains_key(n) {
            (st, st.variants[n])
        } else {
            let id = next_variant_id(st.luts.len());
            (MergeState { variants: st.variants.insert(n, id), luts: st.luts.push(unmapped_lut()), ..st }, id)
        },
    }
}

/// One target: node `node` written into variant `v`'s table.
pub open spec fn write_target(
    st: MergeState,
    v: Option<Seq<char>>,
    layers: Seq<AtlasLayer>,
    pngs: Map<Seq<char>, AtlasKey>,
    remap: Option<RemapConfig>,
) -> (MergeState, Option<Seq<char>>) {
    if st.luts.len() + 2 >= usize::MAX {
        (st, Some(cap_text()))
    } else {
        let (s2, id) = enter_variant(st, v);
        write_layers(s2, id, layers, pngs, remap)
    }
}

/// The targets in turn, stopping at the first failure.
pub open spec fn write_targets(
    st: MergeState,
    ts: Seq<(Option<Seq<char>>, Seq<AtlasLayer>)>,
    pngs: Map<Seq<char>, AtlasKey>,
    remap: Option<RemapConfig>,
) -> (MergeState, Option<Seq<char>>)
    decreases ts.len(),
{
    if ts.len() == 0 {
        (st, None)
    } else {
        let (s1, e1) = write_targets(st, ts.drop_last(), pngs, remap);
        if e1 is Some {
            (s1, e1)
        } else {
            write_target(s1, ts.last().0, ts.last().1, pngs, remap)
        }
    }
}

/// What a rule writes: its variant and the node its path denotes, or,
/// without a variant, every node the path denotes with each node's own
/// variant; `None` when the path denotes no node.
pub open spec fn rule_targets(
    mm: Map<Seq<char>, Seq<char>>,
    descs: Map<Seq<char>, AtlasDescriptor>,
    rule: ComposeRule,
) -> Option<Seq<(Option<Seq<char>>, Seq<AtlasLayer>)>> {
    match rule.as_variant {
        Some(v) => match resolve_spec(mm, descs, rule.node@) {
            Some((n, k)) => Some(seq![(Some(v@), node_layers(descs, n, k))]),
            None => None,
        },
        None => {
            let t = resolve_all_spec(mm, descs, rule.node@);
            if t.len() == 0 {
                None
            } else {
                Some(t.map_values(|p: (Seq<char>, Seq<char>)| (variant_of(p.1), node_layers(descs, p.0, p.1))))
            }
        },
    }
}

/// Every layer of `layers` has tiles of `tw` by `th` pixels.
pub open spec fn layers_sized(layers: Seq<AtlasLayer>, tw: u32, th: u32) -> bool {
    forall|l: int| 0 <= l < layers.len() ==> (#[trigger] layers[l]).source.w == tw && layers[l].source.h == th
}

/// Every layer that a rule writes has tiles of `tw` by `th` pixels: a
/// glyphset never mixes tile sizes.
pub open spec fn rules_tiles_match(
    mm: Map<Seq<char>, Seq<char>>,
    descs: Map<Seq<char>, AtlasDescriptor>,
    rules: Seq<ComposeRule>,
    tw: u32,
    th: u32,
) -> bool {
    forall|i: int| 0 <= i < rules.len() ==> rule_sized(mm, descs, #[trigger] rules[i], tw, th)
}

/// Every layer that rule `rule` writes has tiles of `tw` by `th` pixels.
pub open spec fn rule_sized(
    mm: Map<Seq<char>, Seq<char>>,
    descs: Map<Seq<char>, AtlasDescriptor>,
    rule: ComposeRule,
    tw: u32,
    th: u32,
) -> bool {
    match rule_targets(mm, descs, rule) {
        Some(ts) => targets_sized(ts, tw, th),
        None => true,
    }
}

/// Every layer of every target has tiles of `tw` by `th` pixels.
pub open spec fn targets_sized(ts: Seq<(Option<Seq<char>>, Seq<AtlasLayer>)>, tw: u32, th: u32) -> bool {
    forall|j: int| 0 <= j < ts.len() ==> layers_sized(#[trigger] ts[j].1, tw, th)
}

/// The rules in turn, stopping at the first failure.
pub open spec fn write_rules(
    st: MergeState,
    mm: Map<Seq<char>, Seq<char>>,
    descs: Map<Seq<char>, AtlasDescriptor>,
    rules: Seq<ComposeRule>,
    pngs: Map<Seq<char>, AtlasKey>,
) -> (MergeState, Option<Seq<char>>)
    decreases rules.len(),
{
    if rules.len() == 0 {
        (st, None)
    } else {
        let (s1, e1) = write_rules(st, mm, descs, rules.drop_last(), pngs);
        if e1 is Some {
            (s1, e1)
        } else {
            match rule_targets(mm, descs, rules.last()) {
                None => (s1, Some(node_text(rules.last().node@))),
                Some(ts) => write_targets(s1, ts, pngs, rules.last().remap),
            }
        }
    }
}

// ---------------------------------------------------------------------------
// Tile size and default glyph
// ---------------------------------------------------------------------------

/// Tile size of the descriptor of the first node of the first rule whose
/// path denotes a node of a descriptor that has a layer.
pub open spec fn rules_tile_size(
    mm: Map<Seq<char>, Seq<char>>,
    descs: Map<Seq<char>, AtlasDescriptor>,
    rules: Seq<ComposeRule>,
) -> Option<(u32, u32)>
    decreases rules.len(),
{
    if rules.len() == 0 {
        None
    } else {
        let t = resolve_all_spec(mm, descs, rules[0].node@);
        if t.len() > 0 && first_tile_size(descs[t[0].0].nodes.value_seq()) is Some {
            first_tile_size(descs[t[0].0].nodes.value_seq())
        } else {
            rules_tile_size(mm, descs, rules.drop_first())
        }
    }
}

/// Sprite of the first pair for byte `b`.
pub open spec fn first_sprite(pairs: Seq<(u32, u32)>, b: u32) -> Option<u32>
    decreases pairs.len(),
{
    if pairs.len() == 0 {
        None
    } else if pairs[0].0 == b {
        Some(pairs[0].1)
    } else {
        first_sprite(pairs.drop_first(), b)
    }
}

/// Sheet and sprite of the first layer that maps byte `b`.
pub open spec fn first_in_layers(layers: Seq<AtlasLayer>, b: u32) -> Option<(Seq<char>, u32)>
    decreases layers.len(),
{
    if layers.len() == 0 {
        None
    } else {
        match first_sprite(layer_pairs(layers[0]), b) {
            Some(sp) => Some((layers[0].source.file@, sp)),
            None => first_in_layers(layers.drop_first(), b),
        }
    }
}

/// The first non-variant node among `t` that maps its descriptor's
/// default byte, and where.
pub open spec fn first_in_targets(descs: Map<Seq<char>, AtlasDescriptor>, t: Seq<(Seq<char>, Seq<char>)>) -> Option<
    (Seq<char>, u32),
>
    decreases t.len(),
{
    if t.len() == 0 {
        None
    } else {
        let found = if variant_of(t[0].1) is None {
            first_in_layers(node_layers(descs, t[0].0, t[0].1), descs[t[0].0].default_byte)
        } else {
            None
        };
        if found is Some {
            found
        } else {
            first_in_targets(descs, t.drop_first())
        }
    }
}

/// Sheet and sprite of the default glyph: the first match over the rules
/// in order.
pub open spec fn default_source(
    mm: Map<Seq<char>, Seq<char>>,
    descs: Map<Seq<char>, AtlasDescriptor>,
    rules: Seq<ComposeRule>,
) -> Option<(Seq<char>, u32)>
    decreases rules.len(),
{
    if rules.len() == 0 {
        None
    } else {
        let f = first_in_targets(descs, resolve_all_spec(mm, descs, rules[0].node@));
        if f is Some {
            f
        } else {
            default_source(mm, descs, rules.drop_first())
        }
    }
}

/// The physical default glyph, when its sheet is loaded.
pub open spec fn default_entry(pngs: Map<Seq<char>, AtlasKey>, src: Option<(Seq<char>, u32)>) -> Option<(AtlasKey, u32)> {
    match src {
        Some((f, sp)) => if pngs.contains_key(f) {
            Some((pngs[f], sp))
        } else {
            None
        },
        None => None,
    }
}

// ---------------------------------------------------------------------------
// Writing pairs and layers
// ---------------------------------------------------------------------------

/// Glyph tables, variant names and registry entries change; nothing else
/// of the glyphset or the registry's paths does.
pub open spec fn keeps_frame(a: Glyphset, b: Glyphset, ra: GlobalGlyphRegistry, rb: GlobalGlyphRegistry) -> bool {
    &&& same_frame_gs(a, b)
    &&& b.named_codes == a.named_codes
    &&& b.named_groups == a.named_groups
    &&& rb.paths() == ra.paths()
}

fn write_pairs_exec(
    gs: &mut Glyphset,
    reg: &mut GlobalGlyphRegistry,
    id: u8,
    pairs: &Vec<(u32, u32)>,
    atlas: AtlasKey,
    remap: Option<RemapConfig>,
) -> (full: bool)
    requires
        old(gs).wf(),
        old(reg).wf(),
        (id as int) < old(gs).luts@.len(),
        remap matches Some(r) ==> (r.src[0] <= r.src[1] ==> r.dst + (r.src[1] - r.src[0]) <= u32::MAX),
    ensures
        final(gs).wf(),
        final(reg).wf(),
        keeps_frame(*old(gs), *final(gs), *old(reg), *final(reg)),
        final(gs).variant_names == old(gs).variant_names,
        final(gs).luts@.len() == old(gs).luts@.len(),
        (merge_view(*final(gs), *final(reg)), full) == write_pairs(merge_view(*old(gs), *old(reg)), id, pairs@, atlas, remap),
{
    let n = pairs.len();
    let mut k: usize = 0;
    while k < n
        invariant
            n == pairs@.len(),
            k <= n,
            gs.wf(),
            reg.wf(),
            (id as int) < gs.luts@.len(),
            remap matches Some(r) ==> (r.src[0] <= r.src[1] ==> r.dst + (r.src[1] - r.src[0]) <= u32::MAX),
            keeps_frame(*old(gs), *gs, *old(reg), *reg),
            gs.variant_names == old(gs).variant_names,
            gs.luts@.len() == old(gs).luts@.len(),
            (merge_view(*gs, *reg), false) == write_pairs(merge_view(*old(gs), *old(reg)), id, pairs@.take(k as int), atlas, remap),
        decreases n - k,
    {
        let (byte, sprite) = pairs[k];
        proof {
            assert(pairs@.take(k + 1).drop_last() =~= pairs@.take(k as int));
            assert(pairs@.take(k + 1).last() == (byte, sprite));
        }
        let dest: Option<u32> = match remap {
            None => Some(byte),
            Some(r) => if byte < r.src[0] || byte > r.src[1] {
                None
            } else {
                Some(r.dst + (byte - r.src[0]))
            },
        };
        match dest {
            None => {},
            Some(d) => {
                if (d as usize) < LUT_SIZE {
                    if reg.len() >= 0xFFFF_FFFF {
                        proof {
                            assert(pairs@.take(k + 1) =~= pairs@.take(k as int).push((byte, sprite)));
                            lemma_pairs_stay_full(merge_view(*old(gs), *old(reg)), id, pairs@, k as int + 1, atlas, remap);
                        }
                        return true;
                    }
                    let gid = reg.register_glyph(atlas, sprite);
                    proof {
                        reg.lemma_distinct();
                        lemma_id_of(reg.entry_seq(), (atlas, sprite), gid as int);
                    }
                    gs.luts[id as usize][d as usize] = gid;
                    proof {
                        let after = merge_view(*gs, *reg);
                        let spec_next = write_pairs(merge_view(*old(gs), *old(reg)), id, pairs@.take(k + 1), atlas, remap);
                        assert(after.luts =~= spec_next.0.luts);
                        assert(after == spec_next.0);
                    }
                }
            },
        }
        k += 1;
    }
    assert(pairs@.take(n as int) =~= pairs@);
    false
}

/// Once full, the pairs stay full.
proof fn lemma_pairs_stay_full(
    st: MergeState,
    id: u8,
    pairs: Seq<(u32, u32)>,
    k: int,
    atlas: AtlasKey,
    remap: Option<RemapConfig>,
)
    requires
        0 <= k <= pairs.len(),
        write_pairs(st, id, pairs.take(k), atlas, remap).1,
    ensures
        write_pairs(st, id, pairs, atlas, remap) == write_pairs(st, id, pairs.take(k), atlas, remap),
    decreases pairs.len() - k,
{
    if k < pairs.len() {
        assert(pairs.take(k + 1).drop_last() =~= pairs.take(k));
        lemma_pairs_stay_full(st, id, pairs, k + 1, atlas, remap);
    } else {
        assert(pairs.take(k) =~= pairs);
    }
}


/// Every layer of `node` has sprite indices that fit in `u32`.
pub open spec fn node_fits(node: AtlasNode) -> bool {
    forall|i: int| 0 <= i < node.layers@.len() ==> !layer_overflows(#[trigger] node.layers@[i])
}

fn write_layers_exec(
    gs: &mut Glyphset,
    reg: &mut GlobalGlyphRegistry,
    id: u8,
    layers: &Vec<AtlasLayer>,
    pngs: &StrMap<AtlasKey>,
    remap: Option<RemapConfig>,
) -> (r: Result<(), String>)
    requires
        old(gs).wf(),
        old(reg).wf(),
        pngs.wf(),
        (id as int) < old(gs).luts@.len(),
        remap matches Some(rm) ==> (rm.src[0] <= rm.src[1] ==> rm.dst + (rm.src[1] - rm.src[0]) <= u32::MAX),
        forall|i: int| 0 <= i < layers@.len() ==> !layer_overflows(#[trigger] layers@[i]),
    ensures
        final(gs).wf(),
        final(reg).wf(),
        keeps_frame(*old(gs), *final(gs), *old(reg), *final(reg)),
        final(gs).variant_names == old(gs).variant_names,
        final(gs).luts@.len() == old(gs).luts@.len(),
        ({
            let (st, e) = write_layers(merge_view(*old(gs), *old(reg)), id, layers@, pngs@, remap);
            &&& merge_view(*final(gs), *final(reg)) == st
            &&& match r {
                Ok(()) => e is None,
                Err(m) => e == Some(m@),
            }
        }),
{
    let n = layers.len();
    let mut k: usize = 0;
    while k < n
        invariant
            n == layers@.len(),
            k <= n,
            gs.wf(),
            reg.wf(),
            pngs.wf(),
            (id as int) < gs.luts@.len(),
            remap matches Some(rm) ==> (rm.src[0] <= rm.src[1] ==> rm.dst + (rm.src[1] - rm.src[0]) <= u32::MAX),
            forall|i: int| 0 <= i < layers@.len() ==> !layer_overflows(#[trigger] layers@[i]),
            keeps_frame(*old(gs), *gs, *old(reg), *reg),
            gs.variant_names == old(gs).variant_names,
            gs.luts@.len() == old(gs).luts@.len(),
            (merge_view(*gs, *reg), None::<Seq<char>>) == write_layers(
                merge_view(*old(gs), *old(reg)),
                id,
                layers@.take(k as int),
                pngs@,
                remap,
            ),
        decreases n - k,
    {
        let layer = &layers[k];
        proof {
            assert(layers@.take(k + 1).drop_last() =~= layers@.take(k as int));
            assert(layers@.take(k + 1).last() == *layer);
        }
        let atlas = match pngs.get(layer.source.file.as_str()) {
            Some(a) => *a,
            None => {
                proof {
                    lemma_layers_stay_failed(merge_view(*old(gs), *old(reg)), id, layers@, k as int + 1, pngs@, remap);
                }
                return Err(quoted_message("PNG '", layer.source.file.as_str(), "' not loaded"));
            },
        };
        let pairs = layer.byte_sprite_pairs();
        let full = write_pairs_exec(gs, reg, id, &pairs, atlas, remap);
        if full {
            proof {
                lemma_layers_stay_failed(merge_view(*old(gs), *old(reg)), id, layers@, k as int + 1, pngs@, remap);
            }
            return Err(owned("Glyph capacity exceeded"));
        }
        k += 1;
    }
    assert(layers@.take(n as int) =~= layers@);
    Ok(())
}

/// Once failed, the layers stay failed.
proof fn lemma_layers_stay_failed(
    st: MergeState,
    id: u8,
    layers: Seq<AtlasLayer>,
    k: int,
    pngs: Map<Seq<char>, AtlasKey>,
    remap: Option<RemapConfig>,
)
    requires
        0 <= k <= layers.len(),
        write_layers(st, id, layers.take(k), pngs, remap).1 is Some,
    ensures
        write_layers(st, id, layers, pngs, remap) == write_layers(st, id, layers.take(k), pngs, remap),
    decreases layers.len() - k,
{
    if k < layers.len() {
        assert(layers.take(k + 1).drop_last() =~= layers.take(k));
        lemma_layers_stay_failed(st, id, layers, k + 1, pngs, remap);
    } else {
        assert(layers.take(k) =~= layers);
    }
}

fn write_target_exec(
    gs: &mut Glyphset,
    reg: &mut GlobalGlyphRegistry,
    variant: Option<&str>,
    node: &AtlasNode,
    pngs: &StrMap<AtlasKey>,
    remap: Option<RemapConfig>,
) -> (r: Result<(), String>)
    requires
        old(gs).wf(),
        old(reg).wf(),
        pngs.wf(),
        remap matches Some(rm) ==> (rm.src[0] <= rm.src[1] ==> rm.dst + (rm.src[1] - rm.src[0]) <= u32::MAX),
        node_fits(*node),
    ensures
        final(gs).wf(),
        final(reg).wf(),
        keeps_frame(*old(gs), *final(gs), *old(reg), *final(reg)),
        ({
            let (st, e) = write_target(merge_view(*old(gs), *old(reg)), opt_str(variant), node.layers@, pngs@, remap);
            &&& merge_view(*final(gs), *final(reg)) == st
            &&& match r {
                Ok(()) => e is None,
                Err(m) => e == Some(m@),
            }
        }),
{
    if gs.luts.len() >= usize::MAX - 2 {
        return Err(owned("Glyph capacity exceeded"));
    }
    let id: u8 = match variant {
        Some(v) => gs.ensure_variant(v),
        None => 0,
    };
    proof {
        let st0 = merge_view(*old(gs), *old(reg));
        let (s2, id2) = enter_variant(st0, opt_str(variant));
        assert(id == id2);
        assert(merge_view(*gs, *reg) == s2);
    }
    write_layers_exec(gs, reg, id, &node.layers, pngs, remap)
}


/// The descriptors and tree that resolution reads are well formed.
pub open spec fn tree_ready(tree: VirtualTree, descs: StrMap<AtlasDescriptor>) -> bool {
    &&& tree.wf()
    &&& descs.wf()
    &&& forall|n: Seq<char>| #[trigger] descs@.contains_key(n) ==> descs@[n].nodes.wf()
}

/// Once failed, the targets stay failed.
proof fn lemma_targets_stay_failed(
    st: MergeState,
    ts: Seq<(Option<Seq<char>>, Seq<AtlasLayer>)>,
    k: int,
    pngs: Map<Seq<char>, AtlasKey>,
    remap: Option<RemapConfig>,
)
    requires
        0 <= k <= ts.len(),
        write_targets(st, ts.take(k), pngs, remap).1 is Some,
    ensures
        write_targets(st, ts, pngs, remap) == write_targets(st, ts.take(k), pngs, remap),
    decreases ts.len() - k,
{
    if k < ts.len() {
        assert(ts.take(k + 1).drop_last() =~= ts.take(k));
        lemma_targets_stay_failed(st, ts, k + 1, pngs, remap);
    } else {
        assert(ts.take(k) =~= ts);
    }
}

/// Once failed, the rules stay failed.
proof fn lemma_rules_stay_failed(
    st: MergeState,
    mm: Map<Seq<char>, Seq<char>>,
    descs: Map<Seq<char>, AtlasDescriptor>,
    rules: Seq<ComposeRule>,
    k: int,
    pngs: Map<Seq<char>, AtlasKey>,
)
    requires
        0 <= k <= rules.len(),
        write_rules(st, mm, descs, rules.take(k), pngs).1 is Some,
    ensures
        write_rules(st, mm, descs, rules, pngs) == write_rules(st, mm, descs, rules.take(k), pngs),
    decreases rules.len() - k,
{
    if k < rules.len() {
        assert(rules.take(k + 1).drop_last() =~= rules.take(k));
        lemma_rules_stay_failed(st, mm, descs, rules, k + 1, pngs);
    } else {
        assert(rules.take(k) =~= rules);
    }
}

fn apply_compose_rule(
    tree: &VirtualTree,
    descs: &StrMap<AtlasDescriptor>,
    pngs: &StrMap<AtlasKey>,
    reg: &mut GlobalGlyphRegistry,
    gs: &mut Glyphset,
    rule: &ComposeRule,
) -> (r: Result<(), String>)
    requires
        tree_ready(*tree, *descs),
        layers_fit(descs@),
        pngs.wf(),
        old(gs).wf(),
        old(reg).wf(),
        rule.remap matches Some(rm) ==> (rm.src[0] <= rm.src[1] ==> rm.dst + (rm.src[1] - rm.src[0]) <= u32::MAX),
    ensures
        final(gs).wf(),
        final(reg).wf(),
        keeps_frame(*old(gs), *final(gs), *old(reg), *final(reg)),
        ({
            let st0 = merge_view(*old(gs), *old(reg));
            let (st, e) = match rule_targets(tree.mount_map(), descs@, *rule) {
                None => (st0, Some(node_text(rule.node@))),
                Some(ts) => write_targets(st0, ts, pngs@, rule.remap),
            };
            &&& merge_view(*final(gs), *final(reg)) == st
            &&& match r {
                Ok(()) => e is None,
                Err(m) => e == Some(m@),
            }
        }),
{
    let ghost mm = tree.mount_map();
    let ghost st0 = merge_view(*gs, *reg);
    match &rule.as_variant {
        Some(v) => match tree.resolve(rule.node.as_str(), descs) {
            None => Err(quoted_message("Node '", rule.node.as_str(), "' not found in virtual tree")),
            Some(rn) => {
                proof {
                    let (n, k) = resolve_spec(mm, descs@, rule.node@).unwrap();
                    assert forall|i: int| 0 <= i < rn.node.layers@.len() implies !layer_overflows(
                        #[trigger] rn.node.layers@[i],
                    ) by {
                        assert(descs@[n].nodes@[k].layers@[i] == rn.node.layers@[i]);
                    }
                    let ts = seq![(Some(v@), node_layers(descs@, n, k))];
                    assert(ts.drop_last() =~= Seq::<(Option<Seq<char>>, Seq<AtlasLayer>)>::empty());
                }
                let vs: &str = v.as_str();
                assert(opt_str(Some(vs)) == Some(v@));
                let res = write_target_exec(gs, reg, Some(vs), rn.node, pngs, rule.remap);
                proof {
                    let (n, k) = resolve_spec(mm, descs@, rule.node@).unwrap();
                    let ts = seq![(Some(v@), node_layers(descs@, n, k))];
                    assert(rule_targets(mm, descs@, *rule) == Some(ts));
                    assert(ts.drop_last() =~= Seq::<(Option<Seq<char>>, Seq<AtlasLayer>)>::empty());
                    assert(write_targets(st0, ts.drop_last(), pngs@, rule.remap) == (st0, None::<Seq<char>>));
                    assert(write_targets(st0, ts, pngs@, rule.remap) == write_target(st0, Some(v@), rn.node.layers@, pngs@, rule.remap));
                }
                res
            },
        },
        None => {
            let nodes = tree.resolve_with_variants(rule.node.as_str(), descs);
            if nodes.len() == 0 {
                return Err(quoted_message("Node '", rule.node.as_str(), "' not found in virtual tree"));
            }
            let ghost t = resolve_all_spec(mm, descs@, rule.node@);
            let ghost ts = t.map_values(|p: (Seq<char>, Seq<char>)| (variant_of(p.1), node_layers(descs@, p.0, p.1)));
            assert(rule.as_variant is None);
            assert(rule_targets(mm, descs@, *rule) == Some(ts));
            let n = nodes.len();
            let mut j: usize = 0;
            while j < n
                invariant
                    n == nodes@.len(),
                    n == t.len(),
                    ts == t.map_values(|p: (Seq<char>, Seq<char>)| (variant_of(p.1), node_layers(descs@, p.0, p.1))),
                    j <= n,
                    forall|i: int| 0 <= i < nodes@.len() ==> resolved_as(#[trigger] nodes@[i], descs@, t[i].0, t[i].1),
                    tree_ready(*tree, *descs),
                    layers_fit(descs@),
                    pngs.wf(),
                    gs.wf(),
                    reg.wf(),
                    rule.remap matches Some(rm) ==> (rm.src[0] <= rm.src[1] ==> rm.dst + (rm.src[1] - rm.src[0]) <= u32::MAX),
                    keeps_frame(*old(gs), *gs, *old(reg), *reg),
                    st0 == merge_view(*old(gs), *old(reg)),
                    rule_targets(mm, descs@, *rule) == Some(ts),
                    mm == tree.mount_map(),
                    (merge_view(*gs, *reg), None::<Seq<char>>) == write_targets(st0, ts.take(j as int), pngs@, rule.remap),
                decreases n - j,
            {
                let rn = &nodes[j];
                proof {
                    assert(resolved_as(*rn, descs@, t[j as int].0, t[j as int].1));
                    assert(ts[j as int] == (opt_str(rn.variant_name), rn.node.layers@));
                    assert(ts.take(j + 1).drop_last() =~= ts.take(j as int));
                    assert(ts.take(j + 1).last() == ts[j as int]);
                    assert forall|i: int| 0 <= i < rn.node.layers@.len() implies !layer_overflows(
                        #[trigger] rn.node.layers@[i],
                    ) by {
                        assert(descs@[t[j as int].0].nodes@[t[j as int].1].layers@[i] == rn.node.layers@[i]);
                    }
                }
                match write_target_exec(gs, reg, rn.variant_name, rn.node, pngs, rule.remap) {
                    Ok(()) => {},
                    Err(e) => {
                        proof {
                            lemma_targets_stay_failed(st0, ts, j + 1, pngs@, rule.remap);
                        }
                        return Err(e);
                    },
                }
                j += 1;
            }
            assert(ts.take(n as int) =~= ts);
            Ok(())
        },
    }
}

fn layers_sized_exec(layers: &Vec<AtlasLayer>, tw: u32, th: u32) -> (b: bool)
    ensures
        b == layers_sized(layers@, tw, th),
{
    let mut i: usize = 0;
    while i < layers.len()
        invariant
            i <= layers@.len(),
            layers_sized(layers@.take(i as int), tw, th),
        decreases layers@.len() - i,
    {
        if layers[i].source.w != tw || layers[i].source.h != th {
            return false;
        }
        proof {
            assert forall|l: int| 0 <= l < i + 1 implies (#[trigger] layers@.take(i + 1)[l]).source.w == tw
                && layers@.take(i + 1)[l].source.h == th by {
                if l < i {
                    assert(layers@.take(i + 1)[l] == layers@.take(i as int)[l]);
                }
            }
        }
        i += 1;
    }
    assert(layers@.take(layers@.len() as int) =~= layers@);
    true
}

/// Whether every layer rule `rule` writes has tiles of `tw` by `th`.
fn rule_tiles_match(tree: &VirtualTree, descs: &StrMap<AtlasDescriptor>, rule: &ComposeRule, tw: u32, th: u32) -> (b: bool)
    requires
        tree_ready(*tree, *descs),
    ensures
        b == rule_sized(tree.mount_map(), descs@, *rule, tw, th),
{
    let ghost mm = tree.mount_map();
    match &rule.as_variant {
        Some(v) => match tree.resolve(rule.node.as_str(), descs) {
            None => {
                assert(rule_targets(mm, descs@, *rule) is None);
                true
            },
            Some(rn) => {
                let b = layers_sized_exec(&rn.node.layers, tw, th);
                proof {
                    let (n, k) = resolve_spec(mm, descs@, rule.node@).unwrap();
                    let ts = seq![(Some(v@), node_layers(descs@, n, k))];
                    assert(rule_targets(mm, descs@, *rule) == Some(ts));
                    assert(ts[0].1 == rn.node.layers@);
                    assert(b == layers_sized(ts[0].1, tw, th));
                    assert(ts.len() == 1);
                    assert(b == targets_sized(ts, tw, th));
                }
                b
            },
        },
        None => {
            let nodes = tree.resolve_with_variants(rule.node.as_str(), descs);
            let ghost t = resolve_all_spec(mm, descs@, rule.node@);
            let ghost ts = t.map_values(|p: (Seq<char>, Seq<char>)| (variant_of(p.1), node_layers(descs@, p.0, p.1)));
            assert(rule.as_variant is None);
            assert(nodes@.len() > 0 ==> rule_targets(mm, descs@, *rule) == Some(ts));
            assert(nodes@.len() == 0 ==> rule_targets(mm, descs@, *rule) is None);
            let mut j: usize = 0;
            while j < nodes.len()
                invariant
                    j <= nodes@.len(),
                    mm == tree.mount_map(),
                    nodes@.len() > 0 ==> rule_targets(mm, descs@, *rule) == Some(ts),
                    nodes@.len() == 0 ==> rule_targets(mm, descs@, *rule) is None,
                    nodes@.len() == t.len(),
                    ts == t.map_values(|p: (Seq<char>, Seq<char>)| (variant_of(p.1), node_layers(descs@, p.0, p.1))),
                    forall|i: int| 0 <= i < nodes@.len() ==> resolved_as(#[trigger] nodes@[i], descs@, t[i].0, t[i].1),
                    forall|q: int| 0 <= q < j ==> layers_sized(#[trigger] ts[q].1, tw, th),
                decreases nodes@.len() - j,
            {
                let rn = &nodes[j];
                proof {
                    assert(resolved_as(nodes@[j as int], descs@, t[j as int].0, t[j as int].1));
                    assert(ts[j as int].1 == rn.node.layers@);
                }
                if !layers_sized_exec(&rn.node.layers, tw, th) {
                    assert(!layers_sized(ts[j as int].1, tw, th));
                    assert(rule_targets(mm, descs@, *rule) == Some(ts));
                    assert(!targets_sized(ts, tw, th));
                    assert(!rule_sized(mm, descs@, *rule, tw, th));
                    return false;
                }
                j += 1;
            }
            assert(nodes@.len() > 0 ==> targets_sized(ts, tw, th));
            true
        },
    }
}

/// Whether every layer the rules write has tiles of `tw` by `th`.
fn tiles_match_exec(tree: &VirtualTree, descs: &StrMap<AtlasDescriptor>, rules: &Vec<ComposeRule>, tw: u32, th: u32) -> (b: bool)
    requires
        tree_ready(*tree, *descs),
    ensures
        b == rules_tiles_match(tree.mount_map(), descs@, rules@, tw, th),
{
    let mut i: usize = 0;
    while i < rules.len()
        invariant
            i <= rules@.len(),
            tree_ready(*tree, *descs),
            rules_tiles_match(tree.mount_map(), descs@, rules@.take(i as int), tw, th),
        decreases rules@.len() - i,
    {
        if !rule_tiles_match(tree, descs, &rules[i], tw, th) {
            return false;
        }
        proof {
            assert forall|q: int| 0 <= q < i + 1 implies rule_sized(tree.mount_map(), descs@, #[trigger] rules@.take(i + 1)[q], tw, th) by {
                if q < i {
                    assert(rules@.take(i + 1)[q] == rules@.take(i as int)[q]);
                }
            }
        }
        i += 1;
    }
    assert(rules@.take(rules@.len() as int) =~= rules@);
    true
}

fn resolve_tile_size(tree: &VirtualTree, descs: &StrMap<AtlasDescriptor>, rules: &Vec<ComposeRule>) -> (r: Option<(u32, u32)>)
    requires
        tree_ready(*tree, *descs),
    ensures
        r == rules_tile_size(tree.mount_map(), descs@, rules@),
{
    let ghost mm = tree.mount_map();
    let n = rules.len();
    let mut i: usize = 0;
    assert(rules@.subrange(0, n as int) =~= rules@);
    while i < n
        invariant
            n == rules@.len(),
            i <= n,
            tree_ready(*tree, *descs),
            mm == tree.mount_map(),
            rules_tile_size(mm, descs@, rules@) == rules_tile_size(mm, descs@, rules@.subrange(i as int, n as int)),
        decreases n - i,
    {
        let nodes = tree.resolve_with_variants(rules[i].node.as_str(), descs);
        proof {
            assert(rules@.subrange(i as int, n as int).drop_first() =~= rules@.subrange(i + 1, n as int));
            assert(rules@.subrange(i as int, n as int)[0] == rules@[i as int]);
        }
        if nodes.len() > 0 {
            let ghost t = resolve_all_spec(mm, descs@, rules@[i as int].node@);
            proof {
                assert(resolved_as(nodes@[0], descs@, t[0].0, t[0].1));
            }
            match nodes[0].descriptor.tile_size() {
                Some(sz) => {
                    return Some(sz);
                },
                None => {},
            }
        }
        i += 1;
    }
    None
}

fn first_sprite_exec(pairs: &Vec<(u32, u32)>, b: u32) -> (r: Option<u32>)
    ensures
        r == first_sprite(pairs@, b),
{
    let n = pairs.len();
    let mut i: usize = 0;
    assert(pairs@.subrange(0, n as int) =~= pairs@);
    while i < n
        invariant
            n == pairs@.len(),
            i <= n,
            first_sprite(pairs@, b) == first_sprite(pairs@.subrange(i as int, n as int), b),
        decreases n - i,
    {
        assert(pairs@.subrange(i as int, n as int).drop_first() =~= pairs@.subrange(i + 1, n as int));
        if pairs[i].0 == b {
            return Some(pairs[i].1);
        }
        i += 1;
    }
    None
}

fn first_in_layers_exec<'a>(layers: &'a Vec<AtlasLayer>, b: u32) -> (r: Option<(&'a String, u32)>)
    requires
        forall|i: int| 0 <= i < layers@.len() ==> !layer_overflows(#[trigger] layers@[i]),
    ensures
        match (r, first_in_layers(layers@, b)) {
            (None, None) => true,
            (Some((f, sp)), Some((g, sq))) => f@ == g && sp == sq,
            _ => false,
        },
{
    let n = layers.len();
    let mut i: usize = 0;
    assert(layers@.subrange(0, n as int) =~= layers@);
    while i < n
        invariant
            n == layers@.len(),
            i <= n,
            forall|j: int| 0 <= j < layers@.len() ==> !layer_overflows(#[trigger] layers@[j]),
            first_in_layers(layers@, b) == first_in_layers(layers@.subrange(i as int, n as int), b),
        decreases n - i,
    {
        assert(layers@.subrange(i as int, n as int).drop_first() =~= layers@.subrange(i + 1, n as int));
        assert(layers@.subrange(i as int, n as int)[0] == layers@[i as int]);
        let pairs = layers[i].byte_sprite_pairs();
        match first_sprite_exec(&pairs, b) {
            Some(sp) => {
                return Some((&layers[i].source.file, sp));
            },
            None => {},
        }
        i += 1;
    }
    None
}

fn find_default_global_id(
    tree: &VirtualTree,
    descs: &StrMap<AtlasDescriptor>,
    pngs: &StrMap<AtlasKey>,
    rules: &Vec<ComposeRule>,
) -> (r: Option<(AtlasKey, u32)>)
    requires
        tree_ready(*tree, *descs),
        layers_fit(descs@),
        pngs.wf(),
    ensures
        r == default_entry(pngs@, default_source(tree.mount_map(), descs@, rules@)),
{
    let ghost mm = tree.mount_map();
    let n = rules.len();
    let mut i: usize = 0;
    assert(rules@.subrange(0, n as int) =~= rules@);
    while i < n
        invariant
            n == rules@.len(),
            i <= n,
            tree_ready(*tree, *descs),
            layers_fit(descs@),
            pngs.wf(),
            mm == tree.mount_map(),
            default_source(mm, descs@, rules@) == default_source(mm, descs@, rules@.subrange(i as int, n as int)),
        decreases n - i,
    {
        proof {
            assert(rules@.subrange(i as int, n as int).drop_first() =~= rules@.subrange(i + 1, n as int));
            assert(rules@.subrange(i as int, n as int)[0] == rules@[i as int]);
        }
        let nodes = tree.resolve_with_variants(rules[i].node.as_str(), descs);
        let ghost t = resolve_all_spec(mm, descs@, rules@[i as int].node@);
        let m = nodes.len();
        let mut j: usize = 0;
        assert(t.subrange(0, m as int) =~= t);
        while j < m
            invariant
                m == nodes@.len(),
                m == t.len(),
                n == rules@.len(),
                i < n,
                mm == tree.mount_map(),
                t == resolve_all_spec(mm, descs@, rules@[i as int].node@),
                default_source(mm, descs@, rules@) == default_source(mm, descs@, rules@.subrange(i as int, n as int)),
                rules@.subrange(i as int, n as int).drop_first() == rules@.subrange(i + 1, n as int),
                rules@.subrange(i as int, n as int)[0] == rules@[i as int],
                j <= m,
                forall|q: int| 0 <= q < nodes@.len() ==> resolved_as(#[trigger] nodes@[q], descs@, t[q].0, t[q].1),
                layers_fit(descs@),
                pngs.wf(),
                first_in_targets(descs@, t) == first_in_targets(descs@, t.subrange(j as int, m as int)),
            decreases m - j,
        {
            let rn = &nodes[j];
            proof {
                assert(resolved_as(*rn, descs@, t[j as int].0, t[j as int].1));
                assert(t.subrange(j as int, m as int).drop_first() =~= t.subrange(j + 1, m as int));
                assert(t.subrange(j as int, m as int)[0] == t[j as int]);
                assert forall|q: int| 0 <= q < rn.node.layers@.len() implies !layer_overflows(
                    #[trigger] rn.node.layers@[q],
                ) by {
                    assert(descs@[t[j as int].0].nodes@[t[j as int].1].layers@[q] == rn.node.layers@[q]);
                }
            }
            if rn.variant_name.is_none() {
                match first_in_layers_exec(&rn.node.layers, rn.descriptor.default_byte) {
                    Some((file, sp)) => {
                        proof {
                            assert(first_in_targets(descs@, t.subrange(j as int, m as int)) == Some((file@, sp)));
                            assert(first_in_targets(descs@, t) == Some((file@, sp)));
                            assert(default_source(mm, descs@, rules@) == Some((file@, sp)));
                        }
                        return match pngs.get(file.as_str()) {
                            Some(k) => Some((*k, sp)),
                            None => None,
                        };
                    },
                    None => {},
                }
            }
            j += 1;
        }
        proof {
            assert(t.subrange(m as int, m as int).len() == 0);
            assert(first_in_targets(descs@, t) == None::<(Seq<char>, u32)>);
        }
        i += 1;
    }
    None
}

/// Registry entries once the default glyph (if any) is registered.
pub open spec fn compose_entries(a: AssetManager, rules: Seq<ComposeRule>) -> Seq<(AtlasKey, u32)> {
    match default_entry(a.pngs@, default_source(a.tree.mount_map(), a.descriptors@, rules)) {
        Some(x) => entries_with(a.global_registry.entry_seq(), x),
        None => a.global_registry.entry_seq(),
    }
}

/// Global id of the default glyph: its registry id, or 0 without one.
pub open spec fn compose_default_id(a: AssetManager, rules: Seq<ComposeRule>) -> u32 {
    match default_entry(a.pngs@, default_source(a.tree.mount_map(), a.descriptors@, rules)) {
        Some(x) => id_of(compose_entries(a, rules), x),
        None => 0,
    }
}

/// The state the rules start from: only the default table, all unmapped,
/// and the registry with the default glyph.
pub open spec fn compose_start(a: AssetManager, rules: Seq<ComposeRule>) -> MergeState {
    MergeState {
        luts: seq![unmapped_lut()],
        variants: Map::<Seq<char>, u8>::empty().insert("default"@, 0u8),
        codes: Map::<Seq<char>, u32>::empty(),
        groups: Map::<Seq<char>, Seq<u32>>::empty(),
        entries: compose_entries(a, rules),
    }
}

/// The outcome of composing glyphset `name` by `rules` in asset manager
/// `a`: without a tile size nothing changes and the tile message comes
/// back; nor does anything change, and the mismatch message comes back,
/// when a layer the rules write has another tile size; the default glyph (when its sheet is loaded) is registered
/// first; then the rules write into a fresh glyphset whose only table is
/// the default one; on a failure the message comes back and only the
/// registry keeps what was registered; otherwise the glyphset, its holes
/// filled, is added under a new key.
pub open spec fn composed(
    a: AssetManager,
    b: AssetManager,
    name: Seq<char>,
    rules: Seq<ComposeRule>,
    r: Result<GlyphsetKey, String>,
) -> bool {
    let mm = a.tree.mount_map();
    let descs = a.descriptors@;
    let pngs = a.pngs@;
    let e0 = a.global_registry.entry_seq();
    let dx = default_entry(pngs, default_source(mm, descs, rules));
    let did = compose_default_id(a, rules);
    let (st, e) = write_rules(compose_start(a, rules), mm, descs, rules, pngs);
    match rules_tile_size(mm, descs, rules) {
        None => b == a && (r matches Err(m) && m@ == tile_text(name)),
        Some((tw, th)) => if !rules_tiles_match(mm, descs, rules, tw, th) {
            b == a && (r matches Err(m) && m@ == mismatch_text(name))
        } else if dx is Some && e0.len() >= u32::MAX {
            b == a && (r matches Err(m) && m@ == cap_text())
        } else {
            &&& b.palette_map() == a.palette_map()
            &&& b.descriptors == a.descriptors
            &&& b.tree == a.tree
            &&& b.pngs == a.pngs
            &&& b.palette_files == a.palette_files
            &&& b.global_registry.paths() == a.global_registry.paths()
            &&& b.global_registry.entry_seq() == st.entries
            &&& match (r, e) {
                (Err(m), Some(msg)) => m@ == msg && b.glyphset_map() == a.glyphset_map(),
                (Ok(k), None) => {
                    let g = b.glyphset_map()[k.ffi];
                    &&& !a.glyphset_map().contains_key(k.ffi)
                    &&& is_slot_key(k.ffi)
                    &&& b.glyphset_map() == a.glyphset_map().insert(k.ffi, g)
                    &&& g.name@ == name
                    &&& g.tile_w == tw && g.tile_h == th
                    &&& g.default_global_id == did
                    &&& g.variant_names@ == st.variants
                    &&& filled(st.luts, g.lut_seqs(), did)
                    &&& g.namespace_map@.is_empty()
                    &&& g.named_codes@.is_empty()
                    &&& g.named_groups@.is_empty()
                },
                _ => false,
            }
        },
    }
}

impl AssetManager {
    /// Composes a glyphset named `name` from the nodes the rules name
    /// (see `composed`).
    pub fn compose_glyphset(&mut self, name: &str, rules: &Vec<ComposeRule>) -> (r: Result<GlyphsetKey, String>)
        requires
            old(self).wf(),
            old(self).can_add_glyphset(),
            layers_fit(old(self).descriptors@),
            remaps_fit(rules@),
        ensures
            final(self).wf(),
            composed(*old(self), *final(self), name@, rules@, r),
    {
        let (tile_w, tile_h) = match resolve_tile_size(&self.tree, &self.descriptors, rules) {
            Some(s) => s,
            None => return Err(quoted_message("Cannot determine tile size for glyphset '", name, "'")),
        };
        if !tiles_match_exec(&self.tree, &self.descriptors, rules, tile_w, tile_h) {
            return Err(quoted_message("Tile size mismatch in glyphset '", name, "'"));
        }
        let dx = find_default_global_id(&self.tree, &self.descriptors, &self.pngs, rules);
        let default_global_id: u32 = match dx {
            Some((atlas, sprite)) => {
                if self.global_registry.len() >= 0xFFFF_FFFF {
                    return Err(owned("Glyph capacity exceeded"));
                }
                let id = self.global_registry.register_glyph(atlas, sprite);
                proof {
                    self.global_registry.lemma_distinct();
                    lemma_id_of(self.global_registry.entry_seq(), (atlas, sprite), id as int);
                }
                id
            },
            None => 0,
        };
        let mut gs = Glyphset::new(owned(name), tile_w, tile_h, default_global_id);
        let ghost mm = self.tree.mount_map();
        let ghost st0 = merge_view(gs, self.global_registry);
        let ghost gs0 = gs;
        let ghost reg0 = self.global_registry;
        proof {
            assert(st0.groups =~= Map::<Seq<char>, Seq<u32>>::empty());
            assert(st0 == compose_start(*old(self), rules@));
            assert(default_global_id == compose_default_id(*old(self), rules@));
        }
        assert(self.glyphset_map() == old(self).glyphset_map());
        assert(self.global_registry.wf());
        assert(self.palette_map() == old(self).palette_map());
        assert(self.descriptors == old(self).descriptors);
        assert(self.tree == old(self).tree);
        assert(self.pngs == old(self).pngs);
        assert(self.palette_files == old(self).palette_files);
        assert(forall|k: u64| #[trigger] self.glyphset_map().contains_key(k) ==> self.glyphset_map()[k].wf() && is_slot_key(k));
        assert(self.wf());
        let n = rules.len();
        let mut i: usize = 0;
        while i < n
            invariant
                n == rules@.len(),
                i <= n,
                self.wf(),
                old(self).wf(),
                old(self).can_add_glyphset(),
                self.glyphsets == old(self).glyphsets,
                self.palettes == old(self).palettes,
                self.descriptors == old(self).descriptors,
                self.tree == old(self).tree,
                self.pngs == old(self).pngs,
                self.palette_files == old(self).palette_files,
                self.global_registry.paths() == old(self).global_registry.paths(),
                mm == self.tree.mount_map(),
                layers_fit(self.descriptors@),
                remaps_fit(rules@),
                gs.wf(),
                keeps_frame(gs0, gs, reg0, self.global_registry),
                gs0.name@ == name@,
                gs0.tile_w == tile_w && gs0.tile_h == tile_h,
                gs0.default_global_id == default_global_id,
                gs0.namespace_map@.is_empty(),
                gs0.named_codes@.is_empty(),
                gs0.named_groups@.is_empty(),
                reg0.paths() == old(self).global_registry.paths(),
                st0 == compose_start(*old(self), rules@),
                !(default_entry(old(self).pngs@, default_source(mm, old(self).descriptors@, rules@)) is Some
                    && old(self).global_registry.entry_seq().len() >= u32::MAX),
                default_global_id == compose_default_id(*old(self), rules@),
                rules_tile_size(mm, self.descriptors@, rules@) == Some((tile_w, tile_h)),
                rules_tiles_match(mm, self.descriptors@, rules@, tile_w, tile_h),
                mm == old(self).tree.mount_map(),
                (merge_view(gs, self.global_registry), None::<Seq<char>>) == write_rules(st0, mm, self.descriptors@, rules@.take(i as int), self.pngs@),
            decreases n - i,
        {
            proof {
                assert(rules@.take(i + 1).drop_last() =~= rules@.take(i as int));
                assert(rules@.take(i + 1).last() == rules@[i as int]);
                assert(remaps_fit(rules@));
            }
            let res = apply_compose_rule(&self.tree, &self.descriptors, &self.pngs, &mut self.global_registry, &mut gs, &rules[i]);
            proof {
                assert(self.glyphset_map() == old(self).glyphset_map());
                assert(forall|k: u64| #[trigger] self.glyphset_map().contains_key(k) ==> self.glyphset_map()[k].wf() && is_slot_key(k));
                assert(self.palette_map() == old(self).palette_map());
                assert(forall|k: u64| #[trigger] self.palette_map().contains_key(k) ==> self.palette_map()[k].wf() && is_slot_key(k));
                assert(self.wf());
            }
            match res {
                Ok(()) => {},
                Err(e) => {
                    proof {
                        lemma_rules_stay_failed(st0, mm, self.descriptors@, rules@, i + 1, self.pngs@);
                    }
                    return Err(e);
                },
            }
            i += 1;
        }
        proof {
            assert(rules@.take(n as int) =~= rules@);
        }
        gs.apply_fallbacks();
        let k = glyphset_arena_insert(&mut self.glyphsets, gs);
        self.count_glyphset();
        proof {
            assert forall|q: u64| #[trigger] self.glyphset_map().contains_key(q) implies self.glyphset_map()[q].wf()
                && is_slot_key(q) by {
                if q != k.ffi {
                    assert(old(self).glyphset_map().contains_key(q));
                }
            }
        }
        Ok(k)
    }
}

} // verus!
