//! Sprite sheets described by semantic groups: named runs of glyphs,
//! each drawn in one or more variants, merged into glyphsets and mounted
//! as paths of the virtual file system.

use vstd::prelude::*;
use crate::strmap::StrMap;
use crate::text::{owned, str_chars, str_eq};
use crate::keys::AtlasKey;
use crate::glyphset::{Glyphset, LUT_SIZE, unmapped_lut, next_variant_id};
use crate::registry::GlobalGlyphRegistry;
use crate::asset_manager::{AssetManager, glyphset_arena_get_mut, glyphset_arena_insert, glyphset_slot_count};
use crate::arena::{slot_key, is_slot_key};
use crate::keys::GlyphsetKey;

verus! {

/// Where the names of a group come from: a preset or a `chars:` list
/// (each name a single character, its code that character), or a list of
/// names without codes.
#[derive(Debug, Clone)]
pub enum SourceType {
    String(String),
    List(Vec<String>),
}

/// Where a variant's glyphs start on the sheet: an index, or the first
/// and last index.
#[derive(Debug, Clone, Copy)]
pub enum VariantMapping {
    StartId(u32),
    Range([u32; 2]),
}

/// A named run of glyphs and the variants it is drawn in.
#[derive(Clone)]
pub struct SemanticGroup {
    pub source: SourceType,
    pub variants: StrMap<VariantMapping>,
}

/// A sprite sheet with semantic groups.
#[derive(Clone)]
pub struct AtlasConfig {
    pub tile_width: u32,
    pub tile_height: u32,
    pub columns: u32,
    pub texture_path: String,
    pub default_glyph: u32,
    pub semantic_groups: StrMap<SemanticGroup>,
}

/// First sheet index of a variant.
pub open spec fn mapping_start(m: VariantMapping) -> u32 {
    match m {
        VariantMapping::StartId(id) => id,
        VariantMapping::Range(r) => r[0],
    }
}

/// The characters `first`, `first + 1`, ... (`n` of them) as names and
/// codes.
pub open spec fn char_run(first: int, n: nat) -> (Seq<Seq<char>>, Seq<Option<u32>>) {
    (Seq::new(n, |i: int| seq![(first + i) as char]), Seq::new(n, |i: int| Some((first + i) as u32)))
}

/// Each character of `cs` as a name, with its code.
pub open spec fn char_names(cs: Seq<char>) -> (Seq<Seq<char>>, Seq<Option<u32>>) {
    (cs.map_values(|c: char| seq![c]), cs.map_values(|c: char| Some(c as u32)))
}

/// Names of a source and their codes (`None` where the source gives
/// none).
pub open spec fn expand_spec(source: SourceType) -> (Seq<Seq<char>>, Seq<Option<u32>>) {
    match source {
        SourceType::List(l) => (l@.map_values(|s: String| s@), Seq::new(l@.len(), |i: int| None::<u32>)),
        SourceType::String(s) => {
            if s@ == "ascii_lower"@ {
                char_run(97, 26)
            } else if s@ == "ascii_upper"@ {
                char_run(65, 26)
            } else if s@ == "digits"@ {
                char_run(48, 10)
            } else if s@.len() >= 6 && s@.take(6) == "chars:"@ {
                char_names(s@.skip(6))
            } else {
                (seq![s@], seq![None::<u32>])
            }
        },
    }
}

/// The named character sets are the characters they name, in order, each
/// name the one character whose code it carries: `"ascii_upper"` is the
/// 26 letters `'A'`..`'Z'`, `"ascii_lower"` the 26 letters `'a'`..`'z'`,
/// `"digits"` the 10 digits `'0'`..`'9'`.
pub proof fn law_named_character_sets(s: String, i: int)
    ensures
        ({
            let (names, codes) = expand_spec(SourceType::String(s));
            &&& s@ == "ascii_upper"@ ==> names.len() == 26 && codes.len() == 26
            &&& s@ == "ascii_upper"@ && 0 <= i < 26 ==> codes[i] == Some((('A' as u32) + i) as u32)
                && names[i] == seq![(('A' as u32) + i) as char]
            &&& s@ == "ascii_lower"@ ==> names.len() == 26 && codes.len() == 26
            &&& s@ == "ascii_lower"@ && 0 <= i < 26 ==> codes[i] == Some((('a' as u32) + i) as u32)
                && names[i] == seq![(('a' as u32) + i) as char]
            &&& s@ == "digits"@ ==> names.len() == 10 && codes.len() == 10
            &&& s@ == "digits"@ && 0 <= i < 10 ==> codes[i] == Some((('0' as u32) + i) as u32)
                && names[i] == seq![(('0' as u32) + i) as char]
        }),
{
    reveal_strlit("ascii_upper");
    reveal_strlit("ascii_lower");
    reveal_strlit("digits");
    assert('A' as u32 == 65 && 'a' as u32 == 97 && '0' as u32 == 48);
    assert("ascii_upper"@ != "ascii_lower"@ && "digits"@ != "ascii_lower"@ && "digits"@ != "ascii_upper"@) by {
        assert("ascii_upper"@[6] != "ascii_lower"@[6]);
        assert("digits"@.len() != "ascii_lower"@.len());
    }
}

/// The names and codes of the characters `first..first + n`.
fn char_run_exec(first: u8, n: u8) -> (r: (Vec<String>, Vec<Option<u32>>))
    requires
        first as int + n as int <= 128,
    ensures
        r.0@.map_values(|s: String| s@) == char_run(first as int, n as nat).0,
        r.1@ == char_run(first as int, n as nat).1,
{
    let mut names: Vec<String> = Vec::new();
    let mut codes: Vec<Option<u32>> = Vec::new();
    let mut i: u8 = 0;
    while i < n
        invariant
            first as int + n as int <= 128,
            i <= n,
            names@.len() == i,
            codes@.len() == i,
            forall|j: int| 0 <= j < i ==> (#[trigger] names@[j])@ == seq![(first + j) as char],
            forall|j: int| 0 <= j < i ==> #[trigger] codes@[j] == Some((first + j) as u32),
        decreases n - i,
    {
        let b: u8 = first + i;
        let c: char = b as char;
        let mut s = String::new();
        crate::text::string_push(&mut s, c);
        names.push(s);
        codes.push(Some(b as u32));
        i += 1;
    }
    assert(names@.map_values(|s: String| s@) =~= char_run(first as int, n as nat).0);
    assert(codes@ =~= char_run(first as int, n as nat).1);
    (names, codes)
}

/// Names of a source and their codes.
pub fn expand_source(source: &SourceType) -> (r: (Vec<String>, Vec<Option<u32>>))
    ensures
        r.0@.map_values(|s: String| s@) == expand_spec(*source).0,
        r.1@ == expand_spec(*source).1,
{
    match source {
        SourceType::List(list) => {
            let mut names: Vec<String> = Vec::new();
            let mut codes: Vec<Option<u32>> = Vec::new();
            let n = list.len();
            let mut i: usize = 0;
            while i < n
                invariant
                    n == list@.len(),
                    i <= n,
                    names@.len() == i,
                    codes@.len() == i,
                    forall|j: int| 0 <= j < i ==> (#[trigger] names@[j])@ == list@[j]@,
                    forall|j: int| 0 <= j < i ==> #[trigger] codes@[j] == None::<u32>,
                decreases n - i,
            {
                names.push(list[i].clone());
                codes.push(None);
                i += 1;
            }
            assert(names@.map_values(|s: String| s@) =~= list@.map_values(|s: String| s@));
            assert(codes@ =~= Seq::new(list@.len(), |i: int| None::<u32>));
            (names, codes)
        },
        SourceType::String(s) => {
            proof {
                reveal_strlit("ascii_lower");
                reveal_strlit("ascii_upper");
                reveal_strlit("digits");
                reveal_strlit("chars:");
            }
            if str_eq(s.as_str(), "ascii_lower") {
                char_run_exec(97, 26)
            } else if str_eq(s.as_str(), "ascii_upper") {
                char_run_exec(65, 26)
            } else if str_eq(s.as_str(), "digits") {
                char_run_exec(48, 10)
            } else {
                let cs = str_chars(s.as_str());
                let is_chars = cs.len() >= 6 && cs[0] == 'c' && cs[1] == 'h' && cs[2] == 'a' && cs[3] == 'r' && cs[4]
                    == 's' && cs[5] == ':';
                proof {
                    let pat = "chars:"@;
                    assert(pat =~= seq!['c', 'h', 'a', 'r', 's', ':']);
                    if cs@.len() >= 6 {
                        let t = cs@.take(6);
                        if is_chars {
                            assert(t =~= pat);
                        } else if t == pat {
                            assert(t[0] == 'c' && t[1] == 'h' && t[2] == 'a' && t[3] == 'r' && t[4] == 's' && t[5] == ':');
                        }
                    }
                }
                if is_chars {
                    let mut names: Vec<String> = Vec::new();
                    let mut codes: Vec<Option<u32>> = Vec::new();
                    let n = cs.len();
                    let mut i: usize = 6;
                    while i < n
                        invariant
                            n == cs@.len(),
                            6 <= i <= n,
                            names@.len() == i - 6,
                            codes@.len() == i - 6,
                            forall|j: int| 0 <= j < i - 6 ==> (#[trigger] names@[j])@ == seq![cs@[j + 6]],
                            forall|j: int| 0 <= j < i - 6 ==> #[trigger] codes@[j] == Some(cs@[j + 6] as u32),
                        decreases n - i,
                    {
                        let c = cs[i];
                        let mut one = String::new();
                        crate::text::string_push(&mut one, c);
                        names.push(one);
                        codes.push(Some(c as u32));
                        i += 1;
                    }
                    assert(names@.map_values(|s: String| s@) =~= char_names(s@.skip(6)).0);
                    assert(codes@ =~= char_names(s@.skip(6)).1);
                    (names, codes)
                } else {
                    let mut names: Vec<String> = Vec::new();
                    names.push(s.clone());
                    let mut codes: Vec<Option<u32>> = Vec::new();
                    codes.push(None);
                    assert(names@.map_values(|s: String| s@) =~= seq![s@]);
                    assert(codes@ =~= seq![None::<u32>]);
                    (names, codes)
                }
            }
        },
    }
}


// ---------------------------------------------------------------------------
// Codes of a group
// ---------------------------------------------------------------------------

/// Codes of a group's names: the source's own codes, where some are
/// missing the run starting at the `default` variant's first index
/// (position by position), and `None` where codes are missing and the
/// group has no `default` variant.
pub open spec fn resolved_codes(g: SemanticGroup) -> Option<Seq<u32>> {
    let codes = expand_spec(g.source).1;
    if exists|i: int| 0 <= i < codes.len() && codes[i] is None {
        if g.variants@.contains_key("default"@) {
            let start = mapping_start(g.variants@["default"@]);
            Some(Seq::new(codes.len(), |i: int| match codes[i] {
                Some(c) => c,
                None => (start + i) as u32,
            }))
        } else {
            None
        }
    } else {
        Some(codes.map_values(|c: Option<u32>| c.unwrap()))
    }
}

/// Filling in missing codes stays within `u32`.
pub open spec fn codes_fit(g: SemanticGroup) -> bool {
    let codes = expand_spec(g.source).1;
    g.variants@.contains_key("default"@) ==> forall|i: int|
        0 <= i < codes.len() && #[trigger] codes[i] is None ==> mapping_start(g.variants@["default"@]) + i <= u32::MAX
}

fn resolve_codes(group: &SemanticGroup) -> (r: Option<Vec<u32>>)
    requires
        group.variants.wf(),
        codes_fit(*group),
    ensures
        match r {
            Some(v) => resolved_codes(*group) == Some(v@),
            None => resolved_codes(*group).is_none(),
        },
{
    let (_names, codes) = expand_source(&group.source);
    let ghost cs = expand_spec(group.source).1;
    let n = codes.len();
    let mut any_missing = false;
    let mut i: usize = 0;
    while i < n
        invariant
            n == codes@.len(),
            codes@ == cs,
            i <= n,
            any_missing == exists|j: int| 0 <= j < i && #[trigger] cs[j] is None,
        decreases n - i,
    {
        if codes[i].is_none() {
            any_missing = true;
        }
        i += 1;
    }
    proof {
        reveal_strlit("default");
    }
    if any_missing {
        let start = match group.variants.get("default") {
            Some(m) => match m {
                VariantMapping::StartId(id) => *id,
                VariantMapping::Range(r) => r[0],
            },
            None => return None,
        };
        let mut out: Vec<u32> = Vec::new();
        let mut k: usize = 0;
        while k < n
            invariant
                n == codes@.len(),
                codes@ == cs,
                k <= n,
                group.variants@.contains_key("default"@),
                start == mapping_start(group.variants@["default"@]),
                codes_fit(*group),
                expand_spec(group.source).1 == cs,
                out@.len() == k,
                forall|j: int| 0 <= j < k ==> #[trigger] out@[j] == match cs[j] {
                    Some(c) => c,
                    None => (start + j) as u32,
                },
            decreases n - k,
        {
            match codes[k] {
                Some(c) => out.push(c),
                None => {
                    assert(cs[k as int] is None);
                    assert(start + k <= u32::MAX);
                    out.push(start + k as u32);
                },
            }
            k += 1;
        }
        assert(out@ =~= Seq::new(cs.len(), |i: int| match cs[i] {
            Some(c) => c,
            None => (start + i) as u32,
        }));
        Some(out)
    } else {
        let mut out: Vec<u32> = Vec::new();
        let mut k: usize = 0;
        while k < n
            invariant
                n == codes@.len(),
                codes@ == cs,
                k <= n,
                !(exists|j: int| 0 <= j < n && #[trigger] cs[j] is None),
                out@.len() == k,
                forall|j: int| 0 <= j < k ==> #[trigger] out@[j] == cs[j].unwrap(),
            decreases n - k,
        {
            match codes[k] {
                Some(c) => out.push(c),
                None => {
                    assert(cs[k as int] is None);
                    assert(false);
                },
            }
            k += 1;
        }
        assert(out@ =~= cs.map_values(|c: Option<u32>| c.unwrap()));
        Some(out)
    }
}


// ---------------------------------------------------------------------------
// Merging a sheet into a glyphset
// ---------------------------------------------------------------------------

/// What a merge reads and writes: the glyph tables by variant id, the
/// variant ids by name, the named codes, the named groups and the global
/// registry's entries.
pub struct MergeState {
    pub luts: Seq<Seq<u32>>,
    pub variants: Map<Seq<char>, u8>,
    pub codes: Map<Seq<char>, u32>,
    pub groups: Map<Seq<char>, Seq<u32>>,
    pub entries: Seq<(AtlasKey, u32)>,
}

pub open spec fn merge_view(gs: Glyphset, reg: GlobalGlyphRegistry) -> MergeState {
    MergeState {
        luts: gs.lut_seqs(),
        variants: gs.variant_names@,
        codes: gs.named_codes@,
        groups: gs.named_groups@.map_values(|v: Vec<u32>| v@),
        entries: reg.entry_seq(),
    }
}

/// The registry entries after registering `x`: unchanged if present.
pub open spec fn entries_with(entries: Seq<(AtlasKey, u32)>, x: (AtlasKey, u32)) -> Seq<(AtlasKey, u32)> {
    if entries.contains(x) {
        entries
    } else {
        entries.push(x)
    }
}

/// The global id of `x` among the entries.
pub open spec fn id_of(entries: Seq<(AtlasKey, u32)>, x: (AtlasKey, u32)) -> u32 {
    (choose|i: int| 0 <= i < entries.len() && entries[i] == x) as u32
}

/// The first `codes.len()` glyphs of a variant starting at sheet index
/// `start`, registered one by one, each written at its code in table
/// `id` (codes beyond the table are skipped).
pub open spec fn fill_variant(st: MergeState, id: u8, start: u32, codes: Seq<u32>, atlas: AtlasKey) -> MergeState
    decreases codes.len(),
{
    if codes.len() == 0 {
        st
    } else {
        let s1 = fill_variant(st, id, start, codes.drop_last(), atlas);
        let x = (atlas, (start + codes.len() - 1) as u32);
        let ents = entries_with(s1.entries, x);
        let code = codes.last();
        MergeState {
            entries: ents,
            luts: if code < LUT_SIZE {
                s1.luts.update(id as int, s1.luts[id as int].update(code as int, id_of(ents, x)))
            } else {
                s1.luts
            },
            ..s1
        }
    }
}

/// The variant `name`, created with an unmapped table if new, filled
/// from the glyphs at `start`.
pub open spec fn merge_variant(st: MergeState, name: Seq<char>, start: u32, codes: Seq<u32>, atlas: AtlasKey) -> MergeState {
    if st.variants.contains_key(name) {
        fill_variant(st, st.variants[name], start, codes, atlas)
    } else {
        let id = next_variant_id(st.luts.len());
        fill_variant(
            MergeState { variants: st.variants.insert(name, id), luts: st.luts.push(unmapped_lut()), ..st },
            id,
            start,
            codes,
            atlas,
        )
    }
}

/// Each variant of `vs` in turn.
pub open spec fn merge_variants(st: MergeState, vs: Seq<(Seq<char>, VariantMapping)>, codes: Seq<u32>, atlas: AtlasKey) -> MergeState
    decreases vs.len(),
{
    if vs.len() == 0 {
        st
    } else {
        let s1 = merge_variants(st, vs.drop_last(), codes, atlas);
        merge_variant(s1, vs.last().0, mapping_start(vs.last().1), codes, atlas)
    }
}

/// Names `ns` given codes `cs`, in order.
pub open spec fn names_coded(m: Map<Seq<char>, u32>, ns: Seq<Seq<char>>, cs: Seq<u32>) -> Map<Seq<char>, u32>
    decreases ns.len(),
{
    if ns.len() == 0 {
        m
    } else {
        names_coded(m, ns.drop_last(), cs).insert(ns.last(), cs[ns.len() - 1])
    }
}

/// The variants of a group, in the group's order.
pub open spec fn variant_list(g: SemanticGroup) -> Seq<(Seq<char>, VariantMapping)> {
    Seq::new(g.variants.key_seq().len(), |i: int| (g.variants.key_seq()[i], g.variants.value_seq()[i]))
}

/// One group: skipped when its codes cannot be resolved; otherwise its
/// code list and names are recorded and each variant filled.
pub open spec fn merge_group(st: MergeState, name: Seq<char>, g: SemanticGroup, atlas: AtlasKey) -> MergeState {
    match resolved_codes(g) {
        None => st,
        Some(codes) => {
            let names = expand_spec(g.source).0;
            let s1 = MergeState {
                groups: st.groups.insert(name, codes),
                codes: names_coded(st.codes, names, codes),
                ..st
            };
            merge_variants(s1, variant_list(g), codes, atlas)
        },
    }
}

/// The groups `gs` in turn.
pub open spec fn merge_groups(st: MergeState, gs: Seq<(Seq<char>, SemanticGroup)>, atlas: AtlasKey) -> MergeState
    decreases gs.len(),
{
    if gs.len() == 0 {
        st
    } else {
        merge_group(merge_groups(st, gs.drop_last(), atlas), gs.last().0, gs.last().1, atlas)
    }
}

/// The groups of a sheet, in the sheet's order.
pub open spec fn group_list(c: AtlasConfig) -> Seq<(Seq<char>, SemanticGroup)> {
    Seq::new(
        c.semantic_groups.key_seq().len(),
        |i: int| (c.semantic_groups.key_seq()[i], c.semantic_groups.value_seq()[i]),
    )
}


/// With distinct entries, the id of a listed glyph is its position.
pub(crate) proof fn lemma_id_of(entries: Seq<(AtlasKey, u32)>, x: (AtlasKey, u32), i: int)
    requires
        entries.no_duplicates(),
        0 <= i < entries.len(),
        entries[i] == x,
        i <= u32::MAX,
    ensures
        id_of(entries, x) == i,
{
    let j = choose|j: int| 0 <= j < entries.len() && entries[j] == x;
    assert(j == i);
}

/// Everything of a glyphset but its tables, variant names, named codes
/// and named groups is as it was.
pub open spec fn same_frame_gs(a: Glyphset, b: Glyphset) -> bool {
    &&& b.name == a.name
    &&& b.tile_w == a.tile_w && b.tile_h == a.tile_h
    &&& b.default_global_id == a.default_global_id
    &&& b.namespace_map == a.namespace_map
}

fn fill_variant_exec(
    gs: &mut Glyphset,
    reg: &mut GlobalGlyphRegistry,
    id: u8,
    start: u32,
    codes: &Vec<u32>,
    atlas: AtlasKey,
)
    requires
        old(gs).wf(),
        old(reg).wf(),
        (id as int) < old(gs).luts@.len(),
        codes@.len() > 0 ==> start + codes@.len() - 1 <= u32::MAX,
        old(reg).entry_seq().len() + codes@.len() < u32::MAX,
    ensures
        final(gs).wf(),
        final(reg).wf(),
        same_frame_gs(*old(gs), *final(gs)),
        final(reg).paths() == old(reg).paths(),
        final(gs).variant_names == old(gs).variant_names,
        final(gs).named_codes == old(gs).named_codes,
        final(gs).named_groups == old(gs).named_groups,
        final(gs).luts@.len() == old(gs).luts@.len(),
        final(reg).entry_seq().len() <= old(reg).entry_seq().len() + codes@.len(),
        merge_view(*final(gs), *final(reg)) == fill_variant(merge_view(*old(gs), *old(reg)), id, start, codes@, atlas),
{
    let n = codes.len();
    let mut k: usize = 0;
    while k < n
        invariant
            n == codes@.len(),
            k <= n,
            gs.wf(),
            reg.wf(),
            (id as int) < gs.luts@.len(),
            n > 0 ==> start + n - 1 <= u32::MAX,
            old(reg).entry_seq().len() + n < u32::MAX,
            same_frame_gs(*old(gs), *gs),
            reg.paths() == old(reg).paths(),
            gs.variant_names == old(gs).variant_names,
            gs.named_codes == old(gs).named_codes,
            gs.named_groups == old(gs).named_groups,
            gs.luts@.len() == old(gs).luts@.len(),
            reg.entry_seq().len() <= old(reg).entry_seq().len() + k,
            merge_view(*gs, *reg) == fill_variant(merge_view(*old(gs), *old(reg)), id, start, codes@.take(k as int), atlas),
        decreases n - k,
    {
        let code = codes[k];
        let phys: u32 = start + k as u32;
        let ghost before = merge_view(*gs, *reg);
        let gid = reg.register_glyph(atlas, phys);
        proof {
            reg.lemma_distinct();
            lemma_id_of(reg.entry_seq(), (atlas, phys), gid as int);
            assert(codes@.take(k + 1).drop_last() =~= codes@.take(k as int));
            assert(codes@.take(k + 1).last() == code);
        }
        if (code as usize) < LUT_SIZE {
            gs.luts[id as usize][code as usize] = gid;
        }
        proof {
            let after = merge_view(*gs, *reg);
            let spec_next = fill_variant(merge_view(*old(gs), *old(reg)), id, start, codes@.take(k + 1), atlas);
            assert(after.luts =~= spec_next.luts);
            assert(after == spec_next);
        }
        k += 1;
    }
    assert(codes@.take(n as int) =~= codes@);
}


/// A group can be merged without an overflow: its missing codes, the
/// size of each `Range` and the sheet indices of each variant fit.
pub open spec fn group_fits(g: SemanticGroup) -> bool {
    &&& g.variants.wf()
    &&& codes_fit(g)
    &&& forall|j: int|
        0 <= j < g.variants.key_seq().len() ==> {
            let m = #[trigger] g.variants.value_seq()[j];
            &&& (m matches VariantMapping::Range(r) ==> r[0] <= r[1] && r[1] - r[0] + 1 <= u32::MAX)
            &&& (resolved_codes(g) matches Some(cs) ==> cs.len() > 0 ==> mapping_start(m) + cs.len() - 1 <= u32::MAX)
        }
}

/// How many glyphs a group registers at most.
pub open spec fn group_regs(g: SemanticGroup) -> nat {
    match resolved_codes(g) {
        Some(cs) => g.variants.key_seq().len() * cs.len(),
        None => 0,
    }
}

proof fn lemma_expand_lengths(source: SourceType)
    ensures
        expand_spec(source).0.len() == expand_spec(source).1.len(),
{
}

fn merge_group_exec(gs: &mut Glyphset, reg: &mut GlobalGlyphRegistry, gname: &String, g: &SemanticGroup, atlas: AtlasKey)
    requires
        old(gs).wf(),
        old(reg).wf(),
        group_fits(*g),
        old(reg).entry_seq().len() + group_regs(*g) < u32::MAX,
        old(gs).luts@.len() + g.variants.key_seq().len() + 1 < usize::MAX,
    ensures
        final(gs).wf(),
        final(reg).wf(),
        same_frame_gs(*old(gs), *final(gs)),
        final(reg).paths() == old(reg).paths(),
        final(reg).entry_seq().len() <= old(reg).entry_seq().len() + group_regs(*g),
        final(gs).luts@.len() <= old(gs).luts@.len() + g.variants.key_seq().len(),
        merge_view(*final(gs), *final(reg)) == merge_group(merge_view(*old(gs), *old(reg)), gname@, *g, atlas),
{
    let codes = match resolve_codes(g) {
        Some(c) => c,
        None => return,
    };
    let (names, _) = expand_source(&g.source);
    proof {
        lemma_expand_lengths(g.source);
    }
    let ghost nviews = names@.map_values(|s: String| s@);
    let ghost st0 = merge_view(*gs, *reg);
    let mut copy: Vec<u32> = Vec::new();
    let mut c: usize = 0;
    while c < codes.len()
        invariant
            c <= codes@.len(),
            copy@ == codes@.take(c as int),
        decreases codes@.len() - c,
    {
        copy.push(codes[c]);
        assert(codes@.take(c + 1) =~= codes@.take(c as int).push(codes@[c as int]));
        c += 1;
    }
    assert(codes@.take(codes@.len() as int) =~= codes@);
    gs.named_groups.insert(owned(gname.as_str()), copy);
    let n = names.len();
    let mut i: usize = 0;
    while i < n
        invariant
            n == names@.len(),
            n == codes@.len(),
            i <= n,
            nviews == names@.map_values(|s: String| s@),
            gs.wf(),
            same_frame_gs(*old(gs), *gs),
            gs.variant_names == old(gs).variant_names,
            gs.luts == old(gs).luts,
            gs.named_groups@.map_values(|v: Vec<u32>| v@) == st0.groups.insert(gname@, codes@),
            gs.named_codes@ == names_coded(st0.codes, nviews.take(i as int), codes@),
        decreases n - i,
    {
        gs.named_codes.insert(names[i].clone(), codes[i]);
        proof {
            assert(nviews.take(i + 1).drop_last() =~= nviews.take(i as int));
            assert(nviews.take(i + 1).last() == names@[i as int]@);
        }
        i += 1;
    }
    assert(nviews.take(n as int) =~= nviews);
    let ghost s1 = MergeState {
        groups: st0.groups.insert(gname@, codes@),
        codes: names_coded(st0.codes, nviews, codes@),
        ..st0
    };
    assert(merge_view(*gs, *reg) == s1) by {
        assert(merge_view(*gs, *reg).groups =~= s1.groups);
    }
    let ghost vl = variant_list(*g);
    proof {
        g.variants.lemma_keys();
    }
    let m = g.variants.len();
    let mut j: usize = 0;
    while j < m
        invariant
            m == g.variants.key_seq().len(),
            vl == variant_list(*g),
            j <= m,
            gs.wf(),
            reg.wf(),
            group_fits(*g),
            resolved_codes(*g) == Some(codes@),
            same_frame_gs(*old(gs), *gs),
            reg.paths() == old(reg).paths(),
            old(reg).entry_seq().len() + group_regs(*g) < u32::MAX,
            reg.entry_seq().len() <= old(reg).entry_seq().len() + j * codes@.len(),
            gs.luts@.len() <= old(gs).luts@.len() + j,
            old(gs).luts@.len() + m + 1 < usize::MAX,
            merge_view(*gs, *reg) == merge_variants(s1, vl.take(j as int), codes@, atlas),
        decreases m - j,
    {
        let (vname, mapping) = g.variants.entry_at(j);
        let mp = *mapping;
        let start = match mp {
            VariantMapping::StartId(id) => id,
            VariantMapping::Range(r) => {
                assert(g.variants.value_seq()[j as int] == mp);
                let _count: u32 = r[1] - r[0] + 1;
                r[0]
            },
        };
        let ghost before = merge_view(*gs, *reg);
        let id = gs.ensure_variant(vname.as_str());
        proof {
            assert(gs.lut_seqs().len() == gs.luts@.len());
            assert(g.variants.value_seq()[j as int] == mp);
            assert(j * codes@.len() + codes@.len() <= group_regs(*g)) by (nonlinear_arith)
                requires
                    j < m,
                    group_regs(*g) == m * codes@.len();
        }
        fill_variant_exec(gs, reg, id, start, &codes, atlas);
        proof {
            assert(vl.take(j + 1).drop_last() =~= vl.take(j as int));
            assert(vl.take(j + 1).last() == (vname@, mp));
            let base = old(reg).entry_seq().len();
            let now = reg.entry_seq().len();
            let cl = codes@.len();
            assert(now <= base + (j + 1) * cl) by (nonlinear_arith)
                requires
                    now <= base + j * cl + cl;
        }
        j += 1;
    }
    proof {
        assert(vl.take(m as int) =~= vl);
        assert(m * codes@.len() == group_regs(*g));
    }
}


/// How many glyphs the groups register at most.
pub open spec fn groups_regs(gs: Seq<(Seq<char>, SemanticGroup)>) -> nat
    decreases gs.len(),
{
    if gs.len() == 0 {
        0
    } else {
        groups_regs(gs.drop_last()) + group_regs(gs.last().1)
    }
}

/// How many variants the groups name.
pub open spec fn groups_variants(gs: Seq<(Seq<char>, SemanticGroup)>) -> nat
    decreases gs.len(),
{
    if gs.len() == 0 {
        0
    } else {
        groups_variants(gs.drop_last()) + gs.last().1.variants.key_seq().len()
    }
}

/// Every group of the sheet can be merged without an overflow.
pub open spec fn config_fits(c: AtlasConfig) -> bool {
    &&& c.semantic_groups.wf()
    &&& forall|i: int| 0 <= i < c.semantic_groups.key_seq().len() ==> group_fits(#[trigger] c.semantic_groups.value_seq()[i])
}

/// Room for the glyphs and variants a merge of `c` may add.
pub open spec fn merge_room(c: AtlasConfig, gs: Glyphset, reg: GlobalGlyphRegistry) -> bool {
    &&& reg.entry_seq().len() + groups_regs(group_list(c)) < u32::MAX
    &&& gs.luts@.len() + groups_variants(group_list(c)) + 1 < usize::MAX
}

/// `b` is `merged` with the holes of its tables filled: the default table
/// from `d`, every other table from the filled default table.
pub open spec fn filled(merged: Seq<Seq<u32>>, b: Seq<Seq<u32>>, d: u32) -> bool {
    &&& b.len() == merged.len()
    &&& forall|v: int| 0 <= v < b.len() ==> (#[trigger] b[v]).len() == merged[v].len()
    &&& forall|c: int| 0 <= c < LUT_SIZE ==> #[trigger] b[0][c] == crate::glyphset::fallback(merged[0][c], d)
    &&& forall|v: int, c: int|
        1 <= v < b.len() && 0 <= c < LUT_SIZE ==> #[trigger] b[v][c] == crate::glyphset::fallback(merged[v][c], b[0][c])
}

/// Tables filled after a merge or a composition have no unmapped slot
/// when the default glyph is mapped: the default table falls back to the
/// default glyph, every other table to the default table at the same code.
pub proof fn law_filled_tables_have_no_holes(merged: Seq<Seq<u32>>, b: Seq<Seq<u32>>, d: u32)
    requires
        filled(merged, b, d),
        d != crate::glyphset::UNMAPPED,
    ensures
        forall|v: int, c: int| 0 <= v < b.len() && 0 <= c < LUT_SIZE ==> #[trigger] b[v][c] != crate::glyphset::UNMAPPED,
{
    assert forall|v: int, c: int| 0 <= v < b.len() && 0 <= c < LUT_SIZE implies #[trigger] b[v][c]
        != crate::glyphset::UNMAPPED by {
        assert(b[0][c] != crate::glyphset::UNMAPPED);
    }
}

/// Whether group `g` can be merged without leaving `u32`; if so, how
/// many glyphs it registers at most.
fn group_check(g: &SemanticGroup) -> (r: Option<u64>)
    requires
        g.variants.wf(),
    ensures
        r is Some ==> group_fits(*g) && r.unwrap() == group_regs(*g),
        r is None ==> !group_fits(*g) || group_regs(*g) > u64::MAX,
{
    let (_names, codes) = expand_source(&g.source);
    let ghost cs = expand_spec(g.source).1;
    proof {
        reveal_strlit("default");
    }
    match g.variants.get("default") {
        Some(m) => {
            let start: u32 = match m {
                VariantMapping::StartId(id) => *id,
                VariantMapping::Range(r) => r[0],
            };
            let mut i: usize = 0;
            while i < codes.len()
                invariant
                    codes@ == cs,
                    cs == expand_spec(g.source).1,
                    g.variants@.contains_key("default"@),
                    i <= codes@.len(),
                    start == mapping_start(g.variants@["default"@]),
                    forall|j: int| 0 <= j < i && #[trigger] cs[j] is None ==> start + j <= u32::MAX,
                decreases codes@.len() - i,
            {
                if codes[i].is_none() && (i as u64) > 0xFFFF_FFFFu64 - (start as u64) {
                    proof {
                        assert(cs[i as int] is None);
                        assert(!codes_fit(*g));
                    }
                    return None;
                }
                i += 1;
            }
        },
        None => {},
    }
    assert(codes_fit(*g));
    let resolved = resolve_codes(g);
    let len: u64 = match &resolved {
        Some(v) => v.len() as u64,
        None => 0,
    };
    let ghost vs = g.variants.value_seq();
    proof {
        g.variants.lemma_keys();
    }
    let n = g.variants.len();
    let mut j: usize = 0;
    while j < n
        invariant
            n == vs.len(),
            vs == g.variants.value_seq(),
            g.variants.wf(),
            g.variants.key_seq().len() == vs.len(),
            j <= n,
            match resolved {
                Some(v) => resolved_codes(*g) == Some(v@) && len == v@.len(),
                None => resolved_codes(*g).is_none() && len == 0,
            },
            forall|q: int|
                0 <= q < j ==> {
                    let m = #[trigger] vs[q];
                    &&& (m matches VariantMapping::Range(r) ==> r[0] <= r[1] && r[1] - r[0] + 1 <= u32::MAX)
                    &&& (resolved_codes(*g) matches Some(cs) ==> cs.len() > 0 ==> mapping_start(m) + cs.len() - 1
                        <= u32::MAX)
                },
        decreases n - j,
    {
        let (_k, m) = g.variants.entry_at(j);
        let st: u32 = match m {
            VariantMapping::StartId(id) => *id,
            VariantMapping::Range(r) => {
                if r[0] > r[1] || (r[1] - r[0]) as u64 + 1 > 0xFFFF_FFFFu64 {
                    proof {
                        assert(vs[j as int] == *m);
                    }
                    return None;
                }
                r[0]
            },
        };
        if len > 0 && len - 1 > 0xFFFF_FFFFu64 - (st as u64) {
            proof {
                assert(vs[j as int] == *m);
                assert(mapping_start(*m) == st);
            }
            return None;
        }
        j += 1;
    }
    let nv = n as u64;
    if len > 0 && nv > 0xFFFF_FFFF_FFFF_FFFFu64 / len {
        assert(nv * len > 0xFFFF_FFFF_FFFF_FFFFu64) by (nonlinear_arith)
            requires
                len > 0,
                nv > 0xFFFF_FFFF_FFFF_FFFFu64 / len,
        {
            assert(nv >= 0xFFFF_FFFF_FFFF_FFFFu64 / len + 1);
            assert(nv * len >= (0xFFFF_FFFF_FFFF_FFFFu64 / len + 1) * len);
        }
        return None;
    }
    assert(nv * len <= 0xFFFF_FFFF_FFFF_FFFFu64) by (nonlinear_arith)
        requires
            len > 0 ==> nv <= 0xFFFF_FFFF_FFFF_FFFFu64 / len,
    {
        if len > 0 {
            assert(nv * len <= (0xFFFF_FFFF_FFFF_FFFFu64 / len) * len);
        }
    }
    Some(nv * len)
}

/// The counts of the first `k + 1` groups are those of the first `k`
/// plus group `k`'s, and no more than those of all of them.
proof fn lemma_groups_prefix(gl: Seq<(Seq<char>, SemanticGroup)>, k: int)
    requires
        0 <= k < gl.len(),
    ensures
        groups_regs(gl.take(k + 1)) == groups_regs(gl.take(k)) + group_regs(gl[k].1),
        groups_variants(gl.take(k + 1)) == groups_variants(gl.take(k)) + gl[k].1.variants.key_seq().len(),
        groups_regs(gl.take(k + 1)) <= groups_regs(gl),
        groups_variants(gl.take(k + 1)) <= groups_variants(gl),
    decreases gl.len(),
{
    assert(gl.take(k + 1).drop_last() =~= gl.take(k));
    if k + 1 < gl.len() {
        lemma_groups_prefix(gl.drop_last(), k);
        assert(gl.drop_last().take(k + 1) =~= gl.take(k + 1));
        assert(gl.drop_last().take(k) =~= gl.take(k));
    } else {
        assert(gl.take(k + 1) =~= gl);
    }
}

/// Whether every group of sheet `c` can be merged without leaving `u32`,
/// with counts that fit in `u64`; if so, how many glyphs and how many
/// variants its groups register at most.
pub fn config_check(c: &AtlasConfig) -> (r: Option<(u64, u64)>)
    requires
        c.semantic_groups.wf(),
        forall|i: int| 0 <= i < c.semantic_groups.value_seq().len() ==> (#[trigger] c.semantic_groups.value_seq()[i]).variants.wf(),
    ensures
        r is Some ==> config_fits(*c) && r.unwrap().0 == groups_regs(group_list(*c)) && r.unwrap().1 == groups_variants(
            group_list(*c),
        ),
        r is None ==> !config_fits(*c) || groups_regs(group_list(*c)) > u64::MAX || groups_variants(group_list(*c))
            > u64::MAX,
{
    let ghost gl = group_list(*c);
    proof {
        c.semantic_groups.lemma_keys();
    }
    let n = c.semantic_groups.len();
    let mut regs: u64 = 0;
    let mut vars: u64 = 0;
    let mut i: usize = 0;
    while i < n
        invariant
            n == c.semantic_groups.key_seq().len(),
            gl == group_list(*c),
            gl.len() == n,
            c.semantic_groups.wf(),
            c.semantic_groups.key_seq().len() == c.semantic_groups.value_seq().len(),
            forall|q: int| 0 <= q < c.semantic_groups.value_seq().len() ==> (#[trigger] c.semantic_groups.value_seq()[q]).variants.wf(),
            i <= n,
            regs == groups_regs(gl.take(i as int)),
            vars == groups_variants(gl.take(i as int)),
            forall|q: int| 0 <= q < i ==> group_fits(#[trigger] c.semantic_groups.value_seq()[q]),
        decreases n - i,
    {
        let (_k, g) = c.semantic_groups.entry_at(i);
        proof {
            lemma_groups_prefix(gl, i as int);
            assert(gl[i as int].1 == *g);
        }
        let gr = match group_check(g) {
            Some(x) => x,
            None => {
                proof {
                    if group_fits(*g) {
                        assert(groups_regs(gl) > u64::MAX);
                    } else {
                        assert(!group_fits(c.semantic_groups.value_seq()[i as int]));
                    }
                }
                return None;
            },
        };
        proof {
            assert(gl.take(i + 1).drop_last() =~= gl.take(i as int));
            assert(gl.take(i + 1).last() == gl[i as int]);
            g.variants.lemma_keys();
        }
        if regs > 0xFFFF_FFFF_FFFF_FFFFu64 - gr {
            return None;
        }
        let gv = g.variants.len() as u64;
        if vars > 0xFFFF_FFFF_FFFF_FFFFu64 - gv {
            return None;
        }
        regs = regs + gr;
        vars = vars + gv;
        i += 1;
    }
    proof {
        assert(gl.take(n as int) =~= gl);
    }
    Some((regs, vars))
}

/// Merges the semantic groups of sheet `config` (registered under
/// `atlas_key`) into `glyphset`, then fills the holes of its tables.
pub fn merge_atlas_internal(
    config: &AtlasConfig,
    registry: &mut GlobalGlyphRegistry,
    glyphset: &mut Glyphset,
    atlas_key: AtlasKey,
)
    requires
        old(glyphset).wf(),
        old(registry).wf(),
        config_fits(*config),
        merge_room(*config, *old(glyphset), *old(registry)),
    ensures
        final(glyphset).wf(),
        final(registry).wf(),
        same_frame_gs(*old(glyphset), *final(glyphset)),
        final(registry).paths() == old(registry).paths(),
        final(registry).entry_seq().len() <= old(registry).entry_seq().len() + groups_regs(group_list(*config)),
        final(glyphset).luts@.len() <= old(glyphset).luts@.len() + groups_variants(group_list(*config)),
        ({
            let st = merge_groups(merge_view(*old(glyphset), *old(registry)), group_list(*config), atlas_key);
            let v = merge_view(*final(glyphset), *final(registry));
            &&& v.variants == st.variants
            &&& v.codes == st.codes
            &&& v.groups == st.groups
            &&& v.entries == st.entries
            &&& filled(st.luts, v.luts, old(glyphset).default_global_id)
        }),
{
    let ghost gl = group_list(*config);
    let ghost st0 = merge_view(*glyphset, *registry);
    proof {
        config.semantic_groups.lemma_keys();
    }
    let n = config.semantic_groups.len();
    let mut i: usize = 0;
    while i < n
        invariant
            n == config.semantic_groups.key_seq().len(),
            gl == group_list(*config),
            i <= n,
            config_fits(*config),
            merge_room(*config, *old(glyphset), *old(registry)),
            glyphset.wf(),
            registry.wf(),
            same_frame_gs(*old(glyphset), *glyphset),
            registry.paths() == old(registry).paths(),
            registry.entry_seq().len() <= old(registry).entry_seq().len() + groups_regs(gl.take(i as int)),
            glyphset.luts@.len() <= old(glyphset).luts@.len() + groups_variants(gl.take(i as int)),
            merge_view(*glyphset, *registry) == merge_groups(st0, gl.take(i as int), atlas_key),
        decreases n - i,
    {
        let (gname, group) = config.semantic_groups.entry_at(i);
        proof {
            assert(gl.take(i + 1).drop_last() =~= gl.take(i as int));
            assert(gl.take(i + 1).last() == (gname@, *group));
            lemma_sums_grow(gl, i as int);
            assert(group_fits(config.semantic_groups.value_seq()[i as int]));
        }
        merge_group_exec(glyphset, registry, gname, group, atlas_key);
        i += 1;
    }
    assert(gl.take(n as int) =~= gl);
    glyphset.apply_fallbacks();
}

/// The sums grow along the groups and stay below their totals.
proof fn lemma_sums_grow(gl: Seq<(Seq<char>, SemanticGroup)>, i: int)
    requires
        0 <= i < gl.len(),
    ensures
        groups_regs(gl.take(i + 1)) == groups_regs(gl.take(i)) + group_regs(gl[i].1),
        groups_variants(gl.take(i + 1)) == groups_variants(gl.take(i)) + gl[i].1.variants.key_seq().len(),
        groups_regs(gl.take(i + 1)) <= groups_regs(gl),
        groups_variants(gl.take(i + 1)) <= groups_variants(gl),
{
    assert(gl.take(i + 1).drop_last() =~= gl.take(i));
    lemma_sums_prefix(gl, i + 1);
}

proof fn lemma_sums_prefix(gl: Seq<(Seq<char>, SemanticGroup)>, k: int)
    requires
        0 <= k <= gl.len(),
    ensures
        groups_regs(gl.take(k)) <= groups_regs(gl),
        groups_variants(gl.take(k)) <= groups_variants(gl),
    decreases gl.len(),
{
    if k < gl.len() {
        lemma_sums_prefix(gl.drop_last(), k);
        assert(gl.drop_last().take(k) =~= gl.take(k));
    } else {
        assert(gl.take(k) =~= gl);
    }
}


// ---------------------------------------------------------------------------
// Mounting a sheet as paths
// ---------------------------------------------------------------------------

/// How many names of a group get paths: all of them when its codes
/// resolve, none otherwise.
pub open spec fn mount_count(g: SemanticGroup) -> nat {
    match resolved_codes(g) {
        Some(cs) => cs.len(),
        None => 0,
    }
}

/// Path of glyph `name` of variant `variant` under `prefix`: the
/// `default` variant has none of its own suffix.
pub open spec fn glyph_path(prefix: Seq<char>, name: Seq<char>, variant: Seq<char>) -> Seq<char> {
    if variant == "default"@ {
        prefix + seq!['/'] + name
    } else {
        prefix + seq!['/'] + name + seq![':'] + variant
    }
}

/// Registry entries and mapped paths.
pub struct MountState {
    pub entries: Seq<(AtlasKey, u32)>,
    pub paths: Map<Seq<char>, u32>,
}

pub open spec fn mount_view(reg: GlobalGlyphRegistry) -> MountState {
    MountState { entries: reg.entry_seq(), paths: reg.paths() }
}

/// The first `k` names of a variant starting at sheet index `start`,
/// each registered and mapped to its path.
pub open spec fn mount_names(
    st: MountState,
    prefix: Seq<char>,
    variant: Seq<char>,
    start: u32,
    names: Seq<Seq<char>>,
    k: nat,
    atlas: AtlasKey,
) -> MountState
    decreases k,
{
    if k == 0 {
        st
    } else {
        let s1 = mount_names(st, prefix, variant, start, names, (k - 1) as nat, atlas);
        let x = (atlas, (start + k - 1) as u32);
        let ents = entries_with(s1.entries, x);
        MountState { entries: ents, paths: s1.paths.insert(glyph_path(prefix, names[k - 1], variant), id_of(ents, x)) }
    }
}

/// Each variant of `vs` in turn.
pub open spec fn mount_variants(
    st: MountState,
    prefix: Seq<char>,
    names: Seq<Seq<char>>,
    count: nat,
    vs: Seq<(Seq<char>, VariantMapping)>,
    atlas: AtlasKey,
) -> MountState
    decreases vs.len(),
{
    if vs.len() == 0 {
        st
    } else {
        let s1 = mount_variants(st, prefix, names, count, vs.drop_last(), atlas);
        mount_names(s1, prefix, vs.last().0, mapping_start(vs.last().1), names, count, atlas)
    }
}

/// Each group of `gs` in turn.
pub open spec fn mount_groups(st: MountState, prefix: Seq<char>, gs: Seq<(Seq<char>, SemanticGroup)>, atlas: AtlasKey) -> MountState
    decreases gs.len(),
{
    if gs.len() == 0 {
        st
    } else {
        let s1 = mount_groups(st, prefix, gs.drop_last(), atlas);
        let g = gs.last().1;
        mount_variants(s1, prefix, expand_spec(g.source).0, mount_count(g), variant_list(g), atlas)
    }
}

/// A group can be mounted without an overflow.
pub open spec fn mount_fits(g: SemanticGroup) -> bool {
    &&& g.variants.wf()
    &&& codes_fit(g)
    &&& forall|j: int|
        0 <= j < g.variants.key_seq().len() ==> mount_count(g) > 0 ==> mapping_start(
            #[trigger] g.variants.value_seq()[j],
        ) + mount_count(g) - 1 <= u32::MAX
}

/// How many glyphs mounting the groups registers at most.
pub open spec fn mount_regs(gs: Seq<(Seq<char>, SemanticGroup)>) -> nat
    decreases gs.len(),
{
    if gs.len() == 0 {
        0
    } else {
        mount_regs(gs.drop_last()) + gs.last().1.variants.key_seq().len() * mount_count(gs.last().1)
    }
}

/// Path of one glyph, built.
fn glyph_path_exec(prefix: &str, name: &str, variant: &str) -> (p: String)
    ensures
        p@ == glyph_path(prefix@, name@, variant@),
{
    proof {
        reveal_strlit("default");
        reveal_strlit("/");
        reveal_strlit(":");
    }
    let mut p = owned(prefix);
    crate::text::push_str(&mut p, "/");
    crate::text::push_str(&mut p, name);
    if !str_eq(variant, "default") {
        crate::text::push_str(&mut p, ":");
        crate::text::push_str(&mut p, variant);
    }
    assert("/"@ =~= seq!['/']);
    assert(":"@ =~= seq![':']);
    p
}

proof fn lemma_codes_uniform(source: SourceType)
    ensures
        (forall|i: int| 0 <= i < expand_spec(source).1.len() ==> #[trigger] expand_spec(source).1[i] is None) || (forall|i: int|
            0 <= i < expand_spec(source).1.len() ==> #[trigger] expand_spec(source).1[i] is Some),
{
}

fn mount_group_exec(reg: &mut GlobalGlyphRegistry, prefix: &str, g: &SemanticGroup, atlas: AtlasKey)
    requires
        old(reg).wf(),
        mount_fits(*g),
        old(reg).entry_seq().len() + g.variants.key_seq().len() * mount_count(*g) < u32::MAX,
    ensures
        final(reg).wf(),
        final(reg).entry_seq().len() <= old(reg).entry_seq().len() + g.variants.key_seq().len() * mount_count(*g),
        mount_view(*final(reg)) == mount_variants(
            mount_view(*old(reg)),
            prefix@,
            expand_spec(g.source).0,
            mount_count(*g),
            variant_list(*g),
            atlas,
        ),
{
    let (names, _) = expand_source(&g.source);
    proof {
        lemma_expand_lengths(g.source);
        lemma_codes_uniform(g.source);
    }
    let count: usize = match resolve_codes(g) {
        Some(c) => c.len(),
        None => 0,
    };
    let ghost nviews = names@.map_values(|s: String| s@);
    let ghost vl = variant_list(*g);
    let ghost st0 = mount_view(*reg);
    proof {
        g.variants.lemma_keys();
    }
    let m = g.variants.len();
    let mut j: usize = 0;
    while j < m
        invariant
            m == g.variants.key_seq().len(),
            vl == variant_list(*g),
            nviews == names@.map_values(|s: String| s@),
            nviews == expand_spec(g.source).0,
            count == mount_count(*g),
            count <= names@.len(),
            j <= m,
            reg.wf(),
            mount_fits(*g),
            old(reg).entry_seq().len() + m * count < u32::MAX,
            reg.entry_seq().len() <= old(reg).entry_seq().len() + j * count,
            mount_view(*reg) == mount_variants(st0, prefix@, nviews, count as nat, vl.take(j as int), atlas),
        decreases m - j,
    {
        let (vname, mapping) = g.variants.entry_at(j);
        let start = match *mapping {
            VariantMapping::StartId(id) => id,
            VariantMapping::Range(r) => r[0],
        };
        proof {
            assert(g.variants.value_seq()[j as int] == *mapping);
            assert(j * count + count <= m * count) by (nonlinear_arith)
                requires
                    j < m;
        }
        let ghost sv = mount_view(*reg);
        let mut k: usize = 0;
        while k < count
            invariant
                count <= names@.len(),
                k <= count,
                count > 0 ==> start + count - 1 <= u32::MAX,
                nviews == names@.map_values(|s: String| s@),
                reg.wf(),
                reg.entry_seq().len() <= sv.entries.len() + k,
                sv.entries.len() + count < u32::MAX,
                mount_view(*reg) == mount_names(sv, prefix@, vname@, start, nviews, k as nat, atlas),
            decreases count - k,
        {
            let phys: u32 = start + k as u32;
            let gid = reg.register_glyph(atlas, phys);
            proof {
                reg.lemma_distinct();
                lemma_id_of(reg.entry_seq(), (atlas, phys), gid as int);
            }
            let path = glyph_path_exec(prefix, names[k].as_str(), vname.as_str());
            reg.map_path(path, gid);
            k += 1;
        }
        proof {
            assert(vl.take(j + 1).drop_last() =~= vl.take(j as int));
            assert(vl.take(j + 1).last() == (vname@, *mapping));
            let base = old(reg).entry_seq().len();
            let now = reg.entry_seq().len();
            assert(now <= base + (j + 1) * count) by (nonlinear_arith)
                requires
                    now <= base + j * count + count;
        }
        j += 1;
    }
    assert(vl.take(m as int) =~= vl);
}


/// Mounting every group of a sheet stays within `u32`.
pub open spec fn config_mount_fits(c: AtlasConfig) -> bool {
    &&& c.semantic_groups.wf()
    &&& forall|i: int| 0 <= i < c.semantic_groups.key_seq().len() ==> mount_fits(#[trigger] c.semantic_groups.value_seq()[i])
}

/// The state a merge into a fresh glyphset starts from: one unmapped
/// default table, and the sheet's default glyph registered.
pub open spec fn fresh_merge_state(entries: Seq<(AtlasKey, u32)>, atlas: AtlasKey, default_glyph: u32) -> MergeState {
    MergeState {
        luts: seq![unmapped_lut()],
        variants: Map::<Seq<char>, u8>::empty().insert("default"@, 0u8),
        codes: Map::empty(),
        groups: Map::empty(),
        entries: entries_with(entries, (atlas, default_glyph)),
    }
}

proof fn lemma_mount_prefix(gl: Seq<(Seq<char>, SemanticGroup)>, k: int)
    requires
        0 <= k <= gl.len(),
    ensures
        mount_regs(gl.take(k)) <= mount_regs(gl),
    decreases gl.len(),
{
    if k < gl.len() {
        lemma_mount_prefix(gl.drop_last(), k);
        assert(gl.drop_last().take(k) =~= gl.take(k));
    } else {
        assert(gl.take(k) =~= gl);
    }
}

/// `b` is `a` with a new glyphset `k` named `name`, made from sheet
/// `config` (loaded under `atlas_key`): tile size from the sheet, the
/// sheet's default glyph registered as fallback, every semantic group
/// merged and the holes of its tables filled; nothing else but the
/// registry's glyphs changes.
pub open spec fn glyphset_created(
    a: AssetManager,
    b: AssetManager,
    name: Seq<char>,
    atlas_key: AtlasKey,
    config: AtlasConfig,
    k: GlyphsetKey,
) -> bool {
    let g = b.glyphset_map()[k.ffi];
    let e0 = a.global_registry.entry_seq();
    let d = (atlas_key, config.default_glyph);
    let st = merge_groups(fresh_merge_state(e0, atlas_key, config.default_glyph), group_list(config), atlas_key);
    let v = merge_view(g, b.global_registry);
    &&& !a.glyphset_map().contains_key(k.ffi)
    &&& is_slot_key(k.ffi)
    &&& b.glyphset_map() == a.glyphset_map().insert(k.ffi, g)
    &&& b.palette_map() == a.palette_map()
    &&& b.descriptors == a.descriptors
    &&& b.tree == a.tree
    &&& b.pngs == a.pngs
    &&& b.palette_files == a.palette_files
    &&& b.global_registry.paths() == a.global_registry.paths()
    &&& g.name@ == name
    &&& g.tile_w == config.tile_width && g.tile_h == config.tile_height
    &&& g.default_global_id == id_of(entries_with(e0, d), d)
    &&& g.namespace_map@.is_empty()
    &&& v.variants == st.variants
    &&& v.codes == st.codes
    &&& v.groups == st.groups
    &&& v.entries == st.entries
    &&& filled(st.luts, v.luts, g.default_global_id)
}

/// `b` is `a` with sheet `config` (loaded under `atlas_key`) merged into
/// glyphset `glyphset_key` and the holes of its tables filled; `b` is `a`
/// when the key names no glyphset.
pub open spec fn atlas_merged(
    a: AssetManager,
    b: AssetManager,
    glyphset_key: GlyphsetKey,
    atlas_key: AtlasKey,
    config: AtlasConfig,
) -> bool {
    let gk = slot_key(glyphset_key.ffi);
    &&& b.palette_map() == a.palette_map()
    &&& b.descriptors == a.descriptors
    &&& b.tree == a.tree
    &&& b.pngs == a.pngs
    &&& b.palette_files == a.palette_files
    &&& b.global_registry.paths() == a.global_registry.paths()
    &&& !a.glyphset_map().contains_key(gk) ==> b == a
    &&& a.glyphset_map().contains_key(gk) ==> {
        let g0 = a.glyphset_map()[gk];
        let g = b.glyphset_map()[gk];
        let st = merge_groups(merge_view(g0, a.global_registry), group_list(config), atlas_key);
        let v = merge_view(g, b.global_registry);
        &&& b.glyphset_map() == a.glyphset_map().insert(gk, g)
        &&& same_frame_gs(g0, g)
        &&& v.variants == st.variants
        &&& v.codes == st.codes
        &&& v.groups == st.groups
        &&& v.entries == st.entries
        &&& filled(st.luts, v.luts, g0.default_global_id)
    }
}

impl AssetManager {
    /// Makes a glyphset named `name` from sheet `config` (loaded under
    /// `atlas_key`): tile size from the sheet, the sheet's default glyph
    /// as fallback, every semantic group merged.
    pub fn create_glyphset_from_atlas(&mut self, name: &str, atlas_key: AtlasKey, config: &AtlasConfig) -> (k: GlyphsetKey)
        requires
            old(self).wf(),
            old(self).can_add_glyphset(),
            config_fits(*config),
            old(self).global_registry.entry_seq().len() + 1 + groups_regs(group_list(*config)) < u32::MAX,
            groups_variants(group_list(*config)) + 2 < usize::MAX,
        ensures
            final(self).wf(),
            glyphset_created(*old(self), *final(self), name@, atlas_key, *config, k),
            glyphset_slot_count(final(self).glyphsets) <= glyphset_slot_count(old(self).glyphsets) + 1,
            final(self).global_registry.entry_seq().len() <= old(self).global_registry.entry_seq().len() + 1
                + groups_regs(group_list(*config)),
            final(self).glyphset_map()[k.ffi].luts@.len() <= 1 + groups_variants(group_list(*config)),
    {
        let default_global_id = self.global_registry.register_glyph(atlas_key, config.default_glyph);
        proof {
            self.global_registry.lemma_distinct();
            lemma_id_of(self.global_registry.entry_seq(), (atlas_key, config.default_glyph), default_global_id as int);
        }
        let mut glyphset = Glyphset::new(owned(name), config.tile_width, config.tile_height, default_global_id);
        proof {
            assert(merge_view(glyphset, self.global_registry).groups =~= Map::<Seq<char>, Seq<u32>>::empty());
            assert(merge_view(glyphset, self.global_registry) == fresh_merge_state(
                old(self).global_registry.entry_seq(),
                atlas_key,
                config.default_glyph,
            ));
        }
        proof {
            assert(glyphset.lut_seqs().len() == glyphset.luts@.len());
            assert(self.global_registry.entry_seq().len() <= old(self).global_registry.entry_seq().len() + 1);
        }
        merge_atlas_internal(config, &mut self.global_registry, &mut glyphset, atlas_key);
        let k = glyphset_arena_insert(&mut self.glyphsets, glyphset);
        self.count_glyphset();
        proof {
            assert forall|q: u64| #[trigger] self.glyphset_map().contains_key(q) implies self.glyphset_map()[q].wf()
                && is_slot_key(q) by {
                if q != k.ffi {
                    assert(old(self).glyphset_map().contains_key(q));
                }
            }
            assert(self.palette_map() == old(self).palette_map());
        }
        k
    }

    /// Merges sheet `config` (loaded under `atlas_key`) into an existing
    /// glyphset, whose tiles must have the sheet's size; nothing happens
    /// for a key that names none.
    pub fn merge_atlas(&mut self, glyphset_key: GlyphsetKey, atlas_key: AtlasKey, config: &AtlasConfig)
        requires
            old(self).wf(),
            config_fits(*config),
            old(self).glyphset_map().contains_key(slot_key(glyphset_key.ffi)) ==> {
                &&& old(self).glyphset_map()[slot_key(glyphset_key.ffi)].tile_w == config.tile_width
                &&& old(self).glyphset_map()[slot_key(glyphset_key.ffi)].tile_h == config.tile_height
            },
            old(self).glyphset_map().contains_key(slot_key(glyphset_key.ffi)) ==> merge_room(
                *config,
                old(self).glyphset_map()[slot_key(glyphset_key.ffi)],
                old(self).global_registry,
            ),
        ensures
            final(self).wf(),
            atlas_merged(*old(self), *final(self), glyphset_key, atlas_key, *config),
            glyphset_slot_count(final(self).glyphsets) == glyphset_slot_count(old(self).glyphsets),
            final(self).global_registry.entry_seq().len() <= old(self).global_registry.entry_seq().len()
                + groups_regs(group_list(*config)),
            old(self).glyphset_map().contains_key(slot_key(glyphset_key.ffi)) ==> final(self).glyphset_map()[slot_key(
                glyphset_key.ffi,
            )].luts@.len() <= old(self).glyphset_map()[slot_key(glyphset_key.ffi)].luts@.len() + groups_variants(
                group_list(*config),
            ),
    {
        proof {
            if old(self).glyphset_map().contains_key(slot_key(glyphset_key.ffi)) {
                assert(old(self).glyphset_map()[slot_key(glyphset_key.ffi)].wf());
            }
        }
        let registry = &mut self.global_registry;
        match glyphset_arena_get_mut(&mut self.glyphsets, glyphset_key) {
            Some(glyphset) => {
                merge_atlas_internal(config, registry, glyphset, atlas_key);
            },
            None => {},
        }
        proof {
            assert forall|q: u64| #[trigger] self.glyphset_map().contains_key(q) implies self.glyphset_map()[q].wf()
                && is_slot_key(q) by {
                assert(old(self).glyphset_map().contains_key(q));
            }
            assert(self.palette_map() == old(self).palette_map());
        }
    }

    /// Maps the path `{prefix}/{name}` (and `{prefix}/{name}:{variant}`
    /// for variants other than `default`) of every glyph of every group
    /// of sheet `config` to the glyph's global id.
    pub fn mount_atlas(&mut self, prefix: &str, atlas_key: AtlasKey, config: &AtlasConfig)
        requires
            old(self).wf(),
            config_mount_fits(*config),
            old(self).global_registry.entry_seq().len() + mount_regs(group_list(*config)) < u32::MAX,
        ensures
            final(self).wf(),
            final(self).glyphset_map() == old(self).glyphset_map(),
            final(self).palette_map() == old(self).palette_map(),
            final(self).descriptors == old(self).descriptors,
            final(self).tree == old(self).tree,
            final(self).pngs == old(self).pngs,
            mount_view(final(self).global_registry) == mount_groups(
                mount_view(old(self).global_registry),
                prefix@,
                group_list(*config),
                atlas_key,
            ),
    {
        let ghost gl = group_list(*config);
        let ghost st0 = mount_view(self.global_registry);
        proof {
            config.semantic_groups.lemma_keys();
        }
        let n = config.semantic_groups.len();
        let mut i: usize = 0;
        while i < n
            invariant
                n == config.semantic_groups.key_seq().len(),
                gl == group_list(*config),
                i <= n,
                config_mount_fits(*config),
                old(self).global_registry.entry_seq().len() + mount_regs(gl) < u32::MAX,
                self.wf(),
                self.glyphset_map() == old(self).glyphset_map(),
                self.palette_map() == old(self).palette_map(),
                self.descriptors == old(self).descriptors,
                self.tree == old(self).tree,
                self.pngs == old(self).pngs,
                self.global_registry.entry_seq().len() <= old(self).global_registry.entry_seq().len() + mount_regs(gl.take(i as int)),
                mount_view(self.global_registry) == mount_groups(st0, prefix@, gl.take(i as int), atlas_key),
            decreases n - i,
        {
            let (_gname, group) = config.semantic_groups.entry_at(i);
            proof {
                assert(gl.take(i + 1).drop_last() =~= gl.take(i as int));
                assert(gl.take(i + 1).last().1 == *group);
                lemma_mount_prefix(gl, i + 1);
                assert(mount_fits(config.semantic_groups.value_seq()[i as int]));
            }
            mount_group_exec(&mut self.global_registry, prefix, group, atlas_key);
            i += 1;
        }
        assert(gl.take(n as int) =~= gl);
    }
}

} // verus!
