//! The global glyph registry: every physical glyph (sprite `g` of sprite
//! sheet `a`) gets one global id, its position in a flat table; paths of
//! a virtual file system can be mapped to global ids.

use vstd::prelude::*;
use std::collections::HashMap;
use crate::keys::AtlasKey;
use crate::strmap::StrMap;

verus! {

broadcast use vstd::std_specs::hash::group_hash_axioms;

/// Integer key under which a physical glyph is looked up.
pub open spec fn glyph_key(atlas: AtlasKey, glyph: u32) -> u128 {
    (atlas.ffi as int * 0x1_0000_0000 + glyph as int) as u128
}

proof fn lemma_glyph_key_injective(a1: AtlasKey, g1: u32, a2: AtlasKey, g2: u32)
    ensures
        glyph_key(a1, g1) == glyph_key(a2, g2) ==> a1 == a2 && g1 == g2,
{
    let x1 = a1.ffi as int;
    let x2 = a2.ffi as int;
    assert(0 <= x1 * 0x1_0000_0000 + g1 as int <= u128::MAX) by (nonlinear_arith)
        requires 0 <= x1 < 0x1_0000_0000_0000_0000, 0 <= g1 < 0x1_0000_0000;
    assert(0 <= x2 * 0x1_0000_0000 + g2 as int <= u128::MAX) by (nonlinear_arith)
        requires 0 <= x2 < 0x1_0000_0000_0000_0000, 0 <= g2 < 0x1_0000_0000;
    if glyph_key(a1, g1) == glyph_key(a2, g2) {
        assert(x1 * 0x1_0000_0000 + g1 as int == x2 * 0x1_0000_0000 + g2 as int);
        assert(x1 == x2 && g1 == g2) by (nonlinear_arith)
            requires
                x1 * 0x1_0000_0000 + g1 as int == x2 * 0x1_0000_0000 + g2 as int,
                0 <= g1 < 0x1_0000_0000,
                0 <= g2 < 0x1_0000_0000;
    }
}

fn glyph_key_exec(atlas: AtlasKey, glyph: u32) -> (k: u128)
    ensures
        k == glyph_key(atlas, glyph),
{
    let a: u128 = atlas.ffi as u128;
    assert(a * 0x1_0000_0000 <= 0xFFFF_FFFF_FFFF_FFFF * 0x1_0000_0000) by (nonlinear_arith)
        requires a <= 0xFFFF_FFFF_FFFF_FFFF;
    a * 0x1_0000_0000u128 + glyph as u128
}

pub struct GlobalGlyphRegistry {
    /// Physical glyph of each global id.
    pub entries: Vec<(AtlasKey, u32)>,
    /// Resolved virtual paths.
    pub path_cache: StrMap<u32>,
    reverse_lookup: HashMap<u128, u32>,
}

impl GlobalGlyphRegistry {
    /// Physical glyph of each global id.
    pub closed spec fn entry_seq(&self) -> Seq<(AtlasKey, u32)> {
        self.entries@
    }

    /// Mapped virtual paths.
    pub closed spec fn paths(&self) -> Map<Seq<char>, u32> {
        self.path_cache@
    }

    /// No physical glyph has two ids, ids fit in `u32`, and the reverse
    /// lookup agrees with the table.
    pub closed spec fn wf(&self) -> bool {
        &&& self.path_cache.wf()
        &&& self.entries@.len() <= u32::MAX
        &&& forall|i: int, j: int|
            0 <= i < j < self.entries@.len() ==> #[trigger] self.entries@[i] != #[trigger] self.entries@[j]
        &&& forall|i: int|
            0 <= i < self.entries@.len() ==> self.reverse_lookup@.contains_key(
                glyph_key(#[trigger] self.entries@[i].0, self.entries@[i].1),
            ) && self.reverse_lookup@[glyph_key(self.entries@[i].0, self.entries@[i].1)] == i
        &&& forall|k: u128| #[trigger]
            self.reverse_lookup@.contains_key(k) ==> exists|i: int|
                0 <= i < self.entries@.len() && glyph_key(#[trigger] self.entries@[i].0, self.entries@[i].1)
                    == k
    }

    /// No physical glyph is listed twice.
    pub proof fn lemma_distinct(&self)
        requires
            self.wf(),
        ensures
            self.entry_seq().no_duplicates(),
    {
    }

    pub fn new() -> (r: GlobalGlyphRegistry)
        ensures
            r.wf(),
            r.entry_seq().len() == 0,
            r.paths() == Map::<Seq<char>, u32>::empty(),
    {
        GlobalGlyphRegistry { entries: Vec::new(), path_cache: StrMap::new(), reverse_lookup: HashMap::new() }
    }

    /// Global id of a physical glyph: the existing one if it was
    /// registered before, otherwise the next free id.
    pub fn register_glyph(&mut self, atlas: AtlasKey, local_glyph: u32) -> (id: u32)
        requires
            old(self).wf(),
            old(self).entry_seq().len() < u32::MAX,
        ensures
            final(self).wf(),
            final(self).paths() == old(self).paths(),
            old(self).entry_seq().contains((atlas, local_glyph)) ==> final(self).entry_seq() == old(self).entry_seq(),
            !old(self).entry_seq().contains((atlas, local_glyph)) ==> final(self).entry_seq()
                == old(self).entry_seq().push((atlas, local_glyph)),
            id < final(self).entry_seq().len(),
            final(self).entry_seq()[id as int] == (atlas, local_glyph),
    {
        let key = glyph_key_exec(atlas, local_glyph);
        match self.reverse_lookup.get(&key) {
            Some(id) => {
                let id = *id;
                proof {
                    let i = choose|i: int| 0 <= i < self.entries@.len() && glyph_key(#[trigger] self.entries@[i].0, self.entries@[i].1) == key;
                    lemma_glyph_key_injective(self.entries@[i].0, self.entries@[i].1, atlas, local_glyph);
                    assert(self.entries@[i] == (atlas, local_glyph));
                }
                id
            },
            None => {
                let global_id = self.entries.len() as u32;
                self.entries.push((atlas, local_glyph));
                self.reverse_lookup.insert(key, global_id);
                proof {
                    let n = old(self).entries@.len();
                    assert forall|i: int| 0 <= i < n implies old(self).entries@[i] != (atlas, local_glyph) by {
                        assert(old(self).reverse_lookup@.contains_key(glyph_key(old(self).entries@[i].0, old(self).entries@[i].1)));
                    }
                    assert(!old(self).entries@.contains((atlas, local_glyph)));
                    assert forall|i: int, j: int| 0 <= i < j < self.entries@.len() implies #[trigger] self.entries@[i]
                        != #[trigger] self.entries@[j] by {
                        assert(self.entries@[i] == old(self).entries@[i]);
                    }
                    assert forall|i: int| 0 <= i < self.entries@.len() implies self.reverse_lookup@.contains_key(
                        glyph_key(#[trigger] self.entries@[i].0, self.entries@[i].1),
                    ) && self.reverse_lookup@[glyph_key(self.entries@[i].0, self.entries@[i].1)] == i by {
                        if i < n {
                            assert(self.entries@[i] == old(self).entries@[i]);
                            lemma_glyph_key_injective(self.entries@[i].0, self.entries@[i].1, atlas, local_glyph);
                        }
                    }
                    assert forall|k: u128| #[trigger] self.reverse_lookup@.contains_key(k) implies exists|i: int|
                        0 <= i < self.entries@.len() && glyph_key(#[trigger] self.entries@[i].0, self.entries@[i].1) == k by {
                        if k == key {
                            assert(glyph_key(self.entries@[n as int].0, self.entries@[n as int].1) == k);
                        } else {
                            let i = choose|i: int| 0 <= i < n && glyph_key(#[trigger] old(self).entries@[i].0, old(self).entries@[i].1) == k;
                            assert(self.entries@[i] == old(self).entries@[i]);
                        }
                    }
                }
                global_id
            },
        }
    }

    /// Maps a virtual path to a global id.
    pub fn map_path(&mut self, path: String, global_id: u32)
        requires
            old(self).wf(),
        ensures
            final(self).wf(),
            final(self).entry_seq() == old(self).entry_seq(),
            final(self).paths() == old(self).paths().insert(path@, global_id),
    {
        self.path_cache.insert(path, global_id);
    }

    /// Global id mapped to a virtual path, if any.
    pub fn query(&self, path: &str) -> (r: Option<u32>)
        requires
            self.wf(),
        ensures
            r == if self.paths().contains_key(path@) {
                Some(self.paths()[path@])
            } else {
                None::<u32>
            },
    {
        match self.path_cache.get(path) {
            Some(id) => Some(*id),
            None => None,
        }
    }

    /// Physical glyph of a global id, if the id exists.
    pub fn entry(&self, global_id: u32) -> (r: Option<(AtlasKey, u32)>)
        ensures
            r == if global_id < self.entry_seq().len() {
                Some(self.entry_seq()[global_id as int])
            } else {
                None::<(AtlasKey, u32)>
            },
    {
        if (global_id as usize) < self.entries.len() {
            Some(self.entries[global_id as usize])
        } else {
            None
        }
    }

    /// Number of registered physical glyphs.
    pub fn len(&self) -> (n: usize)
        ensures
            n == self.entry_seq().len(),
    {
        self.entries.len()
    }
}


/// `r1` is `r0` after `register_glyph(atlas, glyph)` returned `id`.
pub open spec fn registered(r0: GlobalGlyphRegistry, r1: GlobalGlyphRegistry, atlas: AtlasKey, glyph: u32, id: u32) -> bool {
    &&& r1.wf()
    &&& r1.paths() == r0.paths()
    &&& r0.entry_seq().contains((atlas, glyph)) ==> r1.entry_seq() == r0.entry_seq()
    &&& !r0.entry_seq().contains((atlas, glyph)) ==> r1.entry_seq() == r0.entry_seq().push((atlas, glyph))
    &&& id < r1.entry_seq().len()
    &&& r1.entry_seq()[id as int] == (atlas, glyph)
}

/// A physical glyph has one global id: registering it again returns
/// the same id and changes nothing, and the id reads back the glyph.
pub proof fn law_register_idempotent(
    r0: GlobalGlyphRegistry,
    r1: GlobalGlyphRegistry,
    r2: GlobalGlyphRegistry,
    atlas: AtlasKey,
    glyph: u32,
    id1: u32,
    id2: u32,
)
    requires
        r0.wf(),
        registered(r0, r1, atlas, glyph, id1),
        registered(r1, r2, atlas, glyph, id2),
    ensures
        id1 == id2,
        r2.entry_seq() == r1.entry_seq(),
        r2.entry_seq()[id2 as int] == (atlas, glyph),
{
    r1.lemma_distinct();
    assert(r1.entry_seq().contains((atlas, glyph))) by {
        assert(r1.entry_seq()[id1 as int] == (atlas, glyph));
    }
}

/// A mapped path reads back the id it was mapped to, and mapping it
/// leaves every other path as it was.
pub proof fn law_query_after_map(r0: GlobalGlyphRegistry, r1: GlobalGlyphRegistry, path: Seq<char>, id: u32, other: Seq<char>)
    requires
        r1.paths() == r0.paths().insert(path, id),
        other != path,
    ensures
        r1.paths().contains_key(path) && r1.paths()[path] == id,
        r1.paths().contains_key(other) == r0.paths().contains_key(other),
        r0.paths().contains_key(other) ==> r1.paths()[other] == r0.paths()[other],
{
}

} // verus!
