//! Glyphsets: per-variant lookup tables from semantic codes to global
//! glyph ids, plus dictionaries of named codes and code groups.

use vstd::prelude::*;
use crate::strmap::StrMap;
use crate::text::owned;

verus! {

broadcast use vstd::string::group_string_axioms;

/// Marks a table slot that no glyph has been assigned to.
pub const UNMAPPED: u32 = 0xFFFF_FFFFu32;

/// Number of codes a lookup table covers.
pub const LUT_SIZE: usize = 65536usize;

/// A table of `LUT_SIZE` unmapped slots.
pub open spec fn unmapped_lut() -> Seq<u32> {
    Seq::new(65536, |i: int| UNMAPPED)
}

/// `x`, or `d` where `x` is unmapped.
pub open spec fn fallback(x: u32, d: u32) -> u32 {
    if x == UNMAPPED {
        d
    } else {
        x
    }
}

/// Id of the variant created after `n` tables exist (ids wrap at 256).
pub open spec fn next_variant_id(n: nat) -> u8 {
    (n % 256) as u8
}

/// Some name of `names` has id `v`.
pub open spec fn id_named(names: Map<Seq<char>, u8>, v: int) -> bool {
    exists|k: Seq<char>| #[trigger] names.contains_key(k) && names[k] == v
}

/// `names` maps its names one to one onto the variant ids `0..n`.
pub open spec fn names_one_to_one(names: Map<Seq<char>, u8>, n: nat) -> bool {
    &&& forall|k: Seq<char>| #[trigger] names.contains_key(k) ==> names[k] < n
    &&& forall|k1: Seq<char>, k2: Seq<char>|
        #[trigger] names.contains_key(k1) && #[trigger] names.contains_key(k2) && names[k1] == names[k2] ==> k1 == k2
    &&& forall|v: int| 0 <= v < n ==> #[trigger] id_named(names, v)
}

/// While there are fewer than 256 tables, naming a new variant the way
/// `ensure_variant` does (the next id, the table count) keeps the names
/// one to one with the tables; a known name changes nothing.
pub proof fn law_ensure_variant_keeps_names_one_to_one(names: Map<Seq<char>, u8>, n: nat, name: Seq<char>)
    requires
        names_one_to_one(names, n),
        n < 256,
    ensures
        next_variant_id(n) == n,
        !names.contains_key(name) ==> names_one_to_one(names.insert(name, next_variant_id(n)), n + 1),
{
    let id = next_variant_id(n);
    assert(id == n);
    if !names.contains_key(name) {
        let m = names.insert(name, id);
        assert forall|v: int| 0 <= v < n + 1 implies #[trigger] id_named(m, v) by {
            if v < n {
                assert(id_named(names, v));
                let k = choose|k: Seq<char>| #[trigger] names.contains_key(k) && names[k] == v;
                assert(m.contains_key(k) && m[k] == v);
            } else {
                assert(m.contains_key(name) && m[name] == v);
            }
        }
        assert forall|k1: Seq<char>, k2: Seq<char>|
            #[trigger] m.contains_key(k1) && #[trigger] m.contains_key(k2) && m[k1] == m[k2] implies k1 == k2 by {
            if k1 != name && k2 != name {
                assert(names.contains_key(k1) && names.contains_key(k2));
            } else if k1 == name && k2 != name {
                assert(names.contains_key(k2) && names[k2] < n);
            } else if k2 == name && k1 != name {
                assert(names.contains_key(k1) && names[k1] < n);
            }
        }
    }
}

/// A fresh table with every slot unmapped.
fn unmapped_table() -> (v: Vec<u32>)
    ensures
        v@ == unmapped_lut(),
{
    let mut v: Vec<u32> = Vec::new();
    while v.len() < LUT_SIZE
        invariant
            v@.len() <= LUT_SIZE,
            forall|i: int| 0 <= i < v@.len() ==> v@[i] == UNMAPPED,
        decreases LUT_SIZE - v@.len(),
    {
        v.push(UNMAPPED);
    }
    assert(v@ =~= unmapped_lut());
    v
}

pub struct Glyphset {
    pub name: String,
    pub tile_w: u32,
    pub tile_h: u32,
    /// Variant names and their ids (`"default"` is 0).
    pub variant_names: StrMap<u8>,
    /// One table per variant id: code -> global glyph id.
    pub luts: Vec<Vec<u32>>,
    /// Names of interface elements and their codes.
    pub namespace_map: StrMap<u32>,
    /// Named codes (e.g. `"arrow_left"`).
    pub named_codes: StrMap<u32>,
    /// Named groups of codes.
    pub named_groups: StrMap<Vec<u32>>,
    pub default_global_id: u32,
}

impl Glyphset {
    /// The tables, as sequences.
    pub open spec fn lut_seqs(&self) -> Seq<Seq<u32>> {
        self.luts@.map_values(|l: Vec<u32>| l@)
    }

    /// At least the default table exists, every table covers `LUT_SIZE`
    /// codes, every variant id names a table, and the dictionaries are
    /// well formed.
    pub open spec fn wf(&self) -> bool {
        &&& self.variant_names.wf()
        &&& self.namespace_map.wf()
        &&& self.named_codes.wf()
        &&& self.named_groups.wf()
        &&& 1 <= self.luts@.len() < usize::MAX
        &&& forall|v: int| 0 <= v < self.luts@.len() ==> (#[trigger] self.luts@[v])@.len() == LUT_SIZE
        &&& forall|n: Seq<char>| #[trigger] self.variant_names@.contains_key(n) ==> self.variant_names@[n] < self.luts@.len()
    }

    /// A glyphset with only the default variant (id 0), all unmapped.
    pub fn new(name: String, tile_w: u32, tile_h: u32, default_global_id: u32) -> (gs: Glyphset)
        ensures
            gs.wf(),
            gs.name == name,
            gs.tile_w == tile_w && gs.tile_h == tile_h,
            gs.default_global_id == default_global_id,
            gs.variant_names@ == Map::<Seq<char>, u8>::empty().insert("default"@, 0u8),
            gs.lut_seqs() == seq![unmapped_lut()],
            gs.namespace_map@ == Map::<Seq<char>, u32>::empty(),
            gs.named_codes@ == Map::<Seq<char>, u32>::empty(),
            gs.named_groups@ == Map::<Seq<char>, Vec<u32>>::empty(),
    {
        let mut variant_names = StrMap::new();
        variant_names.insert(owned("default"), 0u8);
        let mut luts: Vec<Vec<u32>> = Vec::new();
        luts.push(unmapped_table());
        let gs = Glyphset {
            name,
            tile_w,
            tile_h,
            variant_names,
            luts,
            namespace_map: StrMap::new(),
            named_codes: StrMap::new(),
            named_groups: StrMap::new(),
            default_global_id,
        };
        assert(gs.lut_seqs() =~= seq![unmapped_lut()]);
        gs
    }

    /// Id of the variant `name`, creating it (with an unmapped table) if
    /// it does not exist yet.
    pub fn ensure_variant(&mut self, name: &str) -> (id: u8)
        requires
            old(self).wf(),
            old(self).luts@.len() + 1 < usize::MAX,
        ensures
            final(self).wf(),
            final(self).name == old(self).name,
            final(self).tile_w == old(self).tile_w && final(self).tile_h == old(self).tile_h,
            final(self).default_global_id == old(self).default_global_id,
            final(self).namespace_map == old(self).namespace_map,
            final(self).named_codes == old(self).named_codes,
            final(self).named_groups == old(self).named_groups,
            old(self).variant_names@.contains_key(name@) ==> {
                &&& id == old(self).variant_names@[name@]
                &&& final(self).variant_names == old(self).variant_names
                &&& final(self).luts == old(self).luts
            },
            !old(self).variant_names@.contains_key(name@) ==> {
                &&& id == next_variant_id(old(self).luts@.len())
                &&& final(self).variant_names@ == old(self).variant_names@.insert(name@, id)
                &&& final(self).lut_seqs() == old(self).lut_seqs().push(unmapped_lut())
            },
            id < final(self).luts@.len(),
    {
        if let Some(id) = self.variant_names.get(name) {
            return *id;
        }
        let id = (self.luts.len() % 256) as u8;
        self.variant_names.insert(owned(name), id);
        self.luts.push(unmapped_table());
        assert(self.lut_seqs() =~= old(self).lut_seqs().push(unmapped_lut()));
        id
    }

    /// Fills unmapped slots: the default table with `default_global_id`,
    /// every other table with the (filled) default table's entry.
    pub fn apply_fallbacks(&mut self)
        requires
            old(self).wf(),
        ensures
            final(self).wf(),
            final(self).name == old(self).name,
            final(self).tile_w == old(self).tile_w && final(self).tile_h == old(self).tile_h,
            final(self).default_global_id == old(self).default_global_id,
            final(self).variant_names == old(self).variant_names,
            final(self).namespace_map == old(self).namespace_map,
            final(self).named_codes == old(self).named_codes,
            final(self).named_groups == old(self).named_groups,
            final(self).luts@.len() == old(self).luts@.len(),
            forall|c: int| 0 <= c < LUT_SIZE ==> #[trigger] final(self).luts@[0]@[c] == fallback(
                old(self).luts@[0]@[c],
                old(self).default_global_id,
            ),
            forall|v: int, c: int|
                1 <= v < old(self).luts@.len() && 0 <= c < LUT_SIZE ==> #[trigger] final(self).luts@[v]@[c]
                    == fallback(old(self).luts@[v]@[c], final(self).luts@[0]@[c]),
    {
        let d = self.default_global_id;
        let mut code: usize = 0;
        while code < LUT_SIZE
            invariant
                self.wf(),
                self.name == old(self).name,
                self.tile_w == old(self).tile_w && self.tile_h == old(self).tile_h,
                self.default_global_id == d && d == old(self).default_global_id,
                self.variant_names == old(self).variant_names,
                self.namespace_map == old(self).namespace_map,
                self.named_codes == old(self).named_codes,
                self.named_groups == old(self).named_groups,
                self.luts@.len() == old(self).luts@.len(),
                code <= LUT_SIZE,
                forall|v: int| 1 <= v < self.luts@.len() ==> #[trigger] self.luts@[v] == old(self).luts@[v],
                forall|c: int| 0 <= c < code ==> #[trigger] self.luts@[0]@[c] == fallback(old(self).luts@[0]@[c], d),
                forall|c: int| code <= c < LUT_SIZE ==> #[trigger] self.luts@[0]@[c] == old(self).luts@[0]@[c],
            decreases LUT_SIZE - code,
        {
            if self.luts[0][code] == UNMAPPED {
                self.luts[0][code] = d;
            }
            code += 1;
        }
        let n = self.luts.len();
        let mut v: usize = 1;
        while v < n
            invariant
                self.wf(),
                self.name == old(self).name,
                self.tile_w == old(self).tile_w && self.tile_h == old(self).tile_h,
                self.default_global_id == old(self).default_global_id,
                self.variant_names == old(self).variant_names,
                self.namespace_map == old(self).namespace_map,
                self.named_codes == old(self).named_codes,
                self.named_groups == old(self).named_groups,
                n == self.luts@.len() && n == old(self).luts@.len(),
                1 <= v <= n,
                forall|c: int| 0 <= c < LUT_SIZE ==> #[trigger] self.luts@[0]@[c] == fallback(old(self).luts@[0]@[c], old(self).default_global_id),
                forall|w: int, c: int| 1 <= w < v && 0 <= c < LUT_SIZE ==> #[trigger] self.luts@[w]@[c]
                    == fallback(old(self).luts@[w]@[c], self.luts@[0]@[c]),
                forall|w: int| v <= w < n ==> #[trigger] self.luts@[w] == old(self).luts@[w],
            decreases n - v,
        {
            let mut code: usize = 0;
            while code < LUT_SIZE
                invariant
                    self.wf(),
                    self.name == old(self).name,
                    self.tile_w == old(self).tile_w && self.tile_h == old(self).tile_h,
                    self.default_global_id == old(self).default_global_id,
                    self.variant_names == old(self).variant_names,
                    self.namespace_map == old(self).namespace_map,
                    self.named_codes == old(self).named_codes,
                    self.named_groups == old(self).named_groups,
                    n == self.luts@.len(),
                    1 <= v < n,
                    code <= LUT_SIZE,
                    forall|c: int| 0 <= c < LUT_SIZE ==> #[trigger] self.luts@[0]@[c] == fallback(old(self).luts@[0]@[c], old(self).default_global_id),
                    forall|w: int, c: int| 1 <= w < v && 0 <= c < LUT_SIZE ==> #[trigger] self.luts@[w]@[c]
                        == fallback(old(self).luts@[w]@[c], self.luts@[0]@[c]),
                    forall|w: int| v < w < n ==> #[trigger] self.luts@[w] == old(self).luts@[w],
                    forall|c: int| 0 <= c < code ==> #[trigger] self.luts@[v as int]@[c]
                        == fallback(old(self).luts@[v as int]@[c], self.luts@[0]@[c]),
                    forall|c: int| code <= c < LUT_SIZE ==> #[trigger] self.luts@[v as int]@[c] == old(self).luts@[v as int]@[c],
                decreases LUT_SIZE - code,
            {
                let dv = self.luts[0][code];
                if self.luts[v][code] == UNMAPPED {
                    self.luts[v][code] = dv;
                }
                code += 1;
            }
            v += 1;
        }
    }

    /// Global id drawn for `code` in variant `variant_id`: the table entry
    /// when both exist, `default_global_id` otherwise.
    pub fn global_id_for(&self, code: u32, variant_id: u8) -> (id: u32)
        ensures
            id == if (variant_id as int) < self.luts@.len() && (code as int) < self.luts@[variant_id as int]@.len() {
                self.luts@[variant_id as int]@[code as int]
            } else {
                self.default_global_id
            },
    {
        let v = variant_id as usize;
        if v < self.luts.len() {
            let c = code as usize;
            if c < self.luts[v].len() {
                return self.luts[v][c];
            }
        }
        self.default_global_id
    }

    /// Code named `name`, if any.
    pub fn resolve_code(&self, name: &str) -> (r: Option<u32>)
        requires
            self.named_codes.wf(),
        ensures
            r == if self.named_codes@.contains_key(name@) {
                Some(self.named_codes@[name@])
            } else {
                None::<u32>
            },
    {
        match self.named_codes.get(name) {
            Some(c) => Some(*c),
            None => None,
        }
    }

    /// Codes of the group `group`, if any.
    pub fn resolve_group(&self, group: &str) -> (r: Option<&Vec<u32>>)
        requires
            self.named_groups.wf(),
        ensures
            match r {
                Some(v) => self.named_groups@.contains_key(group@) && *v == self.named_groups@[group@],
                None => !self.named_groups@.contains_key(group@),
            },
    {
        self.named_groups.get(group)
    }

    /// Id of variant `name`, or 0 when there is none.
    pub fn variant_id_or_default(&self, name: &str) -> (id: u8)
        requires
            self.variant_names.wf(),
        ensures
            id == if self.variant_names@.contains_key(name@) {
                self.variant_names@[name@]
            } else {
                0u8
            },
    {
        match self.variant_names.get(name) {
            Some(id) => *id,
            None => 0,
        }
    }
}


/// Once fallbacks are applied with a mapped default glyph, no table of
/// any variant has an unmapped slot, so drawing never has to fall back.
pub proof fn law_fallbacks_fill_every_table(before: Glyphset, after: Glyphset)
    requires
        before.wf(),
        before.default_global_id != UNMAPPED,
        after.luts@.len() == before.luts@.len(),
        after.wf(),
        forall|c: int| 0 <= c < LUT_SIZE ==> #[trigger] after.luts@[0]@[c] == fallback(
            before.luts@[0]@[c],
            before.default_global_id,
        ),
        forall|v: int, c: int|
            1 <= v < before.luts@.len() && 0 <= c < LUT_SIZE ==> #[trigger] after.luts@[v]@[c] == fallback(
                before.luts@[v]@[c],
                after.luts@[0]@[c],
            ),
    ensures
        forall|v: int, c: int| 0 <= v < after.luts@.len() && 0 <= c < LUT_SIZE ==> #[trigger] after.luts@[v]@[c] != UNMAPPED,
{
    assert forall|v: int, c: int| 0 <= v < after.luts@.len() && 0 <= c < LUT_SIZE implies #[trigger] after.luts@[v]@[c]
        != UNMAPPED by {
        assert(after.luts@[0]@[c] != UNMAPPED);
    }
}

} // verus!
