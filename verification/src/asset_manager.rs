//! Assets that the verified core owns: glyphsets, palettes, atlas
//! descriptors, the virtual mount tree, the global glyph registry and the
//! table of loaded sprite sheets.  Textures and shaders stay with the
//! renderer, which hands the core the key of each sheet it loads.

use vstd::prelude::*;
use slotmap::{DefaultKey, SlotMap};
use crate::arena::{Arena, slot_key, is_slot_key};
use crate::keys::{AtlasKey, GlyphsetKey, PaletteKey};
use crate::glyphset::Glyphset;
use crate::palette::Palette;
use crate::registry::GlobalGlyphRegistry;
use crate::strmap::StrMap;
use crate::atlas::AtlasDescriptor;
use crate::vtree::VirtualTree;
use crate::types::{Color, ColorRef};

verus! {

// ---------------------------------------------------------------------------
// Arenas
// ---------------------------------------------------------------------------

/// The glyphsets that a glyphset arena holds, by the 64-bit form of their keys.
pub uninterp spec fn glyphset_slots(m: Arena<Glyphset>) -> Map<u64, Glyphset>;

/// How many slots a glyphset arena has made, freed ones and the reserved
/// slot 0 included; it never shrinks, and `insert` panics once it
/// reaches `u32::MAX` with no freed slot to reuse.
pub uninterp spec fn glyphset_slot_count(m: Arena<Glyphset>) -> nat;

/// `SlotMap::with_key`: an empty arena with only the reserved slot.
#[verifier::external_body]
pub(crate) fn glyphset_arena_new() -> (arena: Arena<Glyphset>)
    ensures
        glyphset_slots(arena).is_empty(),
        glyphset_slot_count(arena) == 1,
{
    Arena { slots: SlotMap::with_key() }
}

/// `SlotMap::insert`: stores `value` under a key that was not live, whose
/// 64-bit form is returned; at most one slot is made.
#[verifier::external_body]
pub(crate) fn glyphset_arena_insert(m: &mut Arena<Glyphset>, value: Glyphset) -> (k: GlyphsetKey)
    requires
        glyphset_slot_count(*old(m)) < u32::MAX,
    ensures
        !glyphset_slots(*old(m)).contains_key(k.ffi),
        is_slot_key(k.ffi),
        glyphset_slots(*final(m)) == glyphset_slots(*old(m)).insert(k.ffi, value),
        glyphset_slot_count(*old(m)) <= glyphset_slot_count(*final(m)) <= glyphset_slot_count(*old(m)) + 1,
{
    GlyphsetKey { ffi: slotmap::Key::data(&m.slots.insert(value)).as_ffi() }
}

/// `SlotMap::get` with the key that `KeyData::from_ffi` makes of `k`.
#[verifier::external_body]
pub(crate) fn glyphset_arena_get<'a>(m: &'a Arena<Glyphset>, k: GlyphsetKey) -> (r: Option<&'a Glyphset>)
    ensures
        r == (if glyphset_slots(*m).contains_key(slot_key(k.ffi)) {
            Some(&glyphset_slots(*m)[slot_key(k.ffi)])
        } else {
            None
        }),
{
    m.slots.get(DefaultKey::from(slotmap::KeyData::from_ffi(k.ffi)))
}

/// `SlotMap::get_mut` with the key that `KeyData::from_ffi` makes of `k`:
/// the arena afterwards holds what was written through the reference.
#[verifier::external_body]
pub(crate) fn glyphset_arena_get_mut<'a>(m: &'a mut Arena<Glyphset>, k: GlyphsetKey) -> (r: Option<&'a mut Glyphset>)
    ensures
        glyphset_slots(*old(m)).contains_key(slot_key(k.ffi)) ==> {
            &&& r.is_some()
            &&& *r.unwrap() == glyphset_slots(*old(m))[slot_key(k.ffi)]
            &&& glyphset_slots(*final(m)) == glyphset_slots(*old(m)).insert(slot_key(k.ffi), *final(r.unwrap()))
            &&& glyphset_slot_count(*final(m)) == glyphset_slot_count(*old(m))
        },
        !glyphset_slots(*old(m)).contains_key(slot_key(k.ffi)) ==> r.is_none() && *final(m) == *old(m),
{
    m.slots.get_mut(DefaultKey::from(slotmap::KeyData::from_ffi(k.ffi)))
}

/// The palettes that a palette arena holds, by the 64-bit form of their keys.
pub uninterp spec fn palette_slots(m: Arena<Palette>) -> Map<u64, Palette>;

/// How many slots a palette arena has made, freed ones and the reserved
/// slot 0 included; it never shrinks, and `insert` panics once it
/// reaches `u32::MAX` with no freed slot to reuse.
pub uninterp spec fn palette_slot_count(m: Arena<Palette>) -> nat;

/// `SlotMap::with_key`: an empty arena with only the reserved slot.
#[verifier::external_body]
pub(crate) fn palette_arena_new() -> (arena: Arena<Palette>)
    ensures
        palette_slots(arena).is_empty(),
        palette_slot_count(arena) == 1,
{
    Arena { slots: SlotMap::with_key() }
}

/// `SlotMap::insert`: stores `value` under a key that was not live, whose
/// 64-bit form is returned; at most one slot is made.
#[verifier::external_body]
pub(crate) fn palette_arena_insert(m: &mut Arena<Palette>, value: Palette) -> (k: PaletteKey)
    requires
        palette_slot_count(*old(m)) < u32::MAX,
    ensures
        !palette_slots(*old(m)).contains_key(k.ffi),
        is_slot_key(k.ffi),
        palette_slots(*final(m)) == palette_slots(*old(m)).insert(k.ffi, value),
        palette_slot_count(*old(m)) <= palette_slot_count(*final(m)) <= palette_slot_count(*old(m)) + 1,
{
    PaletteKey { ffi: slotmap::Key::data(&m.slots.insert(value)).as_ffi() }
}

/// `SlotMap::get` with the key that `KeyData::from_ffi` makes of `k`.
#[verifier::external_body]
pub(crate) fn palette_arena_get<'a>(m: &'a Arena<Palette>, k: PaletteKey) -> (r: Option<&'a Palette>)
    ensures
        r == (if palette_slots(*m).contains_key(slot_key(k.ffi)) {
            Some(&palette_slots(*m)[slot_key(k.ffi)])
        } else {
            None
        }),
{
    m.slots.get(DefaultKey::from(slotmap::KeyData::from_ffi(k.ffi)))
}

/// `SlotMap::get_mut` with the key that `KeyData::from_ffi` makes of `k`:
/// the arena afterwards holds what was written through the reference.
#[verifier::external_body]
pub(crate) fn palette_arena_get_mut<'a>(m: &'a mut Arena<Palette>, k: PaletteKey) -> (r: Option<&'a mut Palette>)
    ensures
        palette_slots(*old(m)).contains_key(slot_key(k.ffi)) ==> {
            &&& r.is_some()
            &&& *r.unwrap() == palette_slots(*old(m))[slot_key(k.ffi)]
            &&& palette_slots(*final(m)) == palette_slots(*old(m)).insert(slot_key(k.ffi), *final(r.unwrap()))
            &&& palette_slot_count(*final(m)) == palette_slot_count(*old(m))
        },
        !palette_slots(*old(m)).contains_key(slot_key(k.ffi)) ==> r.is_none() && *final(m) == *old(m),
{
    m.slots.get_mut(DefaultKey::from(slotmap::KeyData::from_ffi(k.ffi)))
}


// ---------------------------------------------------------------------------
// The asset manager
// ---------------------------------------------------------------------------

/// Glyphsets, palettes and the data they are built from.
pub struct AssetManager {
    pub glyphsets: Arena<Glyphset>,
    pub palettes: Arena<Palette>,
    pub global_registry: GlobalGlyphRegistry,
    /// Atlas descriptors by name.
    pub descriptors: StrMap<AtlasDescriptor>,
    pub tree: VirtualTree,
    /// Loaded sprite sheets by file path.
    pub pngs: StrMap<AtlasKey>,
    /// Loaded palettes by file path.
    pub palette_files: StrMap<PaletteKey>,
    /// How many glyphsets were ever stored (held at `u64::MAX` past it);
    /// with the reserved slot it bounds the glyphset arena's slot count.
    pub glyphsets_added: u64,
}

impl AssetManager {
    pub open spec fn glyphset_map(&self) -> Map<u64, Glyphset> {
        glyphset_slots(self.glyphsets)
    }

    pub open spec fn palette_map(&self) -> Map<u64, Palette> {
        palette_slots(self.palettes)
    }

    /// Every stored glyphset and palette, the registry, the descriptors,
    /// the tree and both caches are well formed.
    pub open spec fn wf(&self) -> bool {
        &&& forall|k: u64| #[trigger] self.glyphset_map().contains_key(k) ==> self.glyphset_map()[k].wf() && is_slot_key(k)
        &&& forall|k: u64| #[trigger] self.palette_map().contains_key(k) ==> self.palette_map()[k].wf() && is_slot_key(k)
        &&& self.global_registry.wf()
        &&& self.descriptors.wf()
        &&& forall|n: Seq<char>| #[trigger] self.descriptors@.contains_key(n) ==> self.descriptors@[n].nodes.wf()
        &&& self.tree.wf()
        &&& self.pngs.wf()
        &&& self.palette_files.wf()
        &&& glyphset_slot_count(self.glyphsets) <= self.glyphsets_added + 1
    }

    pub open spec fn can_add_glyphset(&self) -> bool {
        glyphset_slot_count(self.glyphsets) < u32::MAX
    }

    pub open spec fn can_add_palette(&self) -> bool {
        palette_slot_count(self.palettes) < u32::MAX
    }

    /// Nothing loaded.
    pub fn new() -> (m: AssetManager)
        ensures
            m.wf(),
            m.glyphset_map().is_empty(),
            m.palette_map().is_empty(),
            m.descriptors@.is_empty(),
            m.pngs@.is_empty(),
            m.palette_files@.is_empty(),
            glyphset_slot_count(m.glyphsets) == 1,
            palette_slot_count(m.palettes) == 1,
            m.global_registry.entry_seq().len() == 0,
            m.glyphsets_added == 0,
    {
        AssetManager {
            glyphsets: glyphset_arena_new(),
            palettes: palette_arena_new(),
            global_registry: GlobalGlyphRegistry::new(),
            descriptors: StrMap::new(),
            tree: VirtualTree::new(),
            pngs: StrMap::new(),
            palette_files: StrMap::new(),
            glyphsets_added: 0,
        }
    }

    /// Whether `n` more glyphsets can be stored: true exactly when the
    /// glyphsets stored so far, the reserved slot and `n` new slots stay
    /// under `u32::MAX`, and then the arena has room for them whatever
    /// slots it reuses.
    pub fn has_room_for_glyphsets(&self, n: usize) -> (b: bool)
        requires
            self.wf(),
        ensures
            b == (self.glyphsets_added + 1 + n < u32::MAX),
            b ==> glyphset_slot_count(self.glyphsets) + n < u32::MAX,
    {
        let limit: u64 = 0xFFFF_FFFE;
        if n as u64 >= limit {
            return false;
        }
        self.glyphsets_added < limit - n as u64
    }

    /// Counts one more stored glyphset; the count stops at `u64::MAX`.
    pub(crate) fn count_glyphset(&mut self)
        ensures
            *final(self) == (AssetManager { glyphsets_added: final(self).glyphsets_added, ..*old(self) }),
            final(self).glyphsets_added >= old(self).glyphsets_added,
            old(self).glyphsets_added < u64::MAX ==> final(self).glyphsets_added == old(self).glyphsets_added + 1,
    {
        if self.glyphsets_added < u64::MAX {
            self.glyphsets_added = self.glyphsets_added + 1;
        }
    }

    // -- palettes -----------------------------------------------------------

    /// Adds an empty palette named `name`.
    pub fn create_palette(&mut self, name: &str) -> (k: PaletteKey)
        requires
            old(self).wf(),
            old(self).can_add_palette(),
        ensures
            final(self).wf(),
            !old(self).palette_map().contains_key(k.ffi),
            final(self).palette_map().contains_key(k.ffi),
            final(self).palette_map()[k.ffi].name_seq() == name@,
            final(self).palette_map()[k.ffi].color_seq().len() == 0,
            final(self).palette_map() == old(self).palette_map().insert(k.ffi, final(self).palette_map()[k.ffi]),
            final(self).glyphset_map() == old(self).glyphset_map(),
    {
        let p = Palette::new(name);
        let k = palette_arena_insert(&mut self.palettes, p);
        assert(self.glyphset_map() == old(self).glyphset_map());
        assert forall|q: u64| #[trigger] self.palette_map().contains_key(q) implies self.palette_map()[q].wf() && is_slot_key(q) by {
            if q != k.ffi {
                assert(old(self).palette_map().contains_key(q));
            }
        }
        k
    }

    /// The palette loaded from `path` earlier, if any.
    pub fn cached_palette(&self, path: &str) -> (r: Option<PaletteKey>)
        requires
            self.wf(),
        ensures
            r == (if self.palette_files@.contains_key(path@) {
                Some(self.palette_files@[path@])
            } else {
                None
            }),
    {
        match self.palette_files.get(path) {
            Some(k) => Some(*k),
            None => None,
        }
    }

    /// Stores a palette read from `path` and remembers it under that path;
    /// a path read before gives back the palette stored then.
    pub fn store_palette(&mut self, path: &str, palette: Palette) -> (k: PaletteKey)
        requires
            old(self).wf(),
            old(self).can_add_palette(),
            palette.wf(),
        ensures
            final(self).wf(),
            old(self).palette_files@.contains_key(path@) ==> k == old(self).palette_files@[path@]
                && *final(self) == *old(self),
            !old(self).palette_files@.contains_key(path@) ==> {
                &&& !old(self).palette_map().contains_key(k.ffi)
                &&& final(self).palette_map() == old(self).palette_map().insert(k.ffi, palette)
                &&& final(self).palette_files@ == old(self).palette_files@.insert(path@, k)
            },
            final(self).glyphset_map() == old(self).glyphset_map(),
    {
        if let Some(k) = self.palette_files.get(path) {
            return *k;
        }
        let k = palette_arena_insert(&mut self.palettes, palette);
        self.palette_files.insert(crate::text::owned(path), k);
        assert(self.glyphset_map() == old(self).glyphset_map());
        assert forall|q: u64| #[trigger] self.palette_map().contains_key(q) implies self.palette_map()[q].wf() && is_slot_key(q) by {
            if q != k.ffi {
                assert(old(self).palette_map().contains_key(q));
            }
        }
        k
    }

    pub fn palette(&self, key: PaletteKey) -> (r: Option<&Palette>)
        ensures
            r == (if self.palette_map().contains_key(slot_key(key.ffi)) {
                Some(&self.palette_map()[slot_key(key.ffi)])
            } else {
                None
            }),
    {
        palette_arena_get(&self.palettes, key)
    }

    pub fn palette_mut(&mut self, key: PaletteKey) -> (r: Option<&mut Palette>)
        ensures
            old(self).palette_map().contains_key(slot_key(key.ffi)) ==> {
                &&& r.is_some()
                &&& *r.unwrap() == old(self).palette_map()[slot_key(key.ffi)]
                &&& final(self).palette_map() == old(self).palette_map().insert(slot_key(key.ffi), *final(r.unwrap()))
            },
            !old(self).palette_map().contains_key(slot_key(key.ffi)) ==> r.is_none() && final(self).palette_map() == old(self).palette_map(),
            final(self).glyphset_map() == old(self).glyphset_map(),
            final(self).descriptors == old(self).descriptors,
            final(self).tree == old(self).tree,
            final(self).pngs == old(self).pngs,
            final(self).global_registry == old(self).global_registry,
    {
        palette_arena_get_mut(&mut self.palettes, key)
    }

    /// The colour a reference stands for: a direct colour as it is, a
    /// palette entry where palette and entry exist, magenta otherwise.
    pub fn resolve_color(&self, color_ref: ColorRef) -> (c: Color)
        ensures
            c == match color_ref {
                ColorRef::Direct(d) => d,
                ColorRef::Indexed { palette, index } | ColorRef::Named { palette, index } => {
                    let k = slot_key(palette.ffi);
                    if self.palette_map().contains_key(k) && (index as int) < self.palette_map()[k].color_seq().len() {
                        let e = self.palette_map()[k].color_seq()[index as int];
                        Color { r: e.r, g: e.g, b: e.b, a: e.a }
                    } else {
                        Color { r: 255, g: 0, b: 255, a: 255 }
                    }
                },
            },
    {
        match color_ref {
            ColorRef::Direct(d) => d,
            ColorRef::Indexed { palette, index } | ColorRef::Named { palette, index } => {
                match palette_arena_get(&self.palettes, palette) {
                    Some(p) => match p.get(index as usize) {
                        Some(c) => c,
                        None => Color::magenta(),
                    },
                    None => Color::magenta(),
                }
            },
        }
    }

    // -- sprite sheets and descriptors ---------------------------------------

    /// Key of the sprite sheet loaded from `file_path`, if any.
    pub fn png_key(&self, file_path: &str) -> (r: Option<AtlasKey>)
        requires
            self.wf(),
        ensures
            r == (if self.pngs@.contains_key(file_path@) {
                Some(self.pngs@[file_path@])
            } else {
                None
            }),
    {
        match self.pngs.get(file_path) {
            Some(k) => Some(*k),
            None => None,
        }
    }

    /// Remembers the sheet loaded from `file_path` under `key`.
    pub fn register_png(&mut self, file_path: &str, key: AtlasKey)
        requires
            old(self).wf(),
        ensures
            final(self).wf(),
            final(self).pngs@ == old(self).pngs@.insert(file_path@, key),
            final(self).glyphset_map() == old(self).glyphset_map(),
            final(self).palette_map() == old(self).palette_map(),
            final(self).descriptors == old(self).descriptors,
            final(self).tree == old(self).tree,
            final(self).global_registry == old(self).global_registry,
    {
        self.pngs.insert(crate::text::owned(file_path), key);
        assert(self.glyphset_map() == old(self).glyphset_map());
        assert(self.palette_map() == old(self).palette_map());
    }

    /// Stores a descriptor under its name and returns the name.
    pub fn store_descriptor(&mut self, descriptor: AtlasDescriptor) -> (name: String)
        requires
            old(self).wf(),
            descriptor.nodes.wf(),
        ensures
            final(self).wf(),
            name@ == descriptor.name@,
            final(self).descriptors@ == old(self).descriptors@.insert(descriptor.name@, descriptor),
            final(self).glyphset_map() == old(self).glyphset_map(),
            final(self).palette_map() == old(self).palette_map(),
            final(self).pngs == old(self).pngs,
            final(self).tree == old(self).tree,
            final(self).global_registry == old(self).global_registry,
    {
        let name = descriptor.name.clone();
        let key = descriptor.name.clone();
        self.descriptors.insert(key, descriptor);
        assert(self.glyphset_map() == old(self).glyphset_map());
        assert(self.palette_map() == old(self).palette_map());
        name
    }

    // -- glyphsets ------------------------------------------------------------

    pub fn glyphset(&self, key: GlyphsetKey) -> (r: Option<&Glyphset>)
        ensures
            r == (if self.glyphset_map().contains_key(slot_key(key.ffi)) {
                Some(&self.glyphset_map()[slot_key(key.ffi)])
            } else {
                None
            }),
    {
        glyphset_arena_get(&self.glyphsets, key)
    }

    /// Tile width and height of a glyphset.
    pub fn glyphset_size(&self, key: GlyphsetKey) -> (r: Option<(u32, u32)>)
        ensures
            r == (if self.glyphset_map().contains_key(slot_key(key.ffi)) {
                Some((self.glyphset_map()[slot_key(key.ffi)].tile_w, self.glyphset_map()[slot_key(key.ffi)].tile_h))
            } else {
                None
            }),
    {
        match glyphset_arena_get(&self.glyphsets, key) {
            Some(g) => Some((g.tile_w, g.tile_h)),
            None => None,
        }
    }
}

} // verus!
