//! The buffers of the engine, kept in an arena and addressed by key.
//! Every operation on a key that does not designate a live buffer
//! leaves everything as it was.

use vstd::prelude::*;
use slotmap::{DefaultKey, SlotMap};
use crate::arena::{Arena, slot_key, is_slot_key};
use crate::keys::{BufferKey, GlyphsetKey};
use crate::buffer::{Buffer, AreaOp, SPACE_CODE, cell_index, set_cell, same_frame, area_op, resized_cells};
use crate::types::{Blend, Character, Mask, Transform, blank_char};
use crate::asset_manager::AssetManager;

verus! {

/// The buffers that a buffer arena holds, by the 64-bit form of their keys.
pub uninterp spec fn buffer_slots(m: Arena<Buffer>) -> Map<u64, Buffer>;

/// How many slots a buffer arena has made, freed ones and the reserved
/// slot 0 included; it never shrinks, and `insert` panics once it
/// reaches `u32::MAX` with no freed slot to reuse.
pub uninterp spec fn buffer_slot_count(m: Arena<Buffer>) -> nat;

/// `SlotMap::with_key`: an empty arena with only the reserved slot.
#[verifier::external_body]
fn buffer_arena_new() -> (arena: Arena<Buffer>)
    ensures
        buffer_slots(arena).is_empty(),
        buffer_slot_count(arena) == 1,
{
    Arena { slots: SlotMap::with_key() }
}

/// `SlotMap::insert`: stores `value` under a key that was not live, whose
/// 64-bit form is returned; at most one slot is made.
#[verifier::external_body]
fn buffer_arena_insert(m: &mut Arena<Buffer>, value: Buffer) -> (k: BufferKey)
    requires
        buffer_slot_count(*old(m)) < u32::MAX,
    ensures
        !buffer_slots(*old(m)).contains_key(k.ffi),
        is_slot_key(k.ffi),
        buffer_slots(*final(m)) == buffer_slots(*old(m)).insert(k.ffi, value),
        buffer_slot_count(*old(m)) <= buffer_slot_count(*final(m)) <= buffer_slot_count(*old(m)) + 1,
{
    BufferKey { ffi: slotmap::Key::data(&m.slots.insert(value)).as_ffi() }
}

/// `SlotMap::get` with the key that `KeyData::from_ffi` makes of `k`.
#[verifier::external_body]
fn buffer_arena_get<'a>(m: &'a Arena<Buffer>, k: BufferKey) -> (r: Option<&'a Buffer>)
    ensures
        r == (if buffer_slots(*m).contains_key(slot_key(k.ffi)) {
            Some(&buffer_slots(*m)[slot_key(k.ffi)])
        } else {
            None
        }),
{
    m.slots.get(DefaultKey::from(slotmap::KeyData::from_ffi(k.ffi)))
}

/// `SlotMap::get_mut` with the key that `KeyData::from_ffi` makes of `k`:
/// the arena afterwards holds what was written through the reference.
#[verifier::external_body]
fn buffer_arena_get_mut<'a>(m: &'a mut Arena<Buffer>, k: BufferKey) -> (r: Option<&'a mut Buffer>)
    ensures
        buffer_slots(*old(m)).contains_key(slot_key(k.ffi)) ==> {
            &&& r.is_some()
            &&& *r.unwrap() == buffer_slots(*old(m))[slot_key(k.ffi)]
            &&& buffer_slots(*final(m)) == buffer_slots(*old(m)).insert(slot_key(k.ffi), *final(r.unwrap()))
            &&& buffer_slot_count(*final(m)) == buffer_slot_count(*old(m))
        },
        !buffer_slots(*old(m)).contains_key(slot_key(k.ffi)) ==> r.is_none() && *final(m) == *old(m),
{
    m.slots.get_mut(DefaultKey::from(slotmap::KeyData::from_ffi(k.ffi)))
}

/// `SlotMap::remove` with the key that `KeyData::from_ffi` makes of `k`:
/// the value leaves the arena and is returned; its slot stays made.
#[verifier::external_body]
fn buffer_arena_remove(m: &mut Arena<Buffer>, k: BufferKey) -> (r: Option<Buffer>)
    ensures
        buffer_slots(*old(m)).contains_key(slot_key(k.ffi)) ==> {
            &&& r == Some(buffer_slots(*old(m))[slot_key(k.ffi)])
            &&& buffer_slots(*final(m)) == buffer_slots(*old(m)).remove(slot_key(k.ffi))
            &&& buffer_slot_count(*final(m)) == buffer_slot_count(*old(m))
        },
        !buffer_slots(*old(m)).contains_key(slot_key(k.ffi)) ==> r.is_none() && *final(m) == *old(m),
{
    m.slots.remove(DefaultKey::from(slotmap::KeyData::from_ffi(k.ffi)))
}

// ---------------------------------------------------------------------------
// What each operation does to one buffer
// ---------------------------------------------------------------------------

/// `b` is `a` after writing `ch` at `(x, y)`.
pub open spec fn cell_set(a: Buffer, b: Buffer, x: u32, y: u32, ch: Character) -> bool {
    &&& b.wf()
    &&& (b.cells(), b.is_dirty()) == set_cell(a.cells(), a.is_dirty(), a.w, a.h, x, y, ch)
    &&& same_frame(a, b)
}

/// `b` is `a` with the cell at `(x, y)` replaced by `f` of it and marked
/// dirty; outside the grid nothing changes.
pub open spec fn cell_edited(a: Buffer, b: Buffer, x: u32, y: u32, f: spec_fn(Character) -> Character) -> bool {
    &&& b.wf()
    &&& same_frame(a, b)
    &&& x < a.w && y < a.h ==> {
        let i = cell_index(a.w, x, y);
        &&& b.cells() == a.cells().update(i, f(a.cells()[i]))
        &&& b.dirty
    }
    &&& !(x < a.w && y < a.h) ==> b == a
}

/// `b` is `a` with `op` applied to the cells of the rectangle
/// `x..x+w` by `y..y+h` that lie inside the grid; marked dirty.
pub open spec fn area_edited(a: Buffer, b: Buffer, x: u32, y: u32, w: u32, h: u32, op: AreaOp) -> bool {
    &&& b.wf()
    &&& same_frame(a, b)
    &&& b.dirty
    &&& b.cells().len() == a.cells().len()
    &&& forall|cx: u32, cy: u32|
        cx < a.w && cy < a.h ==> #[trigger] b.cells()[cell_index(a.w, cx, cy)] == if x <= cx < x + w && y <= cy < y
            + h {
            area_op(a.cells()[cell_index(a.w, cx, cy)], op)
        } else {
            a.cells()[cell_index(a.w, cx, cy)]
        }
}

/// `b` is `a` with every cell blank and marked dirty.
pub open spec fn cleared(a: Buffer, b: Buffer) -> bool {
    &&& b.wf()
    &&& b.cells() == Seq::new(a.cells().len(), |i: int| blank_char(SPACE_CODE))
    &&& b.is_dirty()
    &&& same_frame(a, b)
}

/// `b` is `a` resized to `nw` by `nh`: the common cells kept, new ones
/// blank, marked dirty.
pub open spec fn resized(a: Buffer, b: Buffer, nw: u32, nh: u32) -> bool {
    &&& b.wf()
    &&& b.w == nw && b.h == nh
    &&& b.dirty
    &&& b.name == a.name && b.z_index == a.z_index
    &&& b.visible == a.visible && b.dynamic == a.dynamic
    &&& b.default_variant_id == a.default_variant_id
    &&& b.glyphset == a.glyphset && b.palette == a.palette
    &&& forall|x: u32, y: u32|
        x < nw && y < nh ==> #[trigger] b.cells()[cell_index(nw, x, y)] == if x < a.w && y < a.h {
            a.cells()[cell_index(a.w, x, y)]
        } else {
            blank_char(SPACE_CODE)
        }
}

/// `b` is the map `a` with the buffer under `k`, if live, replaced by
/// one that `p` relates to it; unchanged when `k` is not live.
pub open spec fn buffer_updated(
    a: Map<u64, Buffer>,
    b: Map<u64, Buffer>,
    k: u64,
    p: spec_fn(Buffer, Buffer) -> bool,
) -> bool {
    if a.contains_key(k) {
        b == a.insert(k, b[k]) && p(a[k], b[k])
    } else {
        b == a
    }
}

/// Default variant that a variant name selects for a buffer drawn with
/// glyphset `gk`: the glyphset's id for the name, 0 where the glyphset
/// or the name is unknown or no name is given.
pub open spec fn variant_for(assets: AssetManager, gk: GlyphsetKey, variant: Option<Seq<char>>) -> u8 {
    match variant {
        None => 0,
        Some(v) => {
            let g = slot_key(gk.ffi);
            if assets.glyphset_map().contains_key(g) && assets.glyphset_map()[g].variant_names@.contains_key(v) {
                assets.glyphset_map()[g].variant_names@[v]
            } else {
                0
            }
        },
    }
}

// ---------------------------------------------------------------------------
// The manager
// ---------------------------------------------------------------------------

pub struct BufferManager {
    pub buffers: Arena<Buffer>,
}

impl BufferManager {
    pub open spec fn map(&self) -> Map<u64, Buffer> {
        buffer_slots(self.buffers)
    }

    /// Every buffer holds exactly its cells.
    pub open spec fn wf(&self) -> bool {
        forall|k: u64| #[trigger] self.map().contains_key(k) ==> self.map()[k].wf() && is_slot_key(k)
    }

    pub open spec fn can_grow(&self) -> bool {
        buffer_slot_count(self.buffers) < u32::MAX
    }

    pub open spec fn slot_count(&self) -> nat {
        buffer_slot_count(self.buffers)
    }

    pub fn new() -> (m: BufferManager)
        ensures
            m.wf(),
            m.map().is_empty(),
            m.slot_count() == 1,
    {
        BufferManager { buffers: buffer_arena_new() }
    }

    /// Adds a blank `w` by `h` buffer drawn with `glyphset`, z-index 0.
    pub fn create_buffer(&mut self, name: &str, w: u32, h: u32, glyphset: GlyphsetKey) -> (k: BufferKey)
        requires
            old(self).wf(),
            old(self).can_grow(),
            w as int * h as int <= u32::MAX,
        ensures
            final(self).wf(),
            !old(self).map().contains_key(k.ffi),
            final(self).map() == old(self).map().insert(k.ffi, final(self).map()[k.ffi]),
            fresh_buffer(final(self).map()[k.ffi], name@, w, h, glyphset, 0),
            is_slot_key(k.ffi),
            old(self).slot_count() <= final(self).slot_count() <= old(self).slot_count() + 1,
    {
        self.create_buffer_z(name, w, h, glyphset, 0)
    }

    /// Adds a blank `w` by `h` buffer drawn with `glyphset` at `z_index`.
    pub fn create_buffer_z(&mut self, name: &str, w: u32, h: u32, glyphset: GlyphsetKey, z_index: i32) -> (k: BufferKey)
        requires
            old(self).wf(),
            old(self).can_grow(),
            w as int * h as int <= u32::MAX,
        ensures
            final(self).wf(),
            !old(self).map().contains_key(k.ffi),
            final(self).map() == old(self).map().insert(k.ffi, final(self).map()[k.ffi]),
            fresh_buffer(final(self).map()[k.ffi], name@, w, h, glyphset, z_index),
            is_slot_key(k.ffi),
            old(self).slot_count() <= final(self).slot_count() <= old(self).slot_count() + 1,
    {
        let fill = Character::blank(SPACE_CODE);
        let buffer = Buffer::new(name, w, h, glyphset, z_index, fill);
        let k = buffer_arena_insert(&mut self.buffers, buffer);
        assert forall|q: u64| #[trigger] self.map().contains_key(q) implies self.map()[q].wf() && is_slot_key(q) by {
            if q != k.ffi {
                assert(old(self).map().contains_key(q));
            }
        }
        k
    }

    pub fn get(&self, key: BufferKey) -> (r: Option<&Buffer>)
        ensures
            r == (if self.map().contains_key(slot_key(key.ffi)) {
                Some(&self.map()[slot_key(key.ffi)])
            } else {
                None
            }),
    {
        buffer_arena_get(&self.buffers, key)
    }

    /// The buffer under `key`, to change in place; what is written
    /// through the reference is what the manager holds afterwards.
    pub fn get_mut(&mut self, key: BufferKey) -> (r: Option<&mut Buffer>)
        ensures
            old(self).map().contains_key(slot_key(key.ffi)) ==> {
                &&& r.is_some()
                &&& *r.unwrap() == old(self).map()[slot_key(key.ffi)]
                &&& final(self).map() == old(self).map().insert(slot_key(key.ffi), *final(r.unwrap()))
                &&& final(self).slot_count() == old(self).slot_count()
            },
            !old(self).map().contains_key(slot_key(key.ffi)) ==> r.is_none() && *final(self) == *old(self),
    {
        buffer_arena_get_mut(&mut self.buffers, key)
    }

    /// Takes the buffer under `key` out of the manager.
    pub fn remove_buffer(&mut self, key: BufferKey) -> (r: Option<Buffer>)
        requires
            old(self).wf(),
        ensures
            final(self).wf(),
            old(self).map().contains_key(slot_key(key.ffi)) ==> {
                &&& r == Some(old(self).map()[slot_key(key.ffi)])
                &&& final(self).map() == old(self).map().remove(slot_key(key.ffi))
            },
            !old(self).map().contains_key(slot_key(key.ffi)) ==> r.is_none() && final(self).map() == old(self).map(),
            final(self).slot_count() == old(self).slot_count(),
    {
        let r = buffer_arena_remove(&mut self.buffers, key);
        assert forall|q: u64| #[trigger] self.map().contains_key(q) implies self.map()[q].wf() && is_slot_key(q) by {
            assert(old(self).map().contains_key(q));
        }
        r
    }

    pub fn set_visible(&mut self, key: BufferKey, visible: bool)
        requires
            old(self).wf(),
        ensures
            final(self).wf(),
            final(self).slot_count() == old(self).slot_count(),
            buffer_updated(old(self).map(), final(self).map(), slot_key(key.ffi), |a: Buffer, b: Buffer| b == Buffer { visible, ..a }),
    {
        if let Some(buf) = buffer_arena_get_mut(&mut self.buffers, key) {
            buf.visible = visible;
        }
        proof {
            self.lemma_wf_after_update(old(self).map(), slot_key(key.ffi));
        }
    }

    /// Sets the default variant of a buffer from a variant name of its
    /// glyphset: the name's id, or 0 for an unknown name or none.
    pub fn set_buffer_variant(&mut self, assets: &AssetManager, key: BufferKey, variant: Option<&str>)
        requires
            old(self).wf(),
            variant.is_some() ==> old(self).map().contains_key(slot_key(key.ffi)),
            assets.wf(),
        ensures
            final(self).wf(),
            final(self).slot_count() == old(self).slot_count(),
            buffer_updated(
                old(self).map(),
                final(self).map(),
                slot_key(key.ffi),
                |a: Buffer, b: Buffer|
                    b == Buffer {
                        dirty: true,
                        default_variant_id: variant_for(*assets, a.glyphset, match variant {
                            Some(v) => Some(v@),
                            None => None,
                        }),
                        ..a
                    },
            ),
    {
        let variant_id: u8 = match variant {
            Some(v) => {
                let gs_key = match buffer_arena_get(&self.buffers, key) {
                    Some(b) => b.glyphset,
                    None => {
                        proof {
                            assert(false);
                        }
                        return;
                    },
                };
                match assets.glyphset(gs_key) {
                    Some(gs) => gs.variant_id_or_default(v),
                    None => 0,
                }
            },
            None => 0,
        };
        if let Some(buf) = buffer_arena_get_mut(&mut self.buffers, key) {
            buf.dirty = true;
            buf.default_variant_id = variant_id;
        }
        proof {
            self.lemma_wf_after_update(old(self).map(), slot_key(key.ffi));
        }
    }

    pub fn set_buffer_dynamic(&mut self, key: BufferKey, dynamic: bool)
        requires
            old(self).wf(),
        ensures
            final(self).wf(),
            final(self).slot_count() == old(self).slot_count(),
            buffer_updated(old(self).map(), final(self).map(), slot_key(key.ffi), |a: Buffer, b: Buffer| b == Buffer { dynamic, ..a }),
    {
        if let Some(buf) = buffer_arena_get_mut(&mut self.buffers, key) {
            buf.dynamic = dynamic;
        }
        proof {
            self.lemma_wf_after_update(old(self).map(), slot_key(key.ffi));
        }
    }

    pub fn set_buffer_z(&mut self, key: BufferKey, z_index: i32)
        requires
            old(self).wf(),
        ensures
            final(self).wf(),
            final(self).slot_count() == old(self).slot_count(),
            buffer_updated(old(self).map(), final(self).map(), slot_key(key.ffi), |a: Buffer, b: Buffer| b == Buffer { z_index, ..a }),
    {
        if let Some(buf) = buffer_arena_get_mut(&mut self.buffers, key) {
            buf.z_index = z_index;
        }
        proof {
            self.lemma_wf_after_update(old(self).map(), slot_key(key.ffi));
        }
    }

    /// Resizes a buffer, keeping the cells that both sizes share.
    pub fn resize_buffer(&mut self, buffer: BufferKey, new_w: u32, new_h: u32)
        requires
            old(self).wf(),
            old(self).map().contains_key(slot_key(buffer.ffi)) ==> new_w as int * new_h as int <= u32::MAX,
        ensures
            final(self).wf(),
            final(self).slot_count() == old(self).slot_count(),
            buffer_updated(old(self).map(), final(self).map(), slot_key(buffer.ffi), |a: Buffer, b: Buffer| resized(a, b, new_w, new_h)),
    {
        proof {
            if old(self).map().contains_key(slot_key(buffer.ffi)) {
                assert(old(self).map()[slot_key(buffer.ffi)].wf());
            }
        }
        if let Some(buf) = buffer_arena_get_mut(&mut self.buffers, buffer) {
            buf.resize(new_w, new_h);
        }
        proof {
            self.lemma_wf_after_update(old(self).map(), slot_key(buffer.ffi));
        }
    }

    /// Width and height of a buffer.
    pub fn buffer_size(&self, buffer: BufferKey) -> (r: Option<(u32, u32)>)
        ensures
            r == (if self.map().contains_key(slot_key(buffer.ffi)) {
                Some((self.map()[slot_key(buffer.ffi)].w, self.map()[slot_key(buffer.ffi)].h))
            } else {
                None
            }),
    {
        match buffer_arena_get(&self.buffers, buffer) {
            Some(b) => Some((b.w, b.h)),
            None => None,
        }
    }

    pub fn set_char(&mut self, buffer: BufferKey, x: u32, y: u32, ch: Character)
        requires
            old(self).wf(),
        ensures
            final(self).wf(),
            final(self).slot_count() == old(self).slot_count(),
            buffer_updated(old(self).map(), final(self).map(), slot_key(buffer.ffi), |a: Buffer, b: Buffer| cell_set(a, b, x, y, ch)),
    {
        proof {
            if old(self).map().contains_key(slot_key(buffer.ffi)) {
                assert(old(self).map()[slot_key(buffer.ffi)].wf());
            }
        }
        if let Some(buf) = buffer_arena_get_mut(&mut self.buffers, buffer) {
            buf.set(x, y, ch);
        }
        proof {
            self.lemma_wf_after_update(old(self).map(), slot_key(buffer.ffi));
        }
    }

    pub fn set_char_transform(&mut self, buffer: BufferKey, x: u32, y: u32, transform: Transform)
        requires
            old(self).wf(),
        ensures
            final(self).wf(),
            final(self).slot_count() == old(self).slot_count(),
            buffer_updated(
                old(self).map(),
                final(self).map(),
                slot_key(buffer.ffi),
                |a: Buffer, b: Buffer| cell_edited(a, b, x, y, |c: Character| Character { transform, ..c }),
            ),
    {
        proof {
            if old(self).map().contains_key(slot_key(buffer.ffi)) {
                assert(old(self).map()[slot_key(buffer.ffi)].wf());
            }
        }
        if let Some(buf) = buffer_arena_get_mut(&mut self.buffers, buffer) {
            buf.set_char_transform(x, y, transform);
        }
        proof {
            self.lemma_wf_after_update(old(self).map(), slot_key(buffer.ffi));
        }
    }

    pub fn set_char_mask(&mut self, buffer: BufferKey, x: u32, y: u32, mask: Option<Mask>)
        requires
            old(self).wf(),
        ensures
            final(self).wf(),
            final(self).slot_count() == old(self).slot_count(),
            buffer_updated(
                old(self).map(),
                final(self).map(),
                slot_key(buffer.ffi),
                |a: Buffer, b: Buffer| cell_edited(a, b, x, y, |c: Character| Character { mask, ..c }),
            ),
    {
        proof {
            if old(self).map().contains_key(slot_key(buffer.ffi)) {
                assert(old(self).map()[slot_key(buffer.ffi)].wf());
            }
        }
        if let Some(buf) = buffer_arena_get_mut(&mut self.buffers, buffer) {
            buf.set_char_mask(x, y, mask);
        }
        proof {
            self.lemma_wf_after_update(old(self).map(), slot_key(buffer.ffi));
        }
    }

    pub fn set_char_blend(&mut self, buffer: BufferKey, x: u32, y: u32, fg_blend: Blend, bg_blend: Blend)
        requires
            old(self).wf(),
        ensures
            final(self).wf(),
            final(self).slot_count() == old(self).slot_count(),
            buffer_updated(
                old(self).map(),
                final(self).map(),
                slot_key(buffer.ffi),
                |a: Buffer, b: Buffer| cell_edited(a, b, x, y, |c: Character| Character { fg_blend, bg_blend, ..c }),
            ),
    {
        proof {
            if old(self).map().contains_key(slot_key(buffer.ffi)) {
                assert(old(self).map()[slot_key(buffer.ffi)].wf());
            }
        }
        if let Some(buf) = buffer_arena_get_mut(&mut self.buffers, buffer) {
            buf.set_char_blend(x, y, fg_blend, bg_blend);
        }
        proof {
            self.lemma_wf_after_update(old(self).map(), slot_key(buffer.ffi));
        }
    }

    pub fn set_area_blend(&mut self, buffer: BufferKey, x: u32, y: u32, w: u32, h: u32, fg_blend: Blend, bg_blend: Blend)
        requires
            old(self).wf(),
            old(self).map().contains_key(slot_key(buffer.ffi)) ==> x + w <= u32::MAX && y + h <= u32::MAX,
        ensures
            final(self).wf(),
            final(self).slot_count() == old(self).slot_count(),
            buffer_updated(
                old(self).map(),
                final(self).map(),
                slot_key(buffer.ffi),
                |a: Buffer, b: Buffer| area_edited(a, b, x, y, w, h, AreaOp::Blend(fg_blend, bg_blend)),
            ),
    {
        proof {
            if old(self).map().contains_key(slot_key(buffer.ffi)) {
                assert(old(self).map()[slot_key(buffer.ffi)].wf());
            }
        }
        if let Some(buf) = buffer_arena_get_mut(&mut self.buffers, buffer) {
            buf.set_area_blend(x, y, w, h, fg_blend, bg_blend);
        }
        proof {
            self.lemma_wf_after_update(old(self).map(), slot_key(buffer.ffi));
        }
    }

    pub fn set_area_mask(&mut self, buffer: BufferKey, x: u32, y: u32, w: u32, h: u32, mask: Option<Mask>)
        requires
            old(self).wf(),
            old(self).map().contains_key(slot_key(buffer.ffi)) ==> x + w <= u32::MAX && y + h <= u32::MAX,
        ensures
            final(self).wf(),
            final(self).slot_count() == old(self).slot_count(),
            buffer_updated(
                old(self).map(),
                final(self).map(),
                slot_key(buffer.ffi),
                |a: Buffer, b: Buffer| area_edited(a, b, x, y, w, h, AreaOp::Mask(mask)),
            ),
    {
        proof {
            if old(self).map().contains_key(slot_key(buffer.ffi)) {
                assert(old(self).map()[slot_key(buffer.ffi)].wf());
            }
        }
        if let Some(buf) = buffer_arena_get_mut(&mut self.buffers, buffer) {
            buf.set_area_mask(x, y, w, h, mask);
        }
        proof {
            self.lemma_wf_after_update(old(self).map(), slot_key(buffer.ffi));
        }
    }

    pub fn set_area_transform(&mut self, buffer: BufferKey, x: u32, y: u32, w: u32, h: u32, transform: Transform)
        requires
            old(self).wf(),
            old(self).map().contains_key(slot_key(buffer.ffi)) ==> x + w <= u32::MAX && y + h <= u32::MAX,
        ensures
            final(self).wf(),
            final(self).slot_count() == old(self).slot_count(),
            buffer_updated(
                old(self).map(),
                final(self).map(),
                slot_key(buffer.ffi),
                |a: Buffer, b: Buffer| area_edited(a, b, x, y, w, h, AreaOp::Transform(transform)),
            ),
    {
        proof {
            if old(self).map().contains_key(slot_key(buffer.ffi)) {
                assert(old(self).map()[slot_key(buffer.ffi)].wf());
            }
        }
        if let Some(buf) = buffer_arena_get_mut(&mut self.buffers, buffer) {
            buf.set_area_transform(x, y, w, h, transform);
        }
        proof {
            self.lemma_wf_after_update(old(self).map(), slot_key(buffer.ffi));
        }
    }

    /// Blanks every cell of a buffer.
    pub fn clear_buffer(&mut self, buffer: BufferKey)
        requires
            old(self).wf(),
        ensures
            final(self).wf(),
            final(self).slot_count() == old(self).slot_count(),
            buffer_updated(old(self).map(), final(self).map(), slot_key(buffer.ffi), |a: Buffer, b: Buffer| cleared(a, b)),
    {
        proof {
            if old(self).map().contains_key(slot_key(buffer.ffi)) {
                assert(old(self).map()[slot_key(buffer.ffi)].wf());
            }
        }
        if let Some(buf) = buffer_arena_get_mut(&mut self.buffers, buffer) {
            buf.clear(Character::blank(SPACE_CODE));
        }
        proof {
            self.lemma_wf_after_update(old(self).map(), slot_key(buffer.ffi));
        }
    }

    /// The manager stays well formed when one live buffer is replaced by
    /// a well-formed one.
    proof fn lemma_wf_after_update(&self, before: Map<u64, Buffer>, k: u64)
        requires
            forall|q: u64| #[trigger] before.contains_key(q) ==> before[q].wf() && is_slot_key(q),
            before.contains_key(k) ==> self.map() == before.insert(k, self.map()[k]) && self.map()[k].wf(),
            !before.contains_key(k) ==> self.map() == before,
        ensures
            self.wf(),
    {
        assert forall|q: u64| #[trigger] self.map().contains_key(q) implies self.map()[q].wf() && is_slot_key(q) by {
            assert(before.contains_key(q));
        }
    }
}

/// A buffer as `create_buffer_z` makes it: blank cells, dirty, visible,
/// static, default variant 0, no palette.
pub open spec fn fresh_buffer(b: Buffer, name: Seq<char>, w: u32, h: u32, glyphset: GlyphsetKey, z_index: i32) -> bool {
    &&& b.wf()
    &&& b.name@ == name
    &&& b.w == w && b.h == h && b.z_index == z_index
    &&& b.visible && !b.dynamic && b.default_variant_id == 0
    &&& b.cells() == Seq::new((w * h) as nat, |i: int| blank_char(SPACE_CODE))
    &&& b.is_dirty()
    &&& b.glyphset == glyphset
    &&& b.palette is None
}


// ---------------------------------------------------------------------------
// Building buffers
// ---------------------------------------------------------------------------

/// Collects the settings of a buffer, then adds it.
pub struct BufferBuilder<'a> {
    pub manager: &'a mut BufferManager,
    pub name: String,
    pub w: u32,
    pub h: u32,
    pub glyphset: GlyphsetKey,
    pub z_index: i32,
    pub dynamic: bool,
    pub visible: bool,
}

impl BufferManager {
    /// Starts building a `w` by `h` buffer drawn with `glyphset`.
    pub fn buffer(&mut self, name: &str, w: u32, h: u32, glyphset: GlyphsetKey) -> (b: BufferBuilder<'_>)
        ensures
            *b.manager == *old(self),
            *final(b.manager) == *final(self),
            b.name@ == name@,
            b.w == w && b.h == h && b.glyphset == glyphset,
            b.z_index == 0 && !b.dynamic && b.visible,
    {
        BufferBuilder::new(self, name, w, h, glyphset)
    }
}

impl<'a> BufferBuilder<'a> {
    /// Settings of a buffer at z 0, static and visible.
    pub fn new(manager: &'a mut BufferManager, name: &str, w: u32, h: u32, glyphset: GlyphsetKey) -> (b: BufferBuilder<'a>)
        ensures
            *b.manager == *old(manager),
            *final(b.manager) == *final(manager),
            b.name@ == name@,
            b.w == w && b.h == h && b.glyphset == glyphset,
            b.z_index == 0 && !b.dynamic && b.visible,
    {
        BufferBuilder {
            manager,
            name: crate::text::owned(name),
            w,
            h,
            glyphset,
            z_index: 0,
            dynamic: false,
            visible: true,
        }
    }

    pub fn z_index(self, z: i32) -> (b: Self)
        ensures
            *b.manager == *old(self.manager),
            *final(b.manager) == *final(self.manager),
            b.name == self.name && b.w == self.w && b.h == self.h && b.glyphset == self.glyphset,
            b.z_index == z && b.dynamic == self.dynamic && b.visible == self.visible,
    {
        let BufferBuilder { manager, name, w, h, glyphset, z_index: _, dynamic, visible } = self;
        BufferBuilder { manager, name, w, h, glyphset, z_index: z, dynamic, visible }
    }

    pub fn dynamic(self, dynamic: bool) -> (b: Self)
        ensures
            *b.manager == *old(self.manager),
            *final(b.manager) == *final(self.manager),
            b.name == self.name && b.w == self.w && b.h == self.h && b.glyphset == self.glyphset,
            b.z_index == self.z_index && b.dynamic == dynamic && b.visible == self.visible,
    {
        let BufferBuilder { manager, name, w, h, glyphset, z_index, dynamic: _, visible } = self;
        BufferBuilder { manager, name, w, h, glyphset, z_index, dynamic, visible }
    }

    pub fn visible(self, visible: bool) -> (b: Self)
        ensures
            *b.manager == *old(self.manager),
            *final(b.manager) == *final(self.manager),
            b.name == self.name && b.w == self.w && b.h == self.h && b.glyphset == self.glyphset,
            b.z_index == self.z_index && b.dynamic == self.dynamic && b.visible == visible,
    {
        let BufferBuilder { manager, name, w, h, glyphset, z_index, dynamic, visible: _ } = self;
        BufferBuilder { manager, name, w, h, glyphset, z_index, dynamic, visible }
    }

    /// Adds the buffer and returns its key.
    pub fn build(self) -> (k: BufferKey)
        requires
            old(self.manager).wf(),
            old(self.manager).can_grow(),
            self.w as int * self.h as int <= u32::MAX,
        ensures
            final(self.manager).wf(),
            !old(self.manager).map().contains_key(k.ffi),
            is_slot_key(k.ffi),
            old(self.manager).slot_count() <= final(self.manager).slot_count() <= old(self.manager).slot_count() + 1,
            final(self.manager).map() == old(self.manager).map().insert(k.ffi, final(self.manager).map()[k.ffi]),
            ({
                let b = final(self.manager).map()[k.ffi];
                &&& b.wf()
                &&& b.name@ == self.name@
                &&& b.w == self.w && b.h == self.h && b.z_index == self.z_index
                &&& b.visible == self.visible && b.dynamic == self.dynamic && b.default_variant_id == 0
                &&& b.cells() == Seq::new((self.w * self.h) as nat, |i: int| blank_char(SPACE_CODE))
                &&& b.is_dirty()
                &&& b.glyphset == self.glyphset
                &&& b.palette is None
            }),
    {
        let BufferBuilder { manager, name, w, h, glyphset, z_index, dynamic, visible } = self;
        let key = manager.create_buffer_z(name.as_str(), w, h, glyphset, z_index);
        manager.set_buffer_dynamic(key, dynamic);
        manager.set_visible(key, visible);
        key
    }
}

} // verus!
