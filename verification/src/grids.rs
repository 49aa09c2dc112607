//! `Grids`: buffers, assets, the post-process shader and the links that
//! attach child buffers to cells of parent buffers.

use vstd::prelude::*;
use crate::arena::slot_key;
use crate::keys::{BufferKey, GlyphsetKey, PaletteKey, ShaderKey};
use crate::buffer::{Buffer, AreaOp};
use crate::buffer_manager::{
    BufferManager, BufferBuilder, buffer_updated, cell_set, cell_edited, area_edited, cleared, resized, variant_for,
    fresh_buffer,
};
use crate::asset_manager::AssetManager;
use crate::palette::Palette;
use crate::types::{Blend, Character, Color, ColorRef, Mask, Transform};

verus! {

/// A child buffer attached to cell `(x, y)` of a parent buffer.
#[derive(Debug, Clone, Copy, PartialEq, Eq, Structural)]
pub struct Attachment {
    pub parent: BufferKey,
    pub child: BufferKey,
    pub x: u32,
    pub y: u32,
    pub z_index: i32,
}

/// A child whose cell lies outside its parent after a resize.
#[derive(Debug, Clone, Copy)]
pub struct OrphanedChild {
    pub position: (u32, u32),
    pub buffer: BufferKey,
}

/// How many levels of attached children `clear_tree` descends.
pub const MAX_BUFFER_DEPTH: u8 = 8u8;

// ---------------------------------------------------------------------------
// Attachment lists
// ---------------------------------------------------------------------------

pub open spec fn atts_sorted(s: Seq<Attachment>) -> bool {
    forall|i: int, j: int| 0 <= i <= j < s.len() ==> #[trigger] s[i].z_index <= #[trigger] s[j].z_index
}

/// `a` placed after every link of z at most its own (what a stable sort
/// by z does to a sorted list with `a` pushed at its end).
pub open spec fn insert_att(s: Seq<Attachment>, a: Attachment) -> Seq<Attachment>
    decreases s.len(),
{
    if s.len() == 0 {
        seq![a]
    } else if s.last().z_index <= a.z_index {
        s.push(a)
    } else {
        insert_att(s.drop_last(), a).push(s.last())
    }
}

/// The link matches a parent, and optionally a cell and a child.
pub open spec fn att_matches(a: Attachment, parent: BufferKey, pos: Option<(u32, u32)>, child: Option<BufferKey>) -> bool {
    &&& a.parent == parent
    &&& match pos {
        Some(p) => a.x == p.0 && a.y == p.1,
        None => true,
    }
    &&& match child {
        Some(c) => a.child == c,
        None => true,
    }
}

pub open spec fn keeps(parent: BufferKey, pos: Option<(u32, u32)>, child: Option<BufferKey>) -> spec_fn(Attachment) -> bool {
    |a: Attachment| !att_matches(a, parent, pos, child)
}

pub open spec fn selects(parent: BufferKey, pos: Option<(u32, u32)>, child: Option<BufferKey>) -> spec_fn(Attachment) -> bool {
    |a: Attachment| att_matches(a, parent, pos, child)
}

/// Links of `parent` whose cell lies outside `w` by `h`, as orphans, in
/// list order.
pub open spec fn orphans_of(s: Seq<Attachment>, parent: BufferKey, w: u32, h: u32) -> Seq<OrphanedChild> {
    s.filter(outside(parent, w, h)).map_values(|a: Attachment| orphan(a))
}

/// The link belongs to `parent` and its cell lies outside `w` by `h`.
pub open spec fn outside(parent: BufferKey, w: u32, h: u32) -> spec_fn(Attachment) -> bool {
    |a: Attachment| a.parent == parent && (a.x >= w || a.y >= h)
}

pub open spec fn orphan(a: Attachment) -> OrphanedChild {
    OrphanedChild { position: (a.x, a.y), buffer: a.child }
}

proof fn lemma_insert_att_at(s: Seq<Attachment>, a: Attachment, j: int)
    requires
        0 <= j <= s.len(),
        forall|t: int| j <= t < s.len() ==> #[trigger] s[t].z_index > a.z_index,
        j > 0 ==> s[j - 1].z_index <= a.z_index,
    ensures
        insert_att(s, a) == s.insert(j, a),
    decreases s.len(),
{
    if s.len() == 0 {
        assert(s.insert(j, a) =~= seq![a]);
    } else if j == s.len() {
        assert(s.insert(j, a) =~= s.push(a));
    } else {
        let d = s.drop_last();
        lemma_insert_att_at(d, a, j);
        assert(s.insert(j, a) =~= d.insert(j, a).push(s.last()));
    }
}

/// Links stay ordered by z when one is inserted by z, and the one link
/// is added.
pub proof fn lemma_insert_att_sorted(s: Seq<Attachment>, a: Attachment)
    requires
        atts_sorted(s),
    ensures
        atts_sorted(insert_att(s, a)),
        insert_att(s, a).to_multiset() == s.to_multiset().insert(a),
    decreases s.len(),
{
    broadcast use vstd::multiset::group_multiset_axioms;
    broadcast use vstd::seq_lib::group_to_multiset_ensures;
    if s.len() == 0 {
        assert(seq![a] =~= Seq::<Attachment>::empty().push(a));
    } else if s.last().z_index <= a.z_index {
    } else {
        let d = s.drop_last();
        assert(atts_sorted(d));
        lemma_insert_att_sorted(d, a);
        let t = insert_att(d, a);
        assert(s =~= d.push(s.last()));
        assert forall|i: int, j: int| 0 <= i <= j < t.push(s.last()).len() implies
            #[trigger] t.push(s.last())[i].z_index <= #[trigger] t.push(s.last())[j].z_index by {
            if j == t.len() && i < t.len() {
                assert(t.to_multiset().count(t[i]) > 0);
                assert(t[i] == a || d.to_multiset().count(t[i]) > 0);
                if t[i] != a {
                    let w = choose|w: int| 0 <= w < d.len() && d[w] == t[i];
                    assert(d[w] == s[w]);
                }
            }
        }
    }
}

fn att_matches_exec(a: &Attachment, parent: BufferKey, pos: Option<(u32, u32)>, child: Option<BufferKey>) -> (b: bool)
    ensures
        b == att_matches(*a, parent, pos, child),
{
    if a.parent != parent {
        return false;
    }
    let pos_ok = match pos {
        Some(p) => a.x == p.0 && a.y == p.1,
        None => true,
    };
    let child_ok = match child {
        Some(c) => a.child == c,
        None => true,
    };
    pos_ok && child_ok
}

/// The links that do not match.
fn without_matches(v: &Vec<Attachment>, parent: BufferKey, pos: Option<(u32, u32)>, child: Option<BufferKey>) -> (r: Vec<
    Attachment,
>)
    ensures
        r@ == v@.filter(keeps(parent, pos, child)),
{
    let mut r: Vec<Attachment> = Vec::new();
    let n = v.len();
    let mut i: usize = 0;
    while i < n
        invariant
            n == v@.len(),
            i <= n,
            r@ == v@.take(i as int).filter(keeps(parent, pos, child)),
        decreases n - i,
    {
        let a = v[i];
        proof {
            assert(v@.take(i + 1) =~= v@.take(i as int).push(a));
            v@.take(i as int).lemma_filter_push(a, keeps(parent, pos, child));
        }
        if !att_matches_exec(&a, parent, pos, child) {
            r.push(a);
        }
        i += 1;
    }
    assert(v@.take(n as int) =~= v@);
    r
}

/// The links that match, in order.
fn only_matches(v: &Vec<Attachment>, parent: BufferKey, pos: Option<(u32, u32)>, child: Option<BufferKey>) -> (r: Vec<
    Attachment,
>)
    ensures
        r@ == v@.filter(selects(parent, pos, child)),
{
    let mut r: Vec<Attachment> = Vec::new();
    let n = v.len();
    let mut i: usize = 0;
    while i < n
        invariant
            n == v@.len(),
            i <= n,
            r@ == v@.take(i as int).filter(selects(parent, pos, child)),
        decreases n - i,
    {
        let a = v[i];
        proof {
            assert(v@.take(i + 1) =~= v@.take(i as int).push(a));
            v@.take(i as int).lemma_filter_push(a, selects(parent, pos, child));
        }
        if att_matches_exec(&a, parent, pos, child) {
            r.push(a);
        }
        i += 1;
    }
    assert(v@.take(n as int) =~= v@);
    r
}

/// Index of the first link that matches, if any.
pub open spec fn first_match(s: Seq<Attachment>, parent: BufferKey, child: BufferKey) -> Option<int> {
    if exists|i: int| 0 <= i < s.len() && att_matches(s[i], parent, None, Some(child)) {
        Some(
            choose|i: int|
                0 <= i < s.len() && att_matches(s[i], parent, None, Some(child)) && forall|t: int|
                    0 <= t < i ==> !att_matches(#[trigger] s[t], parent, None, Some(child)),
        )
    } else {
        None
    }
}

fn find_first(v: &Vec<Attachment>, parent: BufferKey, child: BufferKey) -> (r: Option<usize>)
    ensures
        match r {
            Some(i) => i < v@.len() && att_matches(v@[i as int], parent, None, Some(child)) && forall|t: int|
                0 <= t < i ==> !att_matches(#[trigger] v@[t], parent, None, Some(child)),
            None => forall|t: int| 0 <= t < v@.len() ==> !att_matches(#[trigger] v@[t], parent, None, Some(child)),
        },
        r == match first_match(v@, parent, child) {
            Some(i) => Some(i as usize),
            None => None::<usize>,
        },
{
    let n = v.len();
    let mut i: usize = 0;
    while i < n
        invariant
            n == v@.len(),
            i <= n,
            forall|t: int| 0 <= t < i ==> !att_matches(#[trigger] v@[t], parent, None, Some(child)),
        decreases n - i,
    {
        if att_matches_exec(&v[i], parent, None, Some(child)) {
            proof {
                let s = v@;
                let j = choose|j: int|
                    0 <= j < s.len() && att_matches(s[j], parent, None, Some(child)) && forall|t: int|
                        0 <= t < j ==> !att_matches(#[trigger] s[t], parent, None, Some(child));
                if j < i {
                } else if j > i {
                    assert(!att_matches(s[i as int], parent, None, Some(child)));
                }
            }
            return Some(i);
        }
        i += 1;
    }
    None
}


// ---------------------------------------------------------------------------
// Grids
// ---------------------------------------------------------------------------

pub struct Grids {
    pub buffers: BufferManager,
    pub assets: AssetManager,
    pub post_process_shader: Option<ShaderKey>,
    /// Parent-child links, ordered by z-index.
    pub attachments: Vec<Attachment>,
}

/// Everything but the buffers is as it was.
pub open spec fn keeps_rest(a: Grids, b: Grids) -> bool {
    &&& b.assets == a.assets
    &&& b.post_process_shader == a.post_process_shader
    &&& b.attachments == a.attachments
}

/// Everything but the links is as it was.
pub open spec fn keeps_all_but_links(a: Grids, b: Grids) -> bool {
    &&& b.assets == a.assets
    &&& b.post_process_shader == a.post_process_shader
    &&& b.buffers == a.buffers
}

/// Cell of a buffer under a screen point: the point relative to the
/// buffer's top-left pixel, divided (toward zero) by the tile size of the
/// buffer's glyphset; `None` left of or above the buffer, past its
/// size, or where the buffer or glyphset does not exist.
pub open spec fn cell_under(
    buffers: Map<u64, Buffer>,
    glyphsets: Map<u64, crate::glyphset::Glyphset>,
    buffer: BufferKey,
    sx: int,
    sy: int,
    bx: int,
    by: int,
) -> Option<(u32, u32)> {
    let bk = slot_key(buffer.ffi);
    if !buffers.contains_key(bk) {
        None
    } else {
        let b = buffers[bk];
        let gk = slot_key(b.glyphset.ffi);
        if !glyphsets.contains_key(gk) {
            None
        } else {
            let tw = (glyphsets[gk].tile_w as i32) as int;
            let th = (glyphsets[gk].tile_h as i32) as int;
            let lx = sx - bx;
            let ly = sy - by;
            if lx < 0 || ly < 0 {
                None
            } else {
                let cx = (toward_zero_div(lx, tw) as i32) as u32;
                let cy = (toward_zero_div(ly, th) as i32) as u32;
                if cx < b.w && cy < b.h {
                    Some((cx, cy))
                } else {
                    None
                }
            }
        }
    }
}

/// `a / t` rounded toward zero, for `a >= 0` and `t != 0`.
pub open spec fn toward_zero_div(a: int, t: int) -> int {
    if t > 0 {
        a / t
    } else {
        -(a / (-t))
    }
}

/// `screen_to_cell` neither overflows nor divides by zero.
pub open spec fn cell_query_ok(
    buffers: Map<u64, Buffer>,
    glyphsets: Map<u64, crate::glyphset::Glyphset>,
    buffer: BufferKey,
    sx: i32,
    sy: i32,
    bx: i32,
    by: i32,
) -> bool {
    let bk = slot_key(buffer.ffi);
    buffers.contains_key(bk) && glyphsets.contains_key(slot_key(buffers[bk].glyphset.ffi)) ==> {
        let g = glyphsets[slot_key(buffers[bk].glyphset.ffi)];
        &&& i32::MIN <= sx - bx <= i32::MAX
        &&& i32::MIN <= sy - by <= i32::MAX
        &&& (sx - bx >= 0 && sy - by >= 0) ==> (g.tile_w as i32) != 0 && (g.tile_h as i32) != 0
    }
}

fn div_toward_zero(a: i32, t: i32) -> (q: i32)
    requires
        a >= 0,
        t != 0,
    ensures
        q == toward_zero_div(a as int, t as int),
{
    let a64: i64 = a as i64;
    let t64: i64 = t as i64;
    if t64 > 0 {
        (a64 / t64) as i32
    } else {
        let n: i64 = -t64;
        let q: i64 = a64 / n;
        (-q) as i32
    }
}

impl Grids {
    pub open spec fn wf(&self) -> bool {
        &&& self.buffers.wf()
        &&& self.assets.wf()
        &&& atts_sorted(self.attachments@)
    }

    pub fn new() -> (g: Grids)
        ensures
            g.wf(),
            g.buffers.map().is_empty(),
            g.buffers.slot_count() == 1,
            g.assets.glyphset_map().is_empty(),
            g.assets.palette_map().is_empty(),
            g.post_process_shader.is_none(),
            g.attachments@.len() == 0,
    {
        Grids { buffers: BufferManager::new(), assets: AssetManager::new(), post_process_shader: None, attachments: Vec::new() }
    }

    pub fn set_post_process(&mut self, shader: ShaderKey)
        ensures
            *final(self) == (Grids { post_process_shader: Some(shader), ..*old(self) }),
    {
        self.post_process_shader = Some(shader);
    }

    pub fn clear_post_process(&mut self)
        ensures
            *final(self) == (Grids { post_process_shader: None, ..*old(self) }),
    {
        self.post_process_shader = None;
    }

    // -- buffers --------------------------------------------------------------

    pub fn create_buffer(&mut self, name: &str, w: u32, h: u32, glyphset: GlyphsetKey) -> (k: BufferKey)
        requires
            old(self).wf(),
            old(self).buffers.can_grow(),
            w as int * h as int <= u32::MAX,
        ensures
            final(self).wf(),
            keeps_rest(*old(self), *final(self)),
            !old(self).buffers.map().contains_key(k.ffi),
            final(self).buffers.map() == old(self).buffers.map().insert(k.ffi, final(self).buffers.map()[k.ffi]),
            fresh_buffer(final(self).buffers.map()[k.ffi], name@, w, h, glyphset, 0),
            old(self).buffers.slot_count() <= final(self).buffers.slot_count() <= old(self).buffers.slot_count() + 1,
    {
        self.buffers.create_buffer(name, w, h, glyphset)
    }

    pub fn create_buffer_z(&mut self, name: &str, w: u32, h: u32, glyphset: GlyphsetKey, z_index: i32) -> (k: BufferKey)
        requires
            old(self).wf(),
            old(self).buffers.can_grow(),
            w as int * h as int <= u32::MAX,
        ensures
            final(self).wf(),
            keeps_rest(*old(self), *final(self)),
            !old(self).buffers.map().contains_key(k.ffi),
            final(self).buffers.map() == old(self).buffers.map().insert(k.ffi, final(self).buffers.map()[k.ffi]),
            fresh_buffer(final(self).buffers.map()[k.ffi], name@, w, h, glyphset, z_index),
            old(self).buffers.slot_count() <= final(self).buffers.slot_count() <= old(self).buffers.slot_count() + 1,
    {
        self.buffers.create_buffer_z(name, w, h, glyphset, z_index)
    }

    /// Starts building a buffer.
    pub fn buffer(&mut self, name: &str, w: u32, h: u32, glyphset: GlyphsetKey) -> (b: BufferBuilder<'_>)
        ensures
            *b.manager == old(self).buffers,
            *final(self) == (Grids { buffers: *final(b.manager), ..*old(self) }),
            b.name@ == name@,
            b.w == w && b.h == h && b.glyphset == glyphset,
            b.z_index == 0 && !b.dynamic && b.visible,
    {
        self.buffers.buffer(name, w, h, glyphset)
    }

    pub fn get(&self, key: BufferKey) -> (r: Option<&Buffer>)
        ensures
            r == (if self.buffers.map().contains_key(slot_key(key.ffi)) {
                Some(&self.buffers.map()[slot_key(key.ffi)])
            } else {
                None
            }),
    {
        self.buffers.get(key)
    }

    pub fn get_mut(&mut self, key: BufferKey) -> (r: Option<&mut Buffer>)
        ensures
            keeps_rest(*old(self), *final(self)),
            old(self).buffers.map().contains_key(slot_key(key.ffi)) ==> {
                &&& r.is_some()
                &&& *r.unwrap() == old(self).buffers.map()[slot_key(key.ffi)]
                &&& final(self).buffers.map() == old(self).buffers.map().insert(slot_key(key.ffi), *final(r.unwrap()))
            },
            !old(self).buffers.map().contains_key(slot_key(key.ffi)) ==> r.is_none() && *final(self) == *old(self),
    {
        self.buffers.get_mut(key)
    }

    /// Takes a buffer out; its links stay.
    pub fn remove_buffer(&mut self, key: BufferKey) -> (r: Option<Buffer>)
        requires
            old(self).wf(),
        ensures
            final(self).wf(),
            keeps_rest(*old(self), *final(self)),
            old(self).buffers.map().contains_key(slot_key(key.ffi)) ==> {
                &&& r == Some(old(self).buffers.map()[slot_key(key.ffi)])
                &&& final(self).buffers.map() == old(self).buffers.map().remove(slot_key(key.ffi))
            },
            !old(self).buffers.map().contains_key(slot_key(key.ffi)) ==> r.is_none() && final(self).buffers.map()
                == old(self).buffers.map(),
            final(self).buffers.slot_count() == old(self).buffers.slot_count(),
    {
        self.buffers.remove_buffer(key)
    }

    pub fn set_visible(&mut self, key: BufferKey, visible: bool)
        requires
            old(self).wf(),
        ensures
            final(self).wf(),
            keeps_rest(*old(self), *final(self)),
            final(self).buffers.slot_count() == old(self).buffers.slot_count(),
            buffer_updated(old(self).buffers.map(), final(self).buffers.map(), slot_key(key.ffi), |a: Buffer, b: Buffer| b == Buffer { visible, ..a }),
    {
        self.buffers.set_visible(key, visible);
    }

    pub fn set_buffer_dynamic(&mut self, key: BufferKey, dynamic: bool)
        requires
            old(self).wf(),
        ensures
            final(self).wf(),
            keeps_rest(*old(self), *final(self)),
            final(self).buffers.slot_count() == old(self).buffers.slot_count(),
            buffer_updated(old(self).buffers.map(), final(self).buffers.map(), slot_key(key.ffi), |a: Buffer, b: Buffer| b == Buffer { dynamic, ..a }),
    {
        self.buffers.set_buffer_dynamic(key, dynamic);
    }

    pub fn set_buffer_z(&mut self, key: BufferKey, z_index: i32)
        requires
            old(self).wf(),
        ensures
            final(self).wf(),
            keeps_rest(*old(self), *final(self)),
            final(self).buffers.slot_count() == old(self).buffers.slot_count(),
            buffer_updated(old(self).buffers.map(), final(self).buffers.map(), slot_key(key.ffi), |a: Buffer, b: Buffer| b == Buffer { z_index, ..a }),
    {
        self.buffers.set_buffer_z(key, z_index);
    }

    pub fn set_char(&mut self, buffer: BufferKey, x: u32, y: u32, ch: Character)
        requires
            old(self).wf(),
        ensures
            final(self).wf(),
            keeps_rest(*old(self), *final(self)),
            final(self).buffers.slot_count() == old(self).buffers.slot_count(),
            buffer_updated(old(self).buffers.map(), final(self).buffers.map(), slot_key(buffer.ffi), |a: Buffer, b: Buffer| cell_set(a, b, x, y, ch)),
    {
        self.buffers.set_char(buffer, x, y, ch);
    }

    pub fn set_char_transform(&mut self, buffer: BufferKey, x: u32, y: u32, transform: Transform)
        requires
            old(self).wf(),
        ensures
            final(self).wf(),
            keeps_rest(*old(self), *final(self)),
            final(self).buffers.slot_count() == old(self).buffers.slot_count(),
            buffer_updated(old(self).buffers.map(), final(self).buffers.map(), slot_key(buffer.ffi), |a: Buffer, b: Buffer| cell_edited(a, b, x, y, |c: Character| Character { transform, ..c })),
    {
        self.buffers.set_char_transform(buffer, x, y, transform);
    }

    pub fn set_char_mask(&mut self, buffer: BufferKey, x: u32, y: u32, mask: Option<Mask>)
        requires
            old(self).wf(),
        ensures
            final(self).wf(),
            keeps_rest(*old(self), *final(self)),
            final(self).buffers.slot_count() == old(self).buffers.slot_count(),
            buffer_updated(old(self).buffers.map(), final(self).buffers.map(), slot_key(buffer.ffi), |a: Buffer, b: Buffer| cell_edited(a, b, x, y, |c: Character| Character { mask, ..c })),
    {
        self.buffers.set_char_mask(buffer, x, y, mask);
    }

    pub fn set_char_blend(&mut self, buffer: BufferKey, x: u32, y: u32, fg_blend: Blend, bg_blend: Blend)
        requires
            old(self).wf(),
        ensures
            final(self).wf(),
            keeps_rest(*old(self), *final(self)),
            final(self).buffers.slot_count() == old(self).buffers.slot_count(),
            buffer_updated(old(self).buffers.map(), final(self).buffers.map(), slot_key(buffer.ffi), |a: Buffer, b: Buffer| cell_edited(a, b, x, y, |c: Character| Character { fg_blend, bg_blend, ..c })),
    {
        self.buffers.set_char_blend(buffer, x, y, fg_blend, bg_blend);
    }

    pub fn set_area_blend(&mut self, buffer: BufferKey, x: u32, y: u32, w: u32, h: u32, fg_blend: Blend, bg_blend: Blend)
        requires
            old(self).wf(),
            old(self).buffers.map().contains_key(slot_key(buffer.ffi)) ==> x + w <= u32::MAX && y + h <= u32::MAX,
        ensures
            final(self).wf(),
            keeps_rest(*old(self), *final(self)),
            final(self).buffers.slot_count() == old(self).buffers.slot_count(),
            buffer_updated(old(self).buffers.map(), final(self).buffers.map(), slot_key(buffer.ffi), |a: Buffer, b: Buffer| area_edited(a, b, x, y, w, h, AreaOp::Blend(fg_blend, bg_blend))),
    {
        self.buffers.set_area_blend(buffer, x, y, w, h, fg_blend, bg_blend);
    }

    pub fn set_area_mask(&mut self, buffer: BufferKey, x: u32, y: u32, w: u32, h: u32, mask: Option<Mask>)
        requires
            old(self).wf(),
            old(self).buffers.map().contains_key(slot_key(buffer.ffi)) ==> x + w <= u32::MAX && y + h <= u32::MAX,
        ensures
            final(self).wf(),
            keeps_rest(*old(self), *final(self)),
            final(self).buffers.slot_count() == old(self).buffers.slot_count(),
            buffer_updated(old(self).buffers.map(), final(self).buffers.map(), slot_key(buffer.ffi), |a: Buffer, b: Buffer| area_edited(a, b, x, y, w, h, AreaOp::Mask(mask))),
    {
        self.buffers.set_area_mask(buffer, x, y, w, h, mask);
    }

    pub fn set_area_transform(&mut self, buffer: BufferKey, x: u32, y: u32, w: u32, h: u32, transform: Transform)
        requires
            old(self).wf(),
            old(self).buffers.map().contains_key(slot_key(buffer.ffi)) ==> x + w <= u32::MAX && y + h <= u32::MAX,
        ensures
            final(self).wf(),
            keeps_rest(*old(self), *final(self)),
            final(self).buffers.slot_count() == old(self).buffers.slot_count(),
            buffer_updated(old(self).buffers.map(), final(self).buffers.map(), slot_key(buffer.ffi), |a: Buffer, b: Buffer| area_edited(a, b, x, y, w, h, AreaOp::Transform(transform))),
    {
        self.buffers.set_area_transform(buffer, x, y, w, h, transform);
    }

    pub fn clear_buffer(&mut self, buffer: BufferKey)
        requires
            old(self).wf(),
        ensures
            final(self).wf(),
            keeps_rest(*old(self), *final(self)),
            final(self).buffers.slot_count() == old(self).buffers.slot_count(),
            buffer_updated(old(self).buffers.map(), final(self).buffers.map(), slot_key(buffer.ffi), |a: Buffer, b: Buffer| cleared(a, b)),
    {
        self.buffers.clear_buffer(buffer);
    }

    /// Sets the default variant of a buffer by a variant name of its
    /// glyphset (0 for an unknown name or none).
    pub fn set_buffer_variant(&mut self, key: BufferKey, variant: Option<&str>)
        requires
            old(self).wf(),
            variant.is_some() ==> old(self).buffers.map().contains_key(slot_key(key.ffi)),
        ensures
            final(self).wf(),
            keeps_rest(*old(self), *final(self)),
            final(self).buffers.slot_count() == old(self).buffers.slot_count(),
            buffer_updated(
                old(self).buffers.map(),
                final(self).buffers.map(),
                slot_key(key.ffi),
                |a: Buffer, b: Buffer|
                    b == Buffer {
                        dirty: true,
                        default_variant_id: variant_for(old(self).assets, a.glyphset, match variant {
                            Some(v) => Some(v@),
                            None => None,
                        }),
                        ..a
                    },
            ),
    {
        self.buffers.set_buffer_variant(&self.assets, key, variant);
    }

    /// Resizes a buffer, keeping the cells both sizes share, and returns
    /// the children of it whose cell now lies outside, in link order.
    pub fn resize_buffer(&mut self, buffer: BufferKey, new_w: u32, new_h: u32) -> (orphans: Vec<OrphanedChild>)
        requires
            old(self).wf(),
            old(self).buffers.map().contains_key(slot_key(buffer.ffi)) ==> new_w as int * new_h as int <= u32::MAX,
        ensures
            final(self).wf(),
            keeps_rest(*old(self), *final(self)),
            final(self).buffers.slot_count() == old(self).buffers.slot_count(),
            buffer_updated(old(self).buffers.map(), final(self).buffers.map(), slot_key(buffer.ffi), |a: Buffer, b: Buffer| resized(a, b, new_w, new_h)),
            orphans@ == orphans_of(old(self).attachments@, buffer, new_w, new_h),
    {
        self.buffers.resize_buffer(buffer, new_w, new_h);
        let ghost pred = outside(buffer, new_w, new_h);
        let mut orphans: Vec<OrphanedChild> = Vec::new();
        let n = self.attachments.len();
        let mut i: usize = 0;
        while i < n
            invariant
                n == self.attachments@.len(),
                i <= n,
                pred == outside(buffer, new_w, new_h),
                orphans@ == self.attachments@.take(i as int).filter(pred).map_values(|a: Attachment| orphan(a)),
            decreases n - i,
        {
            let a = self.attachments[i];
            let ghost t = self.attachments@.take(i as int);
            proof {
                assert(self.attachments@.take(i + 1) =~= t.push(a));
                t.lemma_filter_push(a, pred);
                assert(pred(a) == (a.parent == buffer && (a.x >= new_w || a.y >= new_h)));
            }
            if a.parent == buffer && (a.x >= new_w || a.y >= new_h) {
                orphans.push(OrphanedChild { position: (a.x, a.y), buffer: a.child });
                assert(t.push(a).filter(pred) == t.filter(pred).push(a));
                assert(orphans@ =~= t.filter(pred).push(a).map_values(|a: Attachment| orphan(a)));
            } else {
                assert(t.push(a).filter(pred) == t.filter(pred));
            }
            i += 1;
        }
        assert(self.attachments@.take(n as int) =~= self.attachments@);
        orphans
    }

    pub fn buffer_size(&self, buffer: BufferKey) -> (r: Option<(u32, u32)>)
        ensures
            r == (if self.buffers.map().contains_key(slot_key(buffer.ffi)) {
                Some((self.buffers.map()[slot_key(buffer.ffi)].w, self.buffers.map()[slot_key(buffer.ffi)].h))
            } else {
                None
            }),
    {
        self.buffers.buffer_size(buffer)
    }

    // -- links ----------------------------------------------------------------

    /// Attaches `child` to cell `pos` of `parent` at z 0.
    pub fn attach(&mut self, parent: BufferKey, pos: (u32, u32), child: BufferKey)
        requires
            old(self).wf(),
        ensures
            final(self).wf(),
            keeps_all_but_links(*old(self), *final(self)),
            final(self).attachments@ == attached(old(self).attachments@, Attachment { parent, child, x: pos.0, y: pos.1, z_index: 0 }),
    {
        self.attach_z(parent, pos, child, 0);
    }

    /// Attaches `child` to cell `pos` of `parent` at `z_index`, unless the
    /// same link exists; links stay ordered by z, equal z in link order.
    pub fn attach_z(&mut self, parent: BufferKey, pos: (u32, u32), child: BufferKey, z_index: i32)
        requires
            old(self).wf(),
        ensures
            final(self).wf(),
            keeps_all_but_links(*old(self), *final(self)),
            final(self).attachments@ == attached(old(self).attachments@, Attachment { parent, child, x: pos.0, y: pos.1, z_index }),
    {
        let ghost sel = selects(parent, Some(pos), Some(child));
        let n = self.attachments.len();
        let mut i: usize = 0;
        let mut exists = false;
        while i < n
            invariant
                n == self.attachments@.len(),
                i <= n,
                exists == exists|t: int| 0 <= t < i && att_matches(#[trigger] self.attachments@[t], parent, Some(pos), Some(child)),
            decreases n - i,
        {
            if att_matches_exec(&self.attachments[i], parent, Some(pos), Some(child)) {
                exists = true;
            }
            i += 1;
        }
        if !exists {
            let a = Attachment { parent, child, x: pos.0, y: pos.1, z_index };
            let mut j = self.attachments.len();
            while j > 0 && self.attachments[j - 1].z_index > z_index
                invariant
                    j <= self.attachments@.len(),
                    forall|t: int| j <= t < self.attachments@.len() ==> #[trigger] self.attachments@[t].z_index > z_index,
                decreases j,
            {
                j -= 1;
            }
            proof {
                lemma_insert_att_at(self.attachments@, a, j as int);
                lemma_insert_att_sorted(self.attachments@, a);
            }
            self.attachments.insert(j, a);
        }
    }

    /// Removes the link of `child` at cell `pos` of `parent`.
    pub fn detach(&mut self, parent: BufferKey, pos: (u32, u32), child: BufferKey)
        requires
            old(self).wf(),
        ensures
            final(self).wf(),
            keeps_all_but_links(*old(self), *final(self)),
            final(self).attachments@ == old(self).attachments@.filter(keeps(parent, Some(pos), Some(child))),
    {
        let kept = without_matches(&self.attachments, parent, Some(pos), Some(child));
        proof {
            lemma_filter_sorted(self.attachments@, keeps(parent, Some(pos), Some(child)));
        }
        self.attachments = kept;
    }

    /// Removes every link at cell `pos` of `parent`.
    pub fn detach_all_at(&mut self, parent: BufferKey, pos: (u32, u32))
        requires
            old(self).wf(),
        ensures
            final(self).wf(),
            keeps_all_but_links(*old(self), *final(self)),
            final(self).attachments@ == old(self).attachments@.filter(keeps(parent, Some(pos), None)),
    {
        let kept = without_matches(&self.attachments, parent, Some(pos), None);
        proof {
            lemma_filter_sorted(self.attachments@, keeps(parent, Some(pos), None));
        }
        self.attachments = kept;
    }

    /// Removes every link of `parent`.
    pub fn detach_all_children(&mut self, parent: BufferKey)
        requires
            old(self).wf(),
        ensures
            final(self).wf(),
            keeps_all_but_links(*old(self), *final(self)),
            final(self).attachments@ == old(self).attachments@.filter(keeps(parent, None, None)),
    {
        let kept = without_matches(&self.attachments, parent, None, None);
        proof {
            lemma_filter_sorted(self.attachments@, keeps(parent, None, None));
        }
        self.attachments = kept;
    }

    /// Moves the first link of `child` under `parent` to cell `new_pos`.
    pub fn move_child(&mut self, parent: BufferKey, child: BufferKey, new_pos: (u32, u32))
        requires
            old(self).wf(),
        ensures
            final(self).wf(),
            keeps_all_but_links(*old(self), *final(self)),
            final(self).attachments@ == match first_match(old(self).attachments@, parent, child) {
                Some(i) => old(self).attachments@.update(
                    i,
                    Attachment { x: new_pos.0, y: new_pos.1, ..old(self).attachments@[i] },
                ),
                None => old(self).attachments@,
            },
    {
        if let Some(i) = find_first(&self.attachments, parent, child) {
            let a = self.attachments[i];
            self.attachments.set(i, Attachment { x: new_pos.0, y: new_pos.1, ..a });
            assert(atts_sorted(self.attachments@)) by {
                assert forall|p: int, q: int| 0 <= p <= q < self.attachments@.len() implies
                    #[trigger] self.attachments@[p].z_index <= #[trigger] self.attachments@[q].z_index by {
                    assert(old(self).attachments@[p].z_index <= old(self).attachments@[q].z_index);
                }
            }
        }
    }

    /// Children attached at cell `pos` of `parent`, in link order.
    pub fn children_at(&self, parent: BufferKey, pos: (u32, u32)) -> (r: Vec<BufferKey>)
        ensures
            r@ == self.attachments@.filter(selects(parent, Some(pos), None)).map_values(|a: Attachment| a.child),
    {
        let m = only_matches(&self.attachments, parent, Some(pos), None);
        let mut r: Vec<BufferKey> = Vec::new();
        let n = m.len();
        let mut i: usize = 0;
        while i < n
            invariant
                n == m@.len(),
                i <= n,
                r@ == m@.take(i as int).map_values(|a: Attachment| a.child),
            decreases n - i,
        {
            r.push(m[i].child);
            assert(r@ =~= m@.take(i + 1).map_values(|a: Attachment| a.child));
            i += 1;
        }
        assert(m@.take(n as int) =~= m@);
        r
    }

    /// Cells and children of every link of `parent`, in link order.
    pub fn all_children(&self, parent: BufferKey) -> (r: Vec<((u32, u32), BufferKey)>)
        ensures
            r@ == self.attachments@.filter(selects(parent, None, None)).map_values(
                |a: Attachment| ((a.x, a.y), a.child),
            ),
    {
        let m = only_matches(&self.attachments, parent, None, None);
        let mut r: Vec<((u32, u32), BufferKey)> = Vec::new();
        let n = m.len();
        let mut i: usize = 0;
        while i < n
            invariant
                n == m@.len(),
                i <= n,
                r@ == m@.take(i as int).map_values(|a: Attachment| ((a.x, a.y), a.child)),
            decreases n - i,
        {
            let a = m[i];
            r.push(((a.x, a.y), a.child));
            assert(r@ =~= m@.take(i + 1).map_values(|a: Attachment| ((a.x, a.y), a.child)));
            i += 1;
        }
        assert(m@.take(n as int) =~= m@);
        r
    }

    /// Cell of the first link of `child` under `parent`.
    pub fn find_child_position(&self, parent: BufferKey, child: BufferKey) -> (r: Option<(u32, u32)>)
        ensures
            r == match first_match(self.attachments@, parent, child) {
                Some(i) => Some((self.attachments@[i].x, self.attachments@[i].y)),
                None => None,
            },
    {
        match find_first(&self.attachments, parent, child) {
            Some(i) => Some((self.attachments[i].x, self.attachments[i].y)),
            None => None,
        }
    }

    // -- hit testing ------------------------------------------------------------

    /// The cell of `buffer`, whose top-left pixel is at
    /// `(buf_screen_x, buf_screen_y)`, under the screen point
    /// `(screen_x, screen_y)`.
    pub fn screen_to_cell(&self, buffer: BufferKey, screen_x: i32, screen_y: i32, buf_screen_x: i32, buf_screen_y: i32) -> (r:
        Option<(u32, u32)>)
        requires
            cell_query_ok(self.buffers.map(), self.assets.glyphset_map(), buffer, screen_x, screen_y, buf_screen_x, buf_screen_y),
        ensures
            r == cell_under(
                self.buffers.map(),
                self.assets.glyphset_map(),
                buffer,
                screen_x as int,
                screen_y as int,
                buf_screen_x as int,
                buf_screen_y as int,
            ),
    {
        let buf = match self.buffers.get(buffer) {
            Some(b) => b,
            None => return None,
        };
        let gs = match self.assets.glyphset(buf.glyphset) {
            Some(g) => g,
            None => return None,
        };
        let tile_w = gs.tile_w as i32;
        let tile_h = gs.tile_h as i32;
        let local_x = screen_x - buf_screen_x;
        let local_y = screen_y - buf_screen_y;
        if local_x < 0 || local_y < 0 {
            return None;
        }
        let cx = div_toward_zero(local_x, tile_w) as u32;
        let cy = div_toward_zero(local_y, tile_h) as u32;
        if cx < buf.w && cy < buf.h {
            Some((cx, cy))
        } else {
            None
        }
    }

    // -- assets -------------------------------------------------------------------

    pub fn create_palette(&mut self, name: &str) -> (k: PaletteKey)
        requires
            old(self).wf(),
            old(self).assets.can_add_palette(),
        ensures
            final(self).wf(),
            final(self).buffers == old(self).buffers,
            final(self).attachments == old(self).attachments,
            !old(self).assets.palette_map().contains_key(k.ffi),
            final(self).assets.palette_map().contains_key(k.ffi),
            final(self).assets.palette_map()[k.ffi].name_seq() == name@,
            final(self).assets.palette_map()[k.ffi].color_seq().len() == 0,
            final(self).assets.palette_map() == old(self).assets.palette_map().insert(k.ffi, final(self).assets.palette_map()[k.ffi]),
    {
        self.assets.create_palette(name)
    }

    pub fn palette(&self, key: PaletteKey) -> (r: Option<&Palette>)
        ensures
            r == (if self.assets.palette_map().contains_key(slot_key(key.ffi)) {
                Some(&self.assets.palette_map()[slot_key(key.ffi)])
            } else {
                None
            }),
    {
        self.assets.palette(key)
    }

    pub fn resolve_color(&self, color_ref: ColorRef) -> (c: Color)
        ensures
            c == match color_ref {
                ColorRef::Direct(d) => d,
                ColorRef::Indexed { palette, index } | ColorRef::Named { palette, index } => {
                    let k = slot_key(palette.ffi);
                    if self.assets.palette_map().contains_key(k) && (index as int) < self.assets.palette_map()[k].color_seq().len() {
                        let e = self.assets.palette_map()[k].color_seq()[index as int];
                        Color { r: e.r, g: e.g, b: e.b, a: e.a }
                    } else {
                        Color { r: 255, g: 0, b: 255, a: 255 }
                    }
                },
            },
    {
        self.assets.resolve_color(color_ref)
    }

    pub fn glyphset_size(&self, key: GlyphsetKey) -> (r: Option<(u32, u32)>)
        ensures
            r == (if self.assets.glyphset_map().contains_key(slot_key(key.ffi)) {
                Some(
                    (
                        self.assets.glyphset_map()[slot_key(key.ffi)].tile_w,
                        self.assets.glyphset_map()[slot_key(key.ffi)].tile_h,
                    ),
                )
            } else {
                None
            }),
    {
        self.assets.glyphset_size(key)
    }

    /// Code named `name` in a glyphset.
    pub fn resolve_code(&self, key: GlyphsetKey, name: &str) -> (r: Option<u32>)
        requires
            self.wf(),
        ensures
            r == (if self.assets.glyphset_map().contains_key(slot_key(key.ffi))
                && self.assets.glyphset_map()[slot_key(key.ffi)].named_codes@.contains_key(name@) {
                Some(self.assets.glyphset_map()[slot_key(key.ffi)].named_codes@[name@])
            } else {
                None
            }),
    {
        match self.assets.glyphset(key) {
            Some(g) => g.resolve_code(name),
            None => None,
        }
    }

    /// Codes of the group `group` in a glyphset.
    pub fn resolve_group(&self, key: GlyphsetKey, group: &str) -> (r: Option<&Vec<u32>>)
        requires
            self.wf(),
        ensures
            match r {
                Some(v) => self.assets.glyphset_map().contains_key(slot_key(key.ffi))
                    && self.assets.glyphset_map()[slot_key(key.ffi)].named_groups@.contains_key(group@)
                    && *v == self.assets.glyphset_map()[slot_key(key.ffi)].named_groups@[group@],
                None => !(self.assets.glyphset_map().contains_key(slot_key(key.ffi))
                    && self.assets.glyphset_map()[slot_key(key.ffi)].named_groups@.contains_key(group@)),
            },
    {
        match self.assets.glyphset(key) {
            Some(g) => g.resolve_group(group),
            None => None,
        }
    }
}

/// The links after `attach_z` of `a`: unchanged when the same link
/// exists, otherwise `a` inserted by z.
pub open spec fn attached(s: Seq<Attachment>, a: Attachment) -> Seq<Attachment> {
    if exists|t: int| 0 <= t < s.len() && att_matches(#[trigger] s[t], a.parent, Some((a.x, a.y)), Some(a.child)) {
        s
    } else {
        insert_att(s, a)
    }
}

proof fn lemma_filter_from(s: Seq<Attachment>, p: spec_fn(Attachment) -> bool, i: int)
    requires
        0 <= i < s.filter(p).len(),
    ensures
        exists|w: int| 0 <= w < s.len() && s[w] == s.filter(p)[i],
    decreases s.len(),
{
    reveal(Seq::filter);
    let d = s.drop_last();
    if i < d.filter(p).len() {
        lemma_filter_from(d, p, i);
        let w = choose|w: int| 0 <= w < d.len() && d[w] == d.filter(p)[i];
        assert(s[w] == d[w]);
    } else {
        assert(s[s.len() - 1] == s.filter(p)[i]);
    }
}

/// Filtering keeps links ordered by z.
proof fn lemma_filter_sorted(s: Seq<Attachment>, p: spec_fn(Attachment) -> bool)
    requires
        atts_sorted(s),
    ensures
        atts_sorted(s.filter(p)),
    decreases s.len(),
{
    broadcast use vstd::seq_lib::group_filter_ensures;
    reveal(Seq::filter);
    if s.len() > 0 {
        let d = s.drop_last();
        assert(atts_sorted(d));
        lemma_filter_sorted(d, p);
        if p(s.last()) {
            let f = d.filter(p);
            assert forall|i: int, j: int| 0 <= i <= j < f.push(s.last()).len() implies
                #[trigger] f.push(s.last())[i].z_index <= #[trigger] f.push(s.last())[j].z_index by {
                if j == f.len() && i < f.len() {
                    lemma_filter_from(d, p, i);
                    let w = choose|w: int| 0 <= w < d.len() && d[w] == f[i];
                    assert(d[w] == s[w]);
                }
            }
        }
    }
}


// ---------------------------------------------------------------------------
// Clearing a tree of buffers
// ---------------------------------------------------------------------------

/// The children linked to `parent`, in link order.
pub open spec fn child_list(atts: Seq<Attachment>, parent: BufferKey) -> Seq<BufferKey> {
    atts.filter(selects(parent, None, None)).map_values(|a: Attachment| a.child)
}

/// Keys of the buffers that `clear_tree` reaches from `b` within
/// `depth` levels of links.
pub open spec fn tree_keys(atts: Seq<Attachment>, b: BufferKey, depth: nat) -> Set<u64>
    decreases depth, 0nat,
{
    if depth == 0 {
        Set::empty()
    } else {
        Set::empty().insert(slot_key(b.ffi)).union(subtree_keys(atts, child_list(atts, b), (depth - 1) as nat))
    }
}

/// Keys reached from each of `cs` within `depth` levels.
pub open spec fn subtree_keys(atts: Seq<Attachment>, cs: Seq<BufferKey>, depth: nat) -> Set<u64>
    decreases depth, cs.len() + 1,
{
    if cs.len() == 0 {
        Set::empty()
    } else {
        subtree_keys(atts, cs.drop_last(), depth).union(tree_keys(atts, cs.last(), depth))
    }
}

/// `b` holds the buffers of `a`, those under the keys of `s` cleared.
pub open spec fn cleared_on(a: Map<u64, Buffer>, b: Map<u64, Buffer>, s: Set<u64>) -> bool {
    &&& b.dom() == a.dom()
    &&& forall|q: u64| #[trigger] a.contains_key(q) ==> if s.contains(q) {
        cleared(a[q], b[q])
    } else {
        b[q] == a[q]
    }
}

proof fn lemma_cleared_on_compose(m0: Map<u64, Buffer>, m1: Map<u64, Buffer>, m2: Map<u64, Buffer>, s1: Set<u64>, s2: Set<u64>)
    requires
        cleared_on(m0, m1, s1),
        cleared_on(m1, m2, s2),
    ensures
        cleared_on(m0, m2, s1.union(s2)),
{
    assert forall|q: u64| #[trigger] m0.contains_key(q) implies if s1.union(s2).contains(q) {
        cleared(m0[q], m2[q])
    } else {
        m2[q] == m0[q]
    } by {
        assert(m1.contains_key(q));
    }
}

impl Grids {
    /// Blanks `root` and, through the links, every buffer attached
    /// below it, down to `MAX_BUFFER_DEPTH` levels.
    pub fn clear_tree(&mut self, root: BufferKey)
        requires
            old(self).wf(),
        ensures
            final(self).wf(),
            keeps_rest(*old(self), *final(self)),
            final(self).buffers.slot_count() == old(self).buffers.slot_count(),
            cleared_on(
                old(self).buffers.map(),
                final(self).buffers.map(),
                tree_keys(old(self).attachments@, root, MAX_BUFFER_DEPTH as nat),
            ),
    {
        self.clear_tree_internal(root, MAX_BUFFER_DEPTH);
    }

    fn clear_tree_internal(&mut self, buffer: BufferKey, depth: u8)
        requires
            old(self).wf(),
        ensures
            final(self).wf(),
            keeps_rest(*old(self), *final(self)),
            final(self).buffers.slot_count() == old(self).buffers.slot_count(),
            cleared_on(old(self).buffers.map(), final(self).buffers.map(), tree_keys(old(self).attachments@, buffer, depth as nat)),
        decreases depth,
    {
        if depth == 0 {
            assert(cleared_on(old(self).buffers.map(), self.buffers.map(), Set::empty()));
            return;
        }
        let ghost atts = self.attachments@;
        let ghost m0 = self.buffers.map();
        self.clear_buffer(buffer);
        let ghost m1 = self.buffers.map();
        let ghost own = Set::<u64>::empty().insert(slot_key(buffer.ffi));
        proof {
            assert forall|q: u64| #[trigger] m0.contains_key(q) implies if own.contains(q) {
                cleared(m0[q], m1[q])
            } else {
                m1[q] == m0[q]
            } by {}
            assert(m1.dom() =~= m0.dom());
        }
        let matches = only_matches(&self.attachments, buffer, None, None);
        let mut children: Vec<BufferKey> = Vec::new();
        let mut c: usize = 0;
        while c < matches.len()
            invariant
                c <= matches@.len(),
                children@ == matches@.take(c as int).map_values(|a: Attachment| a.child),
            decreases matches@.len() - c,
        {
            children.push(matches[c].child);
            assert(children@ =~= matches@.take(c + 1).map_values(|a: Attachment| a.child));
            c += 1;
        }
        assert(matches@.take(matches@.len() as int) =~= matches@);
        assert(children@ == child_list(atts, buffer));
        let n = children.len();
        let mut i: usize = 0;
        while i < n
            invariant
                n == children@.len(),
                i <= n,
                children@ == child_list(atts, buffer),
                depth >= 1,
                self.wf(),
                self.attachments@ == atts,
                keeps_rest(*old(self), *self),
                self.buffers.slot_count() == old(self).buffers.slot_count(),
                cleared_on(m0, self.buffers.map(), own.union(subtree_keys(atts, children@.take(i as int), (depth - 1) as nat))),
            decreases n - i,
        {
            let ghost before = self.buffers.map();
            let child = children[i];
            self.clear_tree_internal(child, depth - 1);
            proof {
                let d = (depth - 1) as nat;
                assert(children@.take(i + 1).drop_last() =~= children@.take(i as int));
                assert(children@.take(i + 1).last() == child);
                lemma_cleared_on_compose(
                    m0,
                    before,
                    self.buffers.map(),
                    own.union(subtree_keys(atts, children@.take(i as int), d)),
                    tree_keys(atts, child, d),
                );
                assert(own.union(subtree_keys(atts, children@.take(i as int), d)).union(tree_keys(atts, child, d))
                    =~= own.union(subtree_keys(atts, children@.take(i + 1), d)));
            }
            i += 1;
        }
        assert(children@.take(n as int) =~= children@);
        assert(own.union(subtree_keys(atts, children@, (depth - 1) as nat)) =~= tree_keys(atts, buffer, depth as nat));
    }
}

} // verus!
