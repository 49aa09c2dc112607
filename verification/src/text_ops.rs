//! Writing text into the buffers of `Grids`.

use vstd::prelude::*;
use crate::arena::slot_key;
use crate::keys::BufferKey;
use crate::buffer::{Buffer, same_frame, write_text, pen_in_range};
use crate::buffer_manager::{buffer_updated, cell_set};
use crate::grids::{Grids, keeps_rest};
use crate::terminal::{print_cells, print_pen, print_fits};
use crate::text::str_chars;
use crate::types::{
    Blend, Character, Color, Mask, Transform, WriteDirection, full_char, plain_char, identity_transform,
    direction_rotation,
};

verus! {

/// The buffer after `write_string_full` with these arguments.
pub open spec fn written_full(
    a: Buffer,
    b: Buffer,
    x: u32,
    y: u32,
    text: Seq<char>,
    fcolor: Color,
    bcolor: Color,
    fg_blend: Blend,
    bg_blend: Blend,
    base_transform: Transform,
    mask: Option<Mask>,
    direction: WriteDirection,
    auto_rotate: bool,
) -> bool {
    &&& b.wf()
    &&& same_frame(a, b)
    &&& (b.cells(), b.dirty) == write_text(
        a.cells(),
        a.dirty,
        a.w,
        a.h,
        x,
        y,
        text,
        direction,
        full_char(
            0,
            a.default_variant_id,
            fcolor,
            bcolor,
            fg_blend,
            bg_blend,
            if auto_rotate {
                Transform { rotation: direction_rotation(direction), ..base_transform }
            } else {
                base_transform
            },
            mask,
        ),
    )
}

/// Variant id that `write_string_variant` uses for a buffer: the id of
/// `variant` in the buffer's glyphset, or 0.
pub open spec fn named_variant(g: Grids, b: Buffer, variant: Seq<char>) -> u8 {
    let gk = slot_key(b.glyphset.ffi);
    if g.assets.glyphset_map()[gk].variant_names@.contains_key(variant) {
        g.assets.glyphset_map()[gk].variant_names@[variant]
    } else {
        0
    }
}

impl Grids {
    /// Writes `text` rightwards from `(x, y)` in the buffer's default
    /// variant, alpha blending, no transform, no mask.
    pub fn write_string(&mut self, buffer: BufferKey, x: u32, y: u32, text: &str, fcolor: Color, bcolor: Color)
        requires
            old(self).wf(),
            old(self).buffers.map().contains_key(slot_key(buffer.ffi)) ==> pen_in_range(x, y, text@, WriteDirection::Right),
        ensures
            final(self).wf(),
            keeps_rest(*old(self), *final(self)),
            final(self).buffers.slot_count() == old(self).buffers.slot_count(),
            buffer_updated(
                old(self).buffers.map(),
                final(self).buffers.map(),
                slot_key(buffer.ffi),
                |a: Buffer, b: Buffer|
                    written_full(
                        a,
                        b,
                        x,
                        y,
                        text@,
                        fcolor,
                        bcolor,
                        Blend::Alpha,
                        Blend::Alpha,
                        identity_transform(),
                        None,
                        WriteDirection::Right,
                        false,
                    ),
            ),
    {
        self.write_string_full(
            buffer,
            x,
            y,
            text,
            fcolor,
            bcolor,
            Blend::Alpha,
            Blend::Alpha,
            Transform::new(),
            None,
            WriteDirection::Right,
            false,
        );
    }

    /// Writes `text` from `(x, y)` in `direction`, each character in the
    /// buffer's default variant with the given colours, blending, mask
    /// and transform (rotated to the direction when `auto_rotate`); a
    /// newline starts the next line back at the start column or row.
    pub fn write_string_full(
        &mut self,
        buffer: BufferKey,
        x: u32,
        y: u32,
        text: &str,
        fcolor: Color,
        bcolor: Color,
        fg_blend: Blend,
        bg_blend: Blend,
        base_transform: Transform,
        mask: Option<Mask>,
        direction: WriteDirection,
        auto_rotate: bool,
    )
        requires
            old(self).wf(),
            old(self).buffers.map().contains_key(slot_key(buffer.ffi)) ==> pen_in_range(x, y, text@, direction),
        ensures
            final(self).wf(),
            keeps_rest(*old(self), *final(self)),
            final(self).buffers.slot_count() == old(self).buffers.slot_count(),
            buffer_updated(
                old(self).buffers.map(),
                final(self).buffers.map(),
                slot_key(buffer.ffi),
                |a: Buffer, b: Buffer|
                    written_full(
                        a,
                        b,
                        x,
                        y,
                        text@,
                        fcolor,
                        bcolor,
                        fg_blend,
                        bg_blend,
                        base_transform,
                        mask,
                        direction,
                        auto_rotate,
                    ),
            ),
    {
        proof {
            if old(self).buffers.map().contains_key(slot_key(buffer.ffi)) {
                assert(old(self).buffers.map()[slot_key(buffer.ffi)].wf());
            }
        }
        if let Some(buf) = self.buffers.get_mut(buffer) {
            buf.write_string_full(x, y, text, fcolor, bcolor, fg_blend, bg_blend, base_transform, mask, direction, auto_rotate);
        }
        proof {
            assert forall|q: u64| #[trigger] self.buffers.map().contains_key(q) implies self.buffers.map()[q].wf()
                && crate::arena::is_slot_key(q) by {
                assert(old(self).buffers.map().contains_key(q));
            }
        }
    }

    /// Writes `text` rightwards from `(x, y)` in the variant named
    /// `variant` of the buffer's glyphset (0 when it has no such variant);
    /// nothing happens when the buffer or its glyphset does not exist.
    pub fn write_string_variant(&mut self, buffer: BufferKey, x: u32, y: u32, text: &str, fcolor: Color, bcolor: Color, variant: &str)
        requires
            old(self).wf(),
            print_fits(x, x, y, text@),
        ensures
            final(self).wf(),
            keeps_rest(*old(self), *final(self)),
            final(self).buffers.slot_count() == old(self).buffers.slot_count(),
            ({
                let bk = slot_key(buffer.ffi);
                let m0 = old(self).buffers.map();
                if m0.contains_key(bk) && old(self).assets.glyphset_map().contains_key(slot_key(m0[bk].glyphset.ffi)) {
                    buffer_updated(
                        m0,
                        final(self).buffers.map(),
                        bk,
                        |a: Buffer, b: Buffer|
                            b.wf() && same_frame(a, b) && (b.cells(), b.is_dirty()) == print_cells(
                                a.cells(),
                                a.is_dirty(),
                                a.w,
                                a.h,
                                x,
                                x,
                                y,
                                text@,
                                named_variant(*old(self), a, variant@),
                                fcolor,
                                bcolor,
                            ),
                    )
                } else {
                    final(self).buffers.map() == m0
                }
            }),
    {
        let glyphset_key = match self.buffers.get(buffer) {
            Some(b) => b.glyphset,
            None => return,
        };
        let variant_id = match self.assets.glyphset(glyphset_key) {
            Some(g) => {
                proof {
                    assert(self.assets.glyphset_map()[slot_key(glyphset_key.ffi)].wf());
                }
                g.variant_id_or_default(variant)
            },
            None => return,
        };
        proof {
            assert(self.buffers.map()[slot_key(buffer.ffi)].wf());
        }
        let chars = str_chars(text);
        let ghost bk = slot_key(buffer.ffi);
        let ghost m0 = self.buffers.map();
        match self.buffers.get_mut(buffer) {
            Some(buf) => {
                let ghost b0 = *buf;
                let mut cx: u32 = x;
                let mut cy: u32 = y;
                let n = chars.len();
                let mut i: usize = 0;
                while i < n
                    invariant
                        n == chars@.len(),
                        chars@ == text@,
                        i <= n,
                        print_fits(x, x, y, text@),
                        (cx as int, cy as int) == print_pen(x, x, y, chars@.take(i as int)),
                        buf.wf(),
                        same_frame(b0, *buf),
                        (buf.cells(), buf.is_dirty()) == print_cells(
                            b0.cells(),
                            b0.is_dirty(),
                            b0.w,
                            b0.h,
                            x,
                            x,
                            y,
                            chars@.take(i as int),
                            variant_id,
                            fcolor,
                            bcolor,
                        ),
                    decreases n - i,
                {
                    let c = chars[i];
                    proof {
                        let pre = chars@.take(i as int);
                        assert(chars@.take(i + 1).drop_last() =~= pre);
                        assert(chars@.take(i + 1).last() == c);
                        crate::terminal::lemma_print_fits_prefix(x, y, text@, i as int + 1);
                    }
                    if c == '\n' {
                        cy += 1;
                        cx = x;
                    } else {
                        let ch = Character::full(
                            c as u32,
                            variant_id,
                            fcolor,
                            bcolor,
                            Blend::Alpha,
                            Blend::Alpha,
                            Transform::new(),
                            None,
                        );
                        buf.set(cx, cy, ch);
                        cx += 1;
                    }
                    i += 1;
                }
                assert(chars@.take(n as int) =~= text@);
            },
            None => {},
        }
        proof {
            assert forall|q: u64| #[trigger] self.buffers.map().contains_key(q) implies self.buffers.map()[q].wf()
                && crate::arena::is_slot_key(q) by {
                assert(old(self).buffers.map().contains_key(q));
            }
        }
    }

    /// Puts the glyph named `icon_name` of the buffer's glyphset at
    /// `(x, y)`, in the buffer's default variant.
    pub fn put_icon(&mut self, buffer: BufferKey, x: u32, y: u32, icon_name: &str, fcolor: Color, bcolor: Color)
        requires
            old(self).wf(),
        ensures
            final(self).wf(),
            keeps_rest(*old(self), *final(self)),
            final(self).buffers.slot_count() == old(self).buffers.slot_count(),
            ({
                let bk = slot_key(buffer.ffi);
                let m0 = old(self).buffers.map();
                if m0.contains_key(bk) && old(self).assets.glyphset_map().contains_key(slot_key(m0[bk].glyphset.ffi))
                    && old(self).assets.glyphset_map()[slot_key(m0[bk].glyphset.ffi)].named_codes@.contains_key(icon_name@) {
                    let code = old(self).assets.glyphset_map()[slot_key(m0[bk].glyphset.ffi)].named_codes@[icon_name@];
                    buffer_updated(
                        m0,
                        final(self).buffers.map(),
                        bk,
                        |a: Buffer, b: Buffer| cell_set(a, b, x, y, plain_char(code, a.default_variant_id, fcolor, bcolor)),
                    )
                } else {
                    final(self).buffers.map() == m0
                }
            }),
    {
        let (glyphset_key, default_variant_id) = match self.buffers.get(buffer) {
            Some(b) => (b.glyphset, b.default_variant_id),
            None => return,
        };
        if let Some(code) = self.resolve_code(glyphset_key, icon_name) {
            self.buffers.set_char(buffer, x, y, Character::new(code, default_variant_id, fcolor, bcolor));
        }
    }
}

} // verus!
