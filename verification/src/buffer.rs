//! Cell buffers: a `w` x `h` grid of cells stored row by row, with a
//! dirty flag that is raised whenever a cell changes.

use vstd::prelude::*;
use crate::keys::{GlyphsetKey, PaletteKey};
use crate::palette::Palette;
use crate::text::{owned, str_chars};
use crate::types::{blank_char, direction_delta, direction_rotation, full_char, Blend, Character, Color, Mask, Transform, WriteDirection};

verus! {

broadcast use vstd::string::group_string_axioms;

/// Code of the space character, used to blank cells.
pub const SPACE_CODE: u32 = 32u32;

/// Position of cell `(x, y)` in row-major storage of width `w`.
pub open spec fn cell_index(w: u32, x: u32, y: u32) -> int {
    y as int * w as int + x as int
}

/// Effect of writing `ch` at `(x, y)`: cells outside the grid are
/// ignored; a write that changes a cell raises the dirty flag.
pub open spec fn set_cell(cells: Seq<Character>, dirty: bool, w: u32, h: u32, x: u32, y: u32, ch: Character) -> (Seq<Character>, bool) {
    if x < w && y < h {
        let i = cell_index(w, x, y);
        if cells[i] != ch {
            (cells.update(i, ch), true)
        } else {
            (cells, dirty)
        }
    } else {
        (cells, dirty)
    }
}

/// Pen position after the characters `cs` of a string started at
/// `(x, y)` and written in direction `d`; a newline returns the pen to the
/// start column (or row) and moves it one line across the direction.
pub open spec fn pen_after(x: u32, y: u32, cs: Seq<char>, d: WriteDirection) -> (int, int)
    decreases cs.len(),
{
    if cs.len() == 0 {
        (x as i32 as int, y as i32 as int)
    } else {
        let (cx, cy) = pen_after(x, y, cs.drop_last(), d);
        if cs.last() == '\n' {
            match d {
                WriteDirection::Right => (x as i32 as int, cy + 1),
                WriteDirection::Left => (x as i32 as int, cy - 1),
                WriteDirection::Down => (cx - 1, y as i32 as int),
                WriteDirection::Up => (cx + 1, y as i32 as int),
            }
        } else {
            (cx + direction_delta(d).0, cy + direction_delta(d).1)
        }
    }
}

/// Whether every pen position while writing `cs` fits in `i32`.
pub open spec fn pen_in_range(x: u32, y: u32, cs: Seq<char>, d: WriteDirection) -> bool {
    forall|k: int| #![trigger cs.take(k)]
        0 <= k <= cs.len() ==> i32::MIN <= pen_after(x, y, cs.take(k), d).0 <= i32::MAX
            && i32::MIN <= pen_after(x, y, cs.take(k), d).1 <= i32::MAX
}

/// Effect of writing the characters `cs` from `(x, y)` in direction `d`,
/// each as `proto` with its code replaced by the character's.
pub open spec fn write_text(
    cells: Seq<Character>,
    dirty: bool,
    w: u32,
    h: u32,
    x: u32,
    y: u32,
    cs: Seq<char>,
    d: WriteDirection,
    proto: Character,
) -> (Seq<Character>, bool)
    decreases cs.len(),
{
    if cs.len() == 0 {
        (cells, dirty)
    } else {
        let (c2, d2) = write_text(cells, dirty, w, h, x, y, cs.drop_last(), d, proto);
        if cs.last() == '\n' {
            (c2, d2)
        } else {
            let (px, py) = pen_after(x, y, cs.drop_last(), d);
            set_cell(c2, d2, w, h, px as i32 as u32, py as i32 as u32, Character { code: cs.last() as u32, ..proto })
        }
    }
}

/// The cells after resizing a `w` x `h` grid to `nw` x `nh`: the common
/// part is kept, new cells are blank.
pub open spec fn resized_cells(cells: Seq<Character>, w: u32, h: u32, nw: u32, nh: u32) -> Seq<Character> {
    Seq::new(
        (nw * nh) as nat,
        |i: int|
            {
                let x = i % nw as int;
                let y = i / nw as int;
                if x < w && y < h {
                    cells[y * w + x]
                } else {
                    blank_char(SPACE_CODE)
                }
            },
    )
}

pub struct Buffer {
    pub name: String,
    pub w: u32,
    pub h: u32,
    pub z_index: i32,
    pub visible: bool,
    pub dynamic: bool,
    pub default_variant_id: u8,
    pub data: Vec<Character>,
    pub glyphset: GlyphsetKey,
    pub palette: Option<PaletteKey>,
    pub dirty: bool,
}

impl Buffer {
    /// The cells, row by row.
    pub open spec fn cells(&self) -> Seq<Character> {
        self.data@
    }

    pub open spec fn is_dirty(&self) -> bool {
        self.dirty
    }

    pub open spec fn glyphset_key(&self) -> GlyphsetKey {
        self.glyphset
    }

    pub open spec fn palette_key(&self) -> Option<PaletteKey> {
        self.palette
    }

    /// The storage holds exactly `w * h` cells.
    pub open spec fn wf(&self) -> bool {
        &&& self.data@.len() == self.w as int * self.h as int
        &&& self.w as int * self.h as int <= u32::MAX
    }

    /// The cell at `(x, y)`.
    pub open spec fn cell(&self, x: u32, y: u32) -> Character {
        self.cells()[cell_index(self.w, x, y)]
    }

    /// A `w` x `h` buffer filled with `fill`, dirty, visible, static.
    pub fn new(name: &str, w: u32, h: u32, glyphset: GlyphsetKey, z_index: i32, fill: Character) -> (b: Buffer)
        requires
            w as int * h as int <= u32::MAX,
        ensures
            b.wf(),
            b.name@ == name@,
            b.w == w && b.h == h && b.z_index == z_index,
            b.visible && !b.dynamic && b.default_variant_id == 0,
            b.cells() == Seq::new((w * h) as nat, |i: int| fill),
            b.is_dirty(),
            b.glyphset_key() == glyphset,
            b.palette_key() is None,
    {
        let size = (w * h) as usize;
        let mut data: Vec<Character> = Vec::new();
        while data.len() < size
            invariant
                data@.len() <= size,
                size == w * h,
                forall|i: int| 0 <= i < data@.len() ==> data@[i] == fill,
            decreases size - data@.len(),
        {
            data.push(fill);
        }
        let b = Buffer {
            name: owned(name),
            w,
            h,
            z_index,
            visible: true,
            dynamic: false,
            default_variant_id: 0,
            data,
            glyphset,
            palette: None,
            dirty: true,
        };
        assert(b.cells() =~= Seq::new((w * h) as nat, |i: int| fill));
        b
    }

    /// Storage position of `(x, y)`, if it lies inside the grid.
    pub fn index(&self, x: u32, y: u32) -> (r: Option<usize>)
        requires
            self.wf(),
        ensures
            match r {
                Some(i) => x < self.w && y < self.h && i == cell_index(self.w, x, y) && i < self.cells().len(),
                None => !(x < self.w && y < self.h),
            },
    {
        if x >= self.w || y >= self.h {
            return None;
        }
        let len = self.data.len();
        proof {
            lemma_cell_index_bound(self.w, self.h, x, y);
            assert(0 <= (y as int) * (self.w as int)) by (nonlinear_arith);
        }
        Some((y as usize) * (self.w as usize) + x as usize)
    }

    /// Writes a cell (cells outside the grid are ignored).
    pub fn set(&mut self, x: u32, y: u32, ch: Character)
        requires
            old(self).wf(),
        ensures
            final(self).wf(),
            (final(self).cells(), final(self).is_dirty()) == set_cell(
                old(self).cells(),
                old(self).is_dirty(),
                old(self).w,
                old(self).h,
                x,
                y,
                ch,
            ),
            same_frame(*old(self), *final(self)),
    {
        if let Some(i) = self.index(x, y) {
            if self.data[i] != ch {
                self.dirty = true;
                self.data.set(i, ch);
            }
        }
    }

    /// The cell at `(x, y)`, if inside the grid.
    pub fn get(&self, x: u32, y: u32) -> (r: Option<Character>)
        requires
            self.wf(),
        ensures
            r == if x < self.w && y < self.h {
                Some(self.cell(x, y))
            } else {
                None::<Character>
            },
    {
        match self.index(x, y) {
            Some(i) => Some(self.data[i]),
            None => None,
        }
    }

    /// A reference to the cell at `(x, y)`, if inside the grid.
    pub fn get_char_ref(&self, x: u32, y: u32) -> (r: Option<&Character>)
        requires
            self.wf(),
        ensures
            match r {
                Some(c) => x < self.w && y < self.h && *c == self.cell(x, y),
                None => !(x < self.w && y < self.h),
            },
    {
        match self.index(x, y) {
            Some(i) => Some(&self.data[i]),
            None => None,
        }
    }

    /// Fills every cell with `fill` and marks the buffer dirty.
    pub fn clear(&mut self, fill: Character)
        requires
            old(self).wf(),
        ensures
            final(self).wf(),
            final(self).cells() == Seq::new(old(self).cells().len(), |i: int| fill),
            final(self).is_dirty(),
            same_frame(*old(self), *final(self)),
    {
        self.dirty = true;
        let n = self.data.len();
        let mut i: usize = 0;
        while i < n
            invariant
                i <= n,
                n == self.data@.len(),
                n == old(self).data@.len(),
                self.w == old(self).w && self.h == old(self).h,
                self.name == old(self).name && self.z_index == old(self).z_index,
                self.visible == old(self).visible && self.dynamic == old(self).dynamic,
                self.default_variant_id == old(self).default_variant_id,
                self.glyphset == old(self).glyphset && self.palette == old(self).palette,
                self.dirty,
                forall|k: int| 0 <= k < i ==> self.data@[k] == fill,
            decreases n - i,
        {
            self.data.set(i, fill);
            i += 1;
        }
        assert(self.data@ =~= Seq::new(old(self).cells().len(), |i: int| fill));
    }

    pub fn glyphset(&self) -> (k: GlyphsetKey)
        ensures
            k == self.glyphset_key(),
    {
        self.glyphset
    }

    /// Switches the glyphset and marks the buffer dirty.
    pub fn set_glyphset(&mut self, glyphset: GlyphsetKey)
        ensures
            final(self).glyphset_key() == glyphset,
            final(self).is_dirty(),
            final(self).cells() == old(self).cells(),
            final(self).w == old(self).w && final(self).h == old(self).h,
            final(self).palette_key() == old(self).palette_key(),
            old(self).wf() ==> final(self).wf(),
    {
        self.dirty = true;
        self.glyphset = glyphset;
    }

    pub fn palette(&self) -> (p: Option<PaletteKey>)
        ensures
            p == self.palette_key(),
    {
        self.palette
    }

    pub fn set_palette(&mut self, palette: Option<PaletteKey>)
        ensures
            final(self).palette_key() == palette,
            final(self).is_dirty() == old(self).is_dirty(),
            final(self).cells() == old(self).cells(),
            final(self).glyphset_key() == old(self).glyphset_key(),
            final(self).w == old(self).w && final(self).h == old(self).h,
            old(self).wf() ==> final(self).wf(),
    {
        self.palette = palette;
    }

    pub fn is_dirty_flag(&self) -> (d: bool)
        ensures
            d == self.is_dirty(),
    {
        self.dirty
    }

    /// Clears the dirty flag once the buffer has been redrawn.
    pub fn mark_clean(&mut self)
        ensures
            !final(self).is_dirty(),
            final(self).cells() == old(self).cells(),
            same_frame(*old(self), *final(self)),
            old(self).wf() ==> final(self).wf(),
    {
        self.dirty = false;
    }

    /// Sets the transform of the cell at `(x, y)`, if inside the grid.
    pub fn set_char_transform(&mut self, x: u32, y: u32, transform: Transform)
        requires
            old(self).wf(),
        ensures
            final(self).wf(),
            same_frame(*old(self), *final(self)),
            x < old(self).w && y < old(self).h ==> {
                let i = cell_index(old(self).w, x, y);
                &&& final(self).cells() == old(self).cells().update(i, Character { transform, ..old(self).cells()[i] })
                &&& final(self).dirty
            },
            !(x < old(self).w && y < old(self).h) ==> *final(self) == *old(self),
    {
        if let Some(i) = self.index(x, y) {
            self.dirty = true;
            let mut c = self.data[i];
            c.transform = transform;
            self.data.set(i, c);
        }
    }

    /// Sets the mask of the cell at `(x, y)`, if inside the grid.
    pub fn set_char_mask(&mut self, x: u32, y: u32, mask: Option<Mask>)
        requires
            old(self).wf(),
        ensures
            final(self).wf(),
            same_frame(*old(self), *final(self)),
            x < old(self).w && y < old(self).h ==> {
                let i = cell_index(old(self).w, x, y);
                &&& final(self).cells() == old(self).cells().update(i, Character { mask, ..old(self).cells()[i] })
                &&& final(self).dirty
            },
            !(x < old(self).w && y < old(self).h) ==> *final(self) == *old(self),
    {
        if let Some(i) = self.index(x, y) {
            self.dirty = true;
            let mut c = self.data[i];
            c.mask = mask;
            self.data.set(i, c);
        }
    }

    /// Sets both blend modes of the cell at `(x, y)`, if inside the grid.
    pub fn set_char_blend(&mut self, x: u32, y: u32, fg_blend: Blend, bg_blend: Blend)
        requires
            old(self).wf(),
        ensures
            final(self).wf(),
            same_frame(*old(self), *final(self)),
            x < old(self).w && y < old(self).h ==> {
                let i = cell_index(old(self).w, x, y);
                &&& final(self).cells() == old(self).cells().update(i, Character { fg_blend, bg_blend, ..old(self).cells()[i] })
                &&& final(self).dirty
            },
            !(x < old(self).w && y < old(self).h) ==> *final(self) == *old(self),
    {
        if let Some(i) = self.index(x, y) {
            self.dirty = true;
            let mut c = self.data[i];
            c.fg_blend = fg_blend;
            c.bg_blend = bg_blend;
            self.data.set(i, c);
        }
    }

    /// Applies `op` to every cell of the `w` x `h` area at `(x, y)` that
    /// lies inside the grid, and marks the buffer dirty.
    pub fn apply_area(&mut self, x: u32, y: u32, w: u32, h: u32, op: AreaOp)
        requires
            old(self).wf(),
            x + w <= u32::MAX,
            y + h <= u32::MAX,
        ensures
            final(self).wf(),
            same_frame(*old(self), *final(self)),
            final(self).dirty,
            final(self).cells().len() == old(self).cells().len(),
            forall|cx: u32, cy: u32|
                cx < old(self).w && cy < old(self).h ==> #[trigger] final(self).cells()[cell_index(old(self).w, cx, cy)] == if x <= cx
                    < x + w && y <= cy < y + h {
                    area_op(old(self).cells()[cell_index(old(self).w, cx, cy)], op)
                } else {
                    old(self).cells()[cell_index(old(self).w, cx, cy)]
                },
    {
        self.dirty = true;
        let mut cy: u32 = y;
        while cy < y + h
            invariant
                y <= cy <= y + h,
                y + h <= u32::MAX,
                x + w <= u32::MAX,
                self.wf(),
                same_frame(*old(self), *self),
                self.dirty,
                self.data@.len() == old(self).data@.len(),
                forall|px: u32, py: u32|
                    px < self.w && py < self.h ==> #[trigger] self.data@[cell_index(self.w, px, py)] == if x <= px
                        < x + w && y <= py < cy {
                        area_op(old(self).data@[cell_index(self.w, px, py)], op)
                    } else {
                        old(self).data@[cell_index(self.w, px, py)]
                    },
            decreases y + h - cy,
        {
            let mut cx: u32 = x;
            while cx < x + w
                invariant
                    x <= cx <= x + w,
                    y <= cy < y + h,
                    y + h <= u32::MAX,
                    x + w <= u32::MAX,
                    self.wf(),
                    same_frame(*old(self), *self),
                    self.dirty,
                    self.data@.len() == old(self).data@.len(),
                    forall|px: u32, py: u32|
                        px < self.w && py < self.h ==> #[trigger] self.data@[cell_index(self.w, px, py)] == if (x <= px
                            < x + w && y <= py < cy) || (x <= px < cx && py == cy) {
                            area_op(old(self).data@[cell_index(self.w, px, py)], op)
                        } else {
                            old(self).data@[cell_index(self.w, px, py)]
                        },
                decreases x + w - cx,
            {
                let ghost before = self.data@;
                if let Some(i) = self.index(cx, cy) {
                    let c = area_op_exec(self.data[i], op);
                    self.data.set(i, c);
                }
                proof {
                    assert forall|px: u32, py: u32|
                        px < self.w && py < self.h implies #[trigger] self.data@[cell_index(self.w, px, py)] == if (x <= px
                            < x + w && y <= py < cy) || (x <= px < cx + 1 && py == cy) {
                            area_op(old(self).data@[cell_index(self.w, px, py)], op)
                        } else {
                            old(self).data@[cell_index(self.w, px, py)]
                        } by {
                        lemma_cell_index_bound(self.w, self.h, px, py);
                        assert(before[cell_index(self.w, px, py)] == if (x <= px
                            < x + w && y <= py < cy) || (x <= px < cx && py == cy) {
                            area_op(old(self).data@[cell_index(self.w, px, py)], op)
                        } else {
                            old(self).data@[cell_index(self.w, px, py)]
                        });
                        if px == cx && py == cy {
                        } else if cx < self.w && cy < self.h {
                            if cell_index(self.w, px, py) == cell_index(self.w, cx, cy) {
                                lemma_cell_index_injective(self.w, self.h, px, py, cx, cy);
                            }
                        }
                    }
                }
                cx += 1;
            }
            cy += 1;
        }
    }

    /// Sets both blend modes over an area (see `apply_area`).
    pub fn set_area_blend(&mut self, x: u32, y: u32, w: u32, h: u32, fg_blend: Blend, bg_blend: Blend)
        requires
            old(self).wf(),
            x + w <= u32::MAX,
            y + h <= u32::MAX,
        ensures
            final(self).wf(),
            same_frame(*old(self), *final(self)),
            final(self).dirty,
            final(self).cells().len() == old(self).cells().len(),
            forall|cx: u32, cy: u32|
                cx < old(self).w && cy < old(self).h ==> #[trigger] final(self).cells()[cell_index(old(self).w, cx, cy)] == if x <= cx
                    < x + w && y <= cy < y + h {
                    area_op(old(self).cells()[cell_index(old(self).w, cx, cy)], AreaOp::Blend(fg_blend, bg_blend))
                } else {
                    old(self).cells()[cell_index(old(self).w, cx, cy)]
                },
    {
        self.apply_area(x, y, w, h, AreaOp::Blend(fg_blend, bg_blend));
    }

    /// Sets the mask over an area (see `apply_area`).
    pub fn set_area_mask(&mut self, x: u32, y: u32, w: u32, h: u32, mask: Option<Mask>)
        requires
            old(self).wf(),
            x + w <= u32::MAX,
            y + h <= u32::MAX,
        ensures
            final(self).wf(),
            same_frame(*old(self), *final(self)),
            final(self).dirty,
            final(self).cells().len() == old(self).cells().len(),
            forall|cx: u32, cy: u32|
                cx < old(self).w && cy < old(self).h ==> #[trigger] final(self).cells()[cell_index(old(self).w, cx, cy)] == if x <= cx
                    < x + w && y <= cy < y + h {
                    area_op(old(self).cells()[cell_index(old(self).w, cx, cy)], AreaOp::Mask(mask))
                } else {
                    old(self).cells()[cell_index(old(self).w, cx, cy)]
                },
    {
        self.apply_area(x, y, w, h, AreaOp::Mask(mask));
    }

    /// Sets the transform over an area (see `apply_area`).
    pub fn set_area_transform(&mut self, x: u32, y: u32, w: u32, h: u32, transform: Transform)
        requires
            old(self).wf(),
            x + w <= u32::MAX,
            y + h <= u32::MAX,
        ensures
            final(self).wf(),
            same_frame(*old(self), *final(self)),
            final(self).dirty,
            final(self).cells().len() == old(self).cells().len(),
            forall|cx: u32, cy: u32|
                cx < old(self).w && cy < old(self).h ==> #[trigger] final(self).cells()[cell_index(old(self).w, cx, cy)] == if x <= cx
                    < x + w && y <= cy < y + h {
                    area_op(old(self).cells()[cell_index(old(self).w, cx, cy)], AreaOp::Transform(transform))
                } else {
                    old(self).cells()[cell_index(old(self).w, cx, cy)]
                },
    {
        self.apply_area(x, y, w, h, AreaOp::Transform(transform));
    }

    /// Resizes the grid to `new_w` x `new_h`, keeping the cells both
    /// grids share and blanking the others; marks the buffer dirty.
    pub fn resize(&mut self, new_w: u32, new_h: u32)
        requires
            old(self).wf(),
            new_w as int * new_h as int <= u32::MAX,
        ensures
            final(self).wf(),
            final(self).w == new_w && final(self).h == new_h,
            final(self).dirty,
            final(self).name == old(self).name && final(self).z_index == old(self).z_index,
            final(self).visible == old(self).visible && final(self).dynamic == old(self).dynamic,
            final(self).default_variant_id == old(self).default_variant_id,
            final(self).glyphset == old(self).glyphset && final(self).palette == old(self).palette,
            forall|x: u32, y: u32|
                x < new_w && y < new_h ==> #[trigger] final(self).cells()[cell_index(new_w, x, y)] == if x < old(self).w
                    && y < old(self).h {
                    old(self).cells()[cell_index(old(self).w, x, y)]
                } else {
                    blank_char(SPACE_CODE)
                },
    {
        let old_w = self.w;
        let old_h = self.h;
        let fill = Character::blank(SPACE_CODE);
        let mut data: Vec<Character> = Vec::new();
        let mut y: u32 = 0;
        while y < new_h
            invariant
                y <= new_h,
                new_w as int * new_h as int <= u32::MAX,
                self.wf(),
                self.w == old_w && self.h == old_h,
                *self == *old(self),
                fill == blank_char(SPACE_CODE),
                data@.len() == y as int * new_w as int,
                forall|px: u32, py: u32|
                    px < new_w && py < y ==> #[trigger] data@[cell_index(new_w, px, py)] == if px < old_w && py < old_h {
                        old(self).data@[cell_index(old_w, px, py)]
                    } else {
                        fill
                    },
            decreases new_h - y,
        {
            let mut x: u32 = 0;
            while x < new_w
                invariant
                    x <= new_w,
                    y < new_h,
                    new_w as int * new_h as int <= u32::MAX,
                    self.wf(),
                    self.w == old_w && self.h == old_h,
                    *self == *old(self),
                    fill == blank_char(SPACE_CODE),
                    data@.len() == y as int * new_w as int + x as int,
                    forall|px: u32, py: u32|
                        (px < new_w && py < y) || (px < x && py == y) ==> #[trigger] data@[cell_index(new_w, px, py)] == if px
                            < old_w && py < old_h {
                            old(self).data@[cell_index(old_w, px, py)]
                        } else {
                            fill
                        },
                decreases new_w - x,
            {
                proof {
                    assert((y as int) * (new_w as int) + (x as int) < (new_w as int) * (new_h as int)) by (nonlinear_arith)
                        requires x < new_w, y < new_h;
                }
                let c = if x < old_w && y < old_h {
                    let i = self.index(x, y).unwrap();
                    self.data[i]
                } else {
                    fill
                };
                let ghost before = data@;
                data.push(c);
                proof {
                    assert forall|px: u32, py: u32|
                        (px < new_w && py < y) || (px < x + 1 && py == y) implies #[trigger] data@[cell_index(new_w, px, py)] == if px
                            < old_w && py < old_h {
                            old(self).data@[cell_index(old_w, px, py)]
                        } else {
                            fill
                        } by {
                        if px == x && py == y {
                        } else {
                            lemma_cell_index_lt(new_w, px, py, x, y);
                            assert(data@[cell_index(new_w, px, py)] == before[cell_index(new_w, px, py)]);
                        }
                    }
                }
                x += 1;
            }
            proof {
                assert((y as int) * (new_w as int) + (new_w as int) == (y as int + 1) * (new_w as int)) by (nonlinear_arith);
            }
            y += 1;
        }
        self.data = data;
        self.w = new_w;
        self.h = new_h;
        self.dirty = true;
        proof {
            assert((new_h as int) * (new_w as int) == (new_w as int) * (new_h as int)) by (nonlinear_arith);
        }
    }

    /// Writes the characters of `text` from `(x, y)` in direction
    /// `direction`, in the buffer's default variant; newlines start a new
    /// line across the direction. With `auto_rotate` each glyph is turned
    /// to read along the direction (mirroring kept from `base_transform`).
    pub fn write_string_full(
        &mut self,
        x: u32,
        y: u32,
        text: &str,
        fcolor: Color,
        bcolor: Color,
        fg_blend: Blend,
        bg_blend: Blend,
        base_transform: Transform,
        mask: Option<Mask>,
        direction: WriteDirection,
        auto_rotate: bool,
    )
        requires
            old(self).wf(),
            pen_in_range(x, y, text@, direction),
        ensures
            final(self).wf(),
            same_frame(*old(self), *final(self)),
            (final(self).cells(), final(self).dirty) == write_text(
                old(self).cells(),
                old(self).dirty,
                old(self).w,
                old(self).h,
                x,
                y,
                text@,
                direction,
                full_char(
                    0,
                    old(self).default_variant_id,
                    fcolor,
                    bcolor,
                    fg_blend,
                    bg_blend,
                    if auto_rotate {
                        Transform { rotation: direction_rotation(direction), ..base_transform }
                    } else {
                        base_transform
                    },
                    mask,
                ),
            ),
    {
        let transform = if auto_rotate {
            Transform { rotation: direction.rotation(), flip_h: base_transform.flip_h, flip_v: base_transform.flip_v }
        } else {
            base_transform
        };
        let proto = Character::full(0, self.default_variant_id, fcolor, bcolor, fg_blend, bg_blend, transform, mask);
        self.write_text_with(x, y, text, direction, proto);
    }

    /// Writes `text` from `(x, y)` in direction `direction`, each
    /// character as `proto` with the character's code.
    pub fn write_text_with(&mut self, x: u32, y: u32, text: &str, direction: WriteDirection, proto: Character)
        requires
            old(self).wf(),
            pen_in_range(x, y, text@, direction),
        ensures
            final(self).wf(),
            same_frame(*old(self), *final(self)),
            (final(self).cells(), final(self).dirty) == write_text(
                old(self).cells(),
                old(self).dirty,
                old(self).w,
                old(self).h,
                x,
                y,
                text@,
                direction,
                proto,
            ),
    {
        let cs = str_chars(text);
        let (dx, dy) = direction.delta();
        let mut cx: i32 = x as i32;
        let mut cy: i32 = y as i32;
        let mut k: usize = 0;
        assert(cs@.take(0) =~= Seq::<char>::empty());
        while k < cs.len()
            invariant
                k <= cs@.len(),
                cs@ == text@,
                self.wf(),
                same_frame(*old(self), *self),
                pen_in_range(x, y, text@, direction),
                (dx, dy) == direction_delta(direction),
                (cx as int, cy as int) == pen_after(x, y, cs@.take(k as int), direction),
                (self.data@, self.dirty) == write_text(
                    old(self).data@,
                    old(self).dirty,
                    old(self).w,
                    old(self).h,
                    x,
                    y,
                    cs@.take(k as int),
                    direction,
                    proto,
                ),
            decreases cs@.len() - k,
        {
            let c = cs[k];
            let ghost t = cs@.take(k + 1);
            proof {
                assert(t.drop_last() =~= cs@.take(k as int));
                assert(t.last() == c);
                assert(i32::MIN <= pen_after(x, y, cs@.take(k + 1), direction).0 <= i32::MAX);
                assert(i32::MIN <= pen_after(x, y, cs@.take(k + 1), direction).1 <= i32::MAX);
            }
            if c == '\n' {
                match direction {
                    WriteDirection::Right => {
                        cy = cy + 1;
                        cx = x as i32;
                    },
                    WriteDirection::Left => {
                        cy = cy - 1;
                        cx = x as i32;
                    },
                    WriteDirection::Down => {
                        cx = cx - 1;
                        cy = y as i32;
                    },
                    WriteDirection::Up => {
                        cx = cx + 1;
                        cy = y as i32;
                    },
                }
            } else {
                let mut ch = proto;
                ch.code = c as u32;
                self.set(cx as u32, cy as u32, ch);
                cx = cx + dx;
                cy = cy + dy;
            }
            k += 1;
        }
        assert(cs@.take(cs@.len() as int) =~= cs@);
    }

    /// Re-reads the colours of cells that refer to palette entries; marks
    /// the buffer dirty if a colour changed.
    pub fn refresh_palette_colors(&mut self, palette: &Palette)
        requires
            old(self).wf(),
        ensures
            final(self).wf(),
            same_frame(*old(self), *final(self)),
            final(self).cells() == Seq::new(
                old(self).cells().len(),
                |i: int| refreshed(old(self).cells()[i], palette.color_seq()),
            ),
            final(self).dirty == (old(self).dirty || exists|i: int|
                0 <= i < old(self).cells().len() && #[trigger] refreshed(old(self).cells()[i], palette.color_seq())
                    != old(self).cells()[i]),
    {
        let mut changed = false;
        let n = self.data.len();
        let mut i: usize = 0;
        while i < n
            invariant
                i <= n,
                n == self.data@.len() && n == old(self).data@.len(),
                self.wf(),
                same_frame(*old(self), *self),
                self.dirty == old(self).dirty,
                forall|k: int| 0 <= k < i ==> self.data@[k] == refreshed(old(self).data@[k], palette.color_seq()),
                forall|k: int| i <= k < n ==> self.data@[k] == old(self).data@[k],
                changed == exists|k: int| 0 <= k < i && #[trigger] refreshed(old(self).data@[k], palette.color_seq()) != old(self).data@[k],
            decreases n - i,
        {
            let mut c = self.data[i];
            let before = c;
            if let Some(idx) = c.fg_ref {
                if let Some(col) = palette.get(idx as usize) {
                    if c.fcolor != col {
                        c.fcolor = col;
                    }
                }
            }
            if let Some(idx) = c.bg_ref {
                if let Some(col) = palette.get(idx as usize) {
                    if c.bcolor != col {
                        c.bcolor = col;
                    }
                }
            }
            if c != before {
                changed = true;
            }
            self.data.set(i, c);
            proof {
                assert(c == refreshed(old(self).data@[i as int], palette.color_seq()));
                if !changed {
                    assert forall|k: int| 0 <= k < i + 1 implies refreshed(old(self).data@[k], palette.color_seq()) == old(self).data@[k] by {}
                }
            }
            i += 1;
        }
        if changed {
            self.dirty = true;
        }
        assert(self.data@ =~= Seq::new(old(self).cells().len(), |i: int| refreshed(old(self).cells()[i], palette.color_seq())));
    }
}

/// A change applied to every cell of an area.
#[derive(Debug, Clone, Copy, PartialEq, Eq, Structural)]
pub enum AreaOp {
    Blend(Blend, Blend),
    Mask(Option<Mask>),
    Transform(Transform),
}

/// The cell after `op`.
pub open spec fn area_op(c: Character, op: AreaOp) -> Character {
    match op {
        AreaOp::Blend(f, b) => Character { fg_blend: f, bg_blend: b, ..c },
        AreaOp::Mask(m) => Character { mask: m, ..c },
        AreaOp::Transform(t) => Character { transform: t, ..c },
    }
}

fn area_op_exec(c: Character, op: AreaOp) -> (r: Character)
    ensures
        r == area_op(c, op),
{
    let mut r = c;
    match op {
        AreaOp::Blend(f, b) => {
            r.fg_blend = f;
            r.bg_blend = b;
        },
        AreaOp::Mask(m) => {
            r.mask = m;
        },
        AreaOp::Transform(t) => {
            r.transform = t;
        },
    }
    r
}

/// The colour of palette entry `idx`, if it exists.
pub open spec fn palette_color(cs: Seq<crate::palette::PaletteColor>, idx: u16) -> Option<Color> {
    if (idx as int) < cs.len() {
        Some(Color { r: cs[idx as int].r, g: cs[idx as int].g, b: cs[idx as int].b, a: cs[idx as int].a })
    } else {
        None
    }
}

/// A cell with the colours it refers to re-read from the palette.
pub open spec fn refreshed(c: Character, cs: Seq<crate::palette::PaletteColor>) -> Character {
    let f = match c.fg_ref {
        Some(i) => match palette_color(cs, i) {
            Some(col) => col,
            None => c.fcolor,
        },
        None => c.fcolor,
    };
    let b = match c.bg_ref {
        Some(i) => match palette_color(cs, i) {
            Some(col) => col,
            None => c.bcolor,
        },
        None => c.bcolor,
    };
    Character { fcolor: f, bcolor: b, ..c }
}

/// `a` and `b` agree on everything but cells and the dirty flag.
pub open spec fn same_frame(a: Buffer, b: Buffer) -> bool {
    &&& a.name == b.name
    &&& a.w == b.w
    &&& a.h == b.h
    &&& a.z_index == b.z_index
    &&& a.visible == b.visible
    &&& a.dynamic == b.dynamic
    &&& a.default_variant_id == b.default_variant_id
    &&& a.glyphset_key() == b.glyphset_key()
    &&& a.palette_key() == b.palette_key()
}

/// A written character reads back from its cell, and every other cell
/// reads back as before the write.
pub proof fn law_read_after_write(a: Buffer, b: Buffer, x: u32, y: u32, ch: Character, x2: u32, y2: u32)
    requires
        a.wf(),
        same_frame(a, b),
        (b.cells(), b.is_dirty()) == set_cell(a.cells(), a.is_dirty(), a.w, a.h, x, y, ch),
        x < a.w && y < a.h,
        x2 < a.w && y2 < a.h,
    ensures
        b.cell(x, y) == ch,
        (x2 != x || y2 != y) ==> b.cell(x2, y2) == a.cell(x2, y2),
{
    lemma_cell_index_bound(a.w, a.h, x, y);
    lemma_cell_index_bound(a.w, a.h, x2, y2);
    if x2 != x || y2 != y {
        if cell_index(a.w, x2, y2) == cell_index(a.w, x, y) {
            lemma_cell_index_injective(a.w, a.h, x2, y2, x, y);
        }
    }
}

pub proof fn lemma_cell_index_injective(w: u32, h: u32, x1: u32, y1: u32, x2: u32, y2: u32)
    requires
        x1 < w,
        x2 < w,
        cell_index(w, x1, y1) == cell_index(w, x2, y2),
    ensures
        x1 == x2 && y1 == y2,
{
    let (a1, b1, a2, b2, ww) = (x1 as int, y1 as int, x2 as int, y2 as int, w as int);
    if b1 < b2 {
        assert(b1 * ww + ww <= b2 * ww) by (nonlinear_arith)
            requires b1 < b2, ww >= 0;
    } else if b2 < b1 {
        assert(b2 * ww + ww <= b1 * ww) by (nonlinear_arith)
            requires b2 < b1, ww >= 0;
    }
}

pub proof fn lemma_cell_index_lt(w: u32, x1: u32, y1: u32, x2: u32, y2: u32)
    requires
        x1 < w,
        x2 < w,
        y1 < y2 || (y1 == y2 && x1 < x2),
    ensures
        cell_index(w, x1, y1) < cell_index(w, x2, y2),
{
    let (a1, b1, a2, b2, ww) = (x1 as int, y1 as int, x2 as int, y2 as int, w as int);
    if b1 < b2 {
        assert(b1 * ww + ww <= b2 * ww) by (nonlinear_arith)
            requires b1 < b2, ww >= 0;
    }
}

pub proof fn lemma_cell_index_bound(w: u32, h: u32, x: u32, y: u32)
    requires
        x < w,
        y < h,
    ensures
        0 <= cell_index(w, x, y) < w as int * h as int,
{
    assert((y as int) * (w as int) + (x as int) < (w as int) * (h as int)) by (nonlinear_arith)
        requires x < w, y < h;
    assert(0 <= (y as int) * (w as int)) by (nonlinear_arith);
}

} // verus!
