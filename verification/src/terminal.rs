//! The terminal: a pen (active buffer, cursor, colours, variant) that
//! actions move and print with.

use vstd::prelude::*;
use crate::arena::slot_key;
use crate::keys::BufferKey;
use crate::buffer::{Buffer, set_cell, same_frame};
use crate::buffer_manager::{buffer_updated, cell_set, cleared};
use crate::grids::{Grids, keeps_rest};
use crate::strmap::StrMap;
use crate::text::{owned, str_chars};
use crate::types::{Blend, Character, Color, Transform, full_char, identity_transform};

verus! {

/// What a script or the protocol asks the terminal to do.
#[derive(Debug, Clone)]
pub enum Action {
    SetBuffer(String),
    SetCursor(u32, u32),
    SetFgColor(Color),
    SetBgColor(Color),
    SetVariant(u8),
    SetVariantByName(String),
    PrintChar(u32),
    PrintString(String),
    ClearBuffer(String),
    SetBufferVisible(String, bool),
    SetBufferZ(String, i32),
}

/// Code points that are characters (not surrogates, at most U+10FFFF).
pub open spec fn is_scalar(code: u32) -> bool {
    code < 0xD800 || (0xE000 <= code && code <= 0x10FFFF)
}

/// The cell the pen prints for `code`.
pub open spec fn pen_char(code: u32, variant: u8, fg: Color, bg: Color) -> Character {
    full_char(code, variant, fg, bg, Blend::Alpha, Blend::Alpha, identity_transform(), None)
}

/// Cursor after printing `cs` from `(x0, y0)`: a newline returns to
/// column `start_x` one row down, any other character moves one column
/// right.
pub open spec fn print_pen(start_x: u32, x0: u32, y0: u32, cs: Seq<char>) -> (int, int)
    decreases cs.len(),
{
    if cs.len() == 0 {
        (x0 as int, y0 as int)
    } else {
        let p = print_pen(start_x, x0, y0, cs.drop_last());
        if cs.last() == '\n' {
            (start_x as int, p.1 + 1)
        } else {
            (p.0 + 1, p.1)
        }
    }
}

/// No cursor step of the print leaves `u32`.
pub open spec fn print_fits(start_x: u32, x0: u32, y0: u32, cs: Seq<char>) -> bool
    decreases cs.len(),
{
    if cs.len() == 0 {
        true
    } else {
        let p = print_pen(start_x, x0, y0, cs.drop_last());
        &&& print_fits(start_x, x0, y0, cs.drop_last())
        &&& if cs.last() == '\n' {
            p.1 + 1 <= u32::MAX
        } else {
            p.0 + 1 <= u32::MAX
        }
    }
}

/// Cells and dirty flag of a `w` by `h` buffer after printing `cs`.
pub open spec fn print_cells(
    cells: Seq<Character>,
    dirty: bool,
    w: u32,
    h: u32,
    start_x: u32,
    x0: u32,
    y0: u32,
    cs: Seq<char>,
    variant: u8,
    fg: Color,
    bg: Color,
) -> (Seq<Character>, bool)
    decreases cs.len(),
{
    if cs.len() == 0 {
        (cells, dirty)
    } else {
        let r = print_cells(cells, dirty, w, h, start_x, x0, y0, cs.drop_last(), variant, fg, bg);
        let p = print_pen(start_x, x0, y0, cs.drop_last());
        let c = cs.last();
        if c == '\n' {
            r
        } else {
            set_cell(r.0, r.1, w, h, p.0 as u32, p.1 as u32, pen_char(c as u32, variant, fg, bg))
        }
    }
}

/// The pen and the buffers it names.
pub struct TerminalState {
    pub active_buffer: Option<BufferKey>,
    pub cursor_x: u32,
    pub cursor_y: u32,
    pub fg_color: Color,
    pub bg_color: Color,
    pub variant_id: u8,
    pub buffer_map: StrMap<BufferKey>,
}

/// What `apply_action` needs to run without an arithmetic overflow.
pub open spec fn action_fits(t: TerminalState, action: Action) -> bool {
    match action {
        Action::PrintChar(code) => t.active_buffer.is_some() && is_scalar(code) ==> t.cursor_x < u32::MAX,
        Action::PrintString(text) => t.active_buffer.is_some() ==> print_fits(t.cursor_x, t.cursor_x, t.cursor_y, text@),
        _ => true,
    }
}

impl TerminalState {
    /// No active buffer, cursor at the origin, white on transparent,
    /// variant 0, no buffer names.
    pub fn new() -> (t: TerminalState)
        ensures
            t.buffer_map.wf(),
            t.active_buffer.is_none(),
            t.cursor_x == 0 && t.cursor_y == 0,
            t.fg_color == (Color { r: 255, g: 255, b: 255, a: 255 }),
            t.bg_color == (Color { r: 0, g: 0, b: 0, a: 0 }),
            t.variant_id == 0,
            t.buffer_map@.is_empty(),
    {
        TerminalState {
            active_buffer: None,
            cursor_x: 0,
            cursor_y: 0,
            fg_color: Color::white(),
            bg_color: Color::blank(),
            variant_id: 0,
            buffer_map: StrMap::new(),
        }
    }

    /// Adds buffer names; a name given again takes the new key.
    pub fn register_buffers(&mut self, buffers: StrMap<BufferKey>)
        requires
            old(self).buffer_map.wf(),
            buffers.wf(),
        ensures
            final(self).buffer_map.wf(),
            final(self).buffer_map@ == old(self).buffer_map@.union_prefer_right(buffers@),
            final(self).active_buffer == old(self).active_buffer,
            final(self).cursor_x == old(self).cursor_x && final(self).cursor_y == old(self).cursor_y,
            final(self).fg_color == old(self).fg_color && final(self).bg_color == old(self).bg_color,
            final(self).variant_id == old(self).variant_id,
    {
        proof {
            buffers.lemma_keys();
        }
        let n = buffers.len();
        let mut i: usize = 0;
        while i < n
            invariant
                buffers.wf(),
                n == buffers.key_seq().len(),
                i <= n,
                self.buffer_map.wf(),
                buffers.key_seq().no_duplicates(),
                forall|j: int|
                    0 <= j < buffers.key_seq().len() ==> buffers@.contains_key(#[trigger] buffers.key_seq()[j])
                        && buffers@[buffers.key_seq()[j]] == buffers.value_seq()[j],
                forall|k: Seq<char>| #[trigger] buffers@.contains_key(k) ==> buffers.key_seq().contains(k),
                self.buffer_map@ == old(self).buffer_map@.union_prefer_right(
                    buffers@.restrict(buffers.key_seq().take(i as int).to_set()),
                ),
                self.active_buffer == old(self).active_buffer,
                self.cursor_x == old(self).cursor_x && self.cursor_y == old(self).cursor_y,
                self.fg_color == old(self).fg_color && self.bg_color == old(self).bg_color,
                self.variant_id == old(self).variant_id,
            decreases n - i,
        {
            let (name, key) = buffers.entry_at(i);
            let k = *key;
            self.buffer_map.insert(owned(name.as_str()), k);
            proof {
                let ks = buffers.key_seq();
                let s0 = ks.take(i as int).to_set();
                let s1 = ks.take(i + 1).to_set();
                assert(ks.take(i + 1) =~= ks.take(i as int).push(ks[i as int]));
                assert(s1 =~= s0.insert(ks[i as int])) by {
                    assert forall|x: Seq<char>| #[trigger] s1.contains(x) <==> s0.insert(ks[i as int]).contains(x) by {
                        if s1.contains(x) {
                            let j = choose|j: int| 0 <= j < i + 1 && #[trigger] ks.take(i + 1)[j] == x;
                            if j < i {
                                assert(ks.take(i as int)[j] == x);
                            }
                        }
                        if s0.contains(x) {
                            let j = choose|j: int| 0 <= j < i && #[trigger] ks.take(i as int)[j] == x;
                            assert(ks.take(i + 1)[j] == x);
                        }
                        if x == ks[i as int] {
                            assert(ks.take(i + 1)[i as int] == x);
                        }
                    }
                }
                assert(buffers@.restrict(s1) =~= buffers@.restrict(s0).insert(ks[i as int], k));
                assert(self.buffer_map@ =~= old(self).buffer_map@.union_prefer_right(
                    buffers@.restrict(ks.take(i + 1).to_set()),
                ));
            }
            i += 1;
        }
        proof {
            let ks = buffers.key_seq();
            assert(ks.take(n as int) =~= ks);
            assert(buffers@.restrict(ks.to_set()) =~= buffers@);
        }
    }
}


/// The state of the terminal and the grids after `action`.
pub open spec fn applied(t0: TerminalState, g0: Grids, action: Action, t1: TerminalState, g1: Grids) -> bool {
    match action {
        Action::SetBuffer(name) => g1 == g0 && if t0.buffer_map@.contains_key(name@) {
            t1 == TerminalState { active_buffer: Some(t0.buffer_map@[name@]), cursor_x: 0, cursor_y: 0, ..t0 }
        } else {
            t1 == t0
        },
        Action::SetCursor(x, y) => g1 == g0 && t1 == TerminalState { cursor_x: x, cursor_y: y, ..t0 },
        Action::SetFgColor(c) => g1 == g0 && t1 == TerminalState { fg_color: c, ..t0 },
        Action::SetBgColor(c) => g1 == g0 && t1 == TerminalState { bg_color: c, ..t0 },
        Action::SetVariant(v) => g1 == g0 && t1 == TerminalState { variant_id: v, ..t0 },
        Action::SetVariantByName(name) => g1 == g0 && match t0.active_buffer {
            Some(k) => {
                let bk = slot_key(k.ffi);
                if g0.buffers.map().contains_key(bk) && g0.assets.glyphset_map().contains_key(
                    slot_key(g0.buffers.map()[bk].glyphset.ffi),
                ) {
                    let gs = g0.assets.glyphset_map()[slot_key(g0.buffers.map()[bk].glyphset.ffi)];
                    t1 == TerminalState {
                        variant_id: if gs.variant_names@.contains_key(name@) {
                            gs.variant_names@[name@]
                        } else {
                            0
                        },
                        ..t0
                    }
                } else {
                    t1 == t0
                }
            },
            None => t1 == t0,
        },
        Action::PrintChar(code) => if t0.active_buffer.is_some() && is_scalar(code) {
            let k = t0.active_buffer.unwrap();
            &&& keeps_rest(g0, g1)
            &&& g1.buffers.slot_count() == g0.buffers.slot_count()
            &&& buffer_updated(
                g0.buffers.map(),
                g1.buffers.map(),
                slot_key(k.ffi),
                |a: Buffer, b: Buffer|
                    cell_set(a, b, t0.cursor_x, t0.cursor_y, pen_char(code, t0.variant_id, t0.fg_color, t0.bg_color)),
            )
            &&& t1 == TerminalState { cursor_x: (t0.cursor_x + 1) as u32, ..t0 }
        } else {
            t1 == t0 && g1 == g0
        },
        Action::PrintString(text) => if t0.active_buffer.is_some() {
            let k = t0.active_buffer.unwrap();
            let p = print_pen(t0.cursor_x, t0.cursor_x, t0.cursor_y, text@);
            &&& keeps_rest(g0, g1)
            &&& g1.buffers.slot_count() == g0.buffers.slot_count()
            &&& buffer_updated(
                g0.buffers.map(),
                g1.buffers.map(),
                slot_key(k.ffi),
                |a: Buffer, b: Buffer|
                    b.wf() && same_frame(a, b) && (b.cells(), b.is_dirty()) == print_cells(
                        a.cells(),
                        a.is_dirty(),
                        a.w,
                        a.h,
                        t0.cursor_x,
                        t0.cursor_x,
                        t0.cursor_y,
                        text@,
                        t0.variant_id,
                        t0.fg_color,
                        t0.bg_color,
                    ),
            )
            &&& t1 == TerminalState { cursor_x: p.0 as u32, cursor_y: p.1 as u32, ..t0 }
        } else {
            t1 == t0 && g1 == g0
        },
        Action::ClearBuffer(name) => t1 == t0 && if t0.buffer_map@.contains_key(name@) {
            &&& keeps_rest(g0, g1)
            &&& g1.buffers.slot_count() == g0.buffers.slot_count()
            &&& buffer_updated(
                g0.buffers.map(),
                g1.buffers.map(),
                slot_key(t0.buffer_map@[name@].ffi),
                |a: Buffer, b: Buffer| cleared(a, b),
            )
        } else {
            g1 == g0
        },
        Action::SetBufferVisible(name, visible) => t1 == t0 && if t0.buffer_map@.contains_key(name@) {
            &&& keeps_rest(g0, g1)
            &&& g1.buffers.slot_count() == g0.buffers.slot_count()
            &&& buffer_updated(
                g0.buffers.map(),
                g1.buffers.map(),
                slot_key(t0.buffer_map@[name@].ffi),
                |a: Buffer, b: Buffer| b == Buffer { visible, ..a },
            )
        } else {
            g1 == g0
        },
        Action::SetBufferZ(name, z_index) => t1 == t0 && if t0.buffer_map@.contains_key(name@) {
            &&& keeps_rest(g0, g1)
            &&& g1.buffers.slot_count() == g0.buffers.slot_count()
            &&& buffer_updated(
                g0.buffers.map(),
                g1.buffers.map(),
                slot_key(t0.buffer_map@[name@].ffi),
                |a: Buffer, b: Buffer| b == Buffer { z_index, ..a },
            )
        } else {
            g1 == g0
        },
    }
}

fn is_scalar_exec(code: u32) -> (b: bool)
    ensures
        b == is_scalar(code),
{
    code < 0xD800 || (0xE000 <= code && code <= 0x10FFFF)
}

impl TerminalState {
    /// Carries out one action on the terminal and the grids.
    pub fn apply_action(&mut self, grids: &mut Grids, action: Action)
        requires
            old(self).buffer_map.wf(),
            old(grids).wf(),
            action_fits(*old(self), action),
        ensures
            final(self).buffer_map.wf(),
            final(grids).wf(),
            applied(*old(self), *old(grids), action, *final(self), *final(grids)),
    {
        match action {
            Action::SetBuffer(name) => {
                if let Some(key) = self.buffer_map.get(name.as_str()) {
                    self.active_buffer = Some(*key);
                    self.cursor_x = 0;
                    self.cursor_y = 0;
                }
            },
            Action::SetCursor(x, y) => {
                self.cursor_x = x;
                self.cursor_y = y;
            },
            Action::SetFgColor(c) => {
                self.fg_color = c;
            },
            Action::SetBgColor(c) => {
                self.bg_color = c;
            },
            Action::SetVariant(v) => {
                self.variant_id = v;
            },
            Action::SetVariantByName(name) => {
                if let Some(buf_key) = self.active_buffer {
                    if let Some(buf) = grids.buffers.get(buf_key) {
                        let gs_key = buf.glyphset;
                        if let Some(gs) = grids.assets.glyphset(gs_key) {
                            proof {
                                assert(grids.assets.glyphset_map()[slot_key(gs_key.ffi)].wf());
                            }
                            match gs.variant_names.get(name.as_str()) {
                                Some(id) => {
                                    self.variant_id = *id;
                                },
                                None => {
                                    self.variant_id = 0;
                                },
                            }
                        }
                    }
                }
            },
            Action::PrintChar(code) => {
                if let Some(key) = self.active_buffer {
                    if is_scalar_exec(code) {
                        let ch = Character::full(
                            code,
                            self.variant_id,
                            self.fg_color,
                            self.bg_color,
                            Blend::Alpha,
                            Blend::Alpha,
                            Transform::new(),
                            None,
                        );
                        grids.set_char(key, self.cursor_x, self.cursor_y, ch);
                        self.cursor_x += 1;
                    }
                }
            },
            Action::PrintString(text) => {
                if let Some(key) = self.active_buffer {
                    self.print_text(grids, key, text.as_str());
                }
            },
            Action::ClearBuffer(name) => {
                if let Some(key) = self.buffer_map.get(name.as_str()) {
                    grids.clear_buffer(*key);
                }
            },
            Action::SetBufferVisible(name, visible) => {
                if let Some(key) = self.buffer_map.get(name.as_str()) {
                    grids.set_visible(*key, visible);
                }
            },
            Action::SetBufferZ(name, z) => {
                if let Some(key) = self.buffer_map.get(name.as_str()) {
                    grids.set_buffer_z(*key, z);
                }
            },
        }
    }

    /// Prints `text` into buffer `key` from the cursor; a newline returns
    /// the cursor to the column where the text started, one row down.
    fn print_text(&mut self, grids: &mut Grids, key: BufferKey, text: &str)
        requires
            old(grids).wf(),
            old(self).active_buffer == Some(key),
            print_fits(old(self).cursor_x, old(self).cursor_x, old(self).cursor_y, text@),
        ensures
            final(grids).wf(),
            ({
                let t0 = *old(self);
                let g0 = *old(grids);
                let g1 = *final(grids);
                let p = print_pen(t0.cursor_x, t0.cursor_x, t0.cursor_y, text@);
                &&& keeps_rest(g0, g1)
                &&& g1.buffers.slot_count() == g0.buffers.slot_count()
                &&& buffer_updated(
                    g0.buffers.map(),
                    g1.buffers.map(),
                    slot_key(key.ffi),
                    |a: Buffer, b: Buffer|
                        b.wf() && same_frame(a, b) && (b.cells(), b.is_dirty()) == print_cells(
                            a.cells(),
                            a.is_dirty(),
                            a.w,
                            a.h,
                            t0.cursor_x,
                            t0.cursor_x,
                            t0.cursor_y,
                            text@,
                            t0.variant_id,
                            t0.fg_color,
                            t0.bg_color,
                        ),
                )
                &&& *final(self) == TerminalState { cursor_x: p.0 as u32, cursor_y: p.1 as u32, ..t0 }
            }),
    {
        let chars = str_chars(text);
        let start_x = self.cursor_x;
        let ghost y0 = self.cursor_y;
        let ghost bk = slot_key(key.ffi);
        let ghost m0 = grids.buffers.map();
        let n = chars.len();
        let mut i: usize = 0;
        while i < n
            invariant
                n == chars@.len(),
                chars@ == text@,
                i <= n,
                grids.wf(),
                keeps_rest(*old(grids), *grids),
                grids.buffers.slot_count() == old(grids).buffers.slot_count(),
                m0 == old(grids).buffers.map(),
                bk == slot_key(key.ffi),
                start_x == old(self).cursor_x,
                y0 == old(self).cursor_y,
                print_fits(start_x, start_x, y0, text@),
                (self.cursor_x as int, self.cursor_y as int) == print_pen(start_x, start_x, y0, chars@.take(i as int)),
                *self == (TerminalState { cursor_x: self.cursor_x, cursor_y: self.cursor_y, ..*old(self) }),
                m0.contains_key(bk) ==> {
                    &&& grids.buffers.map() == m0.insert(bk, grids.buffers.map()[bk])
                    &&& grids.buffers.map()[bk].wf()
                    &&& same_frame(m0[bk], grids.buffers.map()[bk])
                    &&& (grids.buffers.map()[bk].cells(), grids.buffers.map()[bk].is_dirty()) == print_cells(
                        m0[bk].cells(),
                        m0[bk].is_dirty(),
                        m0[bk].w,
                        m0[bk].h,
                        start_x,
                        start_x,
                        y0,
                        chars@.take(i as int),
                        old(self).variant_id,
                        old(self).fg_color,
                        old(self).bg_color,
                    )
                },
                !m0.contains_key(bk) ==> grids.buffers.map() == m0,
            decreases n - i,
        {
            let c = chars[i];
            proof {
                let pre = chars@.take(i as int);
                assert(chars@.take(i + 1).drop_last() =~= pre);
                assert(chars@.take(i + 1).last() == c);
                lemma_print_fits_prefix(start_x, y0, text@, i as int + 1);
            }
            if c == '\n' {
                self.cursor_y += 1;
                self.cursor_x = start_x;
            } else {
                let ch = Character::full(
                    c as u32,
                    self.variant_id,
                    self.fg_color,
                    self.bg_color,
                    Blend::Alpha,
                    Blend::Alpha,
                    Transform::new(),
                    None,
                );
                grids.set_char(key, self.cursor_x, self.cursor_y, ch);
                self.cursor_x += 1;
            }
            i += 1;
        }
        assert(chars@.take(n as int) =~= text@);
    }
}

/// Whether printing `text` from `(x, y)`, a newline returning to column
/// `x`, keeps the cursor inside `u32` at every step.
pub fn text_fits(x: u32, y: u32, text: &str) -> (b: bool)
    ensures
        b == print_fits(x, x, y, text@),
{
    let chars = str_chars(text);
    let n = chars.len();
    let mut px: u32 = x;
    let mut py: u32 = y;
    let mut i: usize = 0;
    while i < n
        invariant
            n == chars@.len(),
            chars@ == text@,
            i <= n,
            print_fits(x, x, y, chars@.take(i as int)),
            (px as int, py as int) == print_pen(x, x, y, chars@.take(i as int)),
        decreases n - i,
    {
        let c = chars[i];
        proof {
            assert(chars@.take(i + 1).drop_last() =~= chars@.take(i as int));
            assert(chars@.take(i + 1).last() == c);
        }
        if c == '\n' {
            if py == u32::MAX {
                proof {
                    if print_fits(x, x, y, text@) {
                        lemma_print_fits_prefix(x, y, text@, i + 1);
                    }
                }
                return false;
            }
            py = py + 1;
            px = x;
        } else {
            if px == u32::MAX {
                proof {
                    if print_fits(x, x, y, text@) {
                        lemma_print_fits_prefix(x, y, text@, i + 1);
                    }
                }
                return false;
            }
            px = px + 1;
        }
        i += 1;
    }
    assert(chars@.take(n as int) =~= text@);
    true
}

impl TerminalState {
    /// Whether `apply_action` can carry out `action` from this state: a
    /// print must keep the cursor inside `u32`.
    pub fn can_apply(&self, action: &Action) -> (b: bool)
        ensures
            b == action_fits(*self, *action),
    {
        match action {
            Action::PrintChar(code) => {
                if self.active_buffer.is_some() && (*code < 0xD800 || (0xE000 <= *code && *code <= 0x10FFFF)) {
                    self.cursor_x < u32::MAX
                } else {
                    true
                }
            },
            Action::PrintString(text) => {
                if self.active_buffer.is_some() {
                    text_fits(self.cursor_x, self.cursor_y, text.as_str())
                } else {
                    true
                }
            },
            _ => true,
        }
    }
}

/// A print that fits also fits on every prefix of its text.
pub(crate) proof fn lemma_print_fits_prefix(start_x: u32, y0: u32, cs: Seq<char>, i: int)
    requires
        0 <= i <= cs.len(),
        print_fits(start_x, start_x, y0, cs),
    ensures
        print_fits(start_x, start_x, y0, cs.take(i)),
    decreases cs.len(),
{
    if i < cs.len() {
        lemma_print_fits_prefix(start_x, y0, cs.drop_last(), i);
        assert(cs.drop_last().take(i) =~= cs.take(i));
    } else {
        assert(cs.take(i) =~= cs);
    }
}

} // verus!
