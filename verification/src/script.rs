//! What the scripting host decides: the actions that script calls queue,
//! the snapshots of buffers that scripts read, hit testing of screen
//! points, and which scripts get `init` and `update` calls and which
//! errors are reported again.

use vstd::prelude::*;
use crate::keys::BufferKey;
use crate::strmap::StrMap;
use crate::text::{owned, push_str};
use crate::types::Color;
use crate::terminal::Action;
use crate::buffer::Buffer;
use crate::grids::{Grids, toward_zero_div};
use crate::hierarchy::RenderItem;
use crate::arena::slot_key;

verus! {

broadcast use vstd::string::group_string_axioms;

// ---------------------------------------------------------------------------
// Actions queued by script calls
// ---------------------------------------------------------------------------

/// The color of four script integers, each cut to its low byte.
pub open spec fn script_color_spec(r: i64, g: i64, b: i64, a: i64) -> Color {
    Color { r: r as u8, g: g as u8, b: b as u8, a: a as u8 }
}

pub fn script_color(r: i64, g: i64, b: i64, a: i64) -> (c: Color)
    ensures
        c == script_color_spec(r, g, b, a),
{
    Color { r: r as u8, g: g as u8, b: b as u8, a: a as u8 }
}

/// `set_cursor(x, y)`: coordinates cut to `u32`.
pub fn cursor_action(x: i64, y: i64) -> (a: Action)
    ensures
        a == Action::SetCursor(x as u32, y as u32),
{
    Action::SetCursor(x as u32, y as u32)
}

/// `print_char(code)`: the code cut to `u32`.
pub fn char_action(code: i64) -> (a: Action)
    ensures
        a == Action::PrintChar(code as u32),
{
    Action::PrintChar(code as u32)
}

/// `set_buffer_z(name, z)`: the z-index cut to `i32`.
pub fn buffer_z_action(name: &str, z: i64) -> (a: Action)
    ensures
        a matches Action::SetBufferZ(n, zz) && n@ == name@ && zz == z as i32,
{
    Action::SetBufferZ(owned(name), z as i32)
}

/// `write_text(text, variant)`: switch to the variant, print, switch back
/// to `default`.
pub fn variant_text_actions(text: &str, variant: &str) -> (v: Vec<Action>)
    ensures
        v@.len() == 3,
        v@[0] matches Action::SetVariantByName(s) && s@ == variant@,
        v@[1] matches Action::PrintString(s) && s@ == text@,
        v@[2] matches Action::SetVariantByName(s) && s@ == "default"@,
{
    let mut v: Vec<Action> = Vec::new();
    v.push(Action::SetVariantByName(owned(variant)));
    v.push(Action::PrintString(owned(text)));
    v.push(Action::SetVariantByName(owned("default")));
    v
}

/// Width and height of the named buffer, `(0, 0)` for an unknown name.
pub fn buffer_extent(sizes: &StrMap<(u32, u32)>, name: &str) -> (r: (i64, i64))
    requires
        sizes.wf(),
    ensures
        r == (if sizes@.contains_key(name@) {
            (sizes@[name@].0 as i64, sizes@[name@].1 as i64)
        } else {
            (0i64, 0i64)
        }),
{
    match sizes.get(name) {
        Some(s) => (s.0 as i64, s.1 as i64),
        None => (0, 0),
    }
}

// ---------------------------------------------------------------------------
// Snapshots
// ---------------------------------------------------------------------------

/// The cells of a buffer as scripts read them: code, foreground and
/// background, row by row.
pub struct BufferSnapshot {
    pub w: u32,
    pub h: u32,
    pub cells: Vec<(u32, Color, Color)>,
}

impl BufferSnapshot {
    /// One entry per cell.
    pub open spec fn wf(&self) -> bool {
        &&& self.cells@.len() == self.w as int * self.h as int
        &&& self.w as int * self.h as int <= u32::MAX
    }
}

/// The snapshot entries of a buffer's cells.
pub open spec fn snapshot_cells(b: Buffer) -> Seq<(u32, Color, Color)> {
    b.cells().map_values(|c: crate::types::Character| (c.code, c.fcolor, c.bcolor))
}

/// Snapshot of a buffer.
pub fn snapshot_of(buf: &Buffer) -> (s: BufferSnapshot)
    requires
        buf.wf(),
    ensures
        s.wf(),
        s.w == buf.w && s.h == buf.h,
        s.cells@ == snapshot_cells(*buf),
{
    let n = buf.data.len();
    let mut cells: Vec<(u32, Color, Color)> = Vec::new();
    let mut i: usize = 0;
    while i < n
        invariant
            n == buf.data@.len(),
            i <= n,
            cells@ == snapshot_cells(*buf).take(i as int),
        decreases n - i,
    {
        let c = &buf.data[i];
        cells.push((c.code, c.fcolor, c.bcolor));
        i += 1;
        assert(cells@ =~= snapshot_cells(*buf).take(i as int));
    }
    assert(snapshot_cells(*buf).take(n as int) =~= snapshot_cells(*buf));
    BufferSnapshot { w: buf.w, h: buf.h, cells }
}

/// `get_cell(x, y)`: the entry at column `x` and row `y`, each cut to
/// `u32`; `None` left of or above the buffer or past its size.
pub open spec fn cell_at_spec(s: BufferSnapshot, x: i64, y: i64) -> Option<(u32, Color, Color)> {
    if x < 0 || y < 0 || x as u32 >= s.w || y as u32 >= s.h {
        None
    } else {
        Some(s.cells@[(y as u32) * s.w + (x as u32)])
    }
}

pub fn cell_at(s: &BufferSnapshot, x: i64, y: i64) -> (r: Option<(u32, Color, Color)>)
    requires
        s.wf(),
    ensures
        r == cell_at_spec(*s, x, y),
{
    if x < 0 || y < 0 || x as u32 >= s.w || y as u32 >= s.h {
        return None;
    }
    let cx = x as u32;
    let cy = y as u32;
    assert(cy as int * s.w as int + cx as int <= (s.h as int - 1) * s.w as int + s.w as int - 1) by (nonlinear_arith)
        requires
            cy < s.h,
            cx < s.w,
    ;
    assert((s.h as int - 1) * s.w as int + s.w as int - 1 == s.h as int * s.w as int - 1) by (nonlinear_arith);
    assert(s.h as int * s.w as int == s.w as int * s.h as int) by (nonlinear_arith);
    let idx = cy * s.w + cx;
    Some(s.cells[idx as usize])
}

/// Size and snapshot of every named buffer that is live.
pub fn snapshot_buffers(grids: &Grids, buffer_map: &StrMap<BufferKey>) -> (r: (StrMap<(u32, u32)>, StrMap<BufferSnapshot>))
    requires
        grids.wf(),
        buffer_map.wf(),
    ensures
        r.0.wf(),
        r.1.wf(),
        forall|n: Seq<char>| #[trigger]
            r.0@.contains_key(n) <==> buffer_map@.contains_key(n) && grids.buffers.map().contains_key(
                slot_key(buffer_map@[n].ffi),
            ),
        forall|n: Seq<char>| #[trigger] r.1@.contains_key(n) <==> r.0@.contains_key(n),
        forall|n: Seq<char>|
            #[trigger] r.0@.contains_key(n) ==> {
                let b = grids.buffers.map()[slot_key(buffer_map@[n].ffi)];
                &&& r.0@[n] == (b.w, b.h)
                &&& r.1@[n].w == b.w && r.1@[n].h == b.h
                &&& r.1@[n].cells@ == snapshot_cells(b)
                &&& r.1@[n].wf()
            },
{
    let mut sizes: StrMap<(u32, u32)> = StrMap::new();
    let mut data: StrMap<BufferSnapshot> = StrMap::new();
    let ghost keys = buffer_map.key_seq();
    proof {
        buffer_map.lemma_keys();
    }
    let n = buffer_map.len();
    let mut i: usize = 0;
    while i < n
        invariant
            n == keys.len(),
            keys == buffer_map.key_seq(),
            keys.no_duplicates(),
            buffer_map.wf(),
            grids.wf(),
            forall|t: int| 0 <= t < keys.len() ==> buffer_map@.contains_key(#[trigger] keys[t]),
            forall|k: Seq<char>| #[trigger] buffer_map@.contains_key(k) ==> keys.contains(k),
            i <= n,
            sizes.wf(),
            data.wf(),
            forall|q: Seq<char>| #[trigger]
                sizes@.contains_key(q) <==> keys.take(i as int).contains(q) && grids.buffers.map().contains_key(
                    slot_key(buffer_map@[q].ffi),
                ),
            forall|q: Seq<char>| #[trigger] data@.contains_key(q) <==> sizes@.contains_key(q),
            forall|q: Seq<char>|
                #[trigger] sizes@.contains_key(q) ==> {
                    let b = grids.buffers.map()[slot_key(buffer_map@[q].ffi)];
                    &&& sizes@[q] == (b.w, b.h)
                    &&& data@[q].w == b.w && data@[q].h == b.h
                    &&& data@[q].cells@ == snapshot_cells(b)
                    &&& data@[q].wf()
                },
        decreases n - i,
    {
        let (name, key) = buffer_map.entry_at(i);
        proof {
            assert(keys.take(i + 1) =~= keys.take(i as int).push(keys[i as int]));
            assert(!keys.take(i as int).contains(keys[i as int])) by {
                if keys.take(i as int).contains(keys[i as int]) {
                    let t = choose|t: int| 0 <= t < i && keys.take(i as int)[t] == keys[i as int];
                    assert(keys[t] == keys[i as int]);
                }
            }
        }
        match grids.get(*key) {
            Some(buf) => {
                proof {
                    assert(grids.buffers.map()[slot_key(key.ffi)].wf());
                }
                let snap = snapshot_of(buf);
                sizes.insert(owned(name.as_str()), (buf.w, buf.h));
                data.insert(owned(name.as_str()), snap);
            },
            None => {},
        }
        proof {
            let ki = keys[i as int];
            assert forall|q: Seq<char>| #[trigger] sizes@.contains_key(q) <==> keys.take(i + 1).contains(q)
                && grids.buffers.map().contains_key(slot_key(buffer_map@[q].ffi)) by {
                if q != ki {
                    if keys.take(i + 1).contains(q) {
                        let t = choose|t: int| 0 <= t < i + 1 && #[trigger] keys.take(i + 1)[t] == q;
                        assert(t < i);
                        assert(keys.take(i as int)[t] == q);
                    }
                    if keys.take(i as int).contains(q) {
                        let t = choose|t: int| 0 <= t < i && #[trigger] keys.take(i as int)[t] == q;
                        assert(keys.take(i + 1)[t] == q);
                    }
                } else {
                    assert(keys.take(i + 1)[i as int] == q);
                }
            }
        }
        i += 1;
    }
    proof {
        assert(keys.take(n as int) =~= keys);
    }
    (sizes, data)
}

// ---------------------------------------------------------------------------
// Hit testing
// ---------------------------------------------------------------------------

/// `mouse_to_cell(x, y)` for a buffer drawn at `(sx, sy)` with tiles of
/// `tw` by `th` pixels: the point relative to the buffer divided (toward
/// zero) by the tile size; `None` for a buffer not on screen, a point
/// left of or above it, a zero tile size, or (when its size is known) a
/// cell past its size.
pub open spec fn mouse_cell_spec(
    screen: Option<(i32, i32, i32, i32)>,
    size: Option<(u32, u32)>,
    mx: i32,
    my: i32,
) -> Option<(i64, i64)> {
    match screen {
        None => None,
        Some((sx, sy, tw, th)) => {
            let lx = mx - sx;
            let ly = my - sy;
            if lx < 0 || ly < 0 || tw == 0 || th == 0 {
                None
            } else {
                let cx = toward_zero_div(lx, tw as int) as i32;
                let cy = toward_zero_div(ly, th as int) as i32;
                match size {
                    Some((w, h)) => if (cx as u32) >= w || (cy as u32) >= h {
                        None
                    } else {
                        Some((cx as i64, cy as i64))
                    },
                    None => Some((cx as i64, cy as i64)),
                }
            }
        },
    }
}

/// Whether `mouse_cell` can run: the pointer's offset from the buffer's
/// origin fits in `i32`.
pub fn mouse_cell_ok(screen: Option<(i32, i32, i32, i32)>, mx: i32, my: i32) -> (b: bool)
    ensures
        b == (screen matches Some(s) ==> i32::MIN <= mx - s.0 <= i32::MAX && i32::MIN <= my - s.1 <= i32::MAX),
{
    match screen {
        None => true,
        Some((sx, sy, _, _)) => {
            let dx = mx as i64 - sx as i64;
            let dy = my as i64 - sy as i64;
            -0x8000_0000i64 <= dx && dx <= 0x7FFF_FFFFi64 && -0x8000_0000i64 <= dy && dy <= 0x7FFF_FFFFi64
        },
    }
}

pub fn mouse_cell(screen: Option<(i32, i32, i32, i32)>, size: Option<(u32, u32)>, mx: i32, my: i32) -> (r: Option<(i64, i64)>)
    requires
        screen matches Some(s) ==> i32::MIN <= mx - s.0 <= i32::MAX && i32::MIN <= my - s.1 <= i32::MAX,
    ensures
        r == mouse_cell_spec(screen, size, mx, my),
{
    match screen {
        None => None,
        Some((sx, sy, tw, th)) => {
            let lx = mx - sx;
            let ly = my - sy;
            if lx < 0 || ly < 0 || tw == 0 || th == 0 {
                return None;
            }
            let cx: i32 = if tw > 0 {
                lx / tw
            } else {
                let q: i64 = (lx as i64) / (-(tw as i64));
                (-q) as i32
            };
            let cy: i32 = if th > 0 {
                ly / th
            } else {
                let q: i64 = (ly as i64) / (-(th as i64));
                (-q) as i32
            };
            match size {
                Some((w, h)) => if (cx as u32) >= w || (cy as u32) >= h {
                    None
                } else {
                    Some((cx as i64, cy as i64))
                },
                None => Some((cx as i64, cy as i64)),
            }
        },
    }
}

/// The last name (in map order) that names buffer `b`.
pub open spec fn name_for(keys: Seq<Seq<char>>, vals: Seq<BufferKey>, b: BufferKey) -> Option<Seq<char>>
    decreases keys.len(),
{
    if keys.len() == 0 || vals.len() != keys.len() {
        None
    } else if vals.last() == b {
        Some(keys.last())
    } else {
        name_for(keys.drop_last(), vals.drop_last(), b)
    }
}

/// Screen position and tile size of each named buffer in the draw list,
/// in list order (a buffer listed twice keeps its last position).
pub open spec fn screen_positions_spec(
    items: Seq<RenderItem>,
    keys: Seq<Seq<char>>,
    vals: Seq<BufferKey>,
    buffers: Map<u64, Buffer>,
    glyphsets: Map<u64, crate::glyphset::Glyphset>,
) -> Map<Seq<char>, (i32, i32, i32, i32)>
    decreases items.len(),
{
    if items.len() == 0 {
        Map::empty()
    } else {
        let prev = screen_positions_spec(items.drop_last(), keys, vals, buffers, glyphsets);
        let it = items.last();
        let bk = slot_key(it.buffer.ffi);
        match name_for(keys, vals, it.buffer) {
            Some(n) => if buffers.contains_key(bk) && glyphsets.contains_key(slot_key(buffers[bk].glyphset.ffi)) {
                let g = glyphsets[slot_key(buffers[bk].glyphset.ffi)];
                prev.insert(n, (it.screen_x, it.screen_y, g.tile_w as i32, g.tile_h as i32))
            } else {
                prev
            },
            None => prev,
        }
    }
}

/// The name (last in map order) of buffer `b`.
fn name_of<'a>(buffer_map: &'a StrMap<BufferKey>, b: BufferKey) -> (r: Option<&'a String>)
    requires
        buffer_map.wf(),
    ensures
        match (r, name_for(buffer_map.key_seq(), buffer_map.value_seq(), b)) {
            (None, None) => true,
            (Some(s), Some(n)) => s@ == n,
            _ => false,
        },
{
    proof {
        buffer_map.lemma_keys();
    }
    let ghost keys = buffer_map.key_seq();
    let ghost vals = buffer_map.value_seq();
    let mut i: usize = buffer_map.len();
    assert(keys.take(keys.len() as int) =~= keys);
    assert(vals.take(vals.len() as int) =~= vals);
    while i > 0
        invariant
            i <= keys.len(),
            keys.len() == vals.len(),
            keys == buffer_map.key_seq(),
            vals == buffer_map.value_seq(),
            buffer_map.wf(),
            name_for(keys, vals, b) == name_for(keys.take(i as int), vals.take(i as int), b),
        decreases i,
    {
        let (k, v) = buffer_map.entry_at(i - 1);
        proof {
            assert(keys.take(i as int).drop_last() =~= keys.take(i - 1));
            assert(vals.take(i as int).drop_last() =~= vals.take(i - 1));
        }
        if *v == b {
            return Some(k);
        }
        i -= 1;
    }
    None
}

/// Where each named buffer of the last draw list lies on screen, with its
/// tile size (see `screen_positions_spec`).
pub fn screen_positions(render_list: &Vec<RenderItem>, grids: &Grids, buffer_map: &StrMap<BufferKey>) -> (r: StrMap<
    (i32, i32, i32, i32),
>)
    requires
        grids.wf(),
        buffer_map.wf(),
    ensures
        r.wf(),
        r@ == screen_positions_spec(
            render_list@,
            buffer_map.key_seq(),
            buffer_map.value_seq(),
            grids.buffers.map(),
            grids.assets.glyphset_map(),
        ),
{
    let mut out: StrMap<(i32, i32, i32, i32)> = StrMap::new();
    let n = render_list.len();
    let mut i: usize = 0;
    while i < n
        invariant
            n == render_list@.len(),
            i <= n,
            grids.wf(),
            buffer_map.wf(),
            out.wf(),
            out@ == screen_positions_spec(
                render_list@.take(i as int),
                buffer_map.key_seq(),
                buffer_map.value_seq(),
                grids.buffers.map(),
                grids.assets.glyphset_map(),
            ),
        decreases n - i,
    {
        let item = render_list[i];
        proof {
            assert(render_list@.take(i + 1).drop_last() =~= render_list@.take(i as int));
            assert(render_list@.take(i + 1).last() == item);
        }
        match name_of(buffer_map, item.buffer) {
            Some(name) => match grids.get(item.buffer) {
                Some(buf) => match grids.glyphset_size(buf.glyphset) {
                    Some((tw, th)) => {
                        out.insert(owned(name.as_str()), (item.screen_x, item.screen_y, tw as i32, th as i32));
                    },
                    None => {},
                },
                None => {},
            },
            None => {},
        }
        i += 1;
    }
    assert(render_list@.take(n as int) =~= render_list@);
    out
}

// ---------------------------------------------------------------------------
// Which scripts run, and which errors are reported
// ---------------------------------------------------------------------------

/// Frames between two reports of the same error.
pub const REPORT_INTERVAL: u64 = 180u64;

/// The scripts loaded, those without an `init` or an `update` function,
/// the frame of the last report of each error, and the frame count.
pub struct ScriptBook {
    pub scripts: StrMap<()>,
    pub missing_init: StrMap<()>,
    pub missing_update: StrMap<()>,
    pub logged_errors: StrMap<u64>,
    pub frame_count: u64,
}

impl ScriptBook {
    /// The maps are well formed and no report lies in the future.
    pub open spec fn wf(&self) -> bool {
        &&& self.scripts.wf()
        &&& self.missing_init.wf()
        &&& self.missing_update.wf()
        &&& self.logged_errors.wf()
        &&& forall|k: Seq<char>| #[trigger] self.logged_errors@.contains_key(k) ==> self.logged_errors@[k] <= self.frame_count
    }

    /// No scripts, frame 0.
    pub fn new() -> (b: ScriptBook)
        ensures
            b.wf(),
            b.scripts@.is_empty(),
            b.missing_init@.is_empty(),
            b.missing_update@.is_empty(),
            b.logged_errors@.is_empty(),
            b.frame_count == 0,
    {
        ScriptBook {
            scripts: StrMap::new(),
            missing_init: StrMap::new(),
            missing_update: StrMap::new(),
            logged_errors: StrMap::new(),
            frame_count: 0,
        }
    }

    /// Records a compiled script and whether it defines `init` and
    /// `update`; a script once found without one stays so marked.
    pub fn record_script(&mut self, name: &str, has_init: bool, has_update: bool)
        requires
            old(self).wf(),
        ensures
            final(self).wf(),
            final(self).scripts@ == old(self).scripts@.insert(name@, ()),
            final(self).missing_init@ == (if has_init {
                old(self).missing_init@
            } else {
                old(self).missing_init@.insert(name@, ())
            }),
            final(self).missing_update@ == (if has_update {
                old(self).missing_update@
            } else {
                old(self).missing_update@.insert(name@, ())
            }),
            final(self).logged_errors == old(self).logged_errors,
            final(self).frame_count == old(self).frame_count,
    {
        self.scripts.insert(owned(name), ());
        if !has_init {
            self.missing_init.insert(owned(name), ());
        }
        if !has_update {
            self.missing_update.insert(owned(name), ());
        }
    }

    /// Whether script `name` gets its `init` call.
    pub fn calls_init(&self, name: &str) -> (b: bool)
        requires
            self.wf(),
        ensures
            b == !self.missing_init@.contains_key(name@),
    {
        !self.missing_init.contains_key(name)
    }

    /// Whether script `name` gets its `update` calls.
    pub fn calls_update(&self, name: &str) -> (b: bool)
        requires
            self.wf(),
        ensures
            b == !self.missing_update@.contains_key(name@),
    {
        !self.missing_update.contains_key(name)
    }

    /// Stops `update` calls to script `name`.
    pub fn mark_no_update(&mut self, name: &str)
        requires
            old(self).wf(),
        ensures
            final(self).wf(),
            final(self).missing_update@ == old(self).missing_update@.insert(name@, ()),
            final(self).scripts == old(self).scripts,
            final(self).missing_init == old(self).missing_init,
            final(self).logged_errors == old(self).logged_errors,
            final(self).frame_count == old(self).frame_count,
    {
        self.missing_update.insert(owned(name), ());
    }

    /// Starts a frame and returns its number.
    pub fn begin_frame(&mut self) -> (f: u64)
        requires
            old(self).wf(),
            old(self).frame_count < u64::MAX,
        ensures
            final(self).wf(),
            f == old(self).frame_count + 1,
            final(self).frame_count == f,
            final(self).scripts == old(self).scripts,
            final(self).missing_init == old(self).missing_init,
            final(self).missing_update == old(self).missing_update,
            final(self).logged_errors == old(self).logged_errors,
    {
        self.frame_count = self.frame_count + 1;
        self.frame_count
    }

    /// Whether the error with key `key` is reported this frame: when it
    /// was never reported, or last reported at least `REPORT_INTERVAL`
    /// frames ago (a never-reported error counts as reported at frame 0);
    /// a reported error is stamped with this frame.
    pub fn should_report(&mut self, key: &str) -> (b: bool)
        requires
            old(self).wf(),
        ensures
            final(self).wf(),
            ({
                let last = if old(self).logged_errors@.contains_key(key@) {
                    old(self).logged_errors@[key@]
                } else {
                    0
                };
                &&& b == (old(self).frame_count - last >= REPORT_INTERVAL)
                &&& final(self).logged_errors@ == (if b {
                    old(self).logged_errors@.insert(key@, old(self).frame_count)
                } else {
                    old(self).logged_errors@
                })
            }),
            final(self).scripts == old(self).scripts,
            final(self).missing_init == old(self).missing_init,
            final(self).missing_update == old(self).missing_update,
            final(self).frame_count == old(self).frame_count,
    {
        let last: u64 = match self.logged_errors.get(key) {
            Some(f) => *f,
            None => 0,
        };
        if self.frame_count - last >= REPORT_INTERVAL {
            let f = self.frame_count;
            self.logged_errors.insert(owned(key), f);
            true
        } else {
            false
        }
    }

    /// The names of the loaded scripts, in load order.
    pub fn script_names(&self) -> (v: Vec<String>)
        requires
            self.wf(),
        ensures
            v@.len() == self.scripts.key_seq().len(),
            forall|i: int| 0 <= i < v@.len() ==> (#[trigger] v@[i])@ == self.scripts.key_seq()[i],
    {
        let n = self.scripts.len();
        let mut v: Vec<String> = Vec::new();
        let mut i: usize = 0;
        while i < n
            invariant
                n == self.scripts.key_seq().len(),
                i <= n,
                self.wf(),
                v@.len() == i,
                forall|t: int| 0 <= t < i ==> (#[trigger] v@[t])@ == self.scripts.key_seq()[t],
            decreases n - i,
        {
            let (k, _) = self.scripts.entry_at(i);
            v.push(owned(k.as_str()));
            i += 1;
        }
        v
    }

    /// Each loaded script with whether it gets `init` and `update` calls.
    pub fn script_info(&self) -> (v: Vec<(String, bool, bool)>)
        requires
            self.wf(),
        ensures
            v@.len() == self.scripts.key_seq().len(),
            forall|i: int|
                0 <= i < v@.len() ==> {
                    let n = self.scripts.key_seq()[i];
                    &&& (#[trigger] v@[i]).0@ == n
                    &&& v@[i].1 == !self.missing_init@.contains_key(n)
                    &&& v@[i].2 == !self.missing_update@.contains_key(n)
                },
    {
        let n = self.scripts.len();
        let mut v: Vec<(String, bool, bool)> = Vec::new();
        let mut i: usize = 0;
        while i < n
            invariant
                n == self.scripts.key_seq().len(),
                i <= n,
                self.wf(),
                v@.len() == i,
                forall|t: int|
                    0 <= t < i ==> {
                        let nm = self.scripts.key_seq()[t];
                        &&& (#[trigger] v@[t]).0@ == nm
                        &&& v@[t].1 == !self.missing_init@.contains_key(nm)
                        &&& v@[t].2 == !self.missing_update@.contains_key(nm)
                    },
            decreases n - i,
        {
            let (k, _) = self.scripts.entry_at(i);
            let has_init = self.calls_init(k.as_str());
            let has_update = self.calls_update(k.as_str());
            v.push((owned(k.as_str()), has_init, has_update));
            i += 1;
        }
        v
    }
}

/// Key under which an error of script `name` is throttled.
pub fn report_key(name: &str, message: &str) -> (k: String)
    ensures
        k@ == name@ + ":"@ + message@,
{
    let mut k = String::new();
    push_str(&mut k, name);
    push_str(&mut k, ":");
    push_str(&mut k, message);
    k
}

} // verus!
