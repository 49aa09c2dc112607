//! Window chrome: the decisions of a borderless window's own controls
//! (close, maximize, minimize, drag handle, resizing by the edges, F10,
//! F11 and Escape).
//!
//! Each frame the host hands `WindowChrome::update` what it read from the
//! window system and gets back what to do to the window.  Within one
//! update, the window is taken to read back the size and position that
//! the update's own earlier commands set.

use vstd::prelude::*;

verus! {

/// The part of the window border under the pointer.
#[derive(Debug, Clone, Copy, PartialEq, Eq, Structural)]
pub enum ResizeEdge {
    NoEdge,
    Left,
    Right,
    Top,
    Bottom,
    TopLeft,
    TopRight,
    BottomLeft,
    BottomRight,
}

/// Pointer shapes the chrome asks for.
#[derive(Debug, Clone, Copy, PartialEq, Eq, Structural)]
pub enum CursorShape {
    Default,
    ResizeEw,
    ResizeNs,
    ResizeNwse,
    ResizeNesw,
}

pub open spec fn cursor_for(e: ResizeEdge) -> CursorShape {
    match e {
        ResizeEdge::NoEdge => CursorShape::Default,
        ResizeEdge::Left | ResizeEdge::Right => CursorShape::ResizeEw,
        ResizeEdge::Top | ResizeEdge::Bottom => CursorShape::ResizeNs,
        ResizeEdge::TopLeft | ResizeEdge::BottomRight => CursorShape::ResizeNwse,
        ResizeEdge::TopRight | ResizeEdge::BottomLeft => CursorShape::ResizeNesw,
    }
}

impl ResizeEdge {
    /// The pointer shape shown over this edge.
    pub fn cursor_type(self) -> (c: CursorShape)
        ensures
            c == cursor_for(self),
    {
        match self {
            ResizeEdge::NoEdge => CursorShape::Default,
            ResizeEdge::Left | ResizeEdge::Right => CursorShape::ResizeEw,
            ResizeEdge::Top | ResizeEdge::Bottom => CursorShape::ResizeNs,
            ResizeEdge::TopLeft | ResizeEdge::BottomRight => CursorShape::ResizeNwse,
            ResizeEdge::TopRight | ResizeEdge::BottomLeft => CursorShape::ResizeNesw,
        }
    }
}

/// What the host is asked to do to the window.
#[derive(Debug, Clone, Copy, PartialEq, Eq, Structural)]
pub enum WindowCommand {
    SetCursor(CursorShape),
    SetSize(i32, i32),
    SetPosition(i32, i32),
    Minimize,
}

/// A rectangle in window pixels.
#[derive(Debug, Clone, Copy, PartialEq, Eq, Structural)]
pub struct Rect {
    pub x: i32,
    pub y: i32,
    pub w: i32,
    pub h: i32,
}

/// Where the controls lie in a window `screen_w` pixels wide.
#[derive(Debug, Clone, Copy, PartialEq, Eq, Structural)]
pub struct ChromeRects {
    pub close: Rect,
    pub maximize: Rect,
    pub minimize: Rect,
    pub drag: Rect,
}

/// What the host read this frame.  The `over_*` flags say whether the
/// pointer lies in the rectangles that `layout` gave for this
/// `screen_w`; `in_chrome_zone` whether it lies above
/// `chrome_zone_height`; `mouse_x`/`mouse_y` are the pointer's position in
/// the window and `global_mouse` on the desktop.
#[derive(Debug, Clone, Copy)]
pub struct ChromeInput {
    pub mouse_x: i32,
    pub mouse_y: i32,
    pub in_chrome_zone: bool,
    pub over_close: bool,
    pub over_maximize: bool,
    pub over_minimize: bool,
    pub over_drag: bool,
    pub pressed: bool,
    pub down: bool,
    pub released: bool,
    pub screen_w: i32,
    pub screen_h: i32,
    pub window_pos: (i32, i32),
    pub monitor_size: (i32, i32),
    pub key_f10: bool,
    pub key_f11: bool,
    pub key_escape: bool,
}

/// Size and position of the window as the chrome sees it during an
/// update.
#[derive(Debug, Clone, Copy, PartialEq, Eq, Structural)]
pub struct WindowEnv {
    pub w: i32,
    pub h: i32,
    pub x: i32,
    pub y: i32,
}

/// The outcome of one update: whether to close, and the commands in the
/// order they are to be carried out.
#[derive(Debug, Clone)]
pub struct ChromeStep {
    pub close: bool,
    pub commands: Vec<WindowCommand>,
}

/// State of the window controls.
#[derive(Debug, Clone, Copy)]
pub struct WindowChrome {
    pub button_size: i32,
    pub drag_width: i32,
    pub margin: i32,
    pub prev_size: (i32, i32),
    pub is_maximized: bool,
    pub is_fullscreen: bool,
    pub windowed_size: (i32, i32),
    pub windowed_pos: (i32, i32),
    pub is_dragging: bool,
    pub drag_offset: (i32, i32),
    pub is_resizing: bool,
    pub resize_edge: ResizeEdge,
    pub resize_start_size: (i32, i32),
    pub resize_start_pos: (i32, i32),
    pub resize_start_mouse: (i32, i32),
    pub edge_size: i32,
    pub min_size: (i32, i32),
    pub chrome_zone_height: i32,
    pub chrome_visible: bool,
}

/// Height kept free for the taskbar when maximizing.
pub const TASKBAR_HEIGHT: i32 = 40i32;

// ---------------------------------------------------------------------------
// Specification
// ---------------------------------------------------------------------------

/// The border part under `(mx, my)` of a `sw` by `sh` window, with
/// borders `e` pixels thick; corners win over sides, left over right,
/// top over bottom.
pub open spec fn edge_at(e: int, mx: int, my: int, sw: int, sh: int) -> ResizeEdge {
    let l = mx < e;
    let r = mx >= sw - e;
    let t = my < e;
    let b = my >= sh - e;
    if l && t {
        ResizeEdge::TopLeft
    } else if l && b {
        ResizeEdge::BottomLeft
    } else if r && t {
        ResizeEdge::TopRight
    } else if r && b {
        ResizeEdge::BottomRight
    } else if l {
        ResizeEdge::Left
    } else if r {
        ResizeEdge::Right
    } else if t {
        ResizeEdge::Top
    } else if b {
        ResizeEdge::Bottom
    } else {
        ResizeEdge::NoEdge
    }
}

/// The border part found under the pointer lies in every border band the
/// pointer is in and in no other: it moves the left side exactly when the
/// pointer is in the left band, the right side when it is in the right
/// band and not the left one, the top side when it is in the top band,
/// the bottom side when it is in the bottom band and not the top one.
/// So a point in a vertical and a horizontal band is a corner, and a
/// point in no band is no edge.
pub proof fn law_edge_lies_in_the_pointer_bands(e: int, mx: int, my: int, sw: int, sh: int)
    ensures
        ({
            let edge = edge_at(e, mx, my, sw, sh);
            let l = mx < e;
            let r = mx >= sw - e;
            let t = my < e;
            let b = my >= sh - e;
            &&& moves_left(edge) == l
            &&& moves_right(edge) == (r && !l)
            &&& moves_top(edge) == t
            &&& moves_bottom(edge) == (b && !t)
            &&& (edge == ResizeEdge::NoEdge) == !(l || r || t || b)
        }),
{
}

pub open spec fn moves_left(e: ResizeEdge) -> bool {
    e == ResizeEdge::Left || e == ResizeEdge::TopLeft || e == ResizeEdge::BottomLeft
}

pub open spec fn moves_top(e: ResizeEdge) -> bool {
    e == ResizeEdge::Top || e == ResizeEdge::TopLeft || e == ResizeEdge::TopRight
}

pub open spec fn moves_right(e: ResizeEdge) -> bool {
    e == ResizeEdge::Right || e == ResizeEdge::TopRight || e == ResizeEdge::BottomRight
}

pub open spec fn moves_bottom(e: ResizeEdge) -> bool {
    e == ResizeEdge::Bottom || e == ResizeEdge::BottomLeft || e == ResizeEdge::BottomRight
}

/// Window size and position `(w, h, x, y)` while dragging edge `e` with
/// the pointer moved by `(dx, dy)` from where the resize started: the
/// dragged sides follow the pointer, the size is kept at least `min`,
/// and a left or top side pushed back by that minimum moves back too.
pub open spec fn resize_geometry(
    e: ResizeEdge,
    size: (i32, i32),
    pos: (i32, i32),
    dx: int,
    dy: int,
    min: (i32, i32),
) -> (int, int, int, int) {
    let w0 = if moves_right(e) {
        size.0 + dx
    } else if moves_left(e) {
        size.0 - dx
    } else {
        size.0 as int
    };
    let x0 = if moves_left(e) {
        pos.0 + dx
    } else {
        pos.0 as int
    };
    let h0 = if moves_bottom(e) {
        size.1 + dy
    } else if moves_top(e) {
        size.1 - dy
    } else {
        size.1 as int
    };
    let y0 = if moves_top(e) {
        pos.1 + dy
    } else {
        pos.1 as int
    };
    let (w1, x1) = if w0 < min.0 {
        (min.0 as int, if moves_left(e) {
            x0 - (min.0 - w0)
        } else {
            x0
        })
    } else {
        (w0, x0)
    };
    let (h1, y1) = if h0 < min.1 {
        (min.1 as int, if moves_top(e) {
            y0 - (min.1 - h0)
        } else {
            y0
        })
    } else {
        (h0, y0)
    };
    (w1, h1, x1, y1)
}

pub open spec fn fits(v: int) -> bool {
    i32::MIN <= v <= i32::MAX
}

/// No step of `resize_geometry` leaves `i32`.
pub open spec fn resize_fits(e: ResizeEdge, size: (i32, i32), pos: (i32, i32), dx: int, dy: int, min: (i32, i32)) -> bool {
    let w0 = if moves_right(e) {
        size.0 + dx
    } else if moves_left(e) {
        size.0 - dx
    } else {
        size.0 as int
    };
    let x0 = if moves_left(e) {
        pos.0 + dx
    } else {
        pos.0 as int
    };
    let h0 = if moves_bottom(e) {
        size.1 + dy
    } else if moves_top(e) {
        size.1 - dy
    } else {
        size.1 as int
    };
    let y0 = if moves_top(e) {
        pos.1 + dy
    } else {
        pos.1 as int
    };
    &&& fits(dx) && fits(dy)
    &&& fits(w0) && fits(x0) && fits(h0) && fits(y0)
    &&& w0 < min.0 ==> fits(min.0 - w0) && (moves_left(e) ==> fits(x0 - (min.0 - w0)))
    &&& h0 < min.1 ==> fits(min.1 - h0) && (moves_top(e) ==> fits(y0 - (min.1 - h0)))
}

pub open spec fn env_after(env: WindowEnv, c: WindowCommand) -> WindowEnv {
    match c {
        WindowCommand::SetSize(w, h) => WindowEnv { w, h, ..env },
        WindowCommand::SetPosition(x, y) => WindowEnv { x, y, ..env },
        _ => env,
    }
}

/// Leaving or entering fullscreen (leaving maximized first).
#[verifier::opaque]
pub open spec fn fullscreen_toggled(s: WindowChrome, env: WindowEnv, monitor: (i32, i32)) -> (WindowChrome, Seq<WindowCommand>) {
    let s1 = WindowChrome { is_maximized: false, ..s };
    if s1.is_fullscreen {
        (
            WindowChrome { is_fullscreen: false, ..s1 },
            seq![
                WindowCommand::SetSize(s1.windowed_size.0, s1.windowed_size.1),
                WindowCommand::SetPosition(s1.windowed_pos.0, s1.windowed_pos.1),
            ],
        )
    } else {
        (
            WindowChrome { windowed_size: (env.w, env.h), windowed_pos: (env.x, env.y), is_fullscreen: true, ..s1 },
            seq![WindowCommand::SetPosition(0, 0), WindowCommand::SetSize(monitor.0, monitor.1)],
        )
    }
}

pub open spec fn env_after_all(env: WindowEnv, cs: Seq<WindowCommand>) -> WindowEnv
    decreases cs.len(),
{
    if cs.len() == 0 {
        env
    } else {
        env_after(env_after_all(env, cs.drop_last()), cs.last())
    }
}

/// Leaving or entering the maximized state (leaving fullscreen first);
/// maximized leaves the taskbar's height free.
#[verifier::opaque]
pub open spec fn maximize_toggled(s: WindowChrome, env: WindowEnv, monitor: (i32, i32)) -> (WindowChrome, Seq<WindowCommand>) {
    let (s1, c1) = if s.is_fullscreen {
        fullscreen_toggled(s, env, monitor)
    } else {
        (s, Seq::empty())
    };
    let env1 = env_after_all(env, c1);
    if s1.is_maximized {
        (
            WindowChrome { is_maximized: false, ..s1 },
            c1 + seq![
                WindowCommand::SetSize(s1.windowed_size.0, s1.windowed_size.1),
                WindowCommand::SetPosition(s1.windowed_pos.0, s1.windowed_pos.1),
            ],
        )
    } else {
        (
            WindowChrome { windowed_size: (env1.w, env1.h), windowed_pos: (env1.x, env1.y), is_maximized: true, ..s1 },
            c1 + seq![WindowCommand::SetPosition(0, 0), WindowCommand::SetSize(monitor.0, (monitor.1 - TASKBAR_HEIGHT) as i32)],
        )
    }
}

/// Maximizing a window and then restoring it puts it back at the size
/// and position it had, neither maximized nor fullscreen.
pub proof fn law_maximize_restores(s: WindowChrome, env: WindowEnv, monitor: (i32, i32))
    requires
        !s.is_maximized,
        !s.is_fullscreen,
    ensures
        ({
            let (s1, c1) = maximize_toggled(s, env, monitor);
            let env1 = env_after_all(env, c1);
            let (s2, c2) = maximize_toggled(s1, env1, monitor);
            &&& s1.is_maximized
            &&& env1.x == 0 && env1.y == 0 && env1.w == monitor.0
            &&& !s2.is_maximized && !s2.is_fullscreen
            &&& env_after_all(env1, c2) == env
        }),
{
    reveal(maximize_toggled);
    reveal(fullscreen_toggled);
    let (s1, c1) = maximize_toggled(s, env, monitor);
    assert(c1 =~= seq![WindowCommand::SetPosition(0, 0), WindowCommand::SetSize(monitor.0, (monitor.1 - TASKBAR_HEIGHT) as i32)]);
    reveal_with_fuel(env_after_all, 3);
    let env1 = env_after_all(env, c1);
    let (s2, c2) = maximize_toggled(s1, env1, monitor);
    assert(c2 =~= seq![
        WindowCommand::SetSize(env.w, env.h),
        WindowCommand::SetPosition(env.x, env.y),
    ]);
}

/// Entering fullscreen and leaving it again puts the window back at the
/// size and position it had.
pub proof fn law_fullscreen_restores(s: WindowChrome, env: WindowEnv, monitor: (i32, i32))
    requires
        !s.is_fullscreen,
    ensures
        ({
            let (s1, c1) = fullscreen_toggled(s, env, monitor);
            let env1 = env_after_all(env, c1);
            let (s2, c2) = fullscreen_toggled(s1, env1, monitor);
            &&& s1.is_fullscreen
            &&& env1 == (WindowEnv { w: monitor.0, h: monitor.1, x: 0, y: 0 })
            &&& !s2.is_fullscreen && !s2.is_maximized
            &&& env_after_all(env1, c2) == env
        }),
{
    reveal(fullscreen_toggled);
    let (s1, c1) = fullscreen_toggled(s, env, monitor);
    assert(c1 =~= seq![WindowCommand::SetPosition(0, 0), WindowCommand::SetSize(monitor.0, monitor.1)]);
    reveal_with_fuel(env_after_all, 3);
    let env1 = env_after_all(env, c1);
    let (s2, c2) = fullscreen_toggled(s1, env1, monitor);
    assert(c2 =~= seq![WindowCommand::SetSize(env.w, env.h), WindowCommand::SetPosition(env.x, env.y)]);
}

/// While a resize is in progress and the button is held, the chrome
/// gives the window one size and one position: at least the minimum
/// size, with the sides that are not dragged where they were when the
/// resize began (dragging the left or top side keeps the right or bottom
/// side in place).
pub proof fn law_resize_keeps_fixed_sides(s: WindowChrome, i: ChromeInput)
    requires
        s.is_resizing,
        !i.released,
        i.down,
        resize_fits(
            s.resize_edge,
            s.resize_start_size,
            s.resize_start_pos,
            i.window_pos.0 + i.mouse_x - s.resize_start_mouse.0,
            i.window_pos.1 + i.mouse_y - s.resize_start_mouse.1,
            s.min_size,
        ),
    ensures
        ({
            let (s2, cs) = phase_track(s, i);
            let (w0, h0) = s.resize_start_size;
            let (x0, y0) = s.resize_start_pos;
            &&& s2 == s
            &&& cs.len() == 2
            &&& cs[0] is SetSize && cs[1] is SetPosition
            &&& cs[0]->SetSize_0 >= s.min_size.0 && cs[0]->SetSize_1 >= s.min_size.1
            &&& if moves_left(s.resize_edge) {
                cs[1]->SetPosition_0 + cs[0]->SetSize_0 == x0 + w0
            } else {
                cs[1]->SetPosition_0 == x0
            }
            &&& if moves_top(s.resize_edge) {
                cs[1]->SetPosition_1 + cs[0]->SetSize_1 == y0 + h0
            } else {
                cs[1]->SetPosition_1 == y0
            }
        }),
{
    reveal(phase_track);
}

/// Whether `v` lies in `i32`'s range.
fn fits64(v: i64) -> (b: bool)
    ensures
        b == fits(v as int),
{
    -0x8000_0000i64 <= v && v <= 0x7FFF_FFFFi64
}

/// `resize_fits` on offsets that stay far inside `i64`.
fn resize_fits_exec(e: ResizeEdge, size: (i32, i32), pos: (i32, i32), dx: i64, dy: i64, min: (i32, i32)) -> (b: bool)
    requires
        -0x4_0000_0000i64 <= dx <= 0x4_0000_0000i64,
        -0x4_0000_0000i64 <= dy <= 0x4_0000_0000i64,
    ensures
        b == resize_fits(e, size, pos, dx as int, dy as int, min),
{
    let left = e == ResizeEdge::Left || e == ResizeEdge::TopLeft || e == ResizeEdge::BottomLeft;
    let right = e == ResizeEdge::Right || e == ResizeEdge::TopRight || e == ResizeEdge::BottomRight;
    let top = e == ResizeEdge::Top || e == ResizeEdge::TopLeft || e == ResizeEdge::TopRight;
    let bottom = e == ResizeEdge::Bottom || e == ResizeEdge::BottomLeft || e == ResizeEdge::BottomRight;
    let w0: i64 = if right {
        size.0 as i64 + dx
    } else if left {
        size.0 as i64 - dx
    } else {
        size.0 as i64
    };
    let x0: i64 = if left {
        pos.0 as i64 + dx
    } else {
        pos.0 as i64
    };
    let h0: i64 = if bottom {
        size.1 as i64 + dy
    } else if top {
        size.1 as i64 - dy
    } else {
        size.1 as i64
    };
    let y0: i64 = if top {
        pos.1 as i64 + dy
    } else {
        pos.1 as i64
    };
    let base = fits64(dx) && fits64(dy) && fits64(w0) && fits64(x0) && fits64(h0) && fits64(y0);
    let wide = w0 >= min.0 as i64 || (fits64(min.0 as i64 - w0) && (!left || fits64(x0 - (min.0 as i64 - w0))));
    let tall = h0 >= min.1 as i64 || (fits64(min.1 as i64 - h0) && (!top || fits64(y0 - (min.1 as i64 - h0))));
    base && wide && tall
}

/// No update changes the chrome's fixed measures: a chrome made by `new`
/// keeps its button, margin and edge sizes and its minimum window size
/// (200 by 100) through every update.
pub proof fn law_update_keeps_standard(s: WindowChrome, i: ChromeInput)
    requires
        s.standard(),
    ensures
        chrome_update(s, i).0.standard(),
{
    reveal(chrome_update);
    reveal(phase_hover);
    reveal(phase_track);
    reveal(phase_press);
    reveal(phase_keys);
    reveal(maximize_toggled);
    reveal(fullscreen_toggled);
}

/// A whole frame of the chrome while a resize is in progress, the button
/// is held and nothing is pressed (no click, no F10, F11 or Escape): the
/// window is not closed, the state only shows the controls, and the
/// window gets exactly one size, at least the minimum size, and then one
/// position, with the sides that are not dragged where they were when
/// the resize began.
pub proof fn law_update_while_resizing(s: WindowChrome, i: ChromeInput)
    requires
        s.is_resizing,
        i.down,
        !i.released,
        !i.pressed,
        !i.key_f10,
        !i.key_f11,
        !i.key_escape,
        resize_fits(
            s.resize_edge,
            s.resize_start_size,
            s.resize_start_pos,
            i.window_pos.0 + i.mouse_x - s.resize_start_mouse.0,
            i.window_pos.1 + i.mouse_y - s.resize_start_mouse.1,
            s.min_size,
        ),
    ensures
        ({
            let (s2, close, cs) = chrome_update(s, i);
            let (w0, h0) = s.resize_start_size;
            let (x0, y0) = s.resize_start_pos;
            &&& !close
            &&& s2 == (WindowChrome { chrome_visible: true, ..s })
            &&& cs.len() == 2
            &&& cs[0] is SetSize && cs[1] is SetPosition
            &&& cs[0]->SetSize_0 >= s.min_size.0 && cs[0]->SetSize_1 >= s.min_size.1
            &&& s.standard() ==> cs[0]->SetSize_0 >= 200 && cs[0]->SetSize_1 >= 100
            &&& if moves_left(s.resize_edge) {
                cs[1]->SetPosition_0 + cs[0]->SetSize_0 == x0 + w0
            } else {
                cs[1]->SetPosition_0 == x0
            }
            &&& if moves_top(s.resize_edge) {
                cs[1]->SetPosition_1 + cs[0]->SetSize_1 == y0 + h0
            } else {
                cs[1]->SetPosition_1 == y0
            }
        }),
{
    reveal(phase_hover);
    reveal(phase_press);
    reveal(phase_keys);
    let (sa, edge, ca) = phase_hover(s, i);
    assert(sa == (WindowChrome { chrome_visible: true, ..s }));
    assert(ca =~= Seq::<WindowCommand>::empty());
    law_resize_keeps_fixed_sides(sa, i);
    let (sb, cb) = phase_track(sa, i);
    let env0 = WindowEnv { w: i.screen_w, h: i.screen_h, x: i.window_pos.0, y: i.window_pos.1 };
    let env_b = env_after_all(env0, ca + cb);
    assert(sb == sa);
    let (sc, cc, stop) = phase_press(sb, i, edge, env_b);
    assert(sc == sa && stop is None);
    assert(cc =~= Seq::<WindowCommand>::empty());
    let env_c = env_after_all(env_b, cc);
    let (sd, cd, close) = phase_keys(sc, i, env_c);
    assert(cd =~= Seq::<WindowCommand>::empty());
    assert(sd == sa && !close);
    assert(ca + cb + cc + cd =~= cb);
    reveal(chrome_update);
}

impl WindowChrome {
    /// The controls' rectangles in a window `screen_w` pixels wide, from
    /// the right: close, maximize, minimize, then the drag handle.
    pub open spec fn rects_spec(&self, screen_w: int) -> (int, int, int, int) {
        (
            screen_w - self.margin - self.button_size,
            screen_w - self.margin * 2 - self.button_size * 2,
            screen_w - self.margin * 3 - self.button_size * 3,
            screen_w - self.margin * 4 - self.button_size * 3 - self.drag_width,
        )
    }

    /// The geometry constants as `new` sets them.
    pub open spec fn standard(&self) -> bool {
        &&& self.button_size == 24
        &&& self.drag_width == 60
        &&& self.margin == 4
        &&& self.edge_size == 6
        &&& self.min_size == (200i32, 100i32)
        &&& self.chrome_zone_height == 40
    }
}


// ---------------------------------------------------------------------------
// One update, phase by phase
// ---------------------------------------------------------------------------

/// Visibility, the edge under the pointer and the pointer shape.
#[verifier::opaque]
pub open spec fn phase_hover(s: WindowChrome, i: ChromeInput) -> (WindowChrome, ResizeEdge, Seq<WindowCommand>) {
    let vis = i.in_chrome_zone || s.is_dragging || s.is_resizing;
    let edge = if !s.is_maximized && !s.is_fullscreen && !s.is_dragging {
        edge_at(s.edge_size as int, i.mouse_x as int, i.mouse_y as int, i.screen_w as int, i.screen_h as int)
    } else {
        ResizeEdge::NoEdge
    };
    let cmds = if !s.is_resizing {
        seq![WindowCommand::SetCursor(cursor_for(edge))]
    } else {
        Seq::empty()
    };
    (WindowChrome { chrome_visible: vis, ..s }, edge, cmds)
}

/// A resize or drag in progress follows the pointer or ends.
#[verifier::opaque]
pub open spec fn phase_track(s: WindowChrome, i: ChromeInput) -> (WindowChrome, Seq<WindowCommand>) {
    let gx = i.window_pos.0 + i.mouse_x;
    let gy = i.window_pos.1 + i.mouse_y;
    if s.is_resizing {
        if i.released {
            (WindowChrome { is_resizing: false, ..s }, seq![WindowCommand::SetCursor(CursorShape::Default)])
        } else if i.down {
            let g = resize_geometry(
                s.resize_edge,
                s.resize_start_size,
                s.resize_start_pos,
                gx - s.resize_start_mouse.0,
                gy - s.resize_start_mouse.1,
                s.min_size,
            );
            (s, seq![WindowCommand::SetSize(g.0 as i32, g.1 as i32), WindowCommand::SetPosition(g.2 as i32, g.3 as i32)])
        } else {
            (s, Seq::empty())
        }
    } else if s.is_dragging {
        if i.released {
            (WindowChrome { is_dragging: false, ..s }, Seq::empty())
        } else if i.down && !s.is_maximized && !s.is_fullscreen {
            (s, seq![WindowCommand::SetPosition((gx - s.drag_offset.0) as i32, (gy - s.drag_offset.1) as i32)])
        } else {
            (s, Seq::empty())
        }
    } else {
        (s, Seq::empty())
    }
}

/// A press on a control or on an edge; `Some(close)` where the update
/// ends there.
#[verifier::opaque]
pub open spec fn phase_press(s: WindowChrome, i: ChromeInput, edge: ResizeEdge, env: WindowEnv) -> (
    WindowChrome,
    Seq<WindowCommand>,
    Option<bool>,
) {
    if !i.pressed {
        (s, Seq::empty(), None)
    } else if s.chrome_visible && i.over_close {
        (s, Seq::empty(), Some(true))
    } else if s.chrome_visible && i.over_maximize {
        let t = maximize_toggled(s, env, i.monitor_size);
        (t.0, t.1, Some(false))
    } else if s.chrome_visible && i.over_minimize {
        (s, seq![WindowCommand::Minimize], Some(false))
    } else if s.chrome_visible && i.over_drag && !s.is_maximized && !s.is_fullscreen {
        (WindowChrome { is_dragging: true, drag_offset: (i.mouse_x, i.mouse_y), ..s }, Seq::empty(), Some(false))
    } else if edge != ResizeEdge::NoEdge {
        (
            WindowChrome {
                is_resizing: true,
                resize_edge: edge,
                resize_start_size: (i.screen_w, i.screen_h),
                resize_start_pos: (env.x, env.y),
                resize_start_mouse: ((env.x + i.mouse_x) as i32, (env.y + i.mouse_y) as i32),
                ..s
            },
            Seq::empty(),
            None,
        )
    } else {
        (s, Seq::empty(), None)
    }
}

/// F11 toggles fullscreen, F10 maximized; Escape leaves fullscreen, else
/// maximized, else closes.
#[verifier::opaque]
pub open spec fn phase_keys(s: WindowChrome, i: ChromeInput, env: WindowEnv) -> (WindowChrome, Seq<WindowCommand>, bool) {
    let (s1, c1) = if i.key_f11 {
        fullscreen_toggled(s, env, i.monitor_size)
    } else {
        (s, Seq::empty())
    };
    let env1 = env_after_all(env, c1);
    let (s2, c2) = if i.key_f10 {
        maximize_toggled(s1, env1, i.monitor_size)
    } else {
        (s1, Seq::empty())
    };
    let env2 = env_after_all(env1, c2);
    if i.key_escape {
        if s2.is_fullscreen {
            let t = fullscreen_toggled(s2, env2, i.monitor_size);
            (t.0, c1 + c2 + t.1, false)
        } else if s2.is_maximized {
            let t = maximize_toggled(s2, env2, i.monitor_size);
            (t.0, c1 + c2 + t.1, false)
        } else {
            (s2, c1 + c2, true)
        }
    } else {
        (s2, c1 + c2, false)
    }
}

/// The state after an update, whether to close, and the commands.
#[verifier::opaque]
pub open spec fn chrome_update(s: WindowChrome, i: ChromeInput) -> (WindowChrome, bool, Seq<WindowCommand>) {
    let (sa, edge, ca) = phase_hover(s, i);
    let (sb, cb) = phase_track(sa, i);
    let env0 = WindowEnv { w: i.screen_w, h: i.screen_h, x: i.window_pos.0, y: i.window_pos.1 };
    let env_b = env_after_all(env0, ca + cb);
    let (sc, cc, stop) = phase_press(sb, i, edge, env_b);
    match stop {
        Some(close) => (sc, close, ca + cb + cc),
        None => {
            let env_c = env_after_all(env_b, cc);
            let (sd, cd, close) = phase_keys(sc, i, env_c);
            (sd, close, ca + cb + cc + cd)
        },
    }
}


/// Entering maximized from `(s, env)` subtracts the taskbar from the
/// monitor height; that must fit.
#[verifier::opaque]
pub open spec fn maximize_ok(s: WindowChrome, env: WindowEnv, monitor: (i32, i32)) -> bool {
    let s1 = if s.is_fullscreen {
        fullscreen_toggled(s, env, monitor).0
    } else {
        s
    };
    !s1.is_maximized ==> fits(monitor.1 - TASKBAR_HEIGHT)
}

/// The arithmetic of the control rectangles fits in `i32`.
pub open spec fn rects_fit(s: WindowChrome, screen_w: i32) -> bool {
    &&& fits(s.margin * 2) && fits(s.margin * 3) && fits(s.margin * 4)
    &&& fits(s.button_size * 2) && fits(s.button_size * 3)
    &&& fits(screen_w - s.margin) && fits(screen_w - s.margin - s.button_size)
    &&& fits(screen_w - s.margin * 2) && fits(screen_w - s.margin * 2 - s.button_size * 2)
    &&& fits(screen_w - s.margin * 3) && fits(screen_w - s.margin * 3 - s.button_size * 3)
    &&& fits(screen_w - s.margin * 4) && fits(screen_w - s.margin * 4 - s.button_size * 3)
    &&& fits(screen_w - s.margin * 4 - s.button_size * 3 - s.drag_width)
}

/// The edge test fits in `i32`.
#[verifier::opaque]
pub open spec fn hover_ok(s: WindowChrome, i: ChromeInput) -> bool {
    (!s.is_maximized && !s.is_fullscreen && !s.is_dragging) ==> fits(i.screen_w - s.edge_size) && fits(
        i.screen_h - s.edge_size,
    )
}

/// Following a resize or drag fits in `i32`.
#[verifier::opaque]
pub open spec fn track_ok(s: WindowChrome, i: ChromeInput) -> bool {
    let gx = i.window_pos.0 + i.mouse_x;
    let gy = i.window_pos.1 + i.mouse_y;
    &&& (s.is_resizing && !i.released && i.down) ==> fits(gx) && fits(gy) && resize_fits(
        s.resize_edge,
        s.resize_start_size,
        s.resize_start_pos,
        gx - s.resize_start_mouse.0,
        gy - s.resize_start_mouse.1,
        s.min_size,
    )
    &&& (!s.is_resizing && s.is_dragging && !i.released && i.down && !s.is_maximized && !s.is_fullscreen) ==> fits(gx)
        && fits(gy) && fits(gx - s.drag_offset.0) && fits(gy - s.drag_offset.1)
}

/// A press fits in `i32`.
#[verifier::opaque]
pub open spec fn press_ok(s: WindowChrome, i: ChromeInput, edge: ResizeEdge, env: WindowEnv) -> bool {
    &&& (i.pressed && s.chrome_visible && !i.over_close && i.over_maximize) ==> maximize_ok(s, env, i.monitor_size)
    &&& (i.pressed && !(s.chrome_visible && (i.over_close || i.over_maximize || i.over_minimize || (i.over_drag
        && !s.is_maximized && !s.is_fullscreen))) && edge != ResizeEdge::NoEdge) ==> fits(env.x + i.mouse_x) && fits(
        env.y + i.mouse_y,
    )
}

/// `update` runs without an arithmetic overflow.
#[verifier::opaque]
pub open spec fn update_ok(s: WindowChrome, i: ChromeInput) -> bool {
    let (sa, edge, ca) = phase_hover(s, i);
    let (sb, cb) = phase_track(sa, i);
    let env0 = WindowEnv { w: i.screen_w, h: i.screen_h, x: i.window_pos.0, y: i.window_pos.1 };
    let env_b = env_after_all(env0, ca + cb);
    let (sc, cc, stop) = phase_press(sb, i, edge, env_b);
    let env_c = env_after_all(env_b, cc);
    &&& rects_fit(s, i.screen_w)
    &&& hover_ok(s, i)
    &&& track_ok(s, i)
    &&& press_ok(sb, i, edge, env_b)
    &&& stop.is_none() ==> keys_ok(sc, i, env_c)
}

/// The key phase enters maximized only where that fits.
#[verifier::opaque]
pub open spec fn keys_ok(s: WindowChrome, i: ChromeInput, env: WindowEnv) -> bool {
    let (s1, c1) = if i.key_f11 {
        fullscreen_toggled(s, env, i.monitor_size)
    } else {
        (s, Seq::empty())
    };
    let env1 = env_after_all(env, c1);
    let (s2, c2) = if i.key_f10 {
        maximize_toggled(s1, env1, i.monitor_size)
    } else {
        (s1, Seq::empty())
    };
    let env2 = env_after_all(env1, c2);
    &&& i.key_f10 ==> maximize_ok(s1, env1, i.monitor_size)
    &&& (i.key_escape && !s2.is_fullscreen && s2.is_maximized) ==> maximize_ok(s2, env2, i.monitor_size)
}

proof fn lemma_env_concat(env: WindowEnv, a: Seq<WindowCommand>, b: Seq<WindowCommand>)
    ensures
        env_after_all(env, a + b) == env_after_all(env_after_all(env, a), b),
    decreases b.len(),
{
    if b.len() == 0 {
        assert(a + b =~= a);
    } else {
        lemma_env_concat(env, a, b.drop_last());
        assert((a + b).drop_last() =~= a + b.drop_last());
        assert((a + b).last() == b.last());
    }
}

proof fn lemma_env_push(env: WindowEnv, a: Seq<WindowCommand>, c: WindowCommand)
    ensures
        env_after_all(env, a.push(c)) == env_after(env_after_all(env, a), c),
{
    assert(a.push(c).drop_last() =~= a);
}

impl WindowChrome {
    /// Controls of the standard size, nothing in progress, not maximized,
    /// windowed size `w` by `h` at `(100, 100)`.
    pub fn new(window_width: i32, window_height: i32) -> (c: WindowChrome)
        ensures
            c.standard(),
            c.prev_size == (window_width, window_height),
            c.windowed_size == (window_width, window_height),
            c.windowed_pos == (100i32, 100i32),
            !c.is_maximized && !c.is_fullscreen && !c.is_dragging && !c.is_resizing && !c.chrome_visible,
            c.drag_offset == (0i32, 0i32),
            c.resize_edge == ResizeEdge::NoEdge,
            c.resize_start_size == (0i32, 0i32) && c.resize_start_pos == (0i32, 0i32) && c.resize_start_mouse == (0i32, 0i32),
    {
        WindowChrome {
            button_size: 24,
            drag_width: 60,
            margin: 4,
            prev_size: (window_width, window_height),
            is_maximized: false,
            is_fullscreen: false,
            windowed_size: (window_width, window_height),
            windowed_pos: (100, 100),
            is_dragging: false,
            drag_offset: (0, 0),
            is_resizing: false,
            resize_edge: ResizeEdge::NoEdge,
            resize_start_size: (0, 0),
            resize_start_pos: (0, 0),
            resize_start_mouse: (0, 0),
            edge_size: 6,
            min_size: (200, 100),
            chrome_zone_height: 40,
            chrome_visible: false,
        }
    }

    /// Reports a new window size once: `Some` when `current` differs from
    /// the size seen last.
    pub fn check_resize(&mut self, current: (i32, i32)) -> (r: Option<(i32, i32)>)
        ensures
            current != old(self).prev_size ==> r == Some(current) && *final(self) == (WindowChrome { prev_size: current, ..*old(self) }),
            current == old(self).prev_size ==> r.is_none() && *final(self) == *old(self),
    {
        if current.0 != self.prev_size.0 || current.1 != self.prev_size.1 {
            self.prev_size = current;
            Some(current)
        } else {
            None
        }
    }

    /// How many tiles of `tile_w` by `tile_h` fit in the window.
    pub fn recommended_buffer_size(&self, screen_w: i32, screen_h: i32, tile_w: u32, tile_h: u32) -> (r: (u32, u32))
        requires
            tile_w > 0,
            tile_h > 0,
        ensures
            r == ((screen_w as u32) / tile_w, (screen_h as u32) / tile_h),
    {
        ((screen_w as u32) / tile_w, (screen_h as u32) / tile_h)
    }

    /// The controls' rectangles in a window `screen_w` pixels wide.
    pub fn layout(&self, screen_w: i32) -> (r: ChromeRects)
        requires
            rects_fit(*self, screen_w),
        ensures
            r.close == (Rect { x: self.rects_spec(screen_w as int).0 as i32, y: self.margin, w: self.button_size, h: self.button_size }),
            r.maximize == (Rect { x: self.rects_spec(screen_w as int).1 as i32, y: self.margin, w: self.button_size, h: self.button_size }),
            r.minimize == (Rect { x: self.rects_spec(screen_w as int).2 as i32, y: self.margin, w: self.button_size, h: self.button_size }),
            r.drag == (Rect { x: self.rects_spec(screen_w as int).3 as i32, y: self.margin, w: self.drag_width, h: self.button_size }),
    {
        let m = self.margin;
        let b = self.button_size;
        ChromeRects {
            close: Rect { x: screen_w - m - b, y: m, w: b, h: b },
            maximize: Rect { x: screen_w - m * 2 - b * 2, y: m, w: b, h: b },
            minimize: Rect { x: screen_w - m * 3 - b * 3, y: m, w: b, h: b },
            drag: Rect { x: screen_w - m * 4 - b * 3 - self.drag_width, y: m, w: self.drag_width, h: b },
        }
    }

    /// The border part under `(mx, my)` in a `sw` by `sh` window.
    pub fn detect_edge(&self, mx: i32, my: i32, sw: i32, sh: i32) -> (e: ResizeEdge)
        requires
            fits(sw - self.edge_size),
            fits(sh - self.edge_size),
        ensures
            e == edge_at(self.edge_size as int, mx as int, my as int, sw as int, sh as int),
    {
        let e = self.edge_size;
        let on_left = mx < e;
        let on_right = mx >= sw - e;
        let on_top = my < e;
        let on_bottom = my >= sh - e;
        if on_left && on_top {
            ResizeEdge::TopLeft
        } else if on_left && on_bottom {
            ResizeEdge::BottomLeft
        } else if on_right && on_top {
            ResizeEdge::TopRight
        } else if on_right && on_bottom {
            ResizeEdge::BottomRight
        } else if on_left {
            ResizeEdge::Left
        } else if on_right {
            ResizeEdge::Right
        } else if on_top {
            ResizeEdge::Top
        } else if on_bottom {
            ResizeEdge::Bottom
        } else {
            ResizeEdge::NoEdge
        }
    }

    fn push_cmd(env: &mut WindowEnv, cmds: &mut Vec<WindowCommand>, c: WindowCommand)
        ensures
            final(cmds)@ == old(cmds)@.push(c),
            *final(env) == env_after(*old(env), c),
    {
        match c {
            WindowCommand::SetSize(w, h) => {
                env.w = w;
                env.h = h;
            },
            WindowCommand::SetPosition(x, y) => {
                env.x = x;
                env.y = y;
            },
            _ => {},
        }
        cmds.push(c);
    }

    fn toggle_fullscreen(&mut self, env: &mut WindowEnv, cmds: &mut Vec<WindowCommand>, monitor: (i32, i32))
        ensures
            ({
                let t = fullscreen_toggled(*old(self), *old(env), monitor);
                &&& *final(self) == t.0
                &&& final(cmds)@ == old(cmds)@ + t.1
                &&& *final(env) == env_after_all(*old(env), t.1)
            }),
    {
        proof {
            reveal(fullscreen_toggled);
        }
        let ghost c0 = cmds@;
        if self.is_maximized {
            self.is_maximized = false;
        }
        if self.is_fullscreen {
            let (ww, wh) = self.windowed_size;
            let (wx, wy) = self.windowed_pos;
            Self::push_cmd(env, cmds, WindowCommand::SetSize(ww, wh));
            Self::push_cmd(env, cmds, WindowCommand::SetPosition(wx, wy));
            self.is_fullscreen = false;
        } else {
            self.windowed_size = (env.w, env.h);
            self.windowed_pos = (env.x, env.y);
            Self::push_cmd(env, cmds, WindowCommand::SetPosition(0, 0));
            Self::push_cmd(env, cmds, WindowCommand::SetSize(monitor.0, monitor.1));
            self.is_fullscreen = true;
        }
        proof {
            let t = fullscreen_toggled(*old(self), *old(env), monitor);
            assert(cmds@ =~= c0 + t.1);
            lemma_env_push(*old(env), seq![t.1[0]], t.1[1]);
            lemma_env_push(*old(env), Seq::<WindowCommand>::empty(), t.1[0]);
            assert(seq![t.1[0]].push(t.1[1]) =~= t.1);
            assert(Seq::<WindowCommand>::empty().push(t.1[0]) =~= seq![t.1[0]]);
        }
    }

    fn toggle_maximize(&mut self, env: &mut WindowEnv, cmds: &mut Vec<WindowCommand>, monitor: (i32, i32))
        requires
            maximize_ok(*old(self), *old(env), monitor),
        ensures
            ({
                let t = maximize_toggled(*old(self), *old(env), monitor);
                &&& *final(self) == t.0
                &&& final(cmds)@ == old(cmds)@ + t.1
                &&& *final(env) == env_after_all(*old(env), t.1)
            }),
    {
        proof {
            reveal(maximize_toggled);
            reveal(fullscreen_toggled);
            reveal(maximize_ok);
        }
        let ghost c0 = cmds@;
        let ghost e0 = *env;
        if self.is_fullscreen {
            self.toggle_fullscreen(env, cmds, monitor);
        }
        let ghost c1 = cmds@;
        let ghost e1 = *env;
        if self.is_maximized {
            let (ww, wh) = self.windowed_size;
            let (wx, wy) = self.windowed_pos;
            Self::push_cmd(env, cmds, WindowCommand::SetSize(ww, wh));
            Self::push_cmd(env, cmds, WindowCommand::SetPosition(wx, wy));
            self.is_maximized = false;
        } else {
            self.windowed_size = (env.w, env.h);
            self.windowed_pos = (env.x, env.y);
            let taskbar_height = TASKBAR_HEIGHT;
            Self::push_cmd(env, cmds, WindowCommand::SetPosition(0, 0));
            Self::push_cmd(env, cmds, WindowCommand::SetSize(monitor.0, monitor.1 - taskbar_height));
            self.is_maximized = true;
        }
        proof {
            let t = maximize_toggled(*old(self), e0, monitor);
            let pre = c1.subrange(c0.len() as int, c1.len() as int);
            assert(c1 =~= c0 + pre);
            if old(self).is_fullscreen {
                assert(pre =~= fullscreen_toggled(*old(self), e0, monitor).1);
            } else {
                assert(pre =~= Seq::<WindowCommand>::empty());
                assert(env_after_all(e0, pre) == e0);
            }
            let tail = cmds@.subrange(c1.len() as int, cmds@.len() as int);
            assert(cmds@ =~= c0 + (pre + tail));
            lemma_env_push(e1, seq![tail[0]], tail[1]);
            lemma_env_push(e1, Seq::<WindowCommand>::empty(), tail[0]);
            assert(seq![tail[0]].push(tail[1]) =~= tail);
            assert(Seq::<WindowCommand>::empty().push(tail[0]) =~= seq![tail[0]]);
            lemma_env_concat(e0, pre, tail);
            assert(e1 == env_after_all(e0, pre));
            assert(pre == (if old(self).is_fullscreen {
                fullscreen_toggled(*old(self), e0, monitor).1
            } else {
                Seq::empty()
            }));
            assert(*env == env_after_all(e1, tail));
            assert(*env == env_after_all(e0, pre + tail));
            assert(*self == t.0);
            assert(pre + tail =~= t.1);
        }
    }
}


/// `update_ok` taken apart along the phases.
proof fn lemma_update_ok_parts(s: WindowChrome, i: ChromeInput)
    requires
        update_ok(s, i),
    ensures
        rects_fit(s, i.screen_w),
        hover_ok(s, i),
        track_ok(s, i),
        ({
            let (sa, edge, ca) = phase_hover(s, i);
            let (sb, cb) = phase_track(sa, i);
            let env0 = WindowEnv { w: i.screen_w, h: i.screen_h, x: i.window_pos.0, y: i.window_pos.1 };
            let env_b = env_after_all(env0, ca + cb);
            let (sc, cc, stop) = phase_press(sb, i, edge, env_b);
            let env_c = env_after_all(env_b, cc);
            &&& press_ok(sb, i, edge, env_b)
            &&& stop.is_none() ==> keys_ok(sc, i, env_c)
        }),
{
    reveal(update_ok);
}

/// `chrome_update` put together from its phases.
proof fn lemma_update_parts(
    s: WindowChrome,
    i: ChromeInput,
    sa: WindowChrome,
    edge: ResizeEdge,
    ca: Seq<WindowCommand>,
    sb: WindowChrome,
    cb: Seq<WindowCommand>,
    env_b: WindowEnv,
    sc: WindowChrome,
    cc: Seq<WindowCommand>,
    stop: Option<bool>,
)
    requires
        phase_hover(s, i) == (sa, edge, ca),
        phase_track(sa, i) == (sb, cb),
        env_b == env_after_all(WindowEnv { w: i.screen_w, h: i.screen_h, x: i.window_pos.0, y: i.window_pos.1 }, ca + cb),
        phase_press(sb, i, edge, env_b) == (sc, cc, stop),
    ensures
        stop.is_some() ==> chrome_update(s, i) == (sc, stop.unwrap(), ca + cb + cc),
        stop.is_none() ==> {
            let (sd, cd, close) = phase_keys(sc, i, env_after_all(env_b, cc));
            chrome_update(s, i) == (sd, close, ca + cb + cc + cd)
        },
{
    reveal(chrome_update);
}

impl WindowChrome {
    /// Size and position while resizing, the pointer moved by
    /// `(dmx, dmy)` since the resize started.
    fn resize_to(&self, dmx: i32, dmy: i32) -> (r: (i32, i32, i32, i32))
        requires
            resize_fits(self.resize_edge, self.resize_start_size, self.resize_start_pos, dmx as int, dmy as int, self.min_size),
        ensures
            (r.0 as int, r.1 as int, r.2 as int, r.3 as int) == resize_geometry(
                self.resize_edge,
                self.resize_start_size,
                self.resize_start_pos,
                dmx as int,
                dmy as int,
                self.min_size,
            ),
    {
        let (mut new_w, mut new_h) = self.resize_start_size;
        let (mut new_x, mut new_y) = self.resize_start_pos;
        match self.resize_edge {
            ResizeEdge::Right => {
                new_w += dmx;
            },
            ResizeEdge::Bottom => {
                new_h += dmy;
            },
            ResizeEdge::Left => {
                new_w -= dmx;
                new_x += dmx;
            },
            ResizeEdge::Top => {
                new_h -= dmy;
                new_y += dmy;
            },
            ResizeEdge::BottomRight => {
                new_w += dmx;
                new_h += dmy;
            },
            ResizeEdge::BottomLeft => {
                new_w -= dmx;
                new_x += dmx;
                new_h += dmy;
            },
            ResizeEdge::TopRight => {
                new_w += dmx;
                new_h -= dmy;
                new_y += dmy;
            },
            ResizeEdge::TopLeft => {
                new_w -= dmx;
                new_x += dmx;
                new_h -= dmy;
                new_y += dmy;
            },
            ResizeEdge::NoEdge => {},
        }
        if new_w < self.min_size.0 {
            let diff = self.min_size.0 - new_w;
            new_w = self.min_size.0;
            if self.resize_edge == ResizeEdge::Left || self.resize_edge == ResizeEdge::TopLeft || self.resize_edge
                == ResizeEdge::BottomLeft {
                new_x -= diff;
            }
        }
        if new_h < self.min_size.1 {
            let diff = self.min_size.1 - new_h;
            new_h = self.min_size.1;
            if self.resize_edge == ResizeEdge::Top || self.resize_edge == ResizeEdge::TopLeft || self.resize_edge
                == ResizeEdge::TopRight {
                new_y -= diff;
            }
        }
        (new_w, new_h, new_x, new_y)
    }

    fn hover_phase(&mut self, i: &ChromeInput, env: &mut WindowEnv, cmds: &mut Vec<WindowCommand>) -> (edge: ResizeEdge)
        requires
            hover_ok(*old(self), *i),
        ensures
            ({
                let t = phase_hover(*old(self), *i);
                &&& *final(self) == t.0
                &&& edge == t.1
                &&& final(cmds)@ == old(cmds)@ + t.2
                &&& *final(env) == env_after_all(*old(env), t.2)
            }),
            *final(env) == *old(env),
    {
        proof {
            reveal(phase_hover);
            reveal(hover_ok);
        }
        let ghost c0 = cmds@;
        let ghost e0 = *env;
        self.chrome_visible = i.in_chrome_zone || self.is_dragging || self.is_resizing;
        let edge = if !self.is_maximized && !self.is_fullscreen && !self.is_dragging {
            self.detect_edge(i.mouse_x, i.mouse_y, i.screen_w, i.screen_h)
        } else {
            ResizeEdge::NoEdge
        };
        if !self.is_resizing {
            Self::push_cmd(env, cmds, WindowCommand::SetCursor(edge.cursor_type()));
            proof {
                let c = WindowCommand::SetCursor(cursor_for(edge));
                lemma_env_push(e0, Seq::empty(), c);
                assert(Seq::<WindowCommand>::empty().push(c) =~= seq![c]);
                assert(cmds@ =~= c0 + seq![c]);
            }
        } else {
            assert(cmds@ =~= c0 + Seq::<WindowCommand>::empty());
        }
        edge
    }

    fn track_phase(&mut self, i: &ChromeInput, env: &mut WindowEnv, cmds: &mut Vec<WindowCommand>)
        requires
            old(env).x == i.window_pos.0,
            old(env).y == i.window_pos.1,
            track_ok(*old(self), *i),
        ensures
            ({
                let t = phase_track(*old(self), *i);
                &&& *final(self) == t.0
                &&& final(cmds)@ == old(cmds)@ + t.1
                &&& *final(env) == env_after_all(*old(env), t.1)
            }),
    {
        proof {
            reveal(phase_track);
            reveal(track_ok);
        }
        let ghost c0 = cmds@;
        let ghost e0 = *env;
        if self.is_resizing {
            if i.released {
                self.is_resizing = false;
                let c = WindowCommand::SetCursor(CursorShape::Default);
                Self::push_cmd(env, cmds, c);
                proof {
                    lemma_env_push(e0, Seq::empty(), c);
                    assert(Seq::<WindowCommand>::empty().push(c) =~= seq![c]);
                    assert(cmds@ =~= c0 + seq![c]);
                }
                return;
            } else if i.down {
                let gx = env.x + i.mouse_x;
                let gy = env.y + i.mouse_y;
                let dmx = gx - self.resize_start_mouse.0;
                let dmy = gy - self.resize_start_mouse.1;
                let (w, h, x, y) = self.resize_to(dmx, dmy);
                let c1 = WindowCommand::SetSize(w, h);
                let c2 = WindowCommand::SetPosition(x, y);
                Self::push_cmd(env, cmds, c1);
                Self::push_cmd(env, cmds, c2);
                proof {
                    lemma_env_push(e0, Seq::empty(), c1);
                    lemma_env_push(e0, seq![c1], c2);
                    assert(Seq::<WindowCommand>::empty().push(c1) =~= seq![c1]);
                    assert(seq![c1].push(c2) =~= seq![c1, c2]);
                    assert(cmds@ =~= c0 + seq![c1, c2]);
                }
                return;
            }
        } else if self.is_dragging {
            if i.released {
                self.is_dragging = false;
            } else if i.down && !self.is_maximized && !self.is_fullscreen {
                let gx = env.x + i.mouse_x;
                let gy = env.y + i.mouse_y;
                let c = WindowCommand::SetPosition(gx - self.drag_offset.0, gy - self.drag_offset.1);
                Self::push_cmd(env, cmds, c);
                proof {
                    lemma_env_push(e0, Seq::empty(), c);
                    assert(Seq::<WindowCommand>::empty().push(c) =~= seq![c]);
                    assert(cmds@ =~= c0 + seq![c]);
                }
                return;
            }
        }
        assert(cmds@ =~= c0 + Seq::<WindowCommand>::empty());
    }

    fn press_phase(&mut self, i: &ChromeInput, edge: ResizeEdge, env: &mut WindowEnv, cmds: &mut Vec<WindowCommand>) -> (stop: Option<bool>)
        requires
            press_ok(*old(self), *i, edge, *old(env)),
        ensures
            ({
                let t = phase_press(*old(self), *i, edge, *old(env));
                &&& *final(self) == t.0
                &&& final(cmds)@ == old(cmds)@ + t.1
                &&& *final(env) == env_after_all(*old(env), t.1)
                &&& stop == t.2
            }),
    {
        proof {
            reveal(phase_press);
            reveal(press_ok);
        }
        let ghost c0 = cmds@;
        let ghost e0 = *env;
        if !i.pressed {
            assert(cmds@ =~= c0 + Seq::<WindowCommand>::empty());
            return None;
        }
        if self.chrome_visible {
            if i.over_close {
                assert(cmds@ =~= c0 + Seq::<WindowCommand>::empty());
                return Some(true);
            }
            if i.over_maximize {
                self.toggle_maximize(env, cmds, i.monitor_size);
                return Some(false);
            }
            if i.over_minimize {
                Self::push_cmd(env, cmds, WindowCommand::Minimize);
                proof {
                    lemma_env_push(e0, Seq::empty(), WindowCommand::Minimize);
                    assert(Seq::<WindowCommand>::empty().push(WindowCommand::Minimize) =~= seq![WindowCommand::Minimize]);
                    assert(cmds@ =~= c0 + seq![WindowCommand::Minimize]);
                }
                return Some(false);
            }
            if i.over_drag && !self.is_maximized && !self.is_fullscreen {
                self.is_dragging = true;
                self.drag_offset = (i.mouse_x, i.mouse_y);
                assert(cmds@ =~= c0 + Seq::<WindowCommand>::empty());
                return Some(false);
            }
        }
        if edge != ResizeEdge::NoEdge {
            self.is_resizing = true;
            self.resize_edge = edge;
            self.resize_start_size = (i.screen_w, i.screen_h);
            self.resize_start_pos = (env.x, env.y);
            self.resize_start_mouse = (env.x + i.mouse_x, env.y + i.mouse_y);
        }
        assert(cmds@ =~= c0 + Seq::<WindowCommand>::empty());
        None
    }

    fn keys_phase(&mut self, i: &ChromeInput, env: &mut WindowEnv, cmds: &mut Vec<WindowCommand>) -> (close: bool)
        requires
            keys_ok(*old(self), *i, *old(env)),
        ensures
            ({
                let t = phase_keys(*old(self), *i, *old(env));
                &&& *final(self) == t.0
                &&& final(cmds)@ == old(cmds)@ + t.1
                &&& *final(env) == env_after_all(*old(env), t.1)
                &&& close == t.2
            }),
    {
        proof {
            reveal(phase_keys);
            reveal(keys_ok);
        }
        let ghost c0 = cmds@;
        let ghost e0 = *env;
        if i.key_f11 {
            self.toggle_fullscreen(env, cmds, i.monitor_size);
        }
        let ghost c1 = cmds@.subrange(c0.len() as int, cmds@.len() as int);
        let ghost e1 = *env;
        proof {
            if i.key_f11 {
                assert(c1 =~= fullscreen_toggled(*old(self), e0, i.monitor_size).1);
            } else {
                assert(c1 =~= Seq::<WindowCommand>::empty());
            }
            assert(cmds@ =~= c0 + c1);
        }
        let ghost s1 = *self;
        if i.key_f10 {
            self.toggle_maximize(env, cmds, i.monitor_size);
        }
        let ghost c2 = cmds@.subrange((c0.len() + c1.len()) as int, cmds@.len() as int);
        let ghost e2 = *env;
        proof {
            if i.key_f10 {
                assert(c2 =~= maximize_toggled(s1, e1, i.monitor_size).1);
            } else {
                assert(c2 =~= Seq::<WindowCommand>::empty());
            }
            assert(cmds@ =~= c0 + c1 + c2);
            lemma_env_concat(e0, c1, c2);
        }
        let ghost s2 = *self;
        if i.key_escape {
            if self.is_fullscreen {
                self.toggle_fullscreen(env, cmds, i.monitor_size);
            } else if self.is_maximized {
                self.toggle_maximize(env, cmds, i.monitor_size);
            } else {
                assert(cmds@ =~= c0 + (c1 + c2));
                return true;
            }
            proof {
                let c3 = cmds@.subrange((c0.len() + c1.len() + c2.len()) as int, cmds@.len() as int);
                if s2.is_fullscreen {
                    assert(c3 =~= fullscreen_toggled(s2, e2, i.monitor_size).1);
                } else {
                    assert(c3 =~= maximize_toggled(s2, e2, i.monitor_size).1);
                }
                assert(cmds@ =~= c0 + (c1 + c2 + c3));
                lemma_env_concat(e0, c1 + c2, c3);
            }
            false
        } else {
            assert(cmds@ =~= c0 + (c1 + c2));
            false
        }
    }

    /// One frame of the window controls: what `input` says the pointer
    /// and keys did, turned into the new control state, whether to close
    /// the window, and what to do to it.
    pub fn update(&mut self, input: &ChromeInput) -> (step: ChromeStep)
        requires
            update_ok(*old(self), *input),
        ensures
            ({
                let r = chrome_update(*old(self), *input);
                &&& *final(self) == r.0
                &&& step.close == r.1
                &&& step.commands@ == r.2
            }),
    {
        proof {
            lemma_update_ok_parts(*self, *input);
        }
        let mut cmds: Vec<WindowCommand> = Vec::new();
        let mut env = WindowEnv { w: input.screen_w, h: input.screen_h, x: input.window_pos.0, y: input.window_pos.1 };
        let ghost env0 = env;
        let ghost s0 = *self;
        let edge = self.hover_phase(input, &mut env, &mut cmds);
        let ghost sa = *self;
        let ghost ca = cmds@;
        proof {
            assert(ca =~= Seq::<WindowCommand>::empty() + ca);
            assert(sa == WindowChrome { chrome_visible: sa.chrome_visible, ..s0 }) by {
                reveal(phase_hover);
            }
            assert(track_ok(sa, *input)) by {
                reveal(track_ok);
            }
        }
        self.track_phase(input, &mut env, &mut cmds);
        let ghost sb = *self;
        let ghost cb = cmds@.subrange(ca.len() as int, cmds@.len() as int);
        proof {
            assert(cb =~= phase_track(sa, *input).1);
            assert(cmds@ =~= ca + cb);
            lemma_env_concat(env0, ca, cb);
        }
        let ghost env_b = env;
        let stop = self.press_phase(input, edge, &mut env, &mut cmds);
        let ghost sc = *self;
        let ghost cc = cmds@.subrange((ca.len() + cb.len()) as int, cmds@.len() as int);
        proof {
            assert(cc =~= phase_press(sb, *input, edge, env_b).1);
            assert(cmds@ =~= ca + cb + cc);
            lemma_update_parts(s0, *input, sa, edge, ca, sb, cb, env_b, sc, cc, stop);
        }
        match stop {
            Some(close) => ChromeStep { close, commands: cmds },
            None => {
                let close = self.keys_phase(input, &mut env, &mut cmds);
                proof {
                    let cd = cmds@.subrange((ca.len() + cb.len() + cc.len()) as int, cmds@.len() as int);
                    assert(cd =~= phase_keys(sc, *input, env_after_all(env_b, cc)).1);
                    assert(cmds@ =~= ca + cb + cc + cd);
                }
                ChromeStep { close, commands: cmds }
            },
        }
    }

    /// Whether `update` can run on `input` without leaving `i32`: exactly
    /// its precondition, tested phase by phase on a copy of the chrome.
    pub fn can_update(&self, input: &ChromeInput) -> (b: bool)
        ensures
            b == update_ok(*self, *input),
    {
        proof {
            reveal(update_ok);
        }
        if !self.layout_fits(input.screen_w) || !self.hover_fits(input) || !self.track_fits(input) {
            return false;
        }
        let mut c = *self;
        let mut cmds: Vec<WindowCommand> = Vec::new();
        let mut env = WindowEnv { w: input.screen_w, h: input.screen_h, x: input.window_pos.0, y: input.window_pos.1 };
        let ghost env0 = env;
        let ghost s0 = c;
        let edge = c.hover_phase(input, &mut env, &mut cmds);
        let ghost sa = c;
        let ghost ca = cmds@;
        proof {
            assert(ca =~= Seq::<WindowCommand>::empty() + ca);
            assert(sa == WindowChrome { chrome_visible: sa.chrome_visible, ..s0 }) by {
                reveal(phase_hover);
            }
            assert(track_ok(sa, *input)) by {
                reveal(track_ok);
            }
        }
        c.track_phase(input, &mut env, &mut cmds);
        proof {
            let cb = cmds@.subrange(ca.len() as int, cmds@.len() as int);
            assert(cb =~= phase_track(sa, *input).1);
            assert(cmds@ =~= ca + cb);
            lemma_env_concat(env0, ca, cb);
        }
        if !c.press_fits(input, edge, env) {
            return false;
        }
        let ghost env_b = env;
        let ghost sb = c;
        let ghost n0 = cmds@.len();
        let stop = c.press_phase(input, edge, &mut env, &mut cmds);
        proof {
            let cc = cmds@.subrange(n0 as int, cmds@.len() as int);
            assert(cc =~= phase_press(sb, *input, edge, env_b).1);
        }
        match stop {
            Some(_) => true,
            None => c.keys_fit(input, env),
        }
    }

    /// Whether `layout` can run for a window `screen_w` wide: the control
    /// rectangles' arithmetic fits in `i32` (`rects_fit`).
    pub fn layout_fits(&self, screen_w: i32) -> (b: bool)
        ensures
            b == rects_fit(*self, screen_w),
    {
        let m = self.margin as i64;
        let bs = self.button_size as i64;
        let w = screen_w as i64;
        let d = self.drag_width as i64;
        fits64(m * 2) && fits64(m * 3) && fits64(m * 4) && fits64(bs * 2) && fits64(bs * 3) && fits64(w - m)
            && fits64(w - m - bs) && fits64(w - m * 2) && fits64(w - m * 2 - bs * 2) && fits64(w - m * 3)
            && fits64(w - m * 3 - bs * 3) && fits64(w - m * 4) && fits64(w - m * 4 - bs * 3)
            && fits64(w - m * 4 - bs * 3 - d)
    }

    /// The edge test fits in `i32` (`hover_ok`).
    fn hover_fits(&self, i: &ChromeInput) -> (b: bool)
        ensures
            b == hover_ok(*self, *i),
    {
        proof {
            reveal(hover_ok);
        }
        if !self.is_maximized && !self.is_fullscreen && !self.is_dragging {
            fits64(i.screen_w as i64 - self.edge_size as i64) && fits64(i.screen_h as i64 - self.edge_size as i64)
        } else {
            true
        }
    }

    /// Following a resize or a drag fits in `i32` (`track_ok`).
    fn track_fits(&self, i: &ChromeInput) -> (b: bool)
        ensures
            b == track_ok(*self, *i),
    {
        proof {
            reveal(track_ok);
        }
        let gx = i.window_pos.0 as i64 + i.mouse_x as i64;
        let gy = i.window_pos.1 as i64 + i.mouse_y as i64;
        if self.is_resizing && !i.released && i.down {
            fits64(gx) && fits64(gy) && resize_fits_exec(
                self.resize_edge,
                self.resize_start_size,
                self.resize_start_pos,
                gx - self.resize_start_mouse.0 as i64,
                gy - self.resize_start_mouse.1 as i64,
                self.min_size,
            )
        } else if !self.is_resizing && self.is_dragging && !i.released && i.down && !self.is_maximized
            && !self.is_fullscreen {
            fits64(gx) && fits64(gy) && fits64(gx - self.drag_offset.0 as i64) && fits64(gy - self.drag_offset.1 as i64)
        } else {
            true
        }
    }

    /// Entering maximized fits (`maximize_ok`).
    fn maximize_fits(&self, env: WindowEnv, monitor: (i32, i32)) -> (b: bool)
        ensures
            b == maximize_ok(*self, env, monitor),
    {
        proof {
            reveal(maximize_ok);
        }
        let mut c = *self;
        if c.is_fullscreen {
            let mut e = env;
            let mut cm: Vec<WindowCommand> = Vec::new();
            c.toggle_fullscreen(&mut e, &mut cm, monitor);
        }
        c.is_maximized || fits64(monitor.1 as i64 - TASKBAR_HEIGHT as i64)
    }

    /// A press fits (`press_ok`).
    fn press_fits(&self, i: &ChromeInput, edge: ResizeEdge, env: WindowEnv) -> (b: bool)
        ensures
            b == press_ok(*self, *i, edge, env),
    {
        proof {
            reveal(press_ok);
        }
        if i.pressed && self.chrome_visible && !i.over_close && i.over_maximize {
            if !self.maximize_fits(env, i.monitor_size) {
                return false;
            }
        }
        if i.pressed && !(self.chrome_visible && (i.over_close || i.over_maximize || i.over_minimize || (i.over_drag
            && !self.is_maximized && !self.is_fullscreen))) && edge != ResizeEdge::NoEdge {
            fits64(env.x as i64 + i.mouse_x as i64) && fits64(env.y as i64 + i.mouse_y as i64)
        } else {
            true
        }
    }

    /// The key phase fits (`keys_ok`), tested on a copy.
    fn keys_fit(&self, i: &ChromeInput, env: WindowEnv) -> (b: bool)
        ensures
            b == keys_ok(*self, *i, env),
    {
        proof {
            reveal(keys_ok);
        }
        let mut c = *self;
        let mut e = env;
        let mut cm: Vec<WindowCommand> = Vec::new();
        if i.key_f11 {
            c.toggle_fullscreen(&mut e, &mut cm, i.monitor_size);
        }
        if i.key_f10 {
            if !c.maximize_fits(e, i.monitor_size) {
                return false;
            }
            c.toggle_maximize(&mut e, &mut cm, i.monitor_size);
        }
        if i.key_escape && !c.is_fullscreen && c.is_maximized {
            c.maximize_fits(e, i.monitor_size)
        } else {
            true
        }
    }

    pub fn is_maximized(&self) -> (b: bool)
        ensures
            b == self.is_maximized,
    {
        self.is_maximized
    }

    pub fn is_fullscreen(&self) -> (b: bool)
        ensures
            b == self.is_fullscreen,
    {
        self.is_fullscreen
    }

    pub fn is_dragging(&self) -> (b: bool)
        ensures
            b == self.is_dragging,
    {
        self.is_dragging
    }

    pub fn is_chrome_visible(&self) -> (b: bool)
        ensures
            b == self.chrome_visible,
    {
        self.chrome_visible
    }
}

} // verus!
