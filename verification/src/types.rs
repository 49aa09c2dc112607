//! Cell-level value types: colours, blend modes, glyph transforms,
//! write directions, masks and the buffer cell itself.

use vstd::prelude::*;
use crate::keys::{AtlasKey, PaletteKey};

verus! {

// ---------------------------------------------------------------------------
// Colour
// ---------------------------------------------------------------------------

/// An 8-bit RGBA colour.
#[derive(Debug, Clone, Copy, PartialEq, Eq, Structural)]
pub struct Color {
    pub r: u8,
    pub g: u8,
    pub b: u8,
    pub a: u8,
}

impl Color {
    pub fn new(r: u8, g: u8, b: u8, a: u8) -> (c: Color)
        ensures
            c == (Color { r, g, b, a }),
    {
        Color { r, g, b, a }
    }

    /// Opaque white.
    pub fn white() -> (c: Color)
        ensures
            c == (Color { r: 255, g: 255, b: 255, a: 255 }),
    {
        Color { r: 255, g: 255, b: 255, a: 255 }
    }

    /// Fully transparent black.
    pub fn blank() -> (c: Color)
        ensures
            c == (Color { r: 0, g: 0, b: 0, a: 0 }),
    {
        Color { r: 0, g: 0, b: 0, a: 0 }
    }

    /// Opaque dark grey (80, 80, 80).
    pub fn dark_gray() -> (c: Color)
        ensures
            c == (Color { r: 80, g: 80, b: 80, a: 255 }),
    {
        Color { r: 80, g: 80, b: 80, a: 255 }
    }

    /// Opaque magenta, used to make unresolved colours visible.
    pub fn magenta() -> (c: Color)
        ensures
            c == (Color { r: 255, g: 0, b: 255, a: 255 }),
    {
        Color { r: 255, g: 0, b: 255, a: 255 }
    }
}

// ---------------------------------------------------------------------------
// Blend mode
// ---------------------------------------------------------------------------

/// How a glyph layer is composited onto what lies below it.
#[derive(Debug, Clone, Copy, PartialEq, Eq, Structural)]
pub enum Blend {
    Alpha,
    Additive,
    Multiplied,
    AddColors,
    SubtractColors,
}

impl Default for Blend {
    fn default() -> (b: Blend)
        ensures
            b == Blend::Alpha,
    {
        Blend::Alpha
    }
}

// ---------------------------------------------------------------------------
// Transform
// ---------------------------------------------------------------------------

/// Clockwise rotation of a glyph in quarter turns.
#[derive(Debug, Clone, Copy, PartialEq, Eq, Structural)]
pub enum Rotation {
    Cw0,
    Cw90,
    Cw180,
    Cw270,
}

impl Default for Rotation {
    fn default() -> (r: Rotation)
        ensures
            r == Rotation::Cw0,
    {
        Rotation::Cw0
    }
}

/// Rotation plus horizontal and vertical mirroring of a glyph.
#[derive(Debug, Clone, Copy, PartialEq, Eq, Structural)]
pub struct Transform {
    pub rotation: Rotation,
    pub flip_h: bool,
    pub flip_v: bool,
}

/// The identity transform.
pub open spec fn identity_transform() -> Transform {
    Transform { rotation: Rotation::Cw0, flip_h: false, flip_v: false }
}

impl Default for Transform {
    fn default() -> (t: Transform)
        ensures
            t == identity_transform(),
    {
        Transform { rotation: Rotation::Cw0, flip_h: false, flip_v: false }
    }
}

impl Transform {
    /// The identity transform.
    pub fn new() -> (t: Transform)
        ensures
            t == identity_transform(),
    {
        Transform { rotation: Rotation::Cw0, flip_h: false, flip_v: false }
    }

    /// A pure rotation.
    pub fn rotated(rotation: Rotation) -> (t: Transform)
        ensures
            t == (Transform { rotation, flip_h: false, flip_v: false }),
    {
        Transform { rotation, flip_h: false, flip_v: false }
    }

    /// A horizontal mirror.
    pub fn flipped_h() -> (t: Transform)
        ensures
            t == (Transform { rotation: Rotation::Cw0, flip_h: true, flip_v: false }),
    {
        Transform { rotation: Rotation::Cw0, flip_h: true, flip_v: false }
    }

    /// A vertical mirror.
    pub fn flipped_v() -> (t: Transform)
        ensures
            t == (Transform { rotation: Rotation::Cw0, flip_h: false, flip_v: true }),
    {
        Transform { rotation: Rotation::Cw0, flip_h: false, flip_v: true }
    }

    /// The same transform with the rotation replaced.
    pub fn with_rotation(self, rotation: Rotation) -> (t: Transform)
        ensures
            t == (Transform { rotation, ..self }),
    {
        let mut t = self;
        t.rotation = rotation;
        t
    }

    /// The same transform with the horizontal mirror replaced.
    pub fn with_flip_h(self, flip: bool) -> (t: Transform)
        ensures
            t == (Transform { flip_h: flip, ..self }),
    {
        let mut t = self;
        t.flip_h = flip;
        t
    }

    /// The same transform with the vertical mirror replaced.
    pub fn with_flip_v(self, flip: bool) -> (t: Transform)
        ensures
            t == (Transform { flip_v: flip, ..self }),
    {
        let mut t = self;
        t.flip_v = flip;
        t
    }
}

// ---------------------------------------------------------------------------
// Write direction
// ---------------------------------------------------------------------------

/// The direction in which a string advances across the grid.
#[derive(Debug, Clone, Copy, PartialEq, Eq, Structural)]
pub enum WriteDirection {
    Right,
    Down,
    Left,
    Up,
}

impl Default for WriteDirection {
    fn default() -> (d: WriteDirection)
        ensures
            d == WriteDirection::Right,
    {
        WriteDirection::Right
    }
}

/// Cell step taken after each glyph written in direction `d`.
pub open spec fn direction_delta(d: WriteDirection) -> (i32, i32) {
    match d {
        WriteDirection::Right => (1i32, 0i32),
        WriteDirection::Down => (0i32, 1i32),
        WriteDirection::Left => (-1i32, 0i32),
        WriteDirection::Up => (0i32, -1i32),
    }
}

/// Rotation that makes glyphs read along direction `d`.
pub open spec fn direction_rotation(d: WriteDirection) -> Rotation {
    match d {
        WriteDirection::Right => Rotation::Cw0,
        WriteDirection::Down => Rotation::Cw90,
        WriteDirection::Left => Rotation::Cw180,
        WriteDirection::Up => Rotation::Cw270,
    }
}

/// The direction that reads the other way.
pub open spec fn opposite(d: WriteDirection) -> WriteDirection {
    match d {
        WriteDirection::Right => WriteDirection::Left,
        WriteDirection::Left => WriteDirection::Right,
        WriteDirection::Down => WriteDirection::Up,
        WriteDirection::Up => WriteDirection::Down,
    }
}

/// Quarter turns clockwise of a rotation.
pub open spec fn quarter_turns(r: Rotation) -> int {
    match r {
        Rotation::Cw0 => 0,
        Rotation::Cw90 => 1,
        Rotation::Cw180 => 2,
        Rotation::Cw270 => 3,
    }
}

/// The step `(1, 0)` (one cell to the right) turned clockwise `k`
/// quarter turns on a grid whose rows grow downward.
pub open spec fn right_step_turned(k: int) -> (int, int) {
    if k == 0 {
        (1, 0)
    } else if k == 1 {
        (0, 1)
    } else if k == 2 {
        (-1, 0)
    } else {
        (0, -1)
    }
}

/// After each glyph the pen moves one cell in the writing direction:
/// the step is one cell along one axis, the rightward step turned as the
/// glyphs are, opposite directions step opposite ways, and going up
/// lowers the row (rows grow downward).
pub proof fn law_write_steps(d: WriteDirection)
    ensures
        ({
            let (dx, dy) = direction_delta(d);
            &&& (dx == 0) != (dy == 0)
            &&& -1 <= dx <= 1 && -1 <= dy <= 1
            &&& (dx as int, dy as int) == right_step_turned(quarter_turns(direction_rotation(d)))
            &&& direction_delta(opposite(d)) == ((-dx) as i32, (-dy) as i32)
        }),
        direction_delta(WriteDirection::Up).1 < 0,
        direction_delta(WriteDirection::Down).1 > 0,
        direction_delta(WriteDirection::Right).0 > 0,
        direction_delta(WriteDirection::Left).0 < 0,
{
}

impl WriteDirection {
    pub fn delta(self) -> (r: (i32, i32))
        ensures
            r == direction_delta(self),
    {
        match self {
            WriteDirection::Right => (1, 0),
            WriteDirection::Down => (0, 1),
            WriteDirection::Left => (-1, 0),
            WriteDirection::Up => (0, -1),
        }
    }

    pub fn rotation(self) -> (r: Rotation)
        ensures
            r == direction_rotation(self),
    {
        match self {
            WriteDirection::Right => Rotation::Cw0,
            WriteDirection::Down => Rotation::Cw90,
            WriteDirection::Left => Rotation::Cw180,
            WriteDirection::Up => Rotation::Cw270,
        }
    }
}

// ---------------------------------------------------------------------------
// Mask and colour references
// ---------------------------------------------------------------------------

/// A glyph of some atlas used as a stencil for a cell.
#[derive(Debug, Clone, Copy, PartialEq, Eq, Structural)]
pub struct Mask {
    pub atlas: AtlasKey,
    pub glyph: u32,
}

impl Mask {
    pub fn new(atlas: AtlasKey, glyph: u32) -> (m: Mask)
        ensures
            m == (Mask { atlas, glyph }),
    {
        Mask { atlas, glyph }
    }
}

/// A colour given directly or by an index into a palette.
#[derive(Debug, Clone, Copy, PartialEq, Eq, Structural)]
pub enum ColorRef {
    Direct(Color),
    Indexed { palette: PaletteKey, index: u8 },
    Named { palette: PaletteKey, index: u8 },
}

impl From<Color> for ColorRef {
    fn from(c: Color) -> (r: ColorRef) {
        ColorRef::Direct(c)
    }
}

impl vstd::std_specs::convert::FromSpecImpl<Color> for ColorRef {
    open spec fn obeys_from_spec() -> bool {
        true
    }

    open spec fn from_spec(c: Color) -> ColorRef {
        ColorRef::Direct(c)
    }
}

impl Default for ColorRef {
    fn default() -> (c: ColorRef)
        ensures
            c == ColorRef::Direct(Color { r: 255, g: 255, b: 255, a: 255 }),
    {
        ColorRef::Direct(Color::white())
    }
}

// ---------------------------------------------------------------------------
// Character (one buffer cell)
// ---------------------------------------------------------------------------

/// One cell of a buffer: a semantic code, the variant it is drawn in,
/// its colours, blend modes, transform and mask.
#[derive(Debug, Clone, Copy, PartialEq, Eq, Structural)]
pub struct Character {
    pub code: u32,
    pub variant_id: u8,
    pub fcolor: Color,
    pub bcolor: Color,
    pub fg_ref: Option<u16>,
    pub bg_ref: Option<u16>,
    pub fg_blend: Blend,
    pub bg_blend: Blend,
    pub transform: Transform,
    pub mask: Option<Mask>,
}

/// The cell `Character::full` builds.
pub open spec fn full_char(
    code: u32,
    variant_id: u8,
    fcolor: Color,
    bcolor: Color,
    fg_blend: Blend,
    bg_blend: Blend,
    transform: Transform,
    mask: Option<Mask>,
) -> Character {
    Character {
        code,
        variant_id,
        fcolor,
        bcolor,
        fg_ref: None,
        bg_ref: None,
        fg_blend,
        bg_blend,
        transform,
        mask,
    }
}

/// The cell `Character::new` builds: alpha blending, no transform, no mask.
pub open spec fn plain_char(code: u32, variant_id: u8, fcolor: Color, bcolor: Color) -> Character {
    full_char(code, variant_id, fcolor, bcolor, Blend::Alpha, Blend::Alpha, identity_transform(), None)
}

/// The empty cell: dark grey on transparent, variant 0.
pub open spec fn blank_char(default_code: u32) -> Character {
    plain_char(default_code, 0, Color { r: 80, g: 80, b: 80, a: 255 }, Color { r: 0, g: 0, b: 0, a: 0 })
}

impl Character {
    pub fn new(code: u32, variant_id: u8, fcolor: Color, bcolor: Color) -> (c: Character)
        ensures
            c == plain_char(code, variant_id, fcolor, bcolor),
    {
        Character::full(
            code,
            variant_id,
            fcolor,
            bcolor,
            Blend::Alpha,
            Blend::Alpha,
            Transform::new(),
            None,
        )
    }

    pub fn full(
        code: u32,
        variant_id: u8,
        fcolor: Color,
        bcolor: Color,
        fg_blend: Blend,
        bg_blend: Blend,
        transform: Transform,
        mask: Option<Mask>,
    ) -> (c: Character)
        ensures
            c == full_char(code, variant_id, fcolor, bcolor, fg_blend, bg_blend, transform, mask),
    {
        Character {
            code,
            variant_id,
            fcolor,
            bcolor,
            fg_ref: None,
            bg_ref: None,
            fg_blend,
            bg_blend,
            transform,
            mask,
        }
    }

    pub fn blank(default_code: u32) -> (c: Character)
        ensures
            c == blank_char(default_code),
    {
        Character::new(default_code, 0, Color::dark_gray(), Color::blank())
    }
}

} // verus!
