//! Palettes: ordered lists of RGBA colours, some of them named, with a
//! name index; hex colour parsing and formatting; TOML export.

use vstd::prelude::*;
use crate::strmap::StrMap;
use crate::text::{decimal, owned, push_decimal, push_str, string_push};
use crate::types::Color;
use vstd::utf8::encode_utf8;

verus! {

broadcast use vstd::string::group_string_axioms;

// ---------------------------------------------------------------------------
// Hex digits
// ---------------------------------------------------------------------------

/// Upper-case hex digit for `0 <= d < 16`.
pub open spec fn hex_digit(d: int) -> char {
    if d < 10 {
        (48 + d) as char
    } else {
        (55 + d) as char
    }
}

/// Two upper-case hex digits of a byte.
pub open spec fn hex_byte(b: u8) -> Seq<char> {
    seq![hex_digit(b as int / 16), hex_digit(b as int % 16)]
}

/// `#RRGGBB` for opaque colours, `#RRGGBBAA` otherwise.
pub open spec fn hex_code(r: u8, g: u8, b: u8, a: u8) -> Seq<char> {
    seq!['#'] + hex_byte(r) + hex_byte(g) + hex_byte(b) + if a == 255 {
        Seq::<char>::empty()
    } else {
        hex_byte(a)
    }
}

fn hex_digit_exec(d: u8) -> (c: char)
    requires
        d < 16,
    ensures
        c == hex_digit(d as int),
{
    if d < 10 {
        (48u8 + d) as char
    } else {
        (55u8 + d) as char
    }
}

fn push_hex_byte(s: &mut String, b: u8)
    ensures
        final(s)@ == old(s)@ + hex_byte(b),
{
    string_push(s, hex_digit_exec(b / 16));
    string_push(s, hex_digit_exec(b % 16));
    assert(final(s)@ =~= old(s)@ + hex_byte(b));
}

/// Value of an ASCII hex digit byte (either case).
pub open spec fn hex_value(c: u8) -> Option<u8> {
    if 48 <= c <= 57 {
        Some((c - 48) as u8)
    } else if 97 <= c <= 102 {
        Some((c - 87) as u8)
    } else if 65 <= c <= 70 {
        Some((c - 55) as u8)
    } else {
        None
    }
}

/// Hex digits are read without regard to case: the byte of digit `d` as
/// `hex_digit` writes it (`'0'`..`'9'`, `'A'`..`'F'`) and, for `d` of 10
/// to 15, the lower-case letter `'a' + (d - 10)` both read as `d`; a byte
/// that is no digit of either case reads as nothing.
pub proof fn law_hex_digits_ignore_case(d: u8, c: u8)
    requires
        d < 16,
    ensures
        hex_value(hex_digit(d as int) as u8) == Some(d),
        10 <= d ==> hex_value(('a' as u8 + (d - 10)) as u8) == Some(d),
        10 <= d ==> hex_value(('A' as u8 + (d - 10)) as u8) == Some(d),
        hex_value(c) is None <==> !(('0' as u8) <= c <= ('9' as u8) || ('a' as u8) <= c <= ('f' as u8) || ('A' as u8)
            <= c <= ('F' as u8)),
{
    lemma_hex_digit(d as int);
}

/// Value of a two-byte field read as an unsigned base-16 number:
/// a leading `+` is allowed before a single digit.
pub open spec fn pair_value(c0: u8, c1: u8) -> Option<u8> {
    if c0 == 43 {
        hex_value(c1)
    } else {
        match (hex_value(c0), hex_value(c1)) {
            (Some(h), Some(l)) => Some((h * 16 + l) as u8),
            _ => None,
        }
    }
}

/// Field `k` (bytes `2k`, `2k+1`) of `h`.
pub open spec fn field(h: Seq<u8>, k: int) -> Option<u8> {
    pair_value(h[2 * k], h[2 * k + 1])
}

/// The bytes of a hex colour with one leading `#` removed.
pub open spec fn strip_hash(b: Seq<u8>) -> Seq<u8> {
    if b.len() > 0 && b[0] == 35 {
        b.subrange(1, b.len() as int)
    } else {
        b
    }
}

/// Message for a field that is not a base-16 number.
pub open spec fn invalid_digit_msg() -> Seq<char> {
    "invalid digit found in string"@
}

/// Message for a hex colour of the wrong length.
pub open spec fn invalid_length_msg(n: nat) -> Seq<char> {
    "invalid hex color length: "@ + decimal(n)
}

/// Result of parsing a hex colour string.
pub open spec fn parse_hex_spec(s: Seq<char>) -> Result<(u8, u8, u8, u8), Seq<char>> {
    let h = strip_hash(encode_utf8(s));
    if h.len() == 6 {
        match (field(h, 0), field(h, 1), field(h, 2)) {
            (Some(r), Some(g), Some(bl)) => Ok((r, g, bl, 255u8)),
            _ => Err(invalid_digit_msg()),
        }
    } else if h.len() == 8 {
        match (field(h, 0), field(h, 1), field(h, 2), field(h, 3)) {
            (Some(r), Some(g), Some(bl), Some(a)) => Ok((r, g, bl, a)),
            _ => Err(invalid_digit_msg()),
        }
    } else {
        Err(invalid_length_msg(h.len()))
    }
}

/// A UTF-8 continuation byte: no character starts there.
pub open spec fn continuation(b: u8) -> bool {
    0x80 <= b < 0xC0
}

/// Whether cutting the string into two-byte fields would split a
/// character before the parse stops: fields are cut in order and the
/// parse stops at the first field that is not a number.
pub open spec fn parse_hex_splits_char(s: Seq<char>) -> bool {
    let h = strip_hash(encode_utf8(s));
    if h.len() == 6 {
        continuation(h[2]) || (field(h, 0) is Some && continuation(h[4]))
    } else if h.len() == 8 {
        continuation(h[2]) || (field(h, 0) is Some && (continuation(h[4]) || (field(h, 1) is Some
            && continuation(h[6]))))
    } else {
        false
    }
}

fn hex_value_exec(c: u8) -> (r: Option<u8>)
    ensures
        r == hex_value(c),
{
    if 48 <= c && c <= 57 {
        Some(c - 48)
    } else if 97 <= c && c <= 102 {
        Some(c - 87)
    } else if 65 <= c && c <= 70 {
        Some(c - 55)
    } else {
        None
    }
}

fn pair_value_exec(c0: u8, c1: u8) -> (r: Option<u8>)
    ensures
        r == pair_value(c0, c1),
{
    if c0 == 43 {
        hex_value_exec(c1)
    } else {
        match (hex_value_exec(c0), hex_value_exec(c1)) {
            (Some(h), Some(l)) => Some(h * 16 + l),
            _ => None,
        }
    }
}

/// Whether `parse_hex` would split a character of `hex` (see
/// `parse_hex_splits_char`); callers test this before parsing.
pub fn parse_hex_splits(hex: &str) -> (r: bool)
    ensures
        r == parse_hex_splits_char(hex@),
{
    let b = hex.as_bytes();
    let start: usize = if b.len() > 0 && b[0] == 35 { 1 } else { 0 };
    let n = b.len() - start;
    let ghost h = strip_hash(b@);
    assert(h =~= b@.subrange(start as int, b@.len() as int));
    if n == 6 {
        let c2 = 0x80 <= b[start + 2] && b[start + 2] < 0xC0;
        let f0 = pair_value_exec(b[start], b[start + 1]).is_some();
        let c4 = 0x80 <= b[start + 4] && b[start + 4] < 0xC0;
        c2 || (f0 && c4)
    } else if n == 8 {
        let c2 = 0x80 <= b[start + 2] && b[start + 2] < 0xC0;
        let f0 = pair_value_exec(b[start], b[start + 1]).is_some();
        let c4 = 0x80 <= b[start + 4] && b[start + 4] < 0xC0;
        let f1 = pair_value_exec(b[start + 2], b[start + 3]).is_some();
        let c6 = 0x80 <= b[start + 6] && b[start + 6] < 0xC0;
        c2 || (f0 && (c4 || (f1 && c6)))
    } else {
        false
    }
}

/// Parses `#RRGGBB`, `#RRGGBBAA`, `RRGGBB` or `RRGGBBAA`; six digits
/// give an opaque colour.
pub fn parse_hex(hex: &str) -> (r: Result<(u8, u8, u8, u8), String>)
    requires
        !parse_hex_splits_char(hex@),
    ensures
        match (r, parse_hex_spec(hex@)) {
            (Ok(v), Ok(w)) => v == w,
            (Err(e), Err(m)) => e@ == m,
            _ => false,
        },
{
    let b = hex.as_bytes();
    let start: usize = if b.len() > 0 && b[0] == 35 { 1 } else { 0 };
    let n = b.len() - start;
    let ghost h = strip_hash(b@);
    assert(h =~= b@.subrange(start as int, b@.len() as int));
    if n == 6 || n == 8 {
        let r = pair_value_exec(b[start], b[start + 1]);
        let g = pair_value_exec(b[start + 2], b[start + 3]);
        let bl = pair_value_exec(b[start + 4], b[start + 5]);
        let a = if n == 8 {
            pair_value_exec(b[start + 6], b[start + 7])
        } else {
            Some(255u8)
        };
        match (r, g, bl, a) {
            (Some(r), Some(g), Some(bl), Some(a)) => Ok((r, g, bl, a)),
            _ => Err(owned("invalid digit found in string")),
        }
    } else {
        let mut msg = owned("invalid hex color length: ");
        push_decimal(&mut msg, n);
        Err(msg)
    }
}

// ---------------------------------------------------------------------------
// Palette colours
// ---------------------------------------------------------------------------

/// One palette entry.
/// ASCII characters encode as one byte each, their code.
proof fn lemma_encode_ascii(s: Seq<char>)
    requires
        forall|i: int| 0 <= i < s.len() ==> (s[i] as u32) <= 0x7F,
    ensures
        encode_utf8(s) == s.map_values(|c: char| (c as u32) as u8),
    decreases s.len(),
{
    if s.len() > 0 {
        let v = s[0] as u32;
        assert(v & 0x7F == v) by (bit_vector)
            requires
                v <= 0x7F,
        ;
        lemma_encode_ascii(s.drop_first());
        assert(s.drop_first().map_values(|c: char| (c as u32) as u8) =~= s.map_values(|c: char| (c as u32) as u8).drop_first());
        assert(encode_utf8(s) =~= s.map_values(|c: char| (c as u32) as u8));
    }
}

/// A hex digit character reads back as its value.
proof fn lemma_hex_digit(d: int)
    requires
        0 <= d < 16,
    ensures
        (hex_digit(d) as u32) <= 0x7F,
        ((hex_digit(d) as u32) as u8) != 43u8,
        hex_value((hex_digit(d) as u32) as u8) == Some(d as u8),
{
}

/// The two digits of a byte read back as the byte.
proof fn lemma_hex_byte(b: u8)
    ensures
        pair_value(
            (hex_byte(b)[0] as u32) as u8,
            (hex_byte(b)[1] as u32) as u8,
        ) == Some(b),
        (hex_byte(b)[0] as u32) <= 0x7F,
        (hex_byte(b)[1] as u32) <= 0x7F,
{
    lemma_hex_digit(b as int / 16);
    lemma_hex_digit(b as int % 16);
}

/// A colour written as hex (as `to_hex` and `to_toml` write it) parses
/// back to the same components, so a saved palette loads unchanged.
pub proof fn law_hex_round_trip(r: u8, g: u8, b: u8, a: u8)
    ensures
        parse_hex_spec(hex_code(r, g, b, a)) == Ok::<(u8, u8, u8, u8), Seq<char>>((r, g, b, a)),
        !parse_hex_splits_char(hex_code(r, g, b, a)),
{
    let s = hex_code(r, g, b, a);
    lemma_hex_byte(r);
    lemma_hex_byte(g);
    lemma_hex_byte(b);
    lemma_hex_byte(a);
    assert forall|i: int| 0 <= i < s.len() implies (s[i] as u32) <= 0x7F by {
        if i >= 1 && i < 3 {
            assert(s[i] == hex_byte(r)[i - 1]);
        } else if i >= 3 && i < 5 {
            assert(s[i] == hex_byte(g)[i - 3]);
        } else if i >= 5 && i < 7 {
            assert(s[i] == hex_byte(b)[i - 5]);
        } else if i >= 7 {
            assert(s[i] == hex_byte(a)[i - 7]);
        }
    }
    lemma_encode_ascii(s);
    let e = encode_utf8(s);
    assert(e[0] == 35u8);
    let h = strip_hash(e);
    assert(h =~= e.subrange(1, e.len() as int));
    assert(h[0] == (hex_byte(r)[0] as u32) as u8);
    assert(h[1] == (hex_byte(r)[1] as u32) as u8);
    assert(h[2] == (hex_byte(g)[0] as u32) as u8);
    assert(h[3] == (hex_byte(g)[1] as u32) as u8);
    assert(h[4] == (hex_byte(b)[0] as u32) as u8);
    assert(h[5] == (hex_byte(b)[1] as u32) as u8);
    if a != 255 {
        assert(h[6] == (hex_byte(a)[0] as u32) as u8);
        assert(h[7] == (hex_byte(a)[1] as u32) as u8);
    }
}

#[derive(Debug, Clone)]
pub struct PaletteColor {
    pub r: u8,
    pub g: u8,
    pub b: u8,
    pub a: u8,
    pub name: Option<String>,
}

/// The characters of an optional name.
pub open spec fn opt_name(n: Option<String>) -> Option<Seq<char>> {
    match n {
        Some(s) => Some(s@),
        None => None,
    }
}

impl PaletteColor {
    pub fn new(r: u8, g: u8, b: u8, a: u8) -> (c: PaletteColor)
        ensures
            c.r == r && c.g == g && c.b == b && c.a == a,
            c.name is None,
    {
        PaletteColor { r, g, b, a, name: None }
    }

    pub fn named(name: &str, r: u8, g: u8, b: u8, a: u8) -> (c: PaletteColor)
        ensures
            c.r == r && c.g == g && c.b == b && c.a == a,
            opt_name(c.name) == Some(name@),
    {
        PaletteColor { r, g, b, a, name: Some(owned(name)) }
    }

    pub fn to_color(&self) -> (c: Color)
        ensures
            c == (Color { r: self.r, g: self.g, b: self.b, a: self.a }),
    {
        Color { r: self.r, g: self.g, b: self.b, a: self.a }
    }

    /// `#RRGGBB` when opaque, `#RRGGBBAA` otherwise, upper-case.
    pub fn to_hex(&self) -> (s: String)
        ensures
            s@ == hex_code(self.r, self.g, self.b, self.a),
    {
        let mut s = String::new();
        string_push(&mut s, '#');
        push_hex_byte(&mut s, self.r);
        push_hex_byte(&mut s, self.g);
        push_hex_byte(&mut s, self.b);
        if self.a != 255 {
            push_hex_byte(&mut s, self.a);
        }
        assert(s@ =~= hex_code(self.r, self.g, self.b, self.a));
        s
    }

    /// An equal copy.
    pub fn duplicate(&self) -> (c: PaletteColor)
        ensures
            c == *self,
    {
        let name = match &self.name {
            Some(n) => Some(n.clone()),
            None => None,
        };
        PaletteColor { r: self.r, g: self.g, b: self.b, a: self.a, name }
    }
}

// ---------------------------------------------------------------------------
// Palette configuration (as read from a palette file)
// ---------------------------------------------------------------------------

/// One colour of a palette file: a bare hex string or a hex string with
/// an optional name.
#[derive(Debug, Clone)]
pub enum ColorEntry {
    Short(String),
    Named { hex: String, name: Option<String> },
}

/// The hex string of an entry.
pub open spec fn entry_hex(e: ColorEntry) -> Seq<char> {
    match e {
        ColorEntry::Short(hex) => hex@,
        ColorEntry::Named { hex, .. } => hex@,
    }
}

/// The name an entry gives its colour.
pub open spec fn entry_name(e: ColorEntry) -> Option<Seq<char>> {
    match e {
        ColorEntry::Short(_) => None,
        ColorEntry::Named { name, .. } => opt_name(name),
    }
}

/// Whether parsing the entry's hex string would split a character.
pub open spec fn entry_splits_char(e: ColorEntry) -> bool {
    parse_hex_splits_char(entry_hex(e))
}

/// Whether `c` is the colour that entry `e` describes, given that the
/// entry's hex string parses.
pub open spec fn entry_gives(e: ColorEntry, c: PaletteColor) -> bool {
    &&& parse_hex_spec(entry_hex(e)) == Ok::<(u8, u8, u8, u8), Seq<char>>((c.r, c.g, c.b, c.a))
    &&& opt_name(c.name) == entry_name(e)
}

impl ColorEntry {
    /// An equal copy.
    pub fn duplicate(&self) -> (r: ColorEntry)
        ensures
            r == *self,
    {
        match self {
            ColorEntry::Short(hex) => ColorEntry::Short(hex.clone()),
            ColorEntry::Named { hex, name } => ColorEntry::Named {
                hex: hex.clone(),
                name: match name {
                    Some(n) => Some(n.clone()),
                    None => None,
                },
            },
        }
    }

    /// Whether parsing this entry would split a character of its hex string.
    pub fn splits_char(&self) -> (r: bool)
        ensures
            r == entry_splits_char(*self),
    {
        match self {
            ColorEntry::Short(hex) => parse_hex_splits(hex.as_str()),
            ColorEntry::Named { hex, .. } => parse_hex_splits(hex.as_str()),
        }
    }

    pub fn into_palette_color(self) -> (r: Result<PaletteColor, String>)
        requires
            !entry_splits_char(self),
        ensures
            match r {
                Ok(c) => entry_gives(self, c),
                Err(e) => parse_hex_spec(entry_hex(self)) == Err::<(u8, u8, u8, u8), Seq<char>>(e@),
            },
    {
        match self {
            ColorEntry::Short(hex) => {
                let (r, g, b, a) = parse_hex(hex.as_str())?;
                Ok(PaletteColor::new(r, g, b, a))
            },
            ColorEntry::Named { hex, name } => {
                let (r, g, b, a) = parse_hex(hex.as_str())?;
                Ok(PaletteColor { r, g, b, a, name })
            },
        }
    }
}

/// A palette as described in a palette file.
#[derive(Debug, Clone)]
pub struct PaletteConfig {
    pub name: String,
    pub colors: Vec<ColorEntry>,
}

impl PaletteConfig {
    /// The palette's name and colours; the error of the first entry that
    /// does not parse, if one does not.
    pub fn into_colors(self) -> (r: Result<(String, Vec<PaletteColor>), String>)
        requires
            forall|i: int| 0 <= i < self.colors@.len() ==> !entry_splits_char(#[trigger] self.colors@[i]),
        ensures
            match r {
                Ok((name, colors)) => {
                    &&& name@ == self.name@
                    &&& colors@.len() == self.colors@.len()
                    &&& forall|i: int| 0 <= i < colors@.len() ==> entry_gives(#[trigger] self.colors@[i], colors@[i])
                },
                Err(e) => exists|i: int|
                    0 <= i < self.colors@.len()
                    && parse_hex_spec(entry_hex(#[trigger] self.colors@[i])) == Err::<(u8, u8, u8, u8), Seq<char>>(e@)
                    && forall|j: int| 0 <= j < i ==> parse_hex_spec(entry_hex(#[trigger] self.colors@[j])) is Ok,
            },
    {
        let PaletteConfig { name, colors: entries } = self;
        let mut out: Vec<PaletteColor> = Vec::new();
        let mut i: usize = 0;
        while i < entries.len()
            invariant
                i <= entries@.len(),
                out@.len() == i,
                entries@ == self.colors@,
                forall|k: int| 0 <= k < entries@.len() ==> !entry_splits_char(#[trigger] entries@[k]),
                forall|k: int| 0 <= k < i ==> entry_gives(#[trigger] entries@[k], out@[k]),
            decreases entries@.len() - i,
        {
            let e = entries[i].duplicate();
            match e.into_palette_color() {
                Ok(c) => out.push(c),
                Err(msg) => {
                    proof {
                        assert forall|j: int| 0 <= j < i implies parse_hex_spec(entry_hex(#[trigger] self.colors@[j])) is Ok by {
                            assert(entry_gives(entries@[j], out@[j]));
                        }
                    }
                    return Err(msg);
                },
            }
            i += 1;
        }
        Ok((name, out))
    }
}

// ---------------------------------------------------------------------------
// Palette
// ---------------------------------------------------------------------------

/// Name index that a palette built colour by colour has: each name maps
/// to the last position holding a colour of that name.
pub open spec fn last_name_index(cs: Seq<PaletteColor>) -> Map<Seq<char>, usize>
    decreases cs.len(),
{
    if cs.len() == 0 {
        Map::empty()
    } else {
        let prev = last_name_index(cs.drop_last());
        match opt_name(cs.last().name) {
            Some(n) => prev.insert(n, (cs.len() - 1) as usize),
            None => prev,
        }
    }
}

/// `s` with the element at `end - 1` moved to `start` and the elements of
/// `start .. end - 1` moved up by one.
pub open spec fn rotate_right<T>(s: Seq<T>, start: int, end: int) -> Seq<T> {
    Seq::new(
        s.len(),
        |i: int|
            if i == start {
                s[end - 1]
            } else if start < i < end {
                s[i - 1]
            } else {
                s[i]
            },
    )
}

/// `"    { hex = \"#..\", name = \"..\" },\n"` or `"    \"#..\",\n"`.
pub open spec fn toml_line(c: PaletteColor) -> Seq<char> {
    let hex = hex_code(c.r, c.g, c.b, c.a);
    match opt_name(c.name) {
        Some(n) => "    { hex = \""@ + hex + "\", name = \""@ + n + "\" },\n"@,
        None => "    \""@ + hex + "\",\n"@,
    }
}

pub open spec fn toml_lines(cs: Seq<PaletteColor>) -> Seq<char>
    decreases cs.len(),
{
    if cs.len() == 0 {
        Seq::empty()
    } else {
        toml_lines(cs.drop_last()) + toml_line(cs.last())
    }
}

/// The TOML text of a palette.
pub open spec fn palette_toml(name: Seq<char>, cs: Seq<PaletteColor>) -> Seq<char> {
    "name = \""@ + name + "\"\n\ncolors = [\n"@ + toml_lines(cs) + "]\n"@
}

/// An ordered list of colours with an index from names to positions.
pub struct Palette {
    pub name: String,
    pub colors: Vec<PaletteColor>,
    name_index: StrMap<usize>,
}

impl Palette {
    /// The colours.
    pub closed spec fn color_seq(&self) -> Seq<PaletteColor> {
        self.colors@
    }

    /// The palette's name.
    pub closed spec fn name_seq(&self) -> Seq<char> {
        self.name@
    }

    /// The name index.
    pub closed spec fn names(&self) -> Map<Seq<char>, usize> {
        self.name_index@
    }

    /// Every indexed name points at a colour of that name.
    pub closed spec fn wf(&self) -> bool {
        &&& self.name_index.wf()
        &&& forall|n: Seq<char>| #[trigger]
            self.name_index@.contains_key(n) ==> self.name_index@[n] < self.color_seq().len()
                && opt_name(self.color_seq()[self.name_index@[n] as int].name) == Some(n)
    }

    /// A name found in the index belongs to the colour it points at.
    pub proof fn lemma_name_lookup(&self, n: Seq<char>)
        requires
            self.wf(),
            self.names().contains_key(n),
        ensures
            self.names()[n] < self.color_seq().len(),
            opt_name(self.color_seq()[self.names()[n] as int].name) == Some(n),
    {
    }

    proof fn lemma_last_name_index(cs: Seq<PaletteColor>)
        requires
            cs.len() <= usize::MAX,
        ensures
            forall|n: Seq<char>| #[trigger]
                last_name_index(cs).contains_key(n) ==> last_name_index(cs)[n] < cs.len()
                    && opt_name(cs[last_name_index(cs)[n] as int].name) == Some(n),
        decreases cs.len(),
    {
        if cs.len() > 0 {
            let prev = cs.drop_last();
            Self::lemma_last_name_index(prev);
            assert forall|n: Seq<char>| #[trigger] last_name_index(cs).contains_key(n) implies
                last_name_index(cs)[n] < cs.len() && opt_name(cs[last_name_index(cs)[n] as int].name) == Some(n) by {
                if opt_name(cs.last().name) != Some(n) {
                    assert(last_name_index(prev).contains_key(n));
                    let k = last_name_index(prev)[n] as int;
                    assert(cs[k] == prev[k]);
                }
            }
        }
    }

    pub fn new(name: &str) -> (p: Palette)
        ensures
            p.wf(),
            p.name_seq() == name@,
            p.color_seq().len() == 0,
            p.names() == Map::<Seq<char>, usize>::empty(),
    {
        Palette { name: owned(name), colors: Vec::new(), name_index: StrMap::new() }
    }

    /// Builds a palette from its description, adding the colours in order.
    pub fn from_config(config: PaletteConfig) -> (r: Result<Palette, String>)
        requires
            forall|i: int| 0 <= i < config.colors@.len() ==> !entry_splits_char(#[trigger] config.colors@[i]),
        ensures
            match r {
                Ok(p) => {
                    &&& p.wf()
                    &&& p.name_seq() == config.name@
                    &&& p.color_seq().len() == config.colors@.len()
                    &&& forall|i: int| 0 <= i < p.color_seq().len() ==> entry_gives(#[trigger] config.colors@[i], p.color_seq()[i])
                    &&& p.names() == last_name_index(p.color_seq())
                },
                Err(e) => exists|i: int|
                    0 <= i < config.colors@.len()
                    && parse_hex_spec(entry_hex(#[trigger] config.colors@[i])) == Err::<(u8, u8, u8, u8), Seq<char>>(e@)
                    && forall|j: int| 0 <= j < i ==> parse_hex_spec(entry_hex(#[trigger] config.colors@[j])) is Ok,
            },
    {
        let (name, colors) = config.into_colors()?;
        let mut palette = Palette { name, colors: Vec::new(), name_index: StrMap::new() };
        let mut i: usize = 0;
        while i < colors.len()
            invariant
                i <= colors@.len(),
                palette.wf(),
                palette.color_seq() == colors@.take(i as int),
                palette.names() == last_name_index(palette.color_seq()),
                palette.name_seq() == config.name@,
            decreases colors@.len() - i,
        {
            palette.add_color(colors[i].duplicate());
            i += 1;
            assert(palette.color_seq() =~= colors@.take(i as int));
        }
        assert(colors@.take(colors@.len() as int) =~= colors@);
        Ok(palette)
    }

    /// Appends a colour and indexes its name; returns its position.
    pub fn add_color(&mut self, color: PaletteColor) -> (index: usize)
        requires
            old(self).wf(),
            old(self).color_seq().len() < usize::MAX,
        ensures
            final(self).wf(),
            index == old(self).color_seq().len(),
            final(self).color_seq() == old(self).color_seq().push(color),
            final(self).name_seq() == old(self).name_seq(),
            final(self).names() == match opt_name(color.name) {
                Some(n) => old(self).names().insert(n, index),
                None => old(self).names(),
            },
            old(self).names() == last_name_index(old(self).color_seq()) ==> final(self).names()
                == last_name_index(final(self).color_seq()),
    {
        let index = self.colors.len();
        if let Some(name) = &color.name {
            self.name_index.insert(name.clone(), index);
        }
        self.colors.push(color);
        proof {
            assert(final(self).color_seq().drop_last() =~= old(self).color_seq());
        }
        index
    }

    /// The colour at `index`, if there is one.
    pub fn get(&self, index: usize) -> (r: Option<Color>)
        ensures
            r == if index < self.color_seq().len() {
                let c = self.color_seq()[index as int];
                Some(Color { r: c.r, g: c.g, b: c.b, a: c.a })
            } else {
                None::<Color>
            },
    {
        if index < self.colors.len() {
            Some(self.colors[index].to_color())
        } else {
            None
        }
    }

    /// The colour indexed under `name`, if any.
    pub fn get_by_name(&self, name: &str) -> (r: Option<Color>)
        requires
            self.wf(),
        ensures
            r == if self.names().contains_key(name@) {
                let c = self.color_seq()[self.names()[name@] as int];
                Some(Color { r: c.r, g: c.g, b: c.b, a: c.a })
            } else {
                None::<Color>
            },
    {
        match self.name_index.get(name) {
            Some(i) => self.get(*i),
            None => None,
        }
    }

    /// Position indexed under `name`, if any.
    pub fn index_of_name(&self, name: &str) -> (r: Option<usize>)
        requires
            self.wf(),
        ensures
            r == if self.names().contains_key(name@) {
                Some(self.names()[name@])
            } else {
                None::<usize>
            },
    {
        match self.name_index.get(name) {
            Some(i) => Some(*i),
            None => None,
        }
    }

    /// First position holding exactly this RGBA value.
    pub fn find_by_rgba(&self, r: u8, g: u8, b: u8, a: u8) -> (res: Option<usize>)
        ensures
            match res {
                Some(i) => {
                    &&& i < self.color_seq().len()
                    &&& self.color_seq()[i as int].r == r && self.color_seq()[i as int].g == g
                    &&& self.color_seq()[i as int].b == b && self.color_seq()[i as int].a == a
                    &&& forall|j: int| 0 <= j < i ==> !(#[trigger] self.color_seq()[j].r == r
                        && self.color_seq()[j].g == g && self.color_seq()[j].b == b && self.color_seq()[j].a == a)
                },
                None => forall|j: int| 0 <= j < self.color_seq().len() ==> !(#[trigger] self.color_seq()[j].r == r
                    && self.color_seq()[j].g == g && self.color_seq()[j].b == b && self.color_seq()[j].a == a),
            },
    {
        let mut i: usize = 0;
        while i < self.colors.len()
            invariant
                i <= self.color_seq().len(),
                forall|j: int| 0 <= j < i ==> !(#[trigger] self.color_seq()[j].r == r
                    && self.color_seq()[j].g == g && self.color_seq()[j].b == b && self.color_seq()[j].a == a),
            decreases self.color_seq().len() - i,
        {
            let c = &self.colors[i];
            if c.r == r && c.g == g && c.b == b && c.a == a {
                return Some(i);
            }
            i += 1;
        }
        None
    }

    /// Replaces the colour at `index` (if it exists): the old colour's name
    /// leaves the index and the new colour's name points at `index`.
    pub fn set_color(&mut self, index: usize, color: PaletteColor)
        requires
            old(self).wf(),
        ensures
            final(self).wf(),
            final(self).name_seq() == old(self).name_seq(),
            index < old(self).color_seq().len() ==> {
                let without = match opt_name(old(self).color_seq()[index as int].name) {
                    Some(o) => old(self).names().remove(o),
                    None => old(self).names(),
                };
                &&& final(self).color_seq() == old(self).color_seq().update(index as int, color)
                &&& final(self).names() == match opt_name(color.name) {
                    Some(n) => without.insert(n, index),
                    None => without,
                }
            },
            index >= old(self).color_seq().len() ==> final(self).color_seq() == old(self).color_seq()
                && final(self).names() == old(self).names(),
    {
        if index < self.colors.len() {
            if let Some(old_name) = &self.colors[index].name {
                self.name_index.remove(old_name.as_str());
            }
            if let Some(name) = &color.name {
                self.name_index.insert(name.clone(), index);
            }
            self.colors.set(index, color);
            proof {
                assert forall|n: Seq<char>| #[trigger] self.name_index@.contains_key(n) implies
                    self.name_index@[n] < self.color_seq().len()
                    && opt_name(self.color_seq()[self.name_index@[n] as int].name) == Some(n) by {
                    if opt_name(color.name) != Some(n) {
                        assert(old(self).name_index@.contains_key(n));
                        let k = old(self).name_index@[n];
                        if k == index {
                            assert(opt_name(old(self).color_seq()[index as int].name) == Some(n));
                        }
                    }
                }
            }
        }
    }

    pub fn len(&self) -> (n: usize)
        ensures
            n == self.color_seq().len(),
    {
        self.colors.len()
    }

    pub fn is_empty(&self) -> (b: bool)
        ensures
            b == (self.color_seq().len() == 0),
    {
        self.colors.len() == 0
    }

    /// The palette as TOML: its name and its colours, named ones as
    /// inline tables.
    pub fn to_toml(&self) -> (s: String)
        ensures
            s@ == palette_toml(self.name_seq(), self.color_seq()),
    {
        let mut out = owned("name = \"");
        push_str(&mut out, self.name.as_str());
        push_str(&mut out, "\"\n\ncolors = [\n");
        let ghost head = out@;
        let mut i: usize = 0;
        while i < self.colors.len()
            invariant
                i <= self.color_seq().len(),
                out@ == head + toml_lines(self.color_seq().take(i as int)),
            decreases self.color_seq().len() - i,
        {
            let color = &self.colors[i];
            let hex = color.to_hex();
            match &color.name {
                Some(name) => {
                    push_str(&mut out, "    { hex = \"");
                    push_str(&mut out, hex.as_str());
                    push_str(&mut out, "\", name = \"");
                    push_str(&mut out, name.as_str());
                    push_str(&mut out, "\" },\n");
                },
                None => {
                    push_str(&mut out, "    \"");
                    push_str(&mut out, hex.as_str());
                    push_str(&mut out, "\",\n");
                },
            }
            proof {
                let t = self.color_seq().take(i + 1);
                assert(t.drop_last() =~= self.color_seq().take(i as int));
                assert(t.last() == self.color_seq()[i as int]);
                assert(out@ =~= head + toml_lines(t));
            }
            i += 1;
        }
        push_str(&mut out, "]\n");
        assert(self.color_seq().take(self.color_seq().len() as int) =~= self.color_seq());
        assert(out@ =~= palette_toml(self.name_seq(), self.color_seq()));
        out
    }

    /// Rotates the colours of `start .. end` one step towards the end (the
    /// last moves to `start`) and rebuilds the name index. Does nothing
    /// unless `start < end <= len`.
    pub fn cycle(&mut self, start: usize, end: usize)
        requires
            old(self).wf(),
        ensures
            final(self).wf(),
            final(self).name_seq() == old(self).name_seq(),
            start < end <= old(self).color_seq().len() ==> {
                &&& final(self).color_seq() == rotate_right(old(self).color_seq(), start as int, end as int)
                &&& final(self).names() == last_name_index(final(self).color_seq())
            },
            !(start < end <= old(self).color_seq().len()) ==> final(self).color_seq() == old(self).color_seq()
                && final(self).names() == old(self).names(),
    {
        if start >= end || end > self.colors.len() {
            return;
        }
        let last = self.colors[end - 1].duplicate();
        let ghost orig = self.color_seq();
        let mut i: usize = end - 1;
        while i > start
            invariant
                start <= i < end <= orig.len(),
                self.color_seq().len() == orig.len(),
                forall|k: int| 0 <= k <= i ==> #[trigger] self.color_seq()[k] == orig[k],
                forall|k: int| i < k < end ==> #[trigger] self.color_seq()[k] == orig[k - 1],
                forall|k: int| end <= k < orig.len() ==> #[trigger] self.color_seq()[k] == orig[k],
                self.name == old(self).name,
            decreases i,
        {
            let c = self.colors[i - 1].duplicate();
            self.colors.set(i, c);
            i -= 1;
        }
        self.colors.set(start, last);
        assert(self.color_seq() =~= rotate_right(orig, start as int, end as int));
        self.rebuild_name_index();
    }

    /// Rebuilds the name index from the colours.
    fn rebuild_name_index(&mut self)
        ensures
            final(self).wf(),
            final(self).color_seq() == old(self).color_seq(),
            final(self).name_seq() == old(self).name_seq(),
            final(self).names() == last_name_index(final(self).color_seq()),
    {
        self.name_index.clear();
        let mut i: usize = 0;
        while i < self.colors.len()
            invariant
                i <= self.color_seq().len(),
                self.color_seq() == old(self).color_seq(),
                self.name_seq() == old(self).name_seq(),
                self.name_index.wf(),
                self.name_index@ == last_name_index(self.color_seq().take(i as int)),
            decreases self.color_seq().len() - i,
        {
            if let Some(name) = &self.colors[i].name {
                self.name_index.insert(name.clone(), i);
            }
            proof {
                let t = self.color_seq().take(i + 1);
                assert(t.drop_last() =~= self.color_seq().take(i as int));
            }
            i += 1;
        }
        assert(self.color_seq().take(self.color_seq().len() as int) =~= self.color_seq());
        proof {
            Self::lemma_last_name_index(self.color_seq());
        }
    }
}

} // verus!
