//! VTP, the byte protocol that drives a terminal buffer.
//!
//! A packet starts with an opcode byte:
//!
//! | opcode | packet                                   | command       |
//! |--------|------------------------------------------|---------------|
//! | `0x01` | length (u16 LE), buffer name (UTF-8)      | `SetBuffer`   |
//! | `0x02` | x (u16 LE), y (u16 LE)                    | `SetCursor`   |
//! | `0x03` | r, g, b, a                                | `SetFgColor`  |
//! | `0x04` | r, g, b, a                                | `SetBgColor`  |
//! | `0x05` | variant id                                | `SetVariant`  |
//! | `0x10` | code point (u32 LE)                       | `PrintChar`   |
//! | `0x11` | length (u16 LE), text (UTF-8)             | `PrintString` |
//! | `0x20` | size (u32 LE), scene bytes                | `LoadScene`   |
//!
//! Bytes that are not an opcode where a packet should start are skipped.
//! Text is decoded leniently: invalid UTF-8 becomes U+FFFD.

use vstd::prelude::*;
use crate::arena::slot_key;
use crate::buffer::{Buffer, pen_in_range};
use crate::buffer_manager::{buffer_updated, cell_set};
use crate::grids::{Grids, keeps_rest};
use crate::keys::BufferKey;
use crate::strmap::StrMap;
use crate::terminal::{is_scalar, pen_char};
use crate::text::str_chars;
use crate::text_ops::written_full;
use crate::types::{Blend, Character, Color, Transform, WriteDirection, identity_transform};

verus! {

/// A colour as the protocol sends it.
#[derive(Debug, Clone, Copy, PartialEq, Eq, Structural)]
pub struct VtpColor {
    pub r: u8,
    pub g: u8,
    pub b: u8,
    pub a: u8,
}

/// A decoded command.
#[derive(Debug, Clone)]
pub enum VtpCommand {
    SetBuffer(String),
    SetCursor { x: u32, y: u32 },
    SetFgColor(VtpColor),
    SetBgColor(VtpColor),
    SetVariant(u8),
    PrintChar(u32),
    PrintString(String),
    LoadScene { size: u32, data: Vec<u8> },
}

// ---------------------------------------------------------------------------
// Text decoding
// ---------------------------------------------------------------------------

/// What `String::from_utf8_lossy` makes of `bytes`.
pub uninterp spec fn utf8_lossy(bytes: Seq<u8>) -> Seq<char>;

/// `String::from_utf8_lossy`, made owned.  Its result depends on the
/// bytes alone; ASCII bytes, being valid UTF-8, come back as the same
/// characters.
#[verifier::external_body]
fn decode_lossy(bytes: &[u8]) -> (s: String)
    ensures
        s@ == utf8_lossy(bytes@),
        (forall|i: int| 0 <= i < bytes@.len() ==> #[trigger] bytes@[i] < 0x80u8) ==> s@ == bytes@.map_values(
            |b: u8| b as char,
        ),
{
    String::from_utf8_lossy(bytes).into_owned()
}

// ---------------------------------------------------------------------------
// Packet layout
// ---------------------------------------------------------------------------

pub open spec fn le16(a: u8, b: u8) -> nat {
    (a as nat) + 256 * (b as nat)
}

pub open spec fn le32(a: u8, b: u8, c: u8, d: u8) -> nat {
    (a as nat) + 256 * ((b as nat) + 256 * ((c as nat) + 256 * (d as nat)))
}

/// Bytes that start a packet.
pub open spec fn is_opcode(b: u8) -> bool {
    b == 0x01u8 || b == 0x02u8 || b == 0x03u8 || b == 0x04u8 || b == 0x05u8 || b == 0x10u8 || b == 0x11u8
        || b == 0x20u8
}

/// `buf` with its leading non-opcode bytes dropped.
pub open spec fn skip_unknown(buf: Seq<u8>) -> Seq<u8>
    decreases buf.len(),
{
    if buf.len() > 0 && !is_opcode(buf[0]) {
        skip_unknown(buf.drop_first())
    } else {
        buf
    }
}

/// Length of the packet at the start of `buf` (which starts with an
/// opcode), or `None` while its length field has not fully arrived.
pub open spec fn packet_len(buf: Seq<u8>) -> Option<nat> {
    let op = buf[0];
    if op == 0x01u8 || op == 0x11u8 {
        if buf.len() < 3 {
            None
        } else {
            Some(3 + le16(buf[1], buf[2]))
        }
    } else if op == 0x05u8 {
        Some(2)
    } else if op == 0x20u8 {
        if buf.len() < 5 {
            None
        } else {
            Some(5 + le32(buf[1], buf[2], buf[3], buf[4]))
        }
    } else {
        Some(5)
    }
}

/// The complete packet at the front of the (skipped) pending bytes, if
/// one has arrived.
pub open spec fn next_packet(buf: Seq<u8>) -> Option<Seq<u8>> {
    let s = skip_unknown(buf);
    if s.len() == 0 {
        None
    } else {
        match packet_len(s) {
            None => None,
            Some(n) => if s.len() < n {
                None
            } else {
                Some(s.take(n as int))
            },
        }
    }
}

/// The pending bytes after `next_command`: the skipped buffer, less the
/// packet taken from its front.
pub open spec fn after_next(buf: Seq<u8>) -> Seq<u8> {
    let s = skip_unknown(buf);
    match next_packet(buf) {
        None => s,
        Some(p) => s.skip(p.len() as int),
    }
}

/// `cmd` is what the complete packet `p` says.
pub open spec fn decodes(cmd: VtpCommand, p: Seq<u8>) -> bool {
    let op = p[0];
    if op == 0x01u8 {
        cmd matches VtpCommand::SetBuffer(name) && name@ == utf8_lossy(p.skip(3))
    } else if op == 0x02u8 {
        cmd matches VtpCommand::SetCursor { x, y } && x == le16(p[1], p[2]) && y == le16(p[3], p[4])
    } else if op == 0x03u8 {
        cmd == VtpCommand::SetFgColor(VtpColor { r: p[1], g: p[2], b: p[3], a: p[4] })
    } else if op == 0x04u8 {
        cmd == VtpCommand::SetBgColor(VtpColor { r: p[1], g: p[2], b: p[3], a: p[4] })
    } else if op == 0x05u8 {
        cmd == VtpCommand::SetVariant(p[1])
    } else if op == 0x10u8 {
        cmd == VtpCommand::PrintChar(le32(p[1], p[2], p[3], p[4]) as u32)
    } else if op == 0x11u8 {
        cmd matches VtpCommand::PrintString(text) && text@ == utf8_lossy(p.skip(3))
    } else {
        cmd matches VtpCommand::LoadScene { size, data } && size == le32(p[1], p[2], p[3], p[4]) && data@ == p.skip(
            5,
        )
    }
}

proof fn lemma_skip_unknown_append(buf: Seq<u8>, more: Seq<u8>)
    requires
        skip_unknown(buf).len() > 0,
    ensures
        skip_unknown(buf + more) == skip_unknown(buf) + more,
    decreases buf.len(),
{
    if buf.len() > 0 && !is_opcode(buf[0]) {
        assert((buf + more).drop_first() =~= buf.drop_first() + more);
        lemma_skip_unknown_append(buf.drop_first(), more);
    }
}

/// Bytes that arrive after a complete packet change neither the packet
/// that is cut next nor what stays pending in front of them.
pub proof fn lemma_next_packet_stable(buf: Seq<u8>, more: Seq<u8>)
    requires
        next_packet(buf) is Some,
    ensures
        next_packet(buf + more) == next_packet(buf),
        after_next(buf + more) == after_next(buf) + more,
{
    lemma_skip_unknown_append(buf, more);
    let s = skip_unknown(buf);
    let t = s + more;
    assert(t[0] == s[0]);
    if s.len() >= 3 {
        assert(t[1] == s[1] && t[2] == s[2]);
    }
    if s.len() >= 5 {
        assert(t[3] == s[3] && t[4] == s[4]);
    }
    let n = packet_len(s).unwrap();
    assert(packet_len(t) == packet_len(s));
    assert(t.take(n as int) =~= s.take(n as int));
    assert(t.skip(n as int) =~= s.skip(n as int) + more);
}

// ---------------------------------------------------------------------------
// The parser
// ---------------------------------------------------------------------------

/// The pen that protocol commands move and print with.
pub struct VtpState {
    pub active_buffer: Option<BufferKey>,
    pub cursor_x: u32,
    pub cursor_y: u32,
    pub fg_color: Color,
    pub bg_color: Color,
    pub variant_id: u8,
}

impl Default for VtpState {
    fn default() -> (s: VtpState)
        ensures
            s.active_buffer.is_none(),
            s.cursor_x == 0 && s.cursor_y == 0,
            s.fg_color == (Color { r: 255, g: 255, b: 255, a: 255 }),
            s.bg_color == (Color { r: 0, g: 0, b: 0, a: 0 }),
            s.variant_id == 0,
    {
        VtpState {
            active_buffer: None,
            cursor_x: 0,
            cursor_y: 0,
            fg_color: Color::white(),
            bg_color: Color::blank(),
            variant_id: 0,
        }
    }
}

/// Collects incoming bytes and cuts them into commands; `state` is the
/// pen that `process` drives.
pub struct VtpParser {
    state: VtpState,
    buffer: Vec<u8>,
}

impl Default for VtpParser {
    fn default() -> (p: VtpParser)
        ensures
            p.pending() == Seq::<u8>::empty(),
    {
        VtpParser::new()
    }
}

fn read_le16(buf: &Vec<u8>, at: usize) -> (v: u16)
    requires
        at + 2 <= buf.len(),
    ensures
        v == le16(buf@[at as int], buf@[at + 1]),
{
    let lo: u16 = buf[at] as u16;
    let hi: u16 = buf[at + 1] as u16;
    assert(lo + hi * 256 <= 0xFFFF) by (nonlinear_arith)
        requires
            lo <= 255,
            hi <= 255,
    ;
    lo + hi * 256
}

fn read_le32(buf: &Vec<u8>, at: usize) -> (v: u32)
    requires
        at + 4 <= buf.len(),
    ensures
        v == le32(buf@[at as int], buf@[at + 1], buf@[at + 2], buf@[at + 3]),
{
    let b0: u32 = buf[at] as u32;
    let b1: u32 = buf[at + 1] as u32;
    let b2: u32 = buf[at + 2] as u32;
    let b3: u32 = buf[at + 3] as u32;
    assert(b0 + 256 * (b1 + 256 * (b2 + 256 * b3)) <= 0xFFFF_FFFF) by (nonlinear_arith)
        requires
            b0 <= 255,
            b1 <= 255,
            b2 <= 255,
            b3 <= 255,
    ;
    b0 + 256 * (b1 + 256 * (b2 + 256 * b3))
}

/// Bytes `from..to` of `buf`, copied.
fn copy_range(buf: &Vec<u8>, from: usize, to: usize) -> (r: Vec<u8>)
    requires
        from <= to <= buf@.len(),
    ensures
        r@ == buf@.subrange(from as int, to as int),
{
    let mut r: Vec<u8> = Vec::new();
    let mut i = from;
    while i < to
        invariant
            from <= i <= to <= buf@.len(),
            r@ == buf@.subrange(from as int, i as int),
        decreases to - i,
    {
        r.push(buf[i]);
        i += 1;
    }
    r
}

impl VtpParser {
    /// The bytes received and not yet cut into commands.
    pub closed spec fn pending(&self) -> Seq<u8> {
        self.buffer@
    }

    /// The pen.
    pub closed spec fn pen(&self) -> VtpState {
        self.state
    }

    /// The pen.
    pub fn state(&self) -> (r: &VtpState)
        ensures
            *r == self.pen(),
    {
        &self.state
    }

    /// A parser with nothing pending and a fresh pen.
    pub fn new() -> (p: VtpParser)
        ensures
            p.pending() == Seq::<u8>::empty(),
            p.pen() == (VtpState {
                active_buffer: None,
                cursor_x: 0,
                cursor_y: 0,
                fg_color: Color { r: 255, g: 255, b: 255, a: 255 },
                bg_color: Color { r: 0, g: 0, b: 0, a: 0 },
                variant_id: 0,
            }),
    {
        VtpParser { state: VtpState::default(), buffer: Vec::new() }
    }

    /// Appends received bytes.
    pub fn push_bytes(&mut self, new_data: &[u8])
        ensures
            final(self).pending() == old(self).pending() + new_data@,
            final(self).pen() == old(self).pen(),
    {
        let n = new_data.len();
        let mut i: usize = 0;
        while i < n
            invariant
                n == new_data@.len(),
                i <= n,
                self.buffer@ == old(self).buffer@ + new_data@.take(i as int),
                self.state == old(self).state,
            decreases n - i,
        {
            self.buffer.push(new_data[i]);
            proof {
                assert(new_data@.take(i + 1) =~= new_data@.take(i as int).push(new_data@[i as int]));
            }
            i += 1;
        }
        assert(new_data@.take(n as int) =~= new_data@);
    }

    /// Cuts the next command off the pending bytes.  Bytes that cannot
    /// start a packet are dropped first; `None` while no complete packet
    /// has arrived, in which case the packet's bytes stay pending.
    pub fn next_command(&mut self) -> (r: Option<VtpCommand>)
        ensures
            final(self).pending() == after_next(old(self).pending()),
            final(self).pen() == old(self).pen(),
            match next_packet(old(self).pending()) {
                None => r.is_none(),
                Some(p) => r.is_some() && decodes(r.unwrap(), p),
            },
    {
        while self.buffer.len() > 0 && !(self.buffer[0] == 0x01 || self.buffer[0] == 0x02 || self.buffer[0] == 0x03
            || self.buffer[0] == 0x04 || self.buffer[0] == 0x05 || self.buffer[0] == 0x10 || self.buffer[0] == 0x11
            || self.buffer[0] == 0x20)
            invariant
                skip_unknown(self.buffer@) == skip_unknown(old(self).buffer@),
                self.state == old(self).state,
            decreases self.buffer@.len(),
        {
            self.buffer.remove(0);
            proof {
                assert(old(self).buffer@.len() >= 0);
            }
        }
        let ghost s = self.buffer@;
        assert(skip_unknown(s) == s);
        if self.buffer.len() == 0 {
            return None;
        }
        let opcode = self.buffer[0];
        let needed: u64 = if opcode == 0x01 || opcode == 0x11 {
            if self.buffer.len() < 3 {
                return None;
            }
            3 + read_le16(&self.buffer, 1) as u64
        } else if opcode == 0x05 {
            2
        } else if opcode == 0x20 {
            if self.buffer.len() < 5 {
                return None;
            }
            5 + read_le32(&self.buffer, 1) as u64
        } else {
            5
        };
        if (self.buffer.len() as u64) < needed {
            return None;
        }
        let n = needed as usize;
        let command = if opcode == 0x01 {
            let bytes = copy_range(&self.buffer, 3, n);
            VtpCommand::SetBuffer(decode_lossy(bytes.as_slice()))
        } else if opcode == 0x02 {
            let x = read_le16(&self.buffer, 1) as u32;
            let y = read_le16(&self.buffer, 3) as u32;
            VtpCommand::SetCursor { x, y }
        } else if opcode == 0x03 {
            VtpCommand::SetFgColor(
                VtpColor { r: self.buffer[1], g: self.buffer[2], b: self.buffer[3], a: self.buffer[4] },
            )
        } else if opcode == 0x04 {
            VtpCommand::SetBgColor(
                VtpColor { r: self.buffer[1], g: self.buffer[2], b: self.buffer[3], a: self.buffer[4] },
            )
        } else if opcode == 0x05 {
            VtpCommand::SetVariant(self.buffer[1])
        } else if opcode == 0x10 {
            VtpCommand::PrintChar(read_le32(&self.buffer, 1))
        } else if opcode == 0x11 {
            let bytes = copy_range(&self.buffer, 3, n);
            VtpCommand::PrintString(decode_lossy(bytes.as_slice()))
        } else {
            let size = read_le32(&self.buffer, 1);
            VtpCommand::LoadScene { size, data: copy_range(&self.buffer, 5, n) }
        };
        let rest = self.buffer.split_off(n);
        self.buffer = rest;
        proof {
            let p = s.take(n as int);
            if opcode == 0x01 || opcode == 0x11 {
                assert(p.skip(3) =~= s.subrange(3, n as int));
            }
            if opcode == 0x20 {
                assert(p.skip(5) =~= s.subrange(5, n as int));
            }
        }
        Some(command)
    }
}


// ---------------------------------------------------------------------------
// Driving the grids
// ---------------------------------------------------------------------------

/// What `apply_command` needs to run without an overflow.
pub open spec fn command_fits(s: VtpState, g: Grids, cmd: VtpCommand) -> bool {
    match cmd {
        VtpCommand::PrintChar(code) => s.active_buffer.is_some() && is_scalar(code) ==> s.cursor_x < u32::MAX,
        VtpCommand::PrintString(text) => s.active_buffer.is_some() ==> {
            &&& g.buffers.map().contains_key(slot_key(s.active_buffer.unwrap().ffi)) ==> pen_in_range(
                s.cursor_x,
                s.cursor_y,
                text@,
                WriteDirection::Right,
            )
            &&& s.cursor_x + (text@.len() as u32) <= u32::MAX
        },
        _ => true,
    }
}

pub open spec fn vtp_color(c: VtpColor) -> Color {
    Color { r: c.r, g: c.g, b: c.b, a: c.a }
}

/// Pen and grids after the command `cmd`; `names` gives the buffer of
/// each name.
pub open spec fn command_applied(
    s0: VtpState,
    g0: Grids,
    names: Map<Seq<char>, BufferKey>,
    cmd: VtpCommand,
    s1: VtpState,
    g1: Grids,
) -> bool {
    match cmd {
        VtpCommand::SetBuffer(name) => g1 == g0 && if names.contains_key(name@) {
            s1 == VtpState { active_buffer: Some(names[name@]), cursor_x: 0, cursor_y: 0, ..s0 }
        } else {
            s1 == s0
        },
        VtpCommand::SetCursor { x, y } => g1 == g0 && s1 == VtpState { cursor_x: x, cursor_y: y, ..s0 },
        VtpCommand::SetFgColor(c) => g1 == g0 && s1 == VtpState { fg_color: vtp_color(c), ..s0 },
        VtpCommand::SetBgColor(c) => g1 == g0 && s1 == VtpState { bg_color: vtp_color(c), ..s0 },
        VtpCommand::SetVariant(v) => g1 == g0 && s1 == VtpState { variant_id: v, ..s0 },
        VtpCommand::PrintChar(code) => if s0.active_buffer.is_some() && is_scalar(code) {
            &&& keeps_rest(g0, g1)
            &&& g1.buffers.slot_count() == g0.buffers.slot_count()
            &&& buffer_updated(
                g0.buffers.map(),
                g1.buffers.map(),
                slot_key(s0.active_buffer.unwrap().ffi),
                |a: Buffer, b: Buffer|
                    cell_set(a, b, s0.cursor_x, s0.cursor_y, pen_char(code, s0.variant_id, s0.fg_color, s0.bg_color)),
            )
            &&& s1 == VtpState { cursor_x: (s0.cursor_x + 1) as u32, ..s0 }
        } else {
            s1 == s0 && g1 == g0
        },
        VtpCommand::PrintString(text) => if s0.active_buffer.is_some() {
            &&& keeps_rest(g0, g1)
            &&& g1.buffers.slot_count() == g0.buffers.slot_count()
            &&& buffer_updated(
                g0.buffers.map(),
                g1.buffers.map(),
                slot_key(s0.active_buffer.unwrap().ffi),
                |a: Buffer, b: Buffer|
                    written_full(
                        a,
                        b,
                        s0.cursor_x,
                        s0.cursor_y,
                        text@,
                        s0.fg_color,
                        s0.bg_color,
                        Blend::Alpha,
                        Blend::Alpha,
                        identity_transform(),
                        None,
                        WriteDirection::Right,
                        false,
                    ),
            )
            &&& s1 == VtpState { cursor_x: (s0.cursor_x + (text@.len() as u32)) as u32, ..s0 }
        } else {
            s1 == s0 && g1 == g0
        },
        VtpCommand::LoadScene { .. } => s1 == s0 && g1 == g0,
    }
}

/// The pending bytes after `n` packets were cut from `buf`.
pub open spec fn after_packets(buf: Seq<u8>, n: nat) -> Seq<u8>
    decreases n,
{
    if n == 0 {
        buf
    } else {
        after_next(after_packets(buf, (n - 1) as nat))
    }
}

/// Step `i` of a run: the `i`-th packet of `buf` decodes to `cmd`, which
/// fits the pen and grids of state `a` and leads to state `b`.
pub open spec fn step_ok(
    names: Map<Seq<char>, BufferKey>,
    buf: Seq<u8>,
    i: nat,
    a: (VtpState, Grids),
    b: (VtpState, Grids),
    cmd: VtpCommand,
) -> bool {
    &&& next_packet(after_packets(buf, i)) is Some
    &&& decodes(cmd, next_packet(after_packets(buf, i)).unwrap())
    &&& command_fits(a.0, a.1, cmd)
    &&& command_applied(a.0, a.1, names, cmd, b.0, b.1)
}

/// `trace` lists the states of a run over the first packets of `buf`,
/// `cmds` the commands carried out between them.
pub open spec fn is_run(
    names: Map<Seq<char>, BufferKey>,
    buf: Seq<u8>,
    trace: Seq<(VtpState, Grids)>,
    cmds: Seq<VtpCommand>,
) -> bool {
    &&& trace.len() == cmds.len() + 1
    &&& forall|i: int| 0 <= i < cmds.len() ==> step_ok(names, buf, i as nat, #[trigger] trace[i], trace[i + 1], cmds[i])
}

/// The `n` first packets of `buf` were cut and carried out, leading
/// from `(s0, g0)` to `(s1, g1)`.
pub open spec fn ran(
    s0: VtpState,
    g0: Grids,
    names: Map<Seq<char>, BufferKey>,
    buf: Seq<u8>,
    n: nat,
    s1: VtpState,
    g1: Grids,
) -> bool {
    exists|trace: Seq<(VtpState, Grids)>, cmds: Seq<VtpCommand>|
        #[trigger] is_run(names, buf, trace, cmds) && cmds.len() == n && trace[0] == (s0, g0) && trace[n as int] == (
        s1,
        g1,
    )
}

/// Dropping the leading junk of `a` before appending `b` changes nothing.
proof fn lemma_skip_concat(a: Seq<u8>, b: Seq<u8>)
    ensures
        skip_unknown(a + b) == skip_unknown(skip_unknown(a) + b),
    decreases a.len(),
{
    if a.len() > 0 && !is_opcode(a[0]) {
        assert((a + b).drop_first() =~= a.drop_first() + b);
        lemma_skip_concat(a.drop_first(), b);
    }
}

/// Cutting packets from two buffers with the same skipped form cuts the
/// same packets, and leaves the same bytes from the first cut on.
proof fn lemma_same_skip_packets(x: Seq<u8>, y: Seq<u8>, k: nat)
    requires
        skip_unknown(x) == skip_unknown(y),
    ensures
        next_packet(after_packets(x, k)) == next_packet(after_packets(y, k)),
        k > 0 ==> after_packets(x, k) == after_packets(y, k),
    decreases k,
{
    if k > 0 {
        lemma_same_skip_packets(x, y, (k - 1) as nat);
    }
}

/// `n + k` cuts are `n` cuts and then `k` more.
proof fn lemma_after_packets_shift(b: Seq<u8>, n: nat, k: nat)
    ensures
        after_packets(b, n + k) == after_packets(after_packets(b, n), k),
    decreases k,
{
    if k > 0 {
        lemma_after_packets_shift(b, n, (k - 1) as nat);
        assert((n + k - 1) as nat == n + (k - 1) as nat);
    }
}

/// While the packets of `first` are complete, bytes appended behind it
/// stay behind what is left of it.
proof fn lemma_prefix_packets(first: Seq<u8>, rest: Seq<u8>, i: nat)
    requires
        forall|j: nat| j < i ==> #[trigger] next_packet(after_packets(first, j)) is Some,
    ensures
        after_packets(first + rest, i) == after_packets(first, i) + rest,
    decreases i,
{
    if i > 0 {
        let j = (i - 1) as nat;
        lemma_prefix_packets(first, rest, j);
        assert(next_packet(after_packets(first, j)) is Some);
        lemma_next_packet_stable(after_packets(first, j), rest);
    }
}

/// A stream may arrive in any split.  Say the complete packets of
/// `first` are its `n` first ones; after they are cut, the bytes left
/// pending, with `rest` appended, go on to be cut into the same packets,
/// in the same order, as the stream `first + rest` cut in one go: its
/// `i`-th packet (for `i < n`) is the `i`-th packet of `first`, its
/// `n + k`-th is the `k`-th of the continuation, and from the first cut
/// on the bytes left pending are the same.
pub proof fn law_split_stream(first: Seq<u8>, rest: Seq<u8>, n: nat, i: nat, k: nat)
    requires
        forall|j: nat| j < n ==> #[trigger] next_packet(after_packets(first, j)) is Some,
        next_packet(after_packets(first, n)) is None,
    ensures
        i < n ==> next_packet(after_packets(first + rest, i)) == next_packet(after_packets(first, i)),
        next_packet(after_packets(first + rest, n + k)) == next_packet(
            after_packets(after_next(after_packets(first, n)) + rest, k),
        ),
        k > 0 ==> after_packets(first + rest, n + k) == after_packets(after_next(after_packets(first, n)) + rest, k),
{
    if i < n {
        lemma_prefix_packets(first, rest, i);
        assert(next_packet(after_packets(first, i)) is Some);
        lemma_next_packet_stable(after_packets(first, i), rest);
    }
    let r = after_packets(first, n);
    lemma_prefix_packets(first, rest, n);
    lemma_after_packets_shift(first + rest, n, k);
    lemma_skip_concat(r, rest);
    assert(after_next(r) == skip_unknown(r));
    lemma_same_skip_packets(r + rest, after_next(r) + rest, k);
}

/// What draining the parser (calling `next_command` until it gives
/// `None`) cuts from pending bytes `buf`: the packets, in order, and the
/// bytes left pending.
pub open spec fn drain(buf: Seq<u8>) -> (Seq<Seq<u8>>, Seq<u8>)
    decreases buf.len(),
{
    match next_packet(buf) {
        None => (Seq::empty(), after_next(buf)),
        Some(p) => {
            proof {
                lemma_after_next_shorter(buf);
            }
            let (ps, rest) = drain(after_next(buf));
            (seq![p] + ps, rest)
        },
    }
}

/// Buffers with the same skipped form drain alike.
proof fn lemma_drain_same_skip(x: Seq<u8>, y: Seq<u8>)
    requires
        skip_unknown(x) == skip_unknown(y),
    ensures
        drain(x) == drain(y),
{
    assert(next_packet(x) == next_packet(y));
    assert(after_next(x) == after_next(y));
    if next_packet(x) is Some {
        lemma_after_next_shorter(x);
        lemma_after_next_shorter(y);
    }
}

/// A stream may arrive in any split: draining after the first part and
/// again after the rest cuts the same packets, in the same order, and
/// leaves the same bytes pending, as draining once after all of it.  An
/// incomplete packet at the end of the first part is kept, never cut.
pub proof fn law_drain_split(first: Seq<u8>, rest: Seq<u8>)
    ensures
        drain(first + rest).0 == drain(first).0 + drain(drain(first).1 + rest).0,
        drain(first + rest).1 == drain(drain(first).1 + rest).1,
    decreases first.len(),
{
    match next_packet(first) {
        Some(p) => {
            lemma_after_next_shorter(first);
            lemma_next_packet_stable(first, rest);
            lemma_after_next_shorter(first + rest);
            let a = after_next(first);
            law_drain_split(a, rest);
            assert(after_next(first + rest) == a + rest);
            assert(seq![p] + (drain(a).0 + drain(drain(a).1 + rest).0) =~= (seq![p] + drain(a).0) + drain(drain(a).1 + rest).0);
        },
        None => {
            lemma_skip_concat(first, rest);
            assert(drain(first).1 == skip_unknown(first));
            lemma_drain_same_skip(first + rest, skip_unknown(first) + rest);
            assert(drain(first).0 =~= Seq::<Seq<u8>>::empty());
            assert(Seq::<Seq<u8>>::empty() + drain(drain(first).1 + rest).0 =~= drain(drain(first).1 + rest).0);
        },
    }
}

/// Skipping junk never lengthens the buffer.
pub proof fn lemma_skip_unknown_len(buf: Seq<u8>)
    ensures
        skip_unknown(buf).len() <= buf.len(),
    decreases buf.len(),
{
    if buf.len() > 0 && !is_opcode(buf[0]) {
        lemma_skip_unknown_len(buf.drop_first());
    }
}

/// Cutting a complete packet shortens the pending bytes.
pub proof fn lemma_after_next_shorter(buf: Seq<u8>)
    requires
        next_packet(buf) is Some,
    ensures
        after_next(buf).len() < buf.len(),
{
    lemma_skip_unknown_len(buf);
}

/// Whether every pen position of `text` written from `(x, y)` in
/// direction `d` fits in `i32`.
fn pen_fits(x: u32, y: u32, text: &str, d: WriteDirection) -> (b: bool)
    ensures
        b == pen_in_range(x, y, text@, d),
{
    let cs = str_chars(text);
    let (dx, dy) = d.delta();
    let mut px: i64 = (x as i32) as i64;
    let mut py: i64 = (y as i32) as i64;
    let n = cs.len();
    let mut k: usize = 0;
    assert(cs@.take(0) =~= Seq::<char>::empty());
    loop
        invariant
            n == cs@.len(),
            cs@ == text@,
            k <= n,
            (dx, dy) == crate::types::direction_delta(d),
            (px as int, py as int) == crate::buffer::pen_after(x, y, cs@.take(k as int), d),
            forall|j: int| #![trigger cs@.take(j)]
                0 <= j < k ==> i32::MIN <= crate::buffer::pen_after(x, y, cs@.take(j), d).0 <= i32::MAX
                    && i32::MIN <= crate::buffer::pen_after(x, y, cs@.take(j), d).1 <= i32::MAX,
        decreases n - k,
    {
        if px < i32::MIN as i64 || px > i32::MAX as i64 || py < i32::MIN as i64 || py > i32::MAX as i64 {
            proof {
                assert(!(i32::MIN <= crate::buffer::pen_after(x, y, cs@.take(k as int), d).0 <= i32::MAX
                    && i32::MIN <= crate::buffer::pen_after(x, y, cs@.take(k as int), d).1 <= i32::MAX));
            }
            return false;
        }
        if k == n {
            proof {
                assert(cs@.take(n as int) =~= text@);
                assert forall|j: int| #![trigger text@.take(j)]
                    0 <= j <= text@.len() implies i32::MIN <= crate::buffer::pen_after(x, y, text@.take(j), d).0
                        <= i32::MAX && i32::MIN <= crate::buffer::pen_after(x, y, text@.take(j), d).1 <= i32::MAX by {
                    assert(cs@.take(j) == text@.take(j));
                }
            }
            return true;
        }
        let c = cs[k];
        proof {
            assert(cs@.take(k + 1).drop_last() =~= cs@.take(k as int));
            assert(cs@.take(k + 1).last() == c);
        }
        if c == '\n' {
            match d {
                WriteDirection::Right => {
                    px = (x as i32) as i64;
                    py = py + 1;
                },
                WriteDirection::Left => {
                    px = (x as i32) as i64;
                    py = py - 1;
                },
                WriteDirection::Down => {
                    px = px - 1;
                    py = (y as i32) as i64;
                },
                WriteDirection::Up => {
                    px = px + 1;
                    py = (y as i32) as i64;
                },
            }
        } else {
            px = px + dx as i64;
            py = py + dy as i64;
        }
        k += 1;
    }
}

/// Whether `apply_command` can carry out `cmd` without an overflow.
fn command_fits_exec(s: &VtpState, g: &Grids, cmd: &VtpCommand) -> (b: bool)
    ensures
        b == command_fits(*s, *g, *cmd),
{
    match cmd {
        VtpCommand::PrintChar(code) => {
            if s.active_buffer.is_some() && is_scalar_code(*code) {
                s.cursor_x < u32::MAX
            } else {
                true
            }
        },
        VtpCommand::PrintString(text) => {
            match s.active_buffer {
                Some(key) => {
                    let live = g.get(key).is_some();
                    let pen_ok = if live {
                        pen_fits(s.cursor_x, s.cursor_y, text.as_str(), WriteDirection::Right)
                    } else {
                        true
                    };
                    let count = str_chars(text.as_str()).len() as u32;
                    pen_ok && count <= u32::MAX - s.cursor_x
                },
                None => true,
            }
        },
        _ => true,
    }
}

fn is_scalar_code(code: u32) -> (b: bool)
    ensures
        b == is_scalar(code),
{
    code < 0xD800 || (0xE000 <= code && code <= 0x10FFFF)
}

impl VtpParser {
    /// Carries out one command on the pen and the grids.
    pub fn apply_command(&mut self, grids: &mut Grids, buffer_map: &StrMap<BufferKey>, cmd: VtpCommand)
        requires
            old(grids).wf(),
            buffer_map.wf(),
            command_fits(old(self).pen(), *old(grids), cmd),
        ensures
            final(grids).wf(),
            final(self).pending() == old(self).pending(),
            command_applied(old(self).pen(), *old(grids), buffer_map@, cmd, final(self).pen(), *final(grids)),
    {
        match cmd {
            VtpCommand::SetBuffer(name) => {
                if let Some(key) = buffer_map.get(name.as_str()) {
                    self.state.active_buffer = Some(*key);
                    self.state.cursor_x = 0;
                    self.state.cursor_y = 0;
                }
            },
            VtpCommand::SetCursor { x, y } => {
                self.state.cursor_x = x;
                self.state.cursor_y = y;
            },
            VtpCommand::SetFgColor(c) => {
                self.state.fg_color = Color::new(c.r, c.g, c.b, c.a);
            },
            VtpCommand::SetBgColor(c) => {
                self.state.bg_color = Color::new(c.r, c.g, c.b, c.a);
            },
            VtpCommand::SetVariant(v) => {
                self.state.variant_id = v;
            },
            VtpCommand::PrintChar(code) => {
                if let Some(key) = self.state.active_buffer {
                    if is_scalar_code(code) {
                        let ch = Character::full(
                            code,
                            self.state.variant_id,
                            self.state.fg_color,
                            self.state.bg_color,
                            Blend::Alpha,
                            Blend::Alpha,
                            Transform::new(),
                            None,
                        );
                        grids.set_char(key, self.state.cursor_x, self.state.cursor_y, ch);
                        self.state.cursor_x += 1;
                    }
                }
            },
            VtpCommand::PrintString(text) => {
                if let Some(key) = self.state.active_buffer {
                    grids.write_string(
                        key,
                        self.state.cursor_x,
                        self.state.cursor_y,
                        text.as_str(),
                        self.state.fg_color,
                        self.state.bg_color,
                    );
                    let count = str_chars(text.as_str()).len() as u32;
                    self.state.cursor_x += count;
                }
            },
            VtpCommand::LoadScene { .. } => {},
        }
    }

    /// Appends received bytes, then cuts and carries out every complete
    /// packet.  Returns `false`, and stops, at a command that would move
    /// the cursor past the integer range; that command is dropped.
    pub fn process(&mut self, grids: &mut Grids, buffer_map: &StrMap<BufferKey>, new_data: &[u8]) -> (done: bool)
        requires
            old(grids).wf(),
            buffer_map.wf(),
        ensures
            final(grids).wf(),
            ({
                let b0 = old(self).pending() + new_data@;
                done ==> exists|n: nat|
                    #[trigger] ran(old(self).pen(), *old(grids), buffer_map@, b0, n, final(self).pen(), *final(grids))
                        && next_packet(after_packets(b0, n)) is None && final(self).pending() == after_next(
                        after_packets(b0, n),
                    )
            }),
            ({
                let b0 = old(self).pending() + new_data@;
                !done ==> exists|n: nat|
                    #[trigger] ran(old(self).pen(), *old(grids), buffer_map@, b0, n, final(self).pen(), *final(grids))
                        && next_packet(after_packets(b0, n)) is Some && final(self).pending() == after_packets(
                        b0,
                        n + 1,
                    ) && exists|cmd: VtpCommand|
                        decodes(cmd, next_packet(after_packets(b0, n)).unwrap()) && !command_fits(
                            final(self).pen(),
                            *final(grids),
                            cmd,
                        )
            }),
    {
        self.push_bytes(new_data);
        let ghost b0 = self.buffer@;
        let ghost s0 = self.state;
        let ghost g0 = *grids;
        let ghost mut trace: Seq<(VtpState, Grids)> = seq![(s0, g0)];
        let ghost mut cmds: Seq<VtpCommand> = Seq::empty();
        loop
            invariant
                grids.wf(),
                buffer_map.wf(),
                b0 == old(self).pending() + new_data@,
                s0 == old(self).pen(),
                g0 == *old(grids),
                is_run(buffer_map@, b0, trace, cmds),
                trace[0] == (s0, g0),
                trace[cmds.len() as int] == (self.state, *grids),
                self.buffer@ == after_packets(b0, cmds.len()),
            decreases self.buffer@.len(),
        {
            let ghost before = self.buffer@;
            let ghost sm = self.state;
            let ghost gm = *grids;
            match self.next_command() {
                None => {
                    assert(ran(s0, g0, buffer_map@, b0, cmds.len(), self.state, *grids));
                    return true;
                },
                Some(cmd) => {
                    proof {
                        lemma_after_next_shorter(before);
                    }
                    if !command_fits_exec(&self.state, grids, &cmd) {
                        assert(ran(s0, g0, buffer_map@, b0, cmds.len(), self.state, *grids));
                        assert(self.buffer@ == after_packets(b0, cmds.len() + 1));
                        return false;
                    }
                    self.apply_command(grids, buffer_map, cmd);
                    proof {
                        let t2 = trace.push((self.state, *grids));
                        let c2 = cmds.push(cmd);
                        assert(step_ok(buffer_map@, b0, cmds.len(), trace[cmds.len() as int], (self.state, *grids), cmd));
                        assert forall|i: int| 0 <= i < c2.len() implies step_ok(
                            buffer_map@,
                            b0,
                            i as nat,
                            #[trigger] t2[i],
                            t2[i + 1],
                            c2[i],
                        ) by {
                            if i < cmds.len() {
                                assert(t2[i] == trace[i] && t2[i + 1] == trace[i + 1] && c2[i] == cmds[i]);
                            }
                        }
                        trace = t2;
                        cmds = c2;
                    }
                },
            }
        }
    }
}

} // verus!
