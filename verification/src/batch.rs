//! Draw planning: what drawing a buffer takes, as the renderer batches
//! it.  Background rectangles come first, one per cell with a visible
//! background; then the glyphs of the cells with a visible foreground,
//! in cell order, cut into runs that share a sprite sheet and a blend
//! mode, so that each run is one draw call.

use vstd::prelude::*;
use crate::buffer::Buffer;
use crate::glyphset::Glyphset;
use crate::keys::AtlasKey;
use crate::registry::GlobalGlyphRegistry;
use crate::types::{Blend, Character, Color, Transform};

verus! {

/// A background rectangle: the cell it fills (its index, row by row) and
/// its colour.
#[derive(Debug, Clone, Copy, PartialEq, Eq, Structural)]
pub struct CellQuad {
    pub cell: u32,
    pub color: Color,
}

/// A glyph to draw: the cell it sits in (its index, row by row), the
/// sprite's index on its sheet, its colour and its transform.
#[derive(Debug, Clone, Copy, PartialEq, Eq, Structural)]
pub struct GlyphQuad {
    pub cell: u32,
    pub sprite: u32,
    pub color: Color,
    pub transform: Transform,
}

/// Glyphs drawn from one sprite sheet with one blend mode, in order.
pub struct GlyphRun {
    pub atlas: AtlasKey,
    pub blend: Blend,
    pub quads: Vec<GlyphQuad>,
}

/// How to draw a buffer: its background rectangles, then its glyph runs.
pub struct BufferPlan {
    pub background: Vec<CellQuad>,
    pub runs: Vec<GlyphRun>,
}

/// Global id that a glyphset gives `code` in variant `variant`: the table
/// entry when both exist, the glyphset's default otherwise.
pub open spec fn glyph_id(gs: Glyphset, code: u32, variant: u8) -> u32 {
    if (variant as int) < gs.luts@.len() && (code as int) < gs.luts@[variant as int]@.len() {
        gs.luts@[variant as int]@[code as int]
    } else {
        gs.default_global_id
    }
}

/// A rectangle for each cell whose background is not fully transparent,
/// in cell order.
pub open spec fn bg_quads(cells: Seq<Character>) -> Seq<CellQuad>
    decreases cells.len(),
{
    if cells.len() == 0 {
        Seq::empty()
    } else {
        let front = bg_quads(cells.drop_last());
        let c = cells.last();
        if c.bcolor.a > 0 {
            front.push(CellQuad { cell: (cells.len() - 1) as u32, color: c.bcolor })
        } else {
            front
        }
    }
}

/// The glyph of each cell whose foreground is not fully transparent, in
/// cell order, with the sheet its global id is registered on and the
/// cell's blend mode; `None` when the registry `reg` lacks the global id
/// of one of them.
pub open spec fn glyph_items(cells: Seq<Character>, gs: Glyphset, reg: Seq<(AtlasKey, u32)>) -> Option<
    Seq<(AtlasKey, Blend, GlyphQuad)>,
>
    decreases cells.len(),
{
    if cells.len() == 0 {
        Some(Seq::empty())
    } else {
        match glyph_items(cells.drop_last(), gs, reg) {
            None => None,
            Some(front) => {
                let c = cells.last();
                if c.fcolor.a == 0 {
                    Some(front)
                } else {
                    let id = glyph_id(gs, c.code, c.variant_id);
                    if (id as int) < reg.len() {
                        let e = reg[id as int];
                        Some(
                            front.push(
                                (
                                    e.0,
                                    c.fg_blend,
                                    GlyphQuad {
                                        cell: (cells.len() - 1) as u32,
                                        sprite: e.1,
                                        color: c.fcolor,
                                        transform: c.transform,
                                    },
                                ),
                            ),
                        )
                    } else {
                        None
                    }
                }
            },
        }
    }
}

/// `items` cut into maximal runs of equal sheet and blend mode.
pub open spec fn group_runs(items: Seq<(AtlasKey, Blend, GlyphQuad)>) -> Seq<(AtlasKey, Blend, Seq<GlyphQuad>)>
    decreases items.len(),
{
    if items.len() == 0 {
        Seq::empty()
    } else {
        let g = group_runs(items.drop_last());
        let x = items.last();
        if g.len() > 0 && g.last().0 == x.0 && g.last().1 == x.1 {
            g.update(g.len() - 1, (x.0, x.1, g.last().2.push(x.2)))
        } else {
            g.push((x.0, x.1, seq![x.2]))
        }
    }
}

pub open spec fn run_view(r: GlyphRun) -> (AtlasKey, Blend, Seq<GlyphQuad>) {
    (r.atlas, r.blend, r.quads@)
}

pub open spec fn runs_view(runs: Seq<GlyphRun>) -> Seq<(AtlasKey, Blend, Seq<GlyphQuad>)> {
    runs.map_values(|r: GlyphRun| run_view(r))
}

/// The finished runs, then the run being filled.
pub open spec fn open_runs(runs: Seq<GlyphRun>, cur: Option<(AtlasKey, Blend)>, quads: Seq<GlyphQuad>) -> Seq<
    (AtlasKey, Blend, Seq<GlyphQuad>),
> {
    match cur {
        Some(k) => runs_view(runs).push((k.0, k.1, quads)),
        None => runs_view(runs),
    }
}

/// A prefix of the cells whose glyphs cannot all be looked up makes the
/// whole buffer's lookup fail.
proof fn lemma_items_none(cells: Seq<Character>, gs: Glyphset, reg: Seq<(AtlasKey, u32)>, i: int)
    requires
        0 <= i <= cells.len(),
        glyph_items(cells.take(i), gs, reg) is None,
    ensures
        glyph_items(cells, gs, reg) is None,
    decreases cells.len(),
{
    if i < cells.len() {
        assert(cells.drop_last().take(i) =~= cells.take(i));
        lemma_items_none(cells.drop_last(), gs, reg, i);
    } else {
        assert(cells.take(i) =~= cells);
    }
}

proof fn lemma_group_runs_nonempty(items: Seq<(AtlasKey, Blend, GlyphQuad)>)
    ensures
        items.len() > 0 <==> group_runs(items).len() > 0,
        items.len() > 0 ==> group_runs(items).last().0 == items.last().0 && group_runs(items).last().1
            == items.last().1,
    decreases items.len(),
{
    if items.len() > 0 {
        lemma_group_runs_nonempty(items.drop_last());
    }
}

/// How to draw `buffer` with `glyphset`, whose global ids `registry`
/// resolves to sprites: a rectangle for each cell with a visible
/// background, then the glyphs of the cells with a visible foreground in
/// maximal runs of equal sheet and blend mode.  `None` when the registry
/// lacks the global id of a glyph to draw.
pub fn plan_buffer(buffer: &Buffer, glyphset: &Glyphset, registry: &GlobalGlyphRegistry) -> (r: Option<BufferPlan>)
    requires
        buffer.wf(),
    ensures
        r is Some <==> glyph_items(buffer.cells(), *glyphset, registry.entry_seq()) is Some,
        r matches Some(p) ==> {
            &&& p.background@ == bg_quads(buffer.cells())
            &&& runs_view(p.runs@) == group_runs(glyph_items(buffer.cells(), *glyphset, registry.entry_seq()).unwrap())
        },
{
    let ghost cells = buffer.cells();
    let ghost reg = registry.entry_seq();
    let n = buffer.data.len();
    let mut background: Vec<CellQuad> = Vec::new();
    let mut runs: Vec<GlyphRun> = Vec::new();
    let mut cur: Option<(AtlasKey, Blend)> = None;
    let mut quads: Vec<GlyphQuad> = Vec::new();
    let mut i: usize = 0;
    assert(cells.take(0) =~= Seq::<Character>::empty());
    while i < n
        invariant
            cells == buffer.cells(),
            reg == registry.entry_seq(),
            n == cells.len(),
            n <= u32::MAX,
            i <= n,
            background@ == bg_quads(cells.take(i as int)),
            glyph_items(cells.take(i as int), *glyphset, reg) is Some,
            open_runs(runs@, cur, quads@) == group_runs(glyph_items(cells.take(i as int), *glyphset, reg).unwrap()),
            cur is Some ==> quads@.len() > 0,
            cur is Some <==> glyph_items(cells.take(i as int), *glyphset, reg).unwrap().len() > 0,
            cur is Some ==> cur.unwrap().0 == glyph_items(cells.take(i as int), *glyphset, reg).unwrap().last().0
                && cur.unwrap().1 == glyph_items(cells.take(i as int), *glyphset, reg).unwrap().last().1,
        decreases n - i,
    {
        let c = buffer.data[i];
        let ghost pre = cells.take(i as int);
        let ghost next = cells.take(i + 1);
        proof {
            assert(next.drop_last() =~= pre);
            assert(next.last() == c);
            lemma_group_runs_nonempty(glyph_items(pre, *glyphset, reg).unwrap());
        }
        if c.bcolor.a > 0 {
            background.push(CellQuad { cell: i as u32, color: c.bcolor });
        }
        if c.fcolor.a > 0 {
            let id = glyphset.global_id_for(c.code, c.variant_id);
            match registry.entry(id) {
                None => {
                    proof {
                        lemma_items_none(cells, *glyphset, reg, i + 1);
                    }
                    return None;
                },
                Some(e) => {
                    let q = GlyphQuad { cell: i as u32, sprite: e.1, color: c.fcolor, transform: c.transform };
                    let ghost items = glyph_items(pre, *glyphset, reg).unwrap();
                    let ghost g = group_runs(items);
                    proof {
                        assert(glyph_items(next, *glyphset, reg) == Some(items.push((e.0, c.fg_blend, q))));
                        assert(items.push((e.0, c.fg_blend, q)).drop_last() =~= items);
                    }
                    match cur {
                        Some(k) => {
                            if k.0 == e.0 && k.1 == c.fg_blend {
                                let ghost before = quads@;
                                quads.push(q);
                                proof {
                                    assert(g.len() > 0 && g.last().0 == e.0 && g.last().1 == c.fg_blend);
                                    assert(open_runs(runs@, cur, quads@) =~= g.update(
                                        g.len() - 1,
                                        (e.0, c.fg_blend, g.last().2.push(q)),
                                    ));
                                }
                            } else {
                                let ghost old_runs = runs@;
                                runs.push(GlyphRun { atlas: k.0, blend: k.1, quads });
                                quads = Vec::new();
                                quads.push(q);
                                cur = Some((e.0, c.fg_blend));
                                proof {
                                    assert(runs_view(runs@) =~= runs_view(old_runs).push(run_view(runs@.last())));
                                    assert(open_runs(runs@, cur, quads@) =~= g.push((e.0, c.fg_blend, seq![q])));
                                }
                            }
                        },
                        None => {
                            quads = Vec::new();
                            quads.push(q);
                            cur = Some((e.0, c.fg_blend));
                            proof {
                                assert(open_runs(runs@, cur, quads@) =~= g.push((e.0, c.fg_blend, seq![q])));
                            }
                        },
                    }
                },
            }
        }
        i += 1;
    }
    proof {
        assert(cells.take(n as int) =~= cells);
    }
    match cur {
        Some(k) => {
            let ghost old_runs = runs@;
            runs.push(GlyphRun { atlas: k.0, blend: k.1, quads });
            proof {
                assert(runs_view(runs@) =~= runs_view(old_runs).push(run_view(runs@.last())));
            }
        },
        None => {},
    }
    Some(BufferPlan { background, runs })
}

} // verus!
