//! The mip chain of the bloom effect: which render-target sizes the
//! downsample and upsample passes go through.

use vstd::prelude::*;

verus! {

/// Most levels a bloom chain has.
pub const BLOOM_MAX_MIPS: u32 = 6u32;

/// Levels from a `w` by `h` level on, at most `n` of them: each level
/// halves the one before (rounding down), and the chain ends before a
/// level with a side under 2.
pub open spec fn chain_from(w: u32, h: u32, n: nat) -> Seq<(u32, u32)>
    decreases n,
{
    if n == 0 || w < 2 || h < 2 {
        Seq::empty()
    } else {
        seq![(w, h)] + chain_from(w / 2, h / 2, (n - 1) as nat)
    }
}

/// The bloom chain of a `width` by `height` source: from half its size,
/// at most `BLOOM_MAX_MIPS` levels.
pub open spec fn mip_chain(width: u32, height: u32) -> Seq<(u32, u32)> {
    chain_from(width / 2, height / 2, BLOOM_MAX_MIPS as nat)
}

/// The sizes of the bloom chain for a `width` by `height` source, or
/// `None` when the source is too small for two levels.
pub fn mip_sizes(width: u32, height: u32) -> (r: Option<Vec<(u32, u32)>>)
    ensures
        r is Some <==> mip_chain(width, height).len() >= 2,
        r matches Some(v) ==> v@ == mip_chain(width, height),
{
    let mut chain: Vec<(u32, u32)> = Vec::new();
    let mut w = width / 2;
    let mut h = height / 2;
    let mut k: u32 = 0;
    while k < BLOOM_MAX_MIPS && w >= 2 && h >= 2
        invariant
            k <= BLOOM_MAX_MIPS,
            chain@ + chain_from(w, h, (BLOOM_MAX_MIPS - k) as nat) == mip_chain(width, height),
        decreases BLOOM_MAX_MIPS - k,
    {
        let ghost before = chain@;
        chain.push((w, h));
        proof {
            assert(chain_from(w, h, (BLOOM_MAX_MIPS - k) as nat) == seq![(w, h)] + chain_from(
                w / 2,
                h / 2,
                (BLOOM_MAX_MIPS - k - 1) as nat,
            ));
            assert(before + (seq![(w, h)] + chain_from(w / 2, h / 2, (BLOOM_MAX_MIPS - k - 1) as nat)) =~= chain@
                + chain_from(w / 2, h / 2, (BLOOM_MAX_MIPS - k - 1) as nat));
        }
        w = w / 2;
        h = h / 2;
        k = k + 1;
    }
    assert(chain_from(w, h, (BLOOM_MAX_MIPS - k) as nat) =~= Seq::<(u32, u32)>::empty());
    assert(chain@ + Seq::<(u32, u32)>::empty() =~= chain@);
    if chain.len() < 2 {
        None
    } else {
        Some(chain)
    }
}

} // verus!
