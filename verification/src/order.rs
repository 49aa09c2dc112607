//! Lexicographic order of strings by code point, and sorting keys by it.

use vstd::prelude::*;

verus! {

/// `a` sorts strictly before `b` (code point order, a proper prefix
/// first).
pub open spec fn lex_lt(a: Seq<char>, b: Seq<char>) -> bool
    decreases a.len(),
{
    if b.len() == 0 {
        false
    } else if a.len() == 0 {
        true
    } else if a[0] < b[0] {
        true
    } else if a[0] == b[0] {
        lex_lt(a.drop_first(), b.drop_first())
    } else {
        false
    }
}

pub proof fn lemma_lex_irreflexive(a: Seq<char>)
    ensures
        !lex_lt(a, a),
    decreases a.len(),
{
    if a.len() > 0 {
        lemma_lex_irreflexive(a.drop_first());
    }
}

pub proof fn lemma_lex_total(a: Seq<char>, b: Seq<char>)
    requires
        a != b,
    ensures
        lex_lt(a, b) || lex_lt(b, a),
    decreases a.len(),
{
    if a.len() > 0 && b.len() > 0 && a[0] == b[0] {
        if a.drop_first() == b.drop_first() {
            assert(a =~= seq![a[0]] + a.drop_first());
            assert(b =~= seq![b[0]] + b.drop_first());
        }
        lemma_lex_total(a.drop_first(), b.drop_first());
    } else if a.len() == 0 && b.len() == 0 {
        assert(a =~= b);
    }
}

pub proof fn lemma_lex_asymmetric(a: Seq<char>, b: Seq<char>)
    ensures
        lex_lt(a, b) ==> !lex_lt(b, a),
    decreases a.len(),
{
    if a.len() > 0 && b.len() > 0 && a[0] == b[0] {
        lemma_lex_asymmetric(a.drop_first(), b.drop_first());
    }
}

pub proof fn lemma_lex_transitive(a: Seq<char>, b: Seq<char>, c: Seq<char>)
    requires
        lex_lt(a, b),
        lex_lt(b, c),
    ensures
        lex_lt(a, c),
    decreases a.len(),
{
    if a.len() > 0 && b.len() > 0 && c.len() > 0 && a[0] == b[0] && b[0] == c[0] {
        lemma_lex_transitive(a.drop_first(), b.drop_first(), c.drop_first());
    }
}

/// Whether `a` sorts strictly before `b`.
pub fn lex_lt_exec(a: &[char], b: &[char]) -> (r: bool)
    ensures
        r == lex_lt(a@, b@),
{
    let mut i: usize = 0;
    assert(a@.subrange(0, a@.len() as int) =~= a@);
    assert(b@.subrange(0, b@.len() as int) =~= b@);
    while i < a.len() && i < b.len()
        invariant
            i <= a@.len() && i <= b@.len(),
            a@.subrange(0, i as int) == b@.subrange(0, i as int),
            lex_lt(a@, b@) == lex_lt(a@.subrange(i as int, a@.len() as int), b@.subrange(i as int, b@.len() as int)),
        decreases a@.len() - i,
    {
        let ghost sa = a@.subrange(i as int, a@.len() as int);
        let ghost sb = b@.subrange(i as int, b@.len() as int);
        if a[i] < b[i] {
            return true;
        }
        if a[i] != b[i] {
            return false;
        }
        assert(sa.drop_first() =~= a@.subrange(i + 1, a@.len() as int));
        assert(sb.drop_first() =~= b@.subrange(i + 1, b@.len() as int));
        assert(a@.subrange(0, i + 1) =~= a@.subrange(0, i as int).push(a@[i as int]));
        assert(b@.subrange(0, i + 1) =~= b@.subrange(0, i as int).push(b@[i as int]));
        i += 1;
    }
    i < b.len()
}

/// Indices into `keys` ordered so that the keys they select are
/// strictly increasing; the set of selected indices is `idx`'s.
pub fn sort_indices_by_key(keys: &Vec<Vec<char>>, idx: Vec<usize>) -> (r: Vec<usize>)
    requires
        forall|i: int| 0 <= i < idx@.len() ==> (#[trigger] idx@[i]) < keys@.len(),
        forall|i: int, j: int|
            0 <= i < j < idx@.len() ==> keys@[#[trigger] idx@[i] as int]@ != keys@[#[trigger] idx@[j] as int]@,
    ensures
        r@.len() == idx@.len(),
        forall|x: usize| r@.contains(x) <==> idx@.contains(x),
        forall|i: int| 0 <= i < r@.len() ==> (#[trigger] r@[i]) < keys@.len(),
        forall|i: int, j: int|
            0 <= i < j < r@.len() ==> lex_lt(keys@[#[trigger] r@[i] as int]@, keys@[#[trigger] r@[j] as int]@),
{
    let mut rest = idx;
    let mut out: Vec<usize> = Vec::new();
    let ghost all = rest@;

    while rest.len() > 0
        invariant
            forall|i: int| 0 <= i < rest@.len() ==> (#[trigger] rest@[i]) < keys@.len(),
            forall|i: int| 0 <= i < out@.len() ==> (#[trigger] out@[i]) < keys@.len(),
            forall|i: int, j: int|
                0 <= i < j < rest@.len() ==> keys@[#[trigger] rest@[i] as int]@ != keys@[#[trigger] rest@[j] as int]@,
            forall|x: usize| all.contains(x) <==> (out@.contains(x) || rest@.contains(x)),
            out@.len() + rest@.len() == all.len(),
            forall|i: int, j: int|
                0 <= i < j < out@.len() ==> lex_lt(keys@[#[trigger] out@[i] as int]@, keys@[#[trigger] out@[j] as int]@),
            forall|i: int, j: int|
                0 <= i < out@.len() && 0 <= j < rest@.len() ==> lex_lt(keys@[#[trigger] out@[i] as int]@, keys@[#[trigger] rest@[j] as int]@),
        decreases rest@.len(),
    {
        let mut m: usize = 0;
        let mut j: usize = 1;
        proof {
            lemma_lex_irreflexive(keys@[rest@[0] as int]@);
        }
        while j < rest.len()
            invariant
                1 <= j <= rest@.len(),
                m < j,
                forall|i: int| 0 <= i < rest@.len() ==> (#[trigger] rest@[i]) < keys@.len(),
                forall|t: int| 0 <= t < j ==> !lex_lt(keys@[#[trigger] rest@[t] as int]@, keys@[rest@[m as int] as int]@),
            decreases rest@.len() - j,
        {
            if lex_lt_exec(keys[rest[j]].as_slice(), keys[rest[m]].as_slice()) {
                proof {
                    assert forall|t: int| 0 <= t < j + 1 implies !lex_lt(keys@[#[trigger] rest@[t] as int]@, keys@[rest@[j as int] as int]@) by {
                        if t == j {
                            lemma_lex_irreflexive(keys@[rest@[t] as int]@);
                        } else {
                            if lex_lt(keys@[rest@[t] as int]@, keys@[rest@[j as int] as int]@) {
                                lemma_lex_transitive(
                                    keys@[rest@[t] as int]@,
                                    keys@[rest@[j as int] as int]@,
                                    keys@[rest@[m as int] as int]@,
                                );
                            }
                        }
                    }
                }
                m = j;
            }
            j += 1;
        }
        let ghost old_rest = rest@;
        let ghost old_out = out@;
        let pick = rest.remove(m);
        out.push(pick);
        proof {
            assert forall|x: usize| all.contains(x) <==> (out@.contains(x) || rest@.contains(x)) by {
                if old_rest.contains(x) {
                    let k = choose|k: int| 0 <= k < old_rest.len() && old_rest[k] == x;
                    if k != m {
                        let k2 = if k < m { k } else { k - 1 };
                        assert(rest@[k2] == x);
                    } else {
                        assert(out@[out@.len() - 1] == x);
                    }
                }
                if old_out.contains(x) {
                    let k = choose|k: int| 0 <= k < old_out.len() && old_out[k] == x;
                    assert(out@[k] == x);
                }
                if out@.contains(x) {
                    let k = choose|k: int| 0 <= k < out@.len() && out@[k] == x;
                    if k < old_out.len() {
                        assert(old_out[k] == x);
                    } else {
                        assert(old_rest[m as int] == x);
                    }
                }
                if rest@.contains(x) {
                    let k = choose|k: int| 0 <= k < rest@.len() && rest@[k] == x;
                    let k2 = if k < m { k } else { k + 1 };
                    assert(old_rest[k2] == x);
                }
            }
            assert forall|i: int, j: int| 0 <= i < j < out@.len() implies lex_lt(keys@[#[trigger] out@[i] as int]@, keys@[#[trigger] out@[j] as int]@) by {
                if j == out@.len() - 1 {
                    assert(out@[j] == old_rest[m as int]);
                }
            }
            assert forall|i: int, j: int| 0 <= i < out@.len() && 0 <= j < rest@.len() implies lex_lt(keys@[#[trigger] out@[i] as int]@, keys@[#[trigger] rest@[j] as int]@) by {
                let j2 = if j < m { j } else { j + 1 };
                assert(rest@[j] == old_rest[j2]);
                if i == out@.len() - 1 {
                    assert(j2 != m);
                    lemma_lex_total(keys@[old_rest[m as int] as int]@, keys@[old_rest[j2] as int]@);
                } else {
                    assert(out@[i] == old_out[i]);
                }
            }
            assert forall|a: int, b: int| 0 <= a < b < rest@.len() implies keys@[#[trigger] rest@[a] as int]@ != keys@[#[trigger] rest@[b] as int]@ by {
                let a2 = if a < m { a } else { a + 1 };
                let b2 = if b < m { b } else { b + 1 };
                assert(rest@[a] == old_rest[a2]);
                assert(rest@[b] == old_rest[b2]);
            }
        }
    }
    proof {
        assert(rest@.len() == 0);
    }
    out
}

} // verus!
