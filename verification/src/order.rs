//! Lexicographic order on byte strings, and sorting by such keys.
use vstd::prelude::*;

verus! {

/// `a` comes before `b` in lexicographic byte order (as `str` and `[u8]` compare).
pub open spec fn lex_lt(a: Seq<u8>, b: Seq<u8>) -> bool
    decreases a.len(),
{
    if b.len() == 0 {
        false
    } else if a.len() == 0 {
        true
    } else if a[0] != b[0] {
        a[0] < b[0]
    } else {
        lex_lt(a.drop_first(), b.drop_first())
    }
}

pub proof fn lemma_lex_lt_asymmetric(a: Seq<u8>, b: Seq<u8>)
    ensures
        lex_lt(a, b) ==> !lex_lt(b, a),
    decreases a.len(),
{
    if a.len() > 0 && b.len() > 0 && a[0] == b[0] {
        lemma_lex_lt_asymmetric(a.drop_first(), b.drop_first());
    }
}

pub proof fn lemma_lex_lt_total(a: Seq<u8>, b: Seq<u8>)
    ensures
        a != b ==> lex_lt(a, b) || lex_lt(b, a),
    decreases a.len(),
{
    if a.len() > 0 && b.len() > 0 && a[0] == b[0] {
        lemma_lex_lt_total(a.drop_first(), b.drop_first());
        if a.drop_first() == b.drop_first() {
            assert(a =~= seq![a[0]] + a.drop_first());
            assert(b =~= seq![b[0]] + b.drop_first());
        }
    } else if a.len() == 0 && b.len() == 0 {
        assert(a =~= b);
    }
}

/// Whether `a` comes before `b` in lexicographic byte order.
pub fn lex_less(a: &[u8], b: &[u8]) -> (r: bool)
    ensures
        r == lex_lt(a@, b@),
{
    let mut i: usize = 0;
    assert(a@.skip(0) =~= a@);
    assert(b@.skip(0) =~= b@);
    while i < a.len() && i < b.len()
        invariant
            i <= a@.len(),
            i <= b@.len(),
            lex_lt(a@, b@) == lex_lt(a@.skip(i as int), b@.skip(i as int)),
        decreases a@.len() - i,
    {
        if a[i] != b[i] {
            return a[i] < b[i];
        }
        assert(a@.skip(i as int).drop_first() =~= a@.skip(i + 1));
        assert(b@.skip(i as int).drop_first() =~= b@.skip(i + 1));
        i = i + 1;
    }
    i < b.len()
}

/// The keys at positions `p`, in that order, never decrease.
pub open spec fn ordered_by(keys: Seq<Seq<u8>>, p: Seq<usize>) -> bool {
    forall|i: int| 0 <= i && i + 1 < p.len() ==> !lex_lt(#[trigger] keys[p[i + 1] as int], keys[p[i] as int])
}

/// `p` lists each position below `n` once.
pub open spec fn is_permutation(p: Seq<usize>, n: nat) -> bool {
    &&& p.len() == n
    &&& p.no_duplicates()
    &&& forall|i: int| 0 <= i < p.len() ==> #[trigger] p[i] < n
    &&& forall|x: usize| x < n ==> #[trigger] p.contains(x)
}

/// The positions of `keys` in increasing order of their keys.
pub fn sorted_positions(keys: &Vec<Vec<u8>>) -> (p: Vec<usize>)
    ensures
        is_permutation(p@, keys@.len()),
        ordered_by(keys@.map_values(|k: Vec<u8>| k@), p@),
{
    let ghost ks = keys@.map_values(|k: Vec<u8>| k@);
    let mut p: Vec<usize> = Vec::new();
    let mut k: usize = 0;
    while k < keys.len()
        invariant
            k <= keys@.len(),
            ks == keys@.map_values(|k: Vec<u8>| k@),
            is_permutation(p@, k as nat),
            ordered_by(ks, p@),
        decreases keys@.len() - k,
    {
        let mut pos: usize = 0;
        while pos < p.len()
            invariant_except_break
                k < keys@.len(),
                ks == keys@.map_values(|k: Vec<u8>| k@),
                is_permutation(p@, k as nat),
                pos <= p@.len(),
                forall|j: int| 0 <= j < pos ==> !lex_lt(ks[k as int], #[trigger] ks[p@[j] as int]),
            ensures
                pos <= p@.len(),
                forall|j: int| 0 <= j < pos ==> !lex_lt(ks[k as int], #[trigger] ks[p@[j] as int]),
                pos < p@.len() ==> lex_lt(ks[k as int], ks[p@[pos as int] as int]),
            decreases p@.len() - pos,
        {
            if lex_less(keys[k].as_slice(), keys[p[pos]].as_slice()) {
                break;
            }
            pos = pos + 1;
        }
        let ghost old_p = p@;
        proof {
            if pos < old_p.len() {
                lemma_lex_lt_asymmetric(ks[k as int], ks[old_p[pos as int] as int]);
            }
            assert(!old_p.contains(k)) by {
                if old_p.contains(k) {
                    let j = choose|j: int| 0 <= j < old_p.len() && old_p[j] == k;
                    assert(old_p[j] < k);
                }
            }
        }
        p.insert(pos, k);
        assert(p@ =~= old_p.insert(pos as int, k));
        proof {
            assert forall|i: int| 0 <= i < p@.len() implies #[trigger] p@[i] < k + 1 by {
                if i < pos {
                    assert(p@[i] == old_p[i]);
                } else if i > pos {
                    assert(p@[i] == old_p[i - 1]);
                }
            }
            assert forall|i: int, j: int| 0 <= i < p@.len() && 0 <= j < p@.len() && i != j implies p@[i] != p@[j] by {
                if i != pos && j != pos {
                    let oi = if i < pos { i } else { i - 1 };
                    let oj = if j < pos { j } else { j - 1 };
                    assert(p@[i] == old_p[oi]);
                    assert(p@[j] == old_p[oj]);
                } else if i == pos {
                    let oj = if j < pos { j } else { j - 1 };
                    assert(p@[j] == old_p[oj]);
                    assert(old_p[oj] < k);
                } else {
                    let oi = if i < pos { i } else { i - 1 };
                    assert(p@[i] == old_p[oi]);
                    assert(old_p[oi] < k);
                }
            }
            assert(p@.no_duplicates());
            assert forall|x: usize| x < k + 1 implies #[trigger] p@.contains(x) by {
                if x == k {
                    assert(p@[pos as int] == k);
                } else {
                    assert(old_p.contains(x));
                    let j = choose|j: int| 0 <= j < old_p.len() && old_p[j] == x;
                    if j < pos {
                        assert(p@[j] == x);
                    } else {
                        assert(p@[j + 1] == x);
                    }
                }
            }
            assert forall|i: int| 0 <= i && i + 1 < p@.len() implies !lex_lt(#[trigger] ks[p@[i + 1] as int], ks[p@[i] as int]) by {
                if i + 1 < pos {
                    assert(p@[i] == old_p[i] && p@[i + 1] == old_p[i + 1]);
                    assert(!lex_lt(ks[old_p[i + 1] as int], ks[old_p[i] as int]));
                } else if i + 1 == pos {
                    assert(p@[i] == old_p[i]);
                    assert(p@[i + 1] == k);
                    assert(!lex_lt(ks[k as int], ks[old_p[i] as int]));
                } else if i == pos {
                    assert(p@[i + 1] == old_p[i]);
                    assert(p@[i] == k);
                    assert(lex_lt(ks[k as int], ks[old_p[pos as int] as int]));
                } else {
                    assert(p@[i] == old_p[i - 1] && p@[i + 1] == old_p[i]);
                    assert(!lex_lt(ks[old_p[(i - 1) + 1] as int], ks[old_p[i - 1] as int]));
                }
            }
        }
        k = k + 1;
    }
    p
}

} // verus!
