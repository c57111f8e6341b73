//! Stable ordering of selected entries by a rank, then a text.

use crate::text::{compare_text, lemma_text_lt_asymmetric, lemma_text_lt_total, lemma_text_lt_transitive, text_lt};
use vstd::prelude::*;

verus! {

/// Entry `i` comes before entry `j`: by rank, then by text (code point
/// order), then by position, which keeps equal entries in their first order.
pub open spec fn precedes(ranks: Seq<u8>, texts: Seq<Seq<char>>, i: int, j: int) -> bool {
    ||| ranks[i] < ranks[j]
    ||| (ranks[i] == ranks[j] && text_lt(texts[i], texts[j]))
    ||| (ranks[i] == ranks[j] && texts[i] == texts[j] && i < j)
}

/// Position `i` appears in `order`.
pub open spec fn lists(order: Seq<usize>, i: int) -> bool {
    exists|k: int| 0 <= k < order.len() && #[trigger] order[k] as int == i
}

/// `order` lists each selected position once, first to last as `precedes`
/// ranks them, and nothing else.
pub open spec fn is_sorted_selection(
    ranks: Seq<u8>,
    texts: Seq<Seq<char>>,
    selected: Seq<bool>,
    order: Seq<usize>,
) -> bool {
    &&& forall|k: int|
        0 <= k < order.len() ==> (#[trigger] order[k]) < selected.len() && selected[order[k] as int]
    &&& forall|i: int| 0 <= i < selected.len() && #[trigger] selected[i] ==> lists(order, i)
    &&& forall|a: int, b: int|
        0 <= a < b < order.len() ==> precedes(ranks, texts, #[trigger] order[a] as int, #[trigger] order[b] as int)
}

/// The texts that a vector of character vectors holds.
pub open spec fn texts_of(v: Seq<Vec<char>>) -> Seq<Seq<char>> {
    v.map_values(|t: Vec<char>| t@)
}

pub proof fn lemma_precedes_irreflexive(ranks: Seq<u8>, texts: Seq<Seq<char>>, i: int)
    ensures
        !precedes(ranks, texts, i, i),
{
    if text_lt(texts[i], texts[i]) {
        lemma_text_lt_asymmetric(texts[i], texts[i]);
    }
}

pub proof fn lemma_precedes_asymmetric(ranks: Seq<u8>, texts: Seq<Seq<char>>, i: int, j: int)
    requires
        precedes(ranks, texts, i, j),
    ensures
        !precedes(ranks, texts, j, i),
{
    if text_lt(texts[i], texts[j]) {
        lemma_text_lt_asymmetric(texts[i], texts[j]);
    }
    if text_lt(texts[j], texts[i]) {
        lemma_text_lt_asymmetric(texts[j], texts[i]);
    }
}

pub proof fn lemma_precedes_total(ranks: Seq<u8>, texts: Seq<Seq<char>>, i: int, j: int)
    requires
        i != j,
    ensures
        precedes(ranks, texts, i, j) || precedes(ranks, texts, j, i),
{
    if texts[i] != texts[j] {
        lemma_text_lt_total(texts[i], texts[j]);
    }
}

pub proof fn lemma_precedes_transitive(ranks: Seq<u8>, texts: Seq<Seq<char>>, i: int, j: int, k: int)
    requires
        precedes(ranks, texts, i, j),
        precedes(ranks, texts, j, k),
    ensures
        precedes(ranks, texts, i, k),
{
    if ranks[i] == ranks[j] && ranks[j] == ranks[k] {
        if text_lt(texts[i], texts[j]) && text_lt(texts[j], texts[k]) {
            lemma_text_lt_transitive(texts[i], texts[j], texts[k]);
        }
    }
}

/// Whether entry `i` comes before entry `j`.
pub fn entry_precedes(ranks: &Vec<u8>, texts: &Vec<Vec<char>>, i: usize, j: usize) -> (b: bool)
    requires
        i < ranks.len(),
        j < ranks.len(),
        ranks.len() == texts.len(),
    ensures
        b == precedes(ranks@, texts_of(texts@), i as int, j as int),
{
    if ranks[i] != ranks[j] {
        return ranks[i] < ranks[j];
    }
    let c = compare_text(&texts[i], &texts[j]);
    if c == 0 {
        i < j
    } else {
        proof {
            if c == 1 {
                lemma_text_lt_asymmetric(texts@[j as int]@, texts@[i as int]@);
            }
        }
        c == -1
    }
}

/// The selected positions, sorted by rank, then text, then position
/// (a stable sort of the selection).
pub fn sort_selection(ranks: &Vec<u8>, texts: &Vec<Vec<char>>, selected: &Vec<bool>) -> (order:
    Vec<usize>)
    requires
        ranks.len() == texts.len(),
        texts.len() == selected.len(),
    ensures
        is_sorted_selection(ranks@, texts_of(texts@), selected@, order@),
{
    let ghost tx = texts_of(texts@);
    let mut order: Vec<usize> = Vec::new();
    let mut i: usize = 0;
    while i < selected.len()
        invariant
            ranks.len() == texts.len(),
            texts.len() == selected.len(),
            tx == texts_of(texts@),
            i <= selected.len(),
            forall|k: int|
                0 <= k < order.len() ==> (#[trigger] order@[k]) < i && selected@[order@[k] as int],
            forall|j: int| 0 <= j < i && #[trigger] selected@[j] ==> lists(order@, j),
            forall|a: int, b: int|
                0 <= a < b < order.len() ==> precedes(
                    ranks@,
                    tx,
                    #[trigger] order@[a] as int,
                    #[trigger] order@[b] as int,
                ),
        decreases selected.len() - i,
    {
        if selected[i] {
            let mut p: usize = 0;
            while p < order.len() && entry_precedes(ranks, texts, order[p], i)
                invariant
                    ranks.len() == texts.len(),
                    texts.len() == selected.len(),
                    tx == texts_of(texts@),
                    i < selected.len(),
                    p <= order.len(),
                    forall|k: int| 0 <= k < order.len() ==> (#[trigger] order@[k]) < i,
                    forall|q: int| 0 <= q < p ==> precedes(ranks@, tx, #[trigger] order@[q] as int, i as int),
                decreases order.len() - p,
            {
                p = p + 1;
            }
            let ghost old_order = order@;
            proof {
                if p < old_order.len() {
                    lemma_precedes_total(ranks@, tx, i as int, old_order[p as int] as int);
                }
                assert forall|b: int| p <= b < old_order.len() implies precedes(
                    ranks@,
                    tx,
                    i as int,
                    #[trigger] old_order[b] as int,
                ) by {
                    if b > p {
                        lemma_precedes_transitive(
                            ranks@,
                            tx,
                            i as int,
                            old_order[p as int] as int,
                            old_order[b] as int,
                        );
                    }
                }
            }
            order.insert(p, i);
            proof {
                let n = order@;
                assert(n == old_order.insert(p as int, i));
                assert forall|a: int, b: int| 0 <= a < b < n.len() implies precedes(
                    ranks@,
                    tx,
                    #[trigger] n[a] as int,
                    #[trigger] n[b] as int,
                ) by {
                    if b < p {
                        assert(n[a] == old_order[a] && n[b] == old_order[b]);
                    } else if b == p {
                        assert(n[a] == old_order[a]);
                    } else if a == p {
                        assert(n[b] == old_order[b - 1]);
                    } else if a < p {
                        assert(n[a] == old_order[a] && n[b] == old_order[b - 1]);
                    } else {
                        assert(n[a] == old_order[a - 1] && n[b] == old_order[b - 1]);
                    }
                }
                assert forall|j: int| 0 <= j <= i && #[trigger] selected@[j] implies lists(n, j) by {
                    if j == i {
                        assert(n[p as int] as int == j);
                    } else {
                        assert(lists(old_order, j));
                        let k = choose|k: int| 0 <= k < old_order.len() && old_order[k] as int == j;
                        if k < p {
                            assert(n[k] == old_order[k]);
                        } else {
                            assert(n[k + 1] == old_order[k]);
                        }
                    }
                }
                assert forall|k: int| 0 <= k < n.len() implies (#[trigger] n[k]) < i + 1
                    && selected@[n[k] as int] by {
                    if k < p {
                        assert(n[k] == old_order[k]);
                    } else if k > p {
                        assert(n[k] == old_order[k - 1]);
                    }
                }
            }
        }
        i = i + 1;
    }
    order
}

proof fn lemma_sorted_selection_unique_rec(
    ranks: Seq<u8>,
    texts: Seq<Seq<char>>,
    selected: Seq<bool>,
    o1: Seq<usize>,
    o2: Seq<usize>,
)
    requires
        is_sorted_selection(ranks, texts, selected, o1),
        is_sorted_selection(ranks, texts, selected, o2),
    ensures
        o1 == o2,
    decreases o1.len(),
{
    if o1.len() == 0 {
        if o2.len() > 0 {
            assert(selected[o2[0] as int]);
            assert(lists(o1, o2[0] as int));
        }
        assert(o1 =~= o2);
    } else {
        assert(selected[o1[0] as int]);
        assert(lists(o2, o1[0] as int));
        let m = choose|m: int| 0 <= m < o2.len() && o2[m] as int == o1[0] as int;
        assert(selected[o2[0] as int]);
        assert(lists(o1, o2[0] as int));
        let l = choose|l: int| 0 <= l < o1.len() && o1[l] as int == o2[0] as int;
        if m > 0 {
            assert(precedes(ranks, texts, o2[0] as int, o2[m] as int));
            if l > 0 {
                assert(precedes(ranks, texts, o1[0] as int, o1[l] as int));
                lemma_precedes_asymmetric(ranks, texts, o1[0] as int, o2[0] as int);
            } else {
                lemma_precedes_irreflexive(ranks, texts, o1[0] as int);
            }
        }
        let x = o1[0];
        let s2 = selected.update(x as int, false);
        let r1 = o1.drop_first();
        let r2 = o2.drop_first();
        assert forall|k: int| 0 <= k < r1.len() implies (#[trigger] r1[k]) < s2.len() && s2[r1[k] as int] by {
            assert(precedes(ranks, texts, o1[0] as int, o1[k + 1] as int));
            lemma_precedes_irreflexive(ranks, texts, x as int);
        }
        assert forall|k: int| 0 <= k < r2.len() implies (#[trigger] r2[k]) < s2.len() && s2[r2[k] as int] by {
            assert(precedes(ranks, texts, o2[0] as int, o2[k + 1] as int));
            lemma_precedes_irreflexive(ranks, texts, x as int);
        }
        assert forall|i: int| 0 <= i < s2.len() && #[trigger] s2[i] implies lists(r1, i) by {
            assert(selected[i]);
            assert(lists(o1, i));
            let k = choose|k: int| 0 <= k < o1.len() && o1[k] as int == i;
            assert(i != x as int);
            assert(k != 0);
            assert(r1[k - 1] as int == i);
        }
        assert forall|i: int| 0 <= i < s2.len() && #[trigger] s2[i] implies lists(r2, i) by {
            assert(selected[i]);
            assert(lists(o2, i));
            let k = choose|k: int| 0 <= k < o2.len() && o2[k] as int == i;
            assert(i != x as int);
            assert(k != 0);
            assert(r2[k - 1] as int == i);
        }
        assert forall|a: int, b: int| 0 <= a < b < r1.len() implies precedes(
            ranks,
            texts,
            #[trigger] r1[a] as int,
            #[trigger] r1[b] as int,
        ) by {
            assert(precedes(ranks, texts, o1[a + 1] as int, o1[b + 1] as int));
        }
        assert forall|a: int, b: int| 0 <= a < b < r2.len() implies precedes(
            ranks,
            texts,
            #[trigger] r2[a] as int,
            #[trigger] r2[b] as int,
        ) by {
            assert(precedes(ranks, texts, o2[a + 1] as int, o2[b + 1] as int));
        }
        lemma_sorted_selection_unique_rec(ranks, texts, s2, r1, r2);
        assert(o1[0] == o2[0]);
        assert(o1.len() == r1.len() + 1 && o2.len() == r2.len() + 1);
        assert(o1 =~= o2) by {
            assert forall|k: int| 0 <= k < o1.len() implies o1[k] == o2[k] by {
                if k > 0 {
                    assert(o1[k] == r1[k - 1]);
                    assert(o2[k] == r2[k - 1]);
                }
            }
        }
    }
}

/// There is only one sorted arrangement of a selection: `precedes` is a
/// strict total order, so a sort by it has a single outcome.
pub proof fn lemma_sorted_selection_unique(
    ranks: Seq<u8>,
    texts: Seq<Seq<char>>,
    selected: Seq<bool>,
    o1: Seq<usize>,
    o2: Seq<usize>,
)
    requires
        is_sorted_selection(ranks, texts, selected, o1),
        is_sorted_selection(ranks, texts, selected, o2),
    ensures
        o1 == o2,
{
    lemma_sorted_selection_unique_rec(ranks, texts, selected, o1, o2);
}


/// The positions of `mask` that hold `true`, in increasing order.
pub open spec fn positions(mask: Seq<bool>) -> Seq<usize>
    decreases mask.len(),
{
    if mask.len() == 0 {
        seq![]
    } else if mask.last() {
        positions(mask.drop_last()).push((mask.len() - 1) as usize)
    } else {
        positions(mask.drop_last())
    }
}

/// A position is listed exactly when the mask holds `true` there.
pub proof fn lemma_positions_lists(mask: Seq<bool>, i: int)
    requires
        mask.len() <= usize::MAX,
    ensures
        lists(positions(mask), i) <==> (0 <= i < mask.len() && mask[i]),
    decreases mask.len(),
{
    if mask.len() > 0 {
        let rest = mask.drop_last();
        lemma_positions_lists(rest, i);
        let p = positions(rest);
        if mask.last() {
            let q = p.push((mask.len() - 1) as usize);
            if lists(p, i) {
                let k = choose|k: int| 0 <= k < p.len() && p[k] as int == i;
                assert(q[k] == p[k]);
            }
            if lists(q, i) {
                let k = choose|k: int| 0 <= k < q.len() && q[k] as int == i;
                if k < p.len() {
                    assert(q[k] == p[k]);
                }
            }
            if i == mask.len() - 1 {
                assert(q[p.len() as int] as int == i);
            }
        }
    }
}

/// The positions where `mask` holds `true`, in increasing order.
pub fn select_positions(mask: &Vec<bool>) -> (r: Vec<usize>)
    ensures
        r@ == positions(mask@),
{
    let mut r: Vec<usize> = Vec::new();
    let mut i: usize = 0;
    assert(mask@.take(0) =~= Seq::<bool>::empty());
    while i < mask.len()
        invariant
            i <= mask.len(),
            r@ == positions(mask@.take(i as int)),
        decreases mask.len() - i,
    {
        assert(mask@.take(i + 1).drop_last() =~= mask@.take(i as int));
        if mask[i] {
            r.push(i);
        }
        i = i + 1;
    }
    assert(mask@.take(i as int) =~= mask@);
    r
}

} // verus!
