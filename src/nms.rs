//! Greedy non-maximum suppression over candidate detections.
use crate::codec::Detection;
use crate::geometry::{area_of, iou_below, iou_below_threshold, lemma_iou_symmetric, lemma_self_overlap};
use vstd::prelude::*;

verus! {

broadcast use {
    vstd::seq_lib::to_multiset_build,
    vstd::seq_lib::to_multiset_insert,
    vstd::seq_lib::to_multiset_contains,
    vstd::multiset::group_multiset_axioms,
};

/// `s` with `x` placed after every leading element at least as confident,
/// so that equal confidences keep their arrival order.
pub open spec fn insert_by_confidence(s: Seq<Detection>, x: Detection) -> Seq<Detection>
    decreases s.len(),
{
    if s.len() == 0 {
        seq![x]
    } else if s[0].confidence >= x.confidence {
        seq![s[0]] + insert_by_confidence(s.drop_first(), x)
    } else {
        seq![x] + s
    }
}

/// Stable sort by confidence, highest first.
pub open spec fn sort_by_confidence(s: Seq<Detection>) -> Seq<Detection>
    decreases s.len(),
{
    if s.len() == 0 {
        Seq::empty()
    } else {
        insert_by_confidence(sort_by_confidence(s.drop_last()), s.last())
    }
}

/// `x` overlaps none of `kept` by an IoU of 0.7 or more.
pub open spec fn apart_from_all(kept: Seq<Detection>, x: Detection) -> bool {
    forall|j: int| 0 <= j < kept.len() ==> iou_below(#[trigger] kept[j].bbox, x.bbox)
}

/// Greedy suppression over `s` taken in order: a detection survives when it
/// overlaps no earlier survivor by an IoU of 0.7 or more, whatever the labels.
pub open spec fn survivors(s: Seq<Detection>) -> Seq<Detection>
    decreases s.len(),
{
    if s.len() == 0 {
        Seq::empty()
    } else {
        let k = survivors(s.drop_last());
        if apart_from_all(k, s.last()) {
            k.push(s.last())
        } else {
            k
        }
    }
}

/// The result of suppression: survivors of the candidates taken from the
/// most confident down.
pub open spec fn suppressed(s: Seq<Detection>) -> Seq<Detection> {
    survivors(sort_by_confidence(s))
}

pub open spec fn by_confidence_desc(s: Seq<Detection>) -> bool {
    forall|i: int, j: int|
        0 <= i < j < s.len() ==> #[trigger] s[i].confidence >= #[trigger] s[j].confidence
}

pub open spec fn pairwise_apart(s: Seq<Detection>) -> bool {
    forall|i: int, j: int| 0 <= i < j < s.len() ==> iou_below(#[trigger] s[i].bbox, #[trigger] s[j].bbox)
}

proof fn lemma_insert_at(s: Seq<Detection>, x: Detection, k: int)
    requires
        0 <= k <= s.len(),
        forall|j: int| 0 <= j < k ==> #[trigger] s[j].confidence >= x.confidence,
        k == s.len() || s[k].confidence < x.confidence,
    ensures
        insert_by_confidence(s, x) == s.insert(k, x),
    decreases k,
{
    if k == 0 {
        if s.len() == 0 {
            assert(seq![x] =~= s.insert(0, x));
        } else {
            assert(seq![x] + s =~= s.insert(0, x));
        }
    } else {
        let t = s.drop_first();
        assert forall|j: int| 0 <= j < k - 1 implies #[trigger] t[j].confidence >= x.confidence by {
            assert(t[j] == s[j + 1]);
        }
        lemma_insert_at(t, x, k - 1);
        assert(seq![s[0]] + t.insert(k - 1, x) =~= s.insert(k, x));
    }
}

/// Detections with well-formed boxes, most confident first, equal
/// confidences in arrival order.
pub fn sort_detections(cands: &Vec<Detection>) -> (r: Vec<Detection>)
    ensures
        r@ == sort_by_confidence(cands@),
        r.len() == cands.len(),
        by_confidence_desc(r@),
        forall|i: int| 0 <= i < r.len() ==> cands@.contains(#[trigger] r[i]),
        r@.to_multiset() == cands@.to_multiset(),
{
    let mut out: Vec<Detection> = Vec::new();
    let mut i: usize = 0;
    while i < cands.len()
        invariant
            i <= cands.len(),
            out@ == sort_by_confidence(cands@.subrange(0, i as int)),
            out.len() == i,
            by_confidence_desc(out@),
            forall|q: int| 0 <= q < out.len() ==> cands@.subrange(0, i as int).contains(#[trigger] out[q]),
            out@.to_multiset() == cands@.subrange(0, i as int).to_multiset(),
        decreases cands.len() - i,
    {
        let x = cands[i];
        let mut k: usize = 0;
        while k < out.len() && out[k].confidence >= x.confidence
            invariant
                k <= out.len(),
                forall|j: int| 0 <= j < k ==> #[trigger] out[j].confidence >= x.confidence,
            decreases out.len() - k,
        {
            k = k + 1;
        }
        let ghost prev = out@;
        let ghost pre = cands@.subrange(0, i as int);
        let ghost next = cands@.subrange(0, i + 1);
        proof {
            lemma_insert_at(prev, x, k as int);
            assert(next.drop_last() =~= pre);
            assert(next.last() == x);
            assert(next =~= pre.push(x));
        }
        out.insert(k, x);
        proof {
            assert forall|q: int| 0 <= q < out.len() implies next.contains(#[trigger] out[q]) by {
                if q < k {
                    assert(out[q] == prev[q]);
                    let w = choose|w: int| 0 <= w < pre.len() && pre[w] == prev[q];
                    assert(next[w] == prev[q]);
                } else if q == k {
                    assert(next[i as int] == x);
                } else {
                    assert(out[q] == prev[q - 1]);
                    assert(pre.contains(prev[q - 1]));
                    let w = choose|w: int| 0 <= w < pre.len() && pre[w] == prev[q - 1];
                    assert(next[w] == prev[q - 1]);
                }
            }
            assert forall|a: int, b: int| 0 <= a < b < out.len() implies #[trigger] out[a].confidence
                >= #[trigger] out[b].confidence by {
                if b < k {
                    assert(out[a] == prev[a] && out[b] == prev[b]);
                } else if b == k {
                    assert(out[a] == prev[a]);
                } else if a < k {
                    assert(out[a] == prev[a] && out[b] == prev[b - 1]);
                } else if a == k {
                    assert(out[b] == prev[b - 1]);
                    assert(prev[k as int].confidence < x.confidence);
                    if b - 1 > k {
                        assert(prev[k as int].confidence >= prev[b - 1].confidence);
                    }
                } else {
                    assert(out[a] == prev[a - 1] && out[b] == prev[b - 1]);
                }
            }
        }
        i = i + 1;
    }
    assert(cands@.subrange(0, cands.len() as int) =~= cands@);
    out
}

/// Greedy non-maximum suppression: candidates are taken from the most
/// confident down, and each is kept only when its IoU with every box kept so
/// far is below 0.7. Labels do not matter. The survivors are pairwise apart,
/// come from the input as a sub-multiset, are no more than it, and stay most
/// confident first. A box of zero area overlaps nothing, so it always survives.
pub fn suppress(cands: &Vec<Detection>) -> (r: Vec<Detection>)
    requires
        forall|i: int| 0 <= i < cands.len() ==> (#[trigger] cands[i]).bbox.wf(),
    ensures
        r@ == suppressed(cands@),
        pairwise_apart(r@),
        r.len() <= cands.len(),
        cands.len() > 0 ==> r.len() > 0,
        forall|i: int| 0 <= i < r.len() ==> cands@.contains(#[trigger] r[i]),
        r@.to_multiset().subset_of(cands@.to_multiset()),
        forall|i: int|
            0 <= i < cands.len() && area_of((#[trigger] cands[i]).bbox) == 0 ==> r@.contains(
                cands[i],
            ),
        by_confidence_desc(r@),
        forall|i: int|
            0 <= i < cands.len() ==> (#[trigger] cands[i]).confidence <= r[0].confidence,
{
    let sorted = sort_detections(cands);
    assert forall|i: int| 0 <= i < sorted.len() implies (#[trigger] sorted[i]).bbox.wf() by {
        assert(cands@.contains(sorted[i]));
    }
    let mut out: Vec<Detection> = Vec::new();
    let ghost mut idx: Seq<int> = Seq::empty();
    let mut i: usize = 0;
    while i < sorted.len()
        invariant
            i <= sorted.len(),
            forall|q: int| 0 <= q < sorted.len() ==> (#[trigger] sorted[q]).bbox.wf(),
            out@ == survivors(sorted@.subrange(0, i as int)),
            pairwise_apart(out@),
            forall|q: int| 0 <= q < out.len() ==> (#[trigger] out[q]).bbox.wf(),
            idx.len() == out.len(),
            forall|q: int| 0 <= q < idx.len() ==> 0 <= #[trigger] idx[q] < i,
            forall|q: int| 0 <= q < idx.len() ==> out[q] == sorted[#[trigger] idx[q]],
            forall|a: int, b: int| 0 <= a < b < idx.len() ==> #[trigger] idx[a] < #[trigger] idx[b],
            out@.to_multiset().subset_of(sorted@.subrange(0, i as int).to_multiset()),
            i > 0 ==> out.len() > 0 && idx[0] == 0,
            forall|q: int|
                0 <= q < i && area_of((#[trigger] sorted[q]).bbox) == 0 ==> out@.contains(sorted[q]),
        decreases sorted.len() - i,
    {
        let x = sorted[i];
        let mut apart = true;
        let mut j: usize = 0;
        while j < out.len()
            invariant
                j <= out.len(),
                x.bbox.wf(),
                forall|q: int| 0 <= q < out.len() ==> (#[trigger] out[q]).bbox.wf(),
                apart == (forall|q: int| 0 <= q < j ==> iou_below(#[trigger] out[q].bbox, x.bbox)),
            decreases out.len() - j,
        {
            let b = iou_below_threshold(&out[j].bbox, &x.bbox);
            apart = apart && b;
            j = j + 1;
        }
        let ghost pre = sorted@.subrange(0, i as int);
        let ghost before = out@;
        proof {
            assert(sorted@.subrange(0, i + 1).drop_last() =~= pre);
            assert(sorted@.subrange(0, i + 1).last() == x);
            assert(sorted@.subrange(0, i + 1) =~= pre.push(x));
            if area_of(x.bbox) == 0 {
                assert forall|q: int| 0 <= q < out.len() implies iou_below(
                    #[trigger] out[q].bbox,
                    x.bbox,
                ) by {
                    lemma_self_overlap(x.bbox, out[q].bbox);
                }
            }
        }
        if apart {
            out.push(x);
            proof {
                idx = idx.push(i as int);
                assert forall|a: int, b: int| 0 <= a < b < out.len() implies iou_below(
                    #[trigger] out[a].bbox,
                    #[trigger] out[b].bbox,
                ) by {
                    if b == out.len() - 1 {
                        assert(iou_below(out[a].bbox, x.bbox));
                    }
                }
                assert(out@ == before.push(x));
                assert forall|q: int|
                    0 <= q < i + 1 && area_of((#[trigger] sorted[q]).bbox) == 0 implies out@.contains(
                    sorted[q],
                ) by {
                    if q < i {
                        let w = choose|w: int| 0 <= w < before.len() && before[w] == sorted[q];
                        assert(out@[w] == sorted[q]);
                    } else {
                        assert(out@[out.len() - 1] == x);
                    }
                }
            }
        }
        proof {
            assert(out@.to_multiset().subset_of(sorted@.subrange(0, i + 1).to_multiset()));
        }
        i = i + 1;
    }
    assert(sorted@.subrange(0, sorted.len() as int) =~= sorted@);
    proof {
        assert forall|q: int| 0 <= q < out.len() implies cands@.contains(#[trigger] out[q]) by {
            assert(sorted[idx[q]] == out[q]);
            assert(sorted@.contains(out[q]));
        }
        assert forall|a: int, b: int| 0 <= a < b < out.len() implies #[trigger] out[a].confidence
            >= #[trigger] out[b].confidence by {
            assert(idx[a] < idx[b]);
            assert(sorted[idx[a]].confidence >= sorted[idx[b]].confidence);
        }
        lemma_survivors_len(sorted@);
        assert forall|i: int|
            0 <= i < cands.len() && area_of((#[trigger] cands[i]).bbox) == 0 implies out@.contains(
            cands[i],
        ) by {
            assert(cands@.contains(cands[i]));
            vstd::seq_lib::to_multiset_contains(cands@, cands[i]);
            vstd::seq_lib::to_multiset_contains(sorted@, cands[i]);
            assert(sorted@.contains(cands[i]));
            let w = choose|w: int| 0 <= w < sorted.len() && sorted[w] == cands[i];
            assert(area_of(sorted[w].bbox) == 0);
        }
        assert forall|i: int| 0 <= i < cands.len() implies (#[trigger] cands[i]).confidence
            <= out[0].confidence by {
            assert(cands@.contains(cands[i]));
            vstd::seq_lib::to_multiset_contains(cands@, cands[i]);
            vstd::seq_lib::to_multiset_contains(sorted@, cands[i]);
            let w = choose|w: int| 0 <= w < sorted.len() && sorted[w] == cands[i];
            if w > 0 {
                assert(sorted[0].confidence >= sorted[w].confidence);
            }
        }
    }
    out
}

proof fn lemma_survivors_len(s: Seq<Detection>)
    ensures
        survivors(s).len() <= s.len(),
        s.len() > 0 ==> survivors(s).len() > 0,
    decreases s.len(),
{
    if s.len() > 0 {
        lemma_survivors_len(s.drop_last());
        if s.len() == 1 {
            assert(apart_from_all(survivors(s.drop_last()), s.last()));
        }
    }
}

/// No two survivors of suppression overlap by an IoU of 0.7 or more, in
/// either order, and there are never more survivors than candidates.
pub proof fn lemma_suppressed_apart(s: Seq<Detection>)
    ensures
        suppressed(s).len() <= s.len(),
        forall|i: int, j: int|
            0 <= i < suppressed(s).len() && 0 <= j < suppressed(s).len() && i != j ==> iou_below(
                #[trigger] suppressed(s)[i].bbox,
                #[trigger] suppressed(s)[j].bbox,
            ),
{
    lemma_sort_len(s);
    lemma_survivors_len(sort_by_confidence(s));
    lemma_survivors_apart(sort_by_confidence(s));
    let r = suppressed(s);
    assert forall|i: int, j: int|
        0 <= i < r.len() && 0 <= j < r.len() && i != j implies iou_below(
        #[trigger] r[i].bbox,
        #[trigger] r[j].bbox,
    ) by {
        if j < i {
            lemma_iou_symmetric(r[j].bbox, r[i].bbox);
        }
    }
}

proof fn lemma_insert_len(s: Seq<Detection>, x: Detection)
    ensures
        insert_by_confidence(s, x).len() == s.len() + 1,
    decreases s.len(),
{
    if s.len() > 0 && s[0].confidence >= x.confidence {
        lemma_insert_len(s.drop_first(), x);
    }
}

proof fn lemma_sort_len(s: Seq<Detection>)
    ensures
        sort_by_confidence(s).len() == s.len(),
    decreases s.len(),
{
    if s.len() > 0 {
        lemma_sort_len(s.drop_last());
        lemma_insert_len(sort_by_confidence(s.drop_last()), s.last());
    }
}

proof fn lemma_survivors_apart(s: Seq<Detection>)
    ensures
        pairwise_apart(survivors(s)),
    decreases s.len(),
{
    if s.len() > 0 {
        lemma_survivors_apart(s.drop_last());
        let k = survivors(s.drop_last());
        if apart_from_all(k, s.last()) {
            let r = k.push(s.last());
            assert forall|a: int, b: int| 0 <= a < b < r.len() implies iou_below(
                #[trigger] r[a].bbox,
                #[trigger] r[b].bbox,
            ) by {
                if b == r.len() - 1 {
                    assert(iou_below(k[a].bbox, s.last().bbox));
                } else {
                    assert(r[a] == k[a] && r[b] == k[b]);
                }
            }
        }
    }
}

} // verus!
