use vstd::prelude::*;
use core::ops::Range;
use crate::theme::Color;
use crate::tokenizer::{spans_view, tiles};

verus! {

/// How a span is painted: with a syntax colour, as a search match, or as the
/// current search match.
#[derive(Debug, Clone, Copy, PartialEq, Eq, Structural)]
pub enum HighlightType {
    Syntax(Color),
    SearchMatch,
    CurrentMatch,
}

/// A painted span as (start, end, kind).
pub type SpanModel = (int, int, HighlightType);

/// The span `sp` shares at least one position with `[start, end)`.
pub open spec fn overlaps(sp: SpanModel, start: int, end: int) -> bool {
    !(sp.1 <= start || sp.0 >= end)
}

/// The span `sp` contains position `p`.
pub open spec fn covers(sp: SpanModel, p: int) -> bool {
    sp.0 <= p && p < sp.1
}

/// Some span of `spans` contains position `p`.
pub open spec fn covered(spans: Seq<SpanModel>, p: int) -> bool {
    exists|i: int| 0 <= i < spans.len() && covers(#[trigger] spans[i], p)
}

/// One span under the overlay `[start, end)` of kind `k`: unchanged where they do
/// not meet, else the part before the overlay, the shared part in kind `k`, and
/// the part after the overlay.
pub open spec fn split_span(sp: SpanModel, start: int, end: int, k: HighlightType) -> Seq<SpanModel> {
    if !overlaps(sp, start, end) {
        seq![sp]
    } else {
        (if sp.0 < start {
            seq![(sp.0, start, sp.2)]
        } else {
            seq![]
        }) + seq![(if sp.0 > start { sp.0 } else { start }, if sp.1 < end { sp.1 } else { end }, k)]
            + (if sp.1 > end {
            seq![(end, sp.1, sp.2)]
        } else {
            seq![]
        })
    }
}

/// Every span of `spans` under the overlay, in order.
pub open spec fn split_all(spans: Seq<SpanModel>, start: int, end: int, k: HighlightType) -> Seq<
    SpanModel,
>
    decreases spans.len(),
{
    if spans.len() == 0 {
        seq![]
    } else {
        split_all(spans.drop_last(), start, end, k) + split_span(spans.last(), start, end, k)
    }
}

/// Some span of `spans` meets `[start, end)`.
pub open spec fn any_overlap(spans: Seq<SpanModel>, start: int, end: int) -> bool {
    exists|i: int| 0 <= i < spans.len() && overlaps(#[trigger] spans[i], start, end)
}

/// Applies one overlay: the spans it meets are split, and where it meets none it
/// is added as a span of its own, at the end.
pub open spec fn overlay(spans: Seq<SpanModel>, start: int, end: int, k: HighlightType) -> Seq<
    SpanModel,
> {
    if any_overlap(spans, start, end) {
        split_all(spans, start, end, k)
    } else {
        split_all(spans, start, end, k).push((start, end, k))
    }
}

/// Applies the overlays one after the other, in order.
pub open spec fn overlay_all(spans: Seq<SpanModel>, overlays: Seq<SpanModel>) -> Seq<SpanModel>
    decreases overlays.len(),
{
    if overlays.len() == 0 {
        spans
    } else {
        let o = overlays.last();
        overlay(overlay_all(spans, overlays.drop_last()), o.0, o.1, o.2)
    }
}

/// Inserts `x` into `s` after every element whose start is not greater than
/// the start of `x`.
pub open spec fn insert_by_start<T>(s: Seq<(int, int, T)>, x: (int, int, T)) -> Seq<(int, int, T)>
    decreases s.len(),
{
    if s.len() == 0 {
        seq![x]
    } else if x.0 < s.last().0 {
        insert_by_start(s.drop_last(), x).push(s.last())
    } else {
        s.push(x)
    }
}

/// The stable sort of `s` by start.
pub open spec fn sort_by_start<T>(s: Seq<(int, int, T)>) -> Seq<(int, int, T)>
    decreases s.len(),
{
    if s.len() == 0 {
        s
    } else {
        insert_by_start(sort_by_start(s.drop_last()), s.last())
    }
}

/// The spans of `base` with the overlays applied in order, sorted by start.
pub open spec fn composed(base: Seq<SpanModel>, overlays: Seq<SpanModel>) -> Seq<SpanModel> {
    sort_by_start(overlay_all(base, overlays))
}

/// Starts never decrease along `s`.
pub open spec fn sorted_by_start<T>(s: Seq<(int, int, T)>) -> bool {
    forall|i: int, j: int| 0 <= i < j < s.len() ==> s[i].0 <= s[j].0
}

proof fn lemma_insert_at<T>(s: Seq<(int, int, T)>, x: (int, int, T), p: int)
    requires
        0 <= p <= s.len(),
        forall|j: int| p <= j < s.len() ==> x.0 < #[trigger] s[j].0,
        p == 0 || !(x.0 < s[p - 1].0),
    ensures
        insert_by_start(s, x) == s.insert(p, x),
    decreases s.len(),
{
    if s.len() == 0 {
        assert(seq![x] =~= s.insert(p, x));
    } else if x.0 < s.last().0 {
        lemma_insert_at(s.drop_last(), x, p);
        assert(s.drop_last().insert(p, x).push(s.last()) =~= s.insert(p, x));
    } else {
        assert(s.push(x) =~= s.insert(p, x));
    }
}

proof fn lemma_insert_contains<T>(s: Seq<(int, int, T)>, x: (int, int, T), y: (int, int, T))
    ensures
        insert_by_start(s, x).contains(y) <==> (s.contains(y) || y == x),
    decreases s.len(),
{
    if s.len() == 0 {
        assert(seq![x][0] == x);
    } else if x.0 < s.last().0 {
        lemma_insert_contains(s.drop_last(), x, y);
        let t = insert_by_start(s.drop_last(), x);
        assert(s == s.drop_last().push(s.last()));
        assert(t.push(s.last()).contains(y) <==> (t.contains(y) || y == s.last())) by {
            if t.push(s.last()).contains(y) {
                let i = choose|i: int| 0 <= i < t.len() + 1 && t.push(s.last())[i] == y;
                if i < t.len() {
                    assert(t[i] == y);
                }
            }
            if t.contains(y) {
                let i = choose|i: int| 0 <= i < t.len() && t[i] == y;
                assert(t.push(s.last())[i] == y);
            }
            assert(t.push(s.last())[t.len() as int] == s.last());
        }
        assert(s.contains(y) <==> (s.drop_last().contains(y) || y == s.last())) by {
            if s.contains(y) {
                let i = choose|i: int| 0 <= i < s.len() && s[i] == y;
                if i < s.len() - 1 {
                    assert(s.drop_last()[i] == y);
                }
            }
            if s.drop_last().contains(y) {
                let i = choose|i: int| 0 <= i < s.len() - 1 && s.drop_last()[i] == y;
                assert(s[i] == y);
            }
        }
    } else {
        assert(s.push(x)[s.len() as int] == x);
        if s.push(x).contains(y) {
            let i = choose|i: int| 0 <= i < s.len() + 1 && s.push(x)[i] == y;
            if i < s.len() {
                assert(s[i] == y);
            }
        }
        if s.contains(y) {
            let i = choose|i: int| 0 <= i < s.len() && s[i] == y;
            assert(s.push(x)[i] == y);
        }
    }
}

proof fn lemma_insert_sorted<T>(s: Seq<(int, int, T)>, x: (int, int, T))
    requires
        sorted_by_start(s),
    ensures
        sorted_by_start(insert_by_start(s, x)),
    decreases s.len(),
{
    if s.len() > 0 {
        let last = s.last();
        if x.0 < last.0 {
            let init = s.drop_last();
            lemma_insert_sorted(init, x);
            let t = insert_by_start(init, x);
            assert forall|i: int| 0 <= i < t.len() implies #[trigger] t[i].0 <= last.0 by {
                lemma_insert_contains(init, x, t[i]);
                assert(t.contains(t[i]));
                if init.contains(t[i]) {
                    let j = choose|j: int| 0 <= j < init.len() && init[j] == t[i];
                    assert(s[j] == init[j]);
                }
            }
            let u = t.push(last);
            assert forall|i: int, j: int| 0 <= i < j < u.len() implies u[i].0 <= u[j].0 by {
                if j < t.len() {
                    assert(u[i] == t[i] && u[j] == t[j]);
                } else {
                    assert(u[i] == t[i]);
                }
            }
        } else {
            let u = s.push(x);
            assert forall|i: int, j: int| 0 <= i < j < u.len() implies u[i].0 <= u[j].0 by {
                if j < s.len() {
                    assert(u[i] == s[i] && u[j] == s[j]);
                } else {
                    assert(u[i] == s[i]);
                    assert(s[i].0 <= s[s.len() - 1].0);
                }
            }
        }
    }
}

/// Sorting puts the starts in order.
pub proof fn lemma_sort_sorted<T>(s: Seq<(int, int, T)>)
    ensures
        sorted_by_start(sort_by_start(s)),
    decreases s.len(),
{
    if s.len() > 0 {
        lemma_sort_sorted(s.drop_last());
        lemma_insert_sorted(sort_by_start(s.drop_last()), s.last());
    }
}

/// Sorting keeps exactly the elements it was given.
pub proof fn lemma_sort_contains<T>(s: Seq<(int, int, T)>, y: (int, int, T))
    ensures
        sort_by_start(s).contains(y) <==> s.contains(y),
    decreases s.len(),
{
    if s.len() > 0 {
        lemma_sort_contains(s.drop_last(), y);
        lemma_insert_contains(sort_by_start(s.drop_last()), s.last(), y);
        assert(s == s.drop_last().push(s.last()));
        if s.contains(y) {
            let i = choose|i: int| 0 <= i < s.len() && s[i] == y;
            if i < s.len() - 1 {
                assert(s.drop_last()[i] == y);
            }
        }
        if s.drop_last().contains(y) {
            let i = choose|i: int| 0 <= i < s.len() - 1 && s.drop_last()[i] == y;
            assert(s[i] == y);
        }
    }
}

proof fn lemma_split_all_step(spans: Seq<SpanModel>, n: int, start: int, end: int, k: HighlightType)
    requires
        0 <= n < spans.len(),
    ensures
        split_all(spans.take(n + 1), start, end, k) == split_all(spans.take(n), start, end, k)
            + split_span(spans[n], start, end, k),
{
    assert(spans.take(n + 1).drop_last() =~= spans.take(n));
}

proof fn lemma_view_push<T>(v: Seq<(Range<usize>, T)>, x: (Range<usize>, T))
    ensures
        spans_view(v.push(x)) == spans_view(v).push((x.0.start as int, x.0.end as int, x.1)),
{
    assert(spans_view(v.push(x)) =~= spans_view(v).push((x.0.start as int, x.0.end as int, x.1)));
}

/// Lays the overlay `range` of kind `kind` over the spans: every span that it
/// meets is split into the part before it, the shared part (which takes `kind`)
/// and the part after it; the other spans stay as they are. Where it meets no
/// span, the overlay is added as a span of its own.
pub fn apply_search_highlight(
    highlights: &mut Vec<(Range<usize>, HighlightType)>,
    range: Range<usize>,
    kind: HighlightType,
)
    ensures
        spans_view(final(highlights)@) == overlay(
            spans_view(old(highlights)@),
            range.start as int,
            range.end as int,
            kind,
        ),
{
    let ghost old_spans = spans_view(highlights@);
    let rs = range.start;
    let re = range.end;
    let mut out: Vec<(Range<usize>, HighlightType)> = Vec::new();
    let mut covered = false;
    let n = highlights.len();
    let mut idx: usize = 0;
    while idx < n
        invariant
            n == highlights@.len(),
            old_spans == spans_view(highlights@),
            idx <= n,
            spans_view(out@) == split_all(old_spans.take(idx as int), rs as int, re as int, kind),
            covered <==> any_overlap(old_spans.take(idx as int), rs as int, re as int),
        decreases n - idx,
    {
        let es = highlights[idx].0.start;
        let ee = highlights[idx].0.end;
        let et = highlights[idx].1;
        let ghost sp = old_spans[idx as int];
        assert(sp == (es as int, ee as int, et));
        proof {
            lemma_split_all_step(old_spans, idx as int, rs as int, re as int, kind);
        }
        let ghost before = spans_view(out@);
        if ee <= rs || es >= re {
            proof {
                lemma_view_push(out@, (es..ee, et));
            }
            out.push((es..ee, et));
            assert(spans_view(out@) =~= before + split_span(sp, rs as int, re as int, kind));
        } else {
            covered = true;
            let ghost mut piece: Seq<SpanModel> = seq![];
            if es < rs {
                proof {
                    lemma_view_push(out@, (es..rs, et));
                    piece = piece.push((es as int, rs as int, et));
                }
                out.push((es..rs, et));
            }
            let os = if es > rs {
                es
            } else {
                rs
            };
            let oe = if ee < re {
                ee
            } else {
                re
            };
            proof {
                lemma_view_push(out@, (os..oe, kind));
                piece = piece.push((os as int, oe as int, kind));
            }
            out.push((os..oe, kind));
            if ee > re {
                proof {
                    lemma_view_push(out@, (re..ee, et));
                    piece = piece.push((re as int, ee as int, et));
                }
                out.push((re..ee, et));
            }
            assert(piece =~= split_span(sp, rs as int, re as int, kind));
            assert(spans_view(out@) =~= before + split_span(sp, rs as int, re as int, kind));
        }
        proof {
            let t = old_spans.take(idx as int);
            let t1 = old_spans.take(idx + 1);
            assert(t1 =~= t.push(sp));
            if any_overlap(t1, rs as int, re as int) {
                let i = choose|i: int| 0 <= i < t1.len() && overlaps(#[trigger] t1[i], rs as int, re as int);
                if i < idx {
                    assert(t[i] == t1[i]);
                }
            }
            if any_overlap(t, rs as int, re as int) {
                let i = choose|i: int| 0 <= i < t.len() && overlaps(#[trigger] t[i], rs as int, re as int);
                assert(t1[i] == t[i]);
            }
            if overlaps(sp, rs as int, re as int) {
                assert(t1[idx as int] == sp);
            }
        }
        idx = idx + 1;
    }
    assert(old_spans.take(n as int) =~= old_spans);
    if !covered {
        proof {
            lemma_view_push(out@, (rs..re, kind));
        }
        out.push((rs..re, kind));
    }
    *highlights = out;
}

/// Sorts spans by start; spans with equal starts keep their order.
pub fn sort_spans(v: &Vec<(Range<usize>, HighlightType)>) -> (r: Vec<(Range<usize>, HighlightType)>)
    ensures
        spans_view(r@) == sort_by_start(spans_view(v@)),
        sorted_by_start(spans_view(r@)),
{
    let ghost sv = spans_view(v@);
    let mut r: Vec<(Range<usize>, HighlightType)> = Vec::new();
    let n = v.len();
    let mut idx: usize = 0;
    while idx < n
        invariant
            n == v@.len(),
            sv == spans_view(v@),
            idx <= n,
            spans_view(r@) == sort_by_start(sv.take(idx as int)),
        decreases n - idx,
    {
        let xs = v[idx].0.start;
        let xe = v[idx].0.end;
        let xk = v[idx].1;
        let ghost x = sv[idx as int];
        assert(x == (xs as int, xe as int, xk));
        let mut p = r.len();
        while p > 0 && r[p - 1].0.start > xs
            invariant
                p <= r@.len(),
                forall|j: int| p <= j < r@.len() ==> xs < #[trigger] r@[j].0.start,
            decreases p,
        {
            p = p - 1;
        }
        proof {
            let rv = spans_view(r@);
            assert forall|j: int| p <= j < rv.len() implies x.0 < #[trigger] rv[j].0 by {
                assert(xs < r@[j].0.start);
            }
            lemma_insert_at(rv, x, p as int);
            assert(sv.take(idx + 1).drop_last() =~= sv.take(idx as int));
            assert(spans_view(r@.insert(p as int, (xs..xe, xk))) =~= rv.insert(p as int, x));
        }
        r.insert(p, (xs..xe, xk));
        idx = idx + 1;
    }
    assert(sv.take(n as int) =~= sv);
    proof {
        lemma_sort_sorted(sv);
    }
    r
}

/// Lays the overlays over the base spans one after the other, in order, so a
/// later overlay wins where two meet; then sorts the spans by start.
pub fn compose(
    base: Vec<(Range<usize>, HighlightType)>,
    overlays: &Vec<(Range<usize>, HighlightType)>,
) -> (r: Vec<(Range<usize>, HighlightType)>)
    ensures
        spans_view(r@) == composed(spans_view(base@), spans_view(overlays@)),
        sorted_by_start(spans_view(r@)),
{
    let ghost ov = spans_view(overlays@);
    let mut spans = base;
    let n = overlays.len();
    let mut idx: usize = 0;
    while idx < n
        invariant
            n == overlays@.len(),
            ov == spans_view(overlays@),
            idx <= n,
            spans_view(spans@) == overlay_all(spans_view(base@), ov.take(idx as int)),
        decreases n - idx,
    {
        let os = overlays[idx].0.start;
        let oe = overlays[idx].0.end;
        let ok = overlays[idx].1;
        proof {
            assert(ov.take(idx + 1).drop_last() =~= ov.take(idx as int));
            assert(ov.take(idx + 1).last() == ov[idx as int]);
        }
        apply_search_highlight(&mut spans, os..oe, ok);
        idx = idx + 1;
    }
    assert(ov.take(n as int) =~= ov);
    sort_spans(&spans)
}

/// Some span of `spans` that contains position `p` has kind `kind`.
pub open spec fn has_kind_at(spans: Seq<SpanModel>, p: int, kind: HighlightType) -> bool {
    exists|i: int| 0 <= i < spans.len() && covers(#[trigger] spans[i], p) && spans[i].2 == kind
}

proof fn lemma_split_span_at(sp: SpanModel, start: int, end: int, k: HighlightType, p: int)
    ensures
        ({
            let ss = split_span(sp, start, end, k);
            &&& forall|i: int|
                0 <= i < ss.len() && covers(#[trigger] ss[i], p) ==> {
                    &&& (start <= p < end) ==> ss[i].2 == k
                    &&& !(start <= p < end) ==> ss[i].2 == sp.2 && covers(sp, p)
                }
            &&& covers(sp, p) ==> covered(ss, p)
        }),
{
    let ss = split_span(sp, start, end, k);
    if overlaps(sp, start, end) {
        let a: Seq<SpanModel> = if sp.0 < start {
            seq![(sp.0, start, sp.2)]
        } else {
            seq![]
        };
        let mid: SpanModel = (
            if sp.0 > start {
                sp.0
            } else {
                start
            },
            if sp.1 < end {
                sp.1
            } else {
                end
            },
            k,
        );
        let c: Seq<SpanModel> = if sp.1 > end {
            seq![(end, sp.1, sp.2)]
        } else {
            seq![]
        };
        assert(ss == a + seq![mid] + c);
        assert(ss[a.len() as int] == mid);
        if covers(sp, p) {
            if p < start {
                assert(ss[0] == (sp.0, start, sp.2));
            } else if p >= end {
                assert(ss[ss.len() - 1] == (end, sp.1, sp.2));
            } else {
                assert(covers(ss[a.len() as int], p));
            }
        }
    } else {
        assert(ss[0] == sp);
    }
}

proof fn lemma_split_all_at(spans: Seq<SpanModel>, start: int, end: int, k: HighlightType, p: int)
    ensures
        ({
            let sa = split_all(spans, start, end, k);
            &&& forall|i: int|
                0 <= i < sa.len() && covers(#[trigger] sa[i], p) ==> {
                    &&& (start <= p < end) ==> sa[i].2 == k
                    &&& !(start <= p < end) ==> has_kind_at(spans, p, sa[i].2)
                }
            &&& covered(spans, p) ==> covered(sa, p)
        }),
    decreases spans.len(),
{
    if spans.len() > 0 {
        let init = spans.drop_last();
        let sp = spans.last();
        lemma_split_all_at(init, start, end, k, p);
        lemma_split_span_at(sp, start, end, k, p);
        let a = split_all(init, start, end, k);
        let b = split_span(sp, start, end, k);
        let sa = split_all(spans, start, end, k);
        assert(sa == a + b);
        assert forall|i: int| 0 <= i < sa.len() && covers(#[trigger] sa[i], p) implies {
            &&& (start <= p < end) ==> sa[i].2 == k
            &&& !(start <= p < end) ==> has_kind_at(spans, p, sa[i].2)
        } by {
            if i < a.len() {
                assert(sa[i] == a[i]);
                if !(start <= p < end) {
                    let j = choose|j: int| 0 <= j < init.len() && covers(#[trigger] init[j], p) && init[j].2 == a[i].2;
                    assert(spans[j] == init[j]);
                }
            } else {
                assert(sa[i] == b[i - a.len()]);
                if !(start <= p < end) {
                    assert(spans[spans.len() - 1] == sp);
                }
            }
        }
        if covered(spans, p) {
            let j = choose|j: int| 0 <= j < spans.len() && covers(#[trigger] spans[j], p);
            if j < spans.len() - 1 {
                assert(init[j] == spans[j]);
                let i = choose|i: int| 0 <= i < a.len() && covers(#[trigger] a[i], p);
                assert(sa[i] == a[i]);
            } else {
                let i = choose|i: int| 0 <= i < b.len() && covers(#[trigger] b[i], p);
                assert(sa[a.len() + i] == b[i]);
            }
        }
    }
}

proof fn lemma_overlay_at(spans: Seq<SpanModel>, start: int, end: int, k: HighlightType, p: int)
    ensures
        ({
            let res = overlay(spans, start, end, k);
            &&& forall|kind: HighlightType|
                #[trigger] has_kind_at(res, p, kind) ==> {
                    &&& (start <= p < end) ==> kind == k
                    &&& !(start <= p < end) ==> has_kind_at(spans, p, kind)
                }
            &&& covered(spans, p) ==> covered(res, p)
        }),
{
    lemma_split_all_at(spans, start, end, k, p);
    let sa = split_all(spans, start, end, k);
    let res = overlay(spans, start, end, k);
    assert forall|kind: HighlightType| #[trigger] has_kind_at(res, p, kind) implies {
        &&& (start <= p < end) ==> kind == k
        &&& !(start <= p < end) ==> has_kind_at(spans, p, kind)
    } by {
        let i = choose|i: int| 0 <= i < res.len() && covers(#[trigger] res[i], p) && res[i].2 == kind;
        if i < sa.len() {
            assert(res[i] == sa[i]);
        }
    }
    if covered(spans, p) {
        let i = choose|i: int| 0 <= i < sa.len() && covers(#[trigger] sa[i], p);
        assert(res[i] == sa[i]);
    }
}

proof fn lemma_overlay_all_at(base: Seq<SpanModel>, overlays: Seq<SpanModel>, m: int, p: int)
    requires
        0 <= m < overlays.len(),
        covers(overlays[m], p),
        forall|j: int| m < j < overlays.len() ==> !covers(#[trigger] overlays[j], p),
    ensures
        forall|kind: HighlightType|
            #[trigger] has_kind_at(overlay_all(base, overlays), p, kind) ==> kind == overlays[m].2,
    decreases overlays.len(),
{
    let init = overlays.drop_last();
    let o = overlays.last();
    lemma_overlay_at(overlay_all(base, init), o.0, o.1, o.2, p);
    if m < overlays.len() - 1 {
        assert forall|j: int| m < j < init.len() implies !covers(#[trigger] init[j], p) by {
            assert(init[j] == overlays[j]);
        }
        assert(init[m] == overlays[m]);
        lemma_overlay_all_at(base, init, m, p);
        assert(!covers(overlays[overlays.len() - 1], p));
    }
}

proof fn lemma_overlay_all_covered(base: Seq<SpanModel>, overlays: Seq<SpanModel>, p: int)
    requires
        covered(base, p),
    ensures
        covered(overlay_all(base, overlays), p),
    decreases overlays.len(),
{
    if overlays.len() > 0 {
        let init = overlays.drop_last();
        let o = overlays.last();
        lemma_overlay_all_covered(base, init, p);
        lemma_overlay_at(overlay_all(base, init), o.0, o.1, o.2, p);
    }
}

/// Overlays take precedence over the spans beneath them, and a later overlay
/// over an earlier one. Where the overlay at index `m` is the last that contains
/// position `p`, every composed span that contains `p` has that overlay's kind;
/// and a position that the base spans cover stays covered.
pub proof fn lemma_overlay_precedence(base: Seq<SpanModel>, overlays: Seq<SpanModel>, m: int, p: int)
    requires
        0 <= m < overlays.len(),
        covers(overlays[m], p),
        forall|j: int| m < j < overlays.len() ==> !covers(#[trigger] overlays[j], p),
    ensures
        forall|i: int|
            0 <= i < composed(base, overlays).len() && covers(#[trigger] composed(base, overlays)[i], p)
                ==> composed(base, overlays)[i].2 == overlays[m].2,
        covered(base, p) ==> covered(composed(base, overlays), p),
{
    let mid = overlay_all(base, overlays);
    let res = composed(base, overlays);
    lemma_overlay_all_at(base, overlays, m, p);
    assert forall|i: int| 0 <= i < res.len() && covers(#[trigger] res[i], p) implies res[i].2
        == overlays[m].2 by {
        lemma_sort_contains(mid, res[i]);
        assert(res.contains(res[i]));
        let j = choose|j: int| 0 <= j < mid.len() && mid[j] == res[i];
        assert(has_kind_at(mid, p, res[i].2));
    }
    if covered(base, p) {
        lemma_overlay_all_covered(base, overlays, p);
        let j = choose|j: int| 0 <= j < mid.len() && covers(#[trigger] mid[j], p);
        lemma_sort_contains(mid, mid[j]);
        assert(mid.contains(mid[j]));
        let i = choose|i: int| 0 <= i < res.len() && res[i] == mid[j];
        assert(covers(res[i], p));
    }
}

proof fn lemma_tiles_init<T>(t: Seq<(int, int, T)>, from: int, to: int)
    requires
        tiles(t, from, to),
        t.len() > 0,
    ensures
        tiles(t.drop_last(), from, t.last().0),
{
    let init = t.drop_last();
    assert forall|j: int| 0 <= j < init.len() implies #[trigger] init[j].0 < init[j].1 by {
        assert(init[j] == t[j]);
    }
    assert forall|j: int| 0 <= j < init.len() - 1 implies #[trigger] init[j].1 == init[j + 1].0 by {
        assert(init[j] == t[j] && init[j + 1] == t[j + 1]);
    }
    if init.len() > 0 {
        assert(init.last() == t[t.len() - 2]);
    }
}

proof fn lemma_tiles_bounds<T>(t: Seq<(int, int, T)>, from: int, to: int)
    requires
        tiles(t, from, to),
    ensures
        from <= to,
        forall|i: int| 0 <= i < t.len() ==> from <= #[trigger] t[i].0 && t[i].1 <= to,
    decreases t.len(),
{
    if t.len() > 0 {
        let init = t.drop_last();
        lemma_tiles_init(t, from, to);
        lemma_tiles_bounds(init, from, t.last().0);
        assert forall|i: int| 0 <= i < t.len() implies from <= #[trigger] t[i].0 && t[i].1 <= to by {
            if i < t.len() - 1 {
                assert(t[i] == init[i]);
            }
        }
    }
}

proof fn lemma_tiles_concat<T>(a: Seq<(int, int, T)>, b: Seq<(int, int, T)>, x: int, y: int, z: int)
    requires
        tiles(a, x, y),
        tiles(b, y, z),
    ensures
        tiles(a + b, x, z),
{
    let c = a + b;
    assert forall|j: int| 0 <= j < c.len() implies #[trigger] c[j].0 < c[j].1 by {
        if j < a.len() {
            assert(c[j] == a[j]);
        } else {
            assert(c[j] == b[j - a.len()]);
        }
    }
    assert forall|j: int| 0 <= j < c.len() - 1 implies #[trigger] c[j].1 == c[j + 1].0 by {
        if j < a.len() - 1 {
            assert(c[j] == a[j] && c[j + 1] == a[j + 1]);
        } else if j == a.len() - 1 {
            assert(c[j] == a[j] && c[j + 1] == b[0]);
        } else {
            assert(c[j] == b[j - a.len()] && c[j + 1] == b[j + 1 - a.len()]);
        }
    }
    if a.len() > 0 {
        assert(c[0] == a[0]);
    }
    if b.len() > 0 {
        assert(c.last() == b.last());
    } else if a.len() > 0 {
        assert(c.last() == a.last());
    }
}

proof fn lemma_split_span_tiles(sp: SpanModel, start: int, end: int, k: HighlightType)
    requires
        sp.0 < sp.1,
        start < end,
    ensures
        tiles(split_span(sp, start, end, k), sp.0, sp.1),
{
    let ss = split_span(sp, start, end, k);
    if overlaps(sp, start, end) {
        let a: Seq<SpanModel> = if sp.0 < start {
            seq![(sp.0, start, sp.2)]
        } else {
            seq![]
        };
        let mid: SpanModel = (
            if sp.0 > start {
                sp.0
            } else {
                start
            },
            if sp.1 < end {
                sp.1
            } else {
                end
            },
            k,
        );
        let c: Seq<SpanModel> = if sp.1 > end {
            seq![(end, sp.1, sp.2)]
        } else {
            seq![]
        };
        assert(ss == a + seq![mid] + c);
        assert(tiles(a, sp.0, mid.0));
        assert(tiles(seq![mid], mid.0, mid.1));
        assert(tiles(c, mid.1, sp.1));
        lemma_tiles_concat(a, seq![mid], sp.0, mid.0, mid.1);
        lemma_tiles_concat(a + seq![mid], c, sp.0, mid.1, sp.1);
    } else {
        assert(tiles(ss, sp.0, sp.1));
    }
}

proof fn lemma_split_all_tiles(spans: Seq<SpanModel>, from: int, to: int, start: int, end: int, k: HighlightType)
    requires
        tiles(spans, from, to),
        start < end,
    ensures
        tiles(split_all(spans, start, end, k), from, to),
    decreases spans.len(),
{
    if spans.len() > 0 {
        let init = spans.drop_last();
        let sp = spans.last();
        lemma_tiles_init(spans, from, to);
        lemma_split_all_tiles(init, from, sp.0, start, end, k);
        lemma_split_span_tiles(sp, start, end, k);
        lemma_tiles_concat(split_all(init, start, end, k), split_span(sp, start, end, k), from, sp.0, to);
    }
}

proof fn lemma_tiles_cover(t: Seq<SpanModel>, from: int, to: int, p: int)
    requires
        tiles(t, from, to),
        from <= p < to,
    ensures
        covered(t, p),
    decreases t.len(),
{
    let init = t.drop_last();
    lemma_tiles_init(t, from, to);
    if p >= t.last().0 {
        assert(covers(t[t.len() - 1], p));
    } else {
        lemma_tiles_cover(init, from, t.last().0, p);
        let i = choose|i: int| 0 <= i < init.len() && covers(#[trigger] init[i], p);
        assert(t[i] == init[i]);
    }
}

/// An overlay is non-empty and lies within `[from, to)`.
pub open spec fn overlay_within(o: SpanModel, from: int, to: int) -> bool {
    from <= o.0 && o.0 < o.1 && o.1 <= to
}

/// Overlays that each lie within `[from, to)` keep spans that tile `[from, to)`
/// tiling it.
pub proof fn lemma_overlay_all_tiles(base: Seq<SpanModel>, overlays: Seq<SpanModel>, from: int, to: int)
    requires
        tiles(base, from, to),
        forall|j: int| 0 <= j < overlays.len() ==> overlay_within(#[trigger] overlays[j], from, to),
    ensures
        tiles(overlay_all(base, overlays), from, to),
    decreases overlays.len(),
{
    if overlays.len() > 0 {
        let init = overlays.drop_last();
        let o = overlays.last();
        assert forall|j: int| 0 <= j < init.len() implies overlay_within(#[trigger] init[j], from, to) by {
            assert(init[j] == overlays[j]);
        }
        assert(overlay_within(overlays[overlays.len() - 1], from, to));
        lemma_overlay_all_tiles(base, init, from, to);
        let mid = overlay_all(base, init);
        lemma_tiles_cover(mid, from, to, o.0);
        let i = choose|i: int| 0 <= i < mid.len() && covers(#[trigger] mid[i], o.0);
        assert(overlaps(mid[i], o.0, o.1));
        lemma_split_all_tiles(mid, from, to, o.0, o.1, o.2);
    }
}

proof fn lemma_tiles_sorted<T>(t: Seq<(int, int, T)>, from: int, to: int)
    requires
        tiles(t, from, to),
    ensures
        sort_by_start(t) == t,
    decreases t.len(),
{
    if t.len() > 0 {
        let init = t.drop_last();
        lemma_tiles_init(t, from, to);
        lemma_tiles_sorted(init, from, t.last().0);
        lemma_tiles_bounds(init, from, t.last().0);
        if init.len() > 0 {
            assert(init.last().0 < init.last().1);
            assert(init.last() == init[init.len() - 1]);
        }
        assert(init.push(t.last()) == t);
    }
}

/// Where the base spans tile `[from, to)` and every overlay is non-empty and lies
/// within it, the composed spans tile `[from, to)` too: they stay in order,
/// without gap or overlap.
pub proof fn lemma_composed_tiles(base: Seq<SpanModel>, overlays: Seq<SpanModel>, from: int, to: int)
    requires
        tiles(base, from, to),
        forall|j: int| 0 <= j < overlays.len() ==> overlay_within(#[trigger] overlays[j], from, to),
    ensures
        tiles(composed(base, overlays), from, to),
{
    lemma_overlay_all_tiles(base, overlays, from, to);
    lemma_tiles_sorted(overlay_all(base, overlays), from, to);
}

} // verus!
