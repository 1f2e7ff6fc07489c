//! Half-open token ranges: membership, canonical decompositions and range
//! subtraction.

use vstd::prelude::*;
use std::ops::Range;

verus! {

/// Whether position `x` lies in the half-open range `r`.
pub open spec fn range_has(r: Range<usize>, x: int) -> bool {
    r.start <= x < r.end
}

/// Whether some range of `rs` holds position `x`.
pub open spec fn covers(rs: Seq<Range<usize>>, x: int) -> bool {
    exists|i: int| 0 <= i < rs.len() && #[trigger] range_has(rs[i], x)
}

/// Non-empty pieces, sorted, with a gap between any two consecutive pieces:
/// the unique shortest way to write a set of positions as ranges.
pub open spec fn canonical(rs: Seq<Range<usize>>) -> bool {
    &&& forall|i: int| 0 <= i < rs.len() ==> (#[trigger] rs[i]).start < rs[i].end
    &&& forall|i: int, j: int| 0 <= i < j < rs.len() ==> (#[trigger] rs[i]).end < (#[trigger] rs[j]).start
}

/// What survives of piece `p` after cutting out `c`.
pub open spec fn cut_piece(p: Range<usize>, c: Range<usize>) -> Seq<Range<usize>> {
    if c.start >= c.end || c.end <= p.start || c.start >= p.end {
        seq![p]
    } else {
        (if p.start < c.start { seq![p.start..c.start] } else { Seq::empty() }) + (if c.end < p.end {
            seq![c.end..p.end]
        } else {
            Seq::empty()
        })
    }
}

/// Every piece of `ps` with `c` cut out of it, in order.
pub open spec fn cut_all(ps: Seq<Range<usize>>, c: Range<usize>) -> Seq<Range<usize>>
    decreases ps.len(),
{
    if ps.len() == 0 {
        Seq::empty()
    } else {
        cut_all(ps.drop_last(), c) + cut_piece(ps.last(), c)
    }
}

/// `base` minus each of `cuts` in turn.
pub open spec fn subtract_spec(base: Range<usize>, cuts: Seq<Range<usize>>) -> Seq<Range<usize>>
    decreases cuts.len(),
{
    if cuts.len() == 0 {
        if base.start < base.end {
            seq![base]
        } else {
            Seq::empty()
        }
    } else {
        cut_all(subtract_spec(base, cuts.drop_last()), cuts.last())
    }
}

/// Every output piece lies inside some input piece.
pub open spec fn within(out: Seq<Range<usize>>, ps: Seq<Range<usize>>) -> bool {
    forall|k: int|
        0 <= k < out.len() ==> exists|i: int|
            0 <= i < ps.len() && (#[trigger] ps[i]).start <= (#[trigger] out[k]).start && out[k].end
                <= ps[i].end
}

proof fn lemma_cut_piece(p: Range<usize>, c: Range<usize>, x: int)
    requires
        p.start < p.end,
    ensures
        covers(cut_piece(p, c), x) <==> (range_has(p, x) && !range_has(c, x)),
        canonical(cut_piece(p, c)),
        forall|k: int|
            0 <= k < cut_piece(p, c).len() ==> p.start <= (#[trigger] cut_piece(p, c)[k]).start
                && cut_piece(p, c)[k].end <= p.end,
{
    let out = cut_piece(p, c);
    if c.start >= c.end || c.end <= p.start || c.start >= p.end {
        if range_has(p, x) {
            assert(range_has(out[0], x));
        }
    } else {
        let a: Seq<Range<usize>> = if p.start < c.start {
            seq![p.start..c.start]
        } else {
            Seq::empty()
        };
        let b: Seq<Range<usize>> = if c.end < p.end {
            seq![c.end..p.end]
        } else {
            Seq::empty()
        };
        assert(out == a + b);
        if range_has(p, x) && !range_has(c, x) {
            if x < c.start {
                assert(range_has(out[0], x));
            } else {
                assert(range_has(out[out.len() - 1], x));
            }
        }
    }
}

proof fn lemma_covers_concat(a: Seq<Range<usize>>, b: Seq<Range<usize>>, x: int)
    ensures
        covers(a + b, x) <==> (covers(a, x) || covers(b, x)),
{
    let ab = a + b;
    if covers(a, x) {
        let i = choose|i: int| 0 <= i < a.len() && #[trigger] range_has(a[i], x);
        assert(ab[i] == a[i]);
        assert(range_has(ab[i], x));
    }
    if covers(b, x) {
        let i = choose|i: int| 0 <= i < b.len() && #[trigger] range_has(b[i], x);
        assert(ab[a.len() + i] == b[i]);
        assert(range_has(ab[a.len() + i], x));
    }
    if covers(ab, x) {
        let i = choose|i: int| 0 <= i < ab.len() && #[trigger] range_has(ab[i], x);
        if i < a.len() {
            assert(range_has(a[i], x));
        } else {
            assert(ab[i] == b[i - a.len()]);
            assert(range_has(b[i - a.len()], x));
        }
    }
}

proof fn lemma_covers_drop_last(ps: Seq<Range<usize>>, x: int)
    requires
        ps.len() > 0,
    ensures
        covers(ps, x) <==> (covers(ps.drop_last(), x) || range_has(ps.last(), x)),
{
    assert(ps == ps.drop_last() + seq![ps.last()]);
    lemma_covers_concat(ps.drop_last(), seq![ps.last()], x);
    if range_has(ps.last(), x) {
        assert(range_has(seq![ps.last()][0], x));
    }
    if covers(seq![ps.last()], x) {
        let i = choose|i: int| 0 <= i < 1 && #[trigger] range_has(seq![ps.last()][i], x);
        assert(i == 0);
    }
}

proof fn lemma_cut_all(ps: Seq<Range<usize>>, c: Range<usize>)
    requires
        canonical(ps),
    ensures
        canonical(cut_all(ps, c)),
        within(cut_all(ps, c), ps),
        forall|x: int| covers(cut_all(ps, c), x) <==> (covers(ps, x) && !range_has(c, x)),
    decreases ps.len(),
{
    if ps.len() == 0 {
        assert forall|x: int| covers(cut_all(ps, c), x) <==> (covers(ps, x) && !range_has(c, x)) by {}
    } else {
        let pre = ps.drop_last();
        let p = ps.last();
        assert(canonical(pre)) by {
            assert forall|i: int, j: int| 0 <= i < j < pre.len() implies (#[trigger] pre[i]).end
                < (#[trigger] pre[j]).start by {
                assert(pre[i] == ps[i] && pre[j] == ps[j]);
            }
        }
        lemma_cut_all(pre, c);
        let a = cut_all(pre, c);
        let b = cut_piece(p, c);
        assert(p.start < p.end);
        lemma_cut_piece(p, c, 0);
        let out = cut_all(ps, c);
        assert(out == a + b);
        assert forall|x: int| covers(out, x) <==> (covers(ps, x) && !range_has(c, x)) by {
            lemma_covers_concat(a, b, x);
            lemma_cut_piece(p, c, x);
            lemma_covers_drop_last(ps, x);
        }
        assert forall|k: int| 0 <= k < out.len() implies exists|i: int|
            0 <= i < ps.len() && (#[trigger] ps[i]).start <= (#[trigger] out[k]).start
                && out[k].end <= ps[i].end by {
            if k < a.len() {
                assert(out[k] == a[k]);
                let i = choose|i: int|
                    0 <= i < pre.len() && (#[trigger] pre[i]).start <= (#[trigger] a[k]).start
                        && a[k].end <= pre[i].end;
                assert(ps[i] == pre[i]);
            } else {
                assert(out[k] == b[k - a.len()]);
                assert(ps[ps.len() - 1] == p);
            }
        }
        assert forall|i: int| 0 <= i < out.len() implies (#[trigger] out[i]).start < out[i].end by {
            if i < a.len() {
                assert(out[i] == a[i]);
            } else {
                assert(out[i] == b[i - a.len()]);
            }
        }
        assert forall|i: int, j: int| 0 <= i < j < out.len() implies (#[trigger] out[i]).end
            < (#[trigger] out[j]).start by {
            if j < a.len() {
                assert(out[i] == a[i] && out[j] == a[j]);
            } else if i >= a.len() {
                assert(out[i] == b[i - a.len()] && out[j] == b[j - a.len()]);
            } else {
                assert(out[i] == a[i] && out[j] == b[j - a.len()]);
                let m = choose|m: int|
                    0 <= m < pre.len() && (#[trigger] pre[m]).start <= (#[trigger] a[i]).start
                        && a[i].end <= pre[m].end;
                assert(pre[m] == ps[m]);
                assert(ps[ps.len() - 1] == p);
                assert(ps[m].end < ps[ps.len() - 1].start);
            }
        }
    }
}

/// `subtract_spec` holds exactly the positions of `base` that no cut holds,
/// as a canonical decomposition.
pub proof fn lemma_subtract_spec(base: Range<usize>, cuts: Seq<Range<usize>>)
    ensures
        canonical(subtract_spec(base, cuts)),
        forall|x: int|
            covers(subtract_spec(base, cuts), x) <==> (range_has(base, x) && !covers(cuts, x)),
    decreases cuts.len(),
{
    if cuts.len() == 0 {
        let s = subtract_spec(base, cuts);
        assert forall|x: int| covers(s, x) <==> (range_has(base, x) && !covers(cuts, x)) by {
            if range_has(base, x) {
                assert(range_has(s[0], x));
            }
        }
    } else {
        lemma_subtract_spec(base, cuts.drop_last());
        lemma_cut_all(subtract_spec(base, cuts.drop_last()), cuts.last());
        assert forall|x: int|
            covers(subtract_spec(base, cuts), x) <==> (range_has(base, x) && !covers(
                cuts,
                x,
            )) by {
            lemma_covers_drop_last(cuts, x);
        }
    }
}

/// `base` minus every range in `cuts`, as sorted, coalesced, non-empty
/// pieces. Cutting only ever removes positions, so the pieces stay sorted
/// and separated without a re-sort or merge pass.
pub fn subtract_ranges(base: Range<usize>, cuts: &[Range<usize>]) -> (r: Vec<Range<usize>>)
    ensures
        r@ == subtract_spec(base, cuts@),
        canonical(r@),
        forall|x: int| covers(r@, x) <==> (range_has(base, x) && !covers(cuts@, x)),
{
    proof {
        lemma_subtract_spec(base, cuts@);
    }
    if base.start >= base.end {
        let empty: Vec<Range<usize>> = Vec::new();
        proof {
            lemma_subtract_empty_base(base, cuts@);
        }
        return empty;
    }
    let mut pieces: Vec<Range<usize>> = Vec::new();
    pieces.push(base.start..base.end);
    let mut j: usize = 0;
    assert(cuts@.take(0) =~= Seq::<Range<usize>>::empty());
    assert(pieces@ =~= subtract_spec(base, cuts@.take(0)));
    while j < cuts.len()
        invariant
            j <= cuts@.len(),
            pieces@ == subtract_spec(base, cuts@.take(j as int)),
        decreases cuts@.len() - j,
    {
        let cs = cuts[j].start;
        let ce = cuts[j].end;
        let ghost c = cuts@[j as int];
        let mut next: Vec<Range<usize>> = Vec::new();
        let mut i: usize = 0;
        while i < pieces.len()
            invariant
                i <= pieces@.len(),
                c == cuts@[j as int],
                cs == c.start,
                ce == c.end,
                next@ == cut_all(pieces@.take(i as int), c),
            decreases pieces@.len() - i,
        {
            let ps = pieces[i].start;
            let pe = pieces[i].end;
            let ghost p = pieces@[i as int];
            assert(pieces@.take(i + 1).drop_last() =~= pieces@.take(i as int));
            let ghost before = next@;
            if cs >= ce || ce <= ps || cs >= pe {
                next.push(ps..pe);
                assert(next@ =~= before + cut_piece(p, c));
            } else {
                if ps < cs {
                    next.push(ps..cs);
                }
                let ghost mid = next@;
                if ce < pe {
                    next.push(ce..pe);
                }
                assert(next@ =~= before + cut_piece(p, c));
            }
            i = i + 1;
        }
        assert(pieces@.take(pieces@.len() as int) =~= pieces@);
        assert(cuts@.take(j + 1).drop_last() =~= cuts@.take(j as int));
        pieces = next;
        j = j + 1;
    }
    assert(cuts@.take(cuts@.len() as int) =~= cuts@);
    pieces
}

proof fn lemma_subtract_empty_base(base: Range<usize>, cuts: Seq<Range<usize>>)
    requires
        base.start >= base.end,
    ensures
        subtract_spec(base, cuts) =~= Seq::<Range<usize>>::empty(),
    decreases cuts.len(),
{
    if cuts.len() > 0 {
        lemma_subtract_empty_base(base, cuts.drop_last());
    }
}

} // verus!
