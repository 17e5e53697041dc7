//! The order in which the plots of a drive are read: the newest first.

use crate::plot::{all_wf, views, Plot, PlotView};
use vstd::prelude::*;

verus! {

/// Picks the plots last modified at time `t`.
pub open spec fn modified_at(t: int) -> spec_fn(PlotView) -> bool {
    |p: PlotView| p.modified == t
}

/// No plot stands behind one that was modified before it.
pub open spec fn newest_first(plots: Seq<PlotView>) -> bool {
    forall|i: int, j: int|
        0 <= i < j < plots.len() ==> (#[trigger] plots[i]).modified >= (
        #[trigger] plots[j]).modified
}

/// `sorted` holds the plots of `plots`, the newest first, and those of one
/// time in the order in which they stand in `plots`.
pub open spec fn is_sorted_newest_first(sorted: Seq<PlotView>, plots: Seq<PlotView>) -> bool {
    &&& newest_first(sorted)
    &&& forall|t: int| #[trigger] sorted.filter(modified_at(t)) == plots.filter(modified_at(t))
}

/// Nothing passes a filter that none of the elements satisfies.
proof fn lemma_filter_none(s: Seq<PlotView>, pred: spec_fn(PlotView) -> bool)
    requires
        forall|i: int| 0 <= i < s.len() ==> !pred(#[trigger] s[i]),
    ensures
        s.filter(pred) == Seq::<PlotView>::empty(),
    decreases s.len(),
{
    reveal(Seq::filter);
    if s.len() > 0 {
        lemma_filter_none(s.drop_last(), pred);
    }
}

/// What a filter lets pass of a sequence with one element more.
proof fn lemma_filter_push(s: Seq<PlotView>, x: PlotView, pred: spec_fn(PlotView) -> bool)
    ensures
        s.push(x).filter(pred) == if pred(x) {
            s.filter(pred).push(x)
        } else {
            s.filter(pred)
        },
{
    reveal(Seq::filter);
    assert(s.push(x).drop_last() =~= s);
}

/// A sorted sequence in which some plot was modified at `t` ends with a plot
/// that is no newer than `t`.
proof fn lemma_last_is_oldest(s: Seq<PlotView>, t: int)
    requires
        newest_first(s),
        s.filter(modified_at(t)).len() > 0,
    ensures
        s.len() > 0,
        s.last().modified <= t,
{
    let f = s.filter(modified_at(t));
    s.lemma_filter_pred(modified_at(t), 0);
    assert(f.contains(f[0]));
    s.lemma_filter_contains_rev(modified_at(t), f[0]);
    let j = choose|j: int| 0 <= j < s.len() && s[j] == f[0];
    assert(s[j].modified == t);
    if j < s.len() - 1 {
        assert(s[j].modified >= s[s.len() - 1].modified);
    }
}

/// Two sorted sequences that hold the same plots of each time, in the same
/// order, are one sequence.
proof fn lemma_same_filters(a: Seq<PlotView>, b: Seq<PlotView>)
    requires
        newest_first(a),
        newest_first(b),
        forall|t: int| #[trigger] a.filter(modified_at(t)) == b.filter(modified_at(t)),
    ensures
        a == b,
    decreases a.len() + b.len(),
{
    if a.len() == 0 && b.len() == 0 {
        assert(a =~= b);
    } else {
        // whichever is not empty, both hold a plot of its last plot's time
        let u = if a.len() > 0 {
            a.last().modified
        } else {
            b.last().modified
        };
        assert(a.filter(modified_at(u)) == b.filter(modified_at(u)));
        if a.len() > 0 {
            lemma_filter_push(a.drop_last(), a.last(), modified_at(u));
            assert(a.drop_last().push(a.last()) =~= a);
        } else {
            lemma_filter_push(b.drop_last(), b.last(), modified_at(u));
            assert(b.drop_last().push(b.last()) =~= b);
        }
        lemma_last_is_oldest(a, u);
        lemma_last_is_oldest(b, u);
        let x = a.last();
        let y = b.last();
        let t = x.modified;
        let v = y.modified;
        let front_a = a.drop_last();
        let front_b = b.drop_last();
        assert(front_a.push(x) =~= a);
        assert(front_b.push(y) =~= b);
        // the last plots are of one time
        lemma_filter_push(front_a, x, modified_at(t));
        lemma_filter_push(front_b, y, modified_at(v));
        assert(a.filter(modified_at(t)) == b.filter(modified_at(t)));
        assert(a.filter(modified_at(v)) == b.filter(modified_at(v)));
        lemma_last_is_oldest(b, t);
        lemma_last_is_oldest(a, v);
        assert(t == v);
        // and so they are one plot
        lemma_filter_push(front_b, y, modified_at(t));
        assert(front_a.filter(modified_at(t)).push(x).last() == x);
        assert(front_b.filter(modified_at(t)).push(y).last() == y);
        assert(x == y);
        assert forall|s: int| #[trigger]
            front_a.filter(modified_at(s)) == front_b.filter(modified_at(s)) by {
            lemma_filter_push(front_a, x, modified_at(s));
            lemma_filter_push(front_b, y, modified_at(s));
            assert(a.filter(modified_at(s)) == b.filter(modified_at(s)));
            if x.modified == s {
                let fa = front_a.filter(modified_at(s));
                let fb = front_b.filter(modified_at(s));
                assert(fa.push(x).drop_last() =~= fa);
                assert(fb.push(x).drop_last() =~= fb);
            }
        }
        assert forall|i: int, j: int| 0 <= i < j < front_a.len() implies (
        #[trigger] front_a[i]).modified >= (#[trigger] front_a[j]).modified by {
            assert(front_a[i] == a[i] && front_a[j] == a[j]);
        }
        assert forall|i: int, j: int| 0 <= i < j < front_b.len() implies (
        #[trigger] front_b[i]).modified >= (#[trigger] front_b[j]).modified by {
            assert(front_b[i] == b[i] && front_b[j] == b[j]);
        }
        lemma_same_filters(front_a, front_b);
    }
}

/// There is only one way to sort plots newest first: the order is fixed by
/// the times, and among plots of one time by where they stood.
pub proof fn lemma_sorted_is_unique(a: Seq<PlotView>, b: Seq<PlotView>, plots: Seq<PlotView>)
    requires
        is_sorted_newest_first(a, plots),
        is_sorted_newest_first(b, plots),
    ensures
        a == b,
{
    assert forall|t: int| #[trigger] a.filter(modified_at(t)) == b.filter(modified_at(t)) by {
        assert(a.filter(modified_at(t)) == plots.filter(modified_at(t)));
        assert(b.filter(modified_at(t)) == plots.filter(modified_at(t)));
    }
    lemma_same_filters(a, b);
}

/// Putting a plot behind all that are as new or newer and before all that
/// are older keeps a sorted sequence sorted, and behind its equals.
proof fn lemma_insert_keeps_order(done: Seq<PlotView>, pos: int, x: PlotView, t: int)
    requires
        0 <= pos <= done.len(),
        newest_first(done),
        forall|k: int| 0 <= k < pos ==> (#[trigger] done[k]).modified >= x.modified,
        forall|k: int| pos <= k < done.len() ==> (#[trigger] done[k]).modified < x.modified,
    ensures
        newest_first(done.insert(pos, x)),
        done.insert(pos, x).filter(modified_at(t)) == done.push(x).filter(modified_at(t)),
{
    let pred = modified_at(t);
    let front = done.take(pos);
    let back = done.skip(pos);
    assert(done.insert(pos, x) =~= front.push(x) + back);
    assert(done =~= front + back);
    Seq::filter_distributes_over_add(front.push(x), back, pred);
    Seq::filter_distributes_over_add(front, back, pred);
    lemma_filter_push(front, x, pred);
    lemma_filter_push(done, x, pred);
    if pred(x) {
        assert forall|i: int| 0 <= i < back.len() implies !pred(#[trigger] back[i]) by {
            assert(back[i] == done[pos + i]);
        }
        lemma_filter_none(back, pred);
        assert(front.filter(pred).push(x) + Seq::<PlotView>::empty() =~= front.filter(pred).push(
            x,
        ));
        assert(front.filter(pred) + Seq::<PlotView>::empty() =~= front.filter(pred));
    }
    let after = done.insert(pos, x);
    assert forall|i: int, j: int| 0 <= i < j < after.len() implies (#[trigger] after[i]).modified
        >= (#[trigger] after[j]).modified by {
        if j < pos {
            assert(after[i] == done[i] && after[j] == done[j]);
        } else if j == pos {
            assert(after[i] == done[i]);
        } else if i < pos {
            assert(after[i] == done[i] && after[j] == done[j - 1]);
        } else if i == pos {
            assert(after[j] == done[j - 1]);
        } else {
            assert(after[i] == done[i - 1] && after[j] == done[j - 1]);
        }
    }
}

/// Sorts plots by the time of their last modification, the newest first.
/// Plots of one time keep their order.
pub fn sort_newest_first(plots: &Vec<Plot>) -> (sorted: Vec<Plot>)
    ensures
        is_sorted_newest_first(views(sorted@), views(plots@)),
        sorted.len() == plots.len(),
        all_wf(views(plots@)) ==> all_wf(views(sorted@)),
{
    let mut sorted: Vec<Plot> = Vec::new();
    let mut i: usize = 0;
    assert(views(plots@).take(0) =~= views(sorted@));
    while i < plots.len()
        invariant
            i <= plots.len(),
            sorted.len() == i,
            newest_first(views(sorted@)),
            forall|t: int| #[trigger]
                views(sorted@).filter(modified_at(t)) == views(plots@).take(i as int).filter(
                    modified_at(t),
                ),
            all_wf(views(plots@)) ==> all_wf(views(sorted@)),
        decreases plots.len() - i,
    {
        let plot: Plot = plots[i];
        let mut pos: usize = sorted.len();
        while pos > 0 && sorted[pos - 1].modified() < plot.modified()
            invariant
                pos <= sorted.len(),
                forall|k: int|
                    pos <= k < sorted.len() ==> (#[trigger] views(sorted@)[k]).modified
                        < plot@.modified,
            decreases pos,
        {
            pos = pos - 1;
        }
        let ghost done = views(sorted@);
        proof {
            assert forall|k: int| 0 <= k < pos implies (#[trigger] done[k]).modified
                >= plot@.modified by {
                assert(done[pos - 1].modified >= plot@.modified);
            }
            assert(views(plots@).take(i + 1) =~= views(plots@).take(i as int).push(plot@));
            assert forall|t: int| #[trigger]
                done.insert(pos as int, plot@).filter(modified_at(t)) == views(plots@).take(
                    i + 1,
                ).filter(modified_at(t)) by {
                lemma_insert_keeps_order(done, pos as int, plot@, t);
                lemma_filter_push(done, plot@, modified_at(t));
                lemma_filter_push(views(plots@).take(i as int), plot@, modified_at(t));
            }
            lemma_insert_keeps_order(done, pos as int, plot@, 0);
        }
        sorted.insert(pos, plot);
        assert(views(sorted@) =~= done.insert(pos as int, plot@));
        proof {
            if all_wf(views(plots@)) {
                assert(views(plots@)[i as int].wf());
                assert forall|k: int| 0 <= k < sorted.len() implies (#[trigger] views(
                    sorted@,
                )[k]).wf() by {
                    if k < pos {
                        assert(views(sorted@)[k] == done[k]);
                    } else if k > pos {
                        assert(views(sorted@)[k] == done[k - 1]);
                    }
                }
            }
        }
        i = i + 1;
    }
    assert(views(plots@).take(plots.len() as int) =~= views(plots@));
    sorted
}

} // verus!
