// What every apportionment outcome satisfies.
use vstd::prelude::*;
use crate::apportionment::{
    apportion, best_upto, eligible, initial_allocation, lemma_best_upto, lemma_prefix_votes_bound,
    no_residual_seats, open_for_remainder, quota_seats, run, seat_sum, total_candidates,
    total_votes, uses_averages, ListSummary, Outcome,
};

verus! {

proof fn lemma_seat_sum_bump(s: Seq<u32>, b: int)
    requires
        0 <= b < s.len(),
        s[b] < u32::MAX,
    ensures
        seat_sum(s.update(b, (s[b] + 1) as u32)) == seat_sum(s) + 1,
    decreases s.len(),
{
    let u = s.update(b, (s[b] + 1) as u32);
    if b == s.len() - 1 {
        assert(u.drop_last() == s.drop_last());
    } else {
        lemma_seat_sum_bump(s.drop_last(), b);
        assert(u.drop_last() == s.drop_last().update(b, (s[b] + 1) as u32));
    }
}

proof fn lemma_full_lists(l: Seq<ListSummary>, s: Seq<u32>)
    requires
        s.len() == l.len(),
        forall|i: int| 0 <= i < l.len() ==> s[i] >= l[i].candidates,
    ensures
        seat_sum(s) >= total_candidates(l),
    decreases s.len(),
{
    if s.len() > 0 {
        lemma_full_lists(l.drop_last(), s.drop_last());
    }
}

proof fn lemma_initial_prefix(l: Seq<ListSummary>, t: int, k: int)
    requires
        0 <= k <= l.len(),
        total_votes(l) > 0,
        0 < t <= u32::MAX,
    ensures
        seat_sum(initial_allocation(l, t).take(k)) * total_votes(l) <= t * total_votes(l.take(k)),
    decreases k,
{
    let s = initial_allocation(l, t);
    let tv = total_votes(l);
    if k > 0 {
        lemma_initial_prefix(l, t, k - 1);
        assert(s.take(k).drop_last() == s.take(k - 1));
        assert(l.take(k).drop_last() == l.take(k - 1));
        let v = l[k - 1].votes as int;
        let q = (v * t) / tv;
        let c = quota_seats(l[k - 1], t, tv);
        assert(q * tv <= v * t) by (nonlinear_arith)
            requires q == (v * t) / tv, tv > 0, v >= 0, t >= 0;
        assert(0 <= q) by (nonlinear_arith)
            requires q == (v * t) / tv, tv > 0, v >= 0, t >= 0;
        assert(c == s[k - 1]);
        let g = seat_sum(s.take(k - 1));
        assert((g + c) * tv <= t * (total_votes(l.take(k - 1)) + v)) by (nonlinear_arith)
            requires
                g * tv <= t * total_votes(l.take(k - 1)),
                c <= q,
                q * tv <= v * t,
                tv > 0;
    }
}

/// Quota seats never exceed the seat total, nor any list's candidates.
proof fn lemma_initial_allocation(l: Seq<ListSummary>, t: int)
    requires
        total_votes(l) > 0,
        0 < t <= u32::MAX,
    ensures
        seat_sum(initial_allocation(l, t)) <= t,
        forall|i: int| 0 <= i < l.len() ==> #[trigger] initial_allocation(l, t)[i] <= l[i].candidates,
{
    let s = initial_allocation(l, t);
    let tv = total_votes(l);
    lemma_initial_prefix(l, t, l.len() as int);
    lemma_prefix_votes_bound(l, l.len() as int);
    assert(s.take(l.len() as int) == s);
    assert(l.take(l.len() as int) == l);
    let g = seat_sum(s);
    assert(g <= t) by (nonlinear_arith)
        requires g * tv <= t * tv, tv > 0;
    assert forall|i: int| 0 <= i < l.len() implies #[trigger] s[i] <= l[i].candidates by {
        let q = (l[i].votes as int * t) / tv;
        assert(0 <= q) by (nonlinear_arith)
            requires q == (l[i].votes as int * t) / tv, tv > 0, t >= 0;
    }
}

/// Residual assignment keeps the seat total and the candidate caps, and stops
/// for exhaustion only when the caps cannot hold the seats.
proof fn lemma_run(l: Seq<ListSummary>, t: int, s: Seq<u32>, got: Seq<bool>, rem: nat)
    requires
        s.len() == l.len(),
        got.len() == l.len(),
        seat_sum(s) + rem == t,
        forall|i: int| 0 <= i < l.len() ==> #[trigger] s[i] <= l[i].candidates,
    ensures
        run(l, t, s, got, rem) matches Outcome::Allocated(a) ==> (seat_sum(a) == t && a.len() == l.len()
            && forall|i: int| 0 <= i < l.len() ==> #[trigger] a[i] <= l[i].candidates),
        run(l, t, s, got, rem) is Exhausted ==> total_candidates(l) < t,
    decreases rem,
{
    if rem > 0 {
        let avg = uses_averages(l, t, s, got);
        let n = l.len() as int;
        lemma_best_upto(l, t, s, got, avg, n);
        match best_upto(l, t, s, got, avg, n) {
            None => {
                if !avg {
                    let i = choose|i: int| 0 <= i < l.len() && #[trigger] open_for_remainder(l, s, got, i);
                    assert(eligible(l, s, got, avg, i));
                }
                assert forall|i: int| 0 <= i < l.len() implies s[i] >= l[i].candidates by {
                    assert(!eligible(l, s, got, avg, i));
                }
                lemma_full_lists(l, s);
            },
            Some(b) => {
                let s2 = s.update(b, (s[b] + 1) as u32);
                lemma_seat_sum_bump(s, b);
                assert forall|i: int| 0 <= i < l.len() implies #[trigger] s2[i] <= l[i].candidates by {
                    if i == b {
                        assert(eligible(l, s, got, avg, b));
                    }
                }
                lemma_run(l, t, s2, got.update(b, true), (rem - 1) as nat);
            },
        }
    }
}

/// On success, the seats handed out add up to exactly the seats asked for.
pub proof fn lemma_allocation_sums_to_total(t: u32, l: Seq<ListSummary>)
    ensures
        apportion(t as int, l) matches Outcome::Allocated(a) ==> seat_sum(a) == t,
{
    lemma_outcome(t, l);
}

/// On success, every list has a seat count for it, and no list has more
/// seats than eligible candidates.
pub proof fn lemma_allocation_within_candidates(t: u32, l: Seq<ListSummary>)
    ensures
        apportion(t as int, l) matches Outcome::Allocated(a) ==> (a.len() == l.len() && forall|i: int|
            0 <= i < l.len() ==> #[trigger] a[i] <= l[i].candidates),
{
    lemma_outcome(t, l);
}

/// A run stops for exhaustion only when all lists together have fewer
/// eligible candidates than there are seats.
pub proof fn lemma_exhaustion_needs_too_few_candidates(t: u32, l: Seq<ListSummary>)
    ensures
        apportion(t as int, l) is Exhausted ==> total_candidates(l) < t,
{
    lemma_outcome(t, l);
}

/// The outcome depends on the seat count and the lists alone: equal inputs
/// give equal outcomes, whether an allocation, a tie or exhaustion.
pub proof fn lemma_deterministic(t1: u32, l1: Seq<ListSummary>, t2: u32, l2: Seq<ListSummary>)
    requires
        t1 == t2,
        l1 == l2,
    ensures
        apportion(t1 as int, l1) == apportion(t2 as int, l2),
{
}

proof fn lemma_outcome(t: u32, l: Seq<ListSummary>)
    ensures
        apportion(t as int, l) matches Outcome::Allocated(a) ==> (seat_sum(a) == t && a.len() == l.len()
            && forall|i: int| 0 <= i < l.len() ==> #[trigger] a[i] <= l[i].candidates),
        apportion(t as int, l) is Exhausted ==> total_candidates(l) < t,
{
    if t > 0 && l.len() > 0 && total_votes(l) != 0 {
        let s = initial_allocation(l, t as int);
        lemma_prefix_votes_bound(l, 0);
        lemma_initial_allocation(l, t as int);
        lemma_run(l, t as int, s, no_residual_seats(l.len()), (t - seat_sum(s)) as nat);
    }
}

proof fn lemma_total_votes_update(l: Seq<ListSummary>, i: int, ls: ListSummary)
    requires
        0 <= i < l.len(),
    ensures
        total_votes(l.update(i, ls)) == total_votes(l) - l[i].votes + ls.votes,
        total_votes(l) >= l[i].votes,
    decreases l.len(),
{
    let u = l.update(i, ls);
    lemma_prefix_votes_bound(l.drop_last(), 0);
    if i == l.len() - 1 {
        assert(u.drop_last() == l.drop_last());
    } else {
        lemma_total_votes_update(l.drop_last(), i, ls);
        assert(u.drop_last() == l.drop_last().update(i, ls));
    }
}

/// More votes for one list, with all other lists as they were, never give
/// that list fewer quota seats.
pub proof fn lemma_quota_seats_monotone(t: u32, l: Seq<ListSummary>, i: int, more: u32)
    requires
        0 <= i < l.len(),
        total_votes(l) > 0,
        more >= l[i].votes,
    ensures
        initial_allocation(l.update(i, ListSummary { votes: more, candidates: l[i].candidates }), t as int)[i]
            >= initial_allocation(l, t as int)[i],
{
    let ls = ListSummary { votes: more, candidates: l[i].candidates };
    let l2 = l.update(i, ls);
    lemma_total_votes_update(l, i, ls);
    let v = l[i].votes as int;
    let w = more as int;
    let tv = total_votes(l);
    let tw = total_votes(l2);
    let ti = t as int;
    let q = (v * ti) / tv;
    let q2 = (w * ti) / tw;
    assert(q <= q2) by (nonlinear_arith)
        requires
            q == (v * ti) / tv,
            q2 == (w * ti) / tw,
            tw == tv - v + w,
            0 <= v <= tv,
            v <= w,
            tv > 0,
            ti >= 0,
    {
        assert(q * tv <= v * ti);
        assert(q >= 0);
        assert(v * tw <= w * tv);
        assert(q * tv * tw <= v * ti * tw);
        assert(v * ti * tw <= w * ti * tv);
        assert(q * tw <= w * ti);
    }
}

} // verus!
