// Seat apportionment: quota seats first, then residual seats by largest
// remainder or highest averages, refusing to guess on ties.
use vstd::prelude::*;
use crate::fraction::{Comparison, Fraction};
use crate::laws::{
    lemma_allocation_sums_to_total, lemma_allocation_within_candidates,
    lemma_exhaustion_needs_too_few_candidates,
};

verus! {

/// From this many seats on, residual seats go by highest averages; below it,
/// by largest remainder.
pub const HIGHEST_AVERAGES_THRESHOLD: u32 = 9;

/// Votes and eligible candidates of one list.
#[derive(Clone, Copy, Debug, PartialEq, Eq, Structural)]
pub struct ListSummary {
    pub votes: u32,
    pub candidates: u32,
}

/// The lists of one election, in their fixed order.
#[derive(Clone, Debug)]
pub struct ElectionSummary {
    pub lists: Vec<ListSummary>,
}

/// Seats per list, by list position.
#[derive(Clone, Debug)]
pub struct SeatAllocation {
    pub seats: Vec<u32>,
}

impl SeatAllocation {
    /// The seats of each list, by list position.
    pub fn get_total_seats(&self) -> (r: Vec<u32>)
        ensures
            r@ == self.seats@,
    {
        let mut r: Vec<u32> = Vec::new();
        let mut i: usize = 0;
        while i < self.seats.len()
            invariant
                i <= self.seats.len(),
                r@ == self.seats@.take(i as int),
            decreases self.seats.len() - i,
        {
            r.push(self.seats[i]);
            i = i + 1;
            assert(r@ == self.seats@.take(i as int));
        }
        assert(self.seats@.take(i as int) == self.seats@);
        r
    }
}

/// Why no allocation was returned.
#[derive(Clone, Debug)]
pub enum ApportionmentError {
    ZeroSeats,
    NoLists,
    ZeroVotesCast,
    /// Lists `lists` rank exactly equal for seat number `seat` (counted from 1),
    /// and not all of them can have a seat: the law asks for a drawing of lots.
    DrawingOfLotsNotImplemented { seat: u32, lists: Vec<usize> },
    /// Seats remain while every list has run out of eligible candidates.
    AllListsExhausted,
}

/// What an apportionment run yields, in mathematical terms.
pub ghost enum Outcome {
    ZeroSeats,
    NoLists,
    ZeroVotesCast,
    Tied(int, Seq<usize>),
    Exhausted,
    Allocated(Seq<u32>),
}

pub open spec fn total_votes(l: Seq<ListSummary>) -> int
    decreases l.len(),
{
    if l.len() == 0 {
        0
    } else {
        total_votes(l.drop_last()) + l.last().votes
    }
}

pub open spec fn total_candidates(l: Seq<ListSummary>) -> int
    decreases l.len(),
{
    if l.len() == 0 {
        0
    } else {
        total_candidates(l.drop_last()) + l.last().candidates
    }
}

pub open spec fn seat_sum(s: Seq<u32>) -> int
    decreases s.len(),
{
    if s.len() == 0 {
        0
    } else {
        seat_sum(s.drop_last()) + s.last()
    }
}

/// Whole quotas a list has earned, `floor(votes / (tv / t))`, capped by its candidates.
pub open spec fn quota_seats(ls: ListSummary, t: int, tv: int) -> int {
    let q = (ls.votes as int * t) / tv;
    if q < ls.candidates {
        q
    } else {
        ls.candidates as int
    }
}

pub open spec fn initial_allocation(l: Seq<ListSummary>, t: int) -> Seq<u32> {
    Seq::new(l.len(), |i: int| quota_seats(l[i], t, total_votes(l)) as u32)
}

/// A list can still take a residual seat by largest remainder: it has a
/// candidate left and has had no residual seat yet.
pub open spec fn open_for_remainder(l: Seq<ListSummary>, s: Seq<u32>, got: Seq<bool>, i: int) -> bool {
    s[i] < l[i].candidates && !got[i]
}

/// Whether the next residual seat goes by highest averages: always from the
/// threshold on, and below it once no list is open for a remainder seat.
pub open spec fn uses_averages(l: Seq<ListSummary>, t: int, s: Seq<u32>, got: Seq<bool>) -> bool {
    t >= HIGHEST_AVERAGES_THRESHOLD || !(exists|i: int|
        0 <= i < l.len() && #[trigger] open_for_remainder(l, s, got, i))
}

/// Whether list `i` competes for the next residual seat.
pub open spec fn eligible(l: Seq<ListSummary>, s: Seq<u32>, got: Seq<bool>, avg: bool, i: int) -> bool {
    s[i] < l[i].candidates && (avg || !got[i])
}

/// The value list `i` is ranked by: `votes / (seats + 1)` by highest averages,
/// the part of a quota left over, `(votes * t mod tv) / tv`, by largest remainder.
pub open spec fn standing(l: Seq<ListSummary>, t: int, s: Seq<u32>, avg: bool, i: int) -> Fraction {
    if avg {
        Fraction { num: l[i].votes as u64, den: (s[i] + 1) as u64 }
    } else {
        Fraction {
            num: ((l[i].votes as int * t) % total_votes(l)) as u64,
            den: total_votes(l) as u64,
        }
    }
}

/// The first eligible list among the first `k` whose standing no other
/// eligible list among them exceeds.
pub open spec fn best_upto(
    l: Seq<ListSummary>,
    t: int,
    s: Seq<u32>,
    got: Seq<bool>,
    avg: bool,
    k: int,
) -> Option<int>
    decreases k,
{
    if k <= 0 {
        None
    } else {
        let prev = best_upto(l, t, s, got, avg, k - 1);
        if !eligible(l, s, got, avg, k - 1) {
            prev
        } else {
            match prev {
                None => Some(k - 1),
                Some(b) => if standing(l, t, s, avg, k - 1).cmp_spec(standing(l, t, s, avg, b))
                    == Comparison::Greater {
                    Some(k - 1)
                } else {
                    prev
                },
            }
        }
    }
}

/// The eligible lists among the first `k` whose standing equals that of `b`, in order.
pub open spec fn tied_upto(
    l: Seq<ListSummary>,
    t: int,
    s: Seq<u32>,
    got: Seq<bool>,
    avg: bool,
    b: int,
    k: int,
) -> Seq<usize>
    decreases k,
{
    if k <= 0 {
        Seq::empty()
    } else {
        let prev = tied_upto(l, t, s, got, avg, b, k - 1);
        if eligible(l, s, got, avg, k - 1) && standing(l, t, s, avg, k - 1).cmp_spec(
            standing(l, t, s, avg, b),
        ) == Comparison::Equal {
            prev.push((k - 1) as usize)
        } else {
            prev
        }
    }
}

/// Assigns the `rem` residual seats one at a time, from seats `s`.
pub open spec fn run(l: Seq<ListSummary>, t: int, s: Seq<u32>, got: Seq<bool>, rem: nat) -> Outcome
    decreases rem,
{
    if rem == 0 {
        Outcome::Allocated(s)
    } else {
        let avg = uses_averages(l, t, s, got);
        match best_upto(l, t, s, got, avg, l.len() as int) {
            None => Outcome::Exhausted,
            Some(b) => {
                let tied = tied_upto(l, t, s, got, avg, b, l.len() as int);
                if tied.len() > rem {
                    Outcome::Tied(t - rem + 1, tied)
                } else {
                    run(l, t, s.update(b, (s[b] + 1) as u32), got.update(b, true), (rem - 1) as nat)
                }
            },
        }
    }
}

/// No list has had a residual seat yet.
pub open spec fn no_residual_seats(n: nat) -> Seq<bool> {
    Seq::new(n, |i: int| false)
}

/// The outcome of apportioning `t` seats among the lists `l`.
pub open spec fn apportion(t: int, l: Seq<ListSummary>) -> Outcome {
    if t == 0 {
        Outcome::ZeroSeats
    } else if l.len() == 0 {
        Outcome::NoLists
    } else if total_votes(l) == 0 {
        Outcome::ZeroVotesCast
    } else {
        let s = initial_allocation(l, t);
        run(l, t, s, no_residual_seats(l.len()), (t - seat_sum(s)) as nat)
    }
}

/// The outcome an executable result stands for.
pub open spec fn outcome_of(r: Result<SeatAllocation, ApportionmentError>) -> Outcome {
    match r {
        Ok(a) => Outcome::Allocated(a.seats@),
        Err(ApportionmentError::ZeroSeats) => Outcome::ZeroSeats,
        Err(ApportionmentError::NoLists) => Outcome::NoLists,
        Err(ApportionmentError::ZeroVotesCast) => Outcome::ZeroVotesCast,
        Err(ApportionmentError::DrawingOfLotsNotImplemented { seat, lists }) => Outcome::Tied(
            seat as int,
            lists@,
        ),
        Err(ApportionmentError::AllListsExhausted) => Outcome::Exhausted,
    }
}

proof fn lemma_total_votes_bound(l: Seq<ListSummary>)
    ensures
        0 <= total_votes(l) <= l.len() * (u32::MAX as int),
    decreases l.len(),
{
    if l.len() > 0 {
        lemma_total_votes_bound(l.drop_last());
    }
}

/// Sum of the votes of all lists.
fn count_votes(lists: &Vec<ListSummary>) -> (tv: u64)
    requires
        lists.len() <= u32::MAX,
    ensures
        tv == total_votes(lists@),
{
    let mut tv: u64 = 0;
    let mut i: usize = 0;
    while i < lists.len()
        invariant
            i <= lists.len() <= u32::MAX,
            tv == total_votes(lists@.take(i as int)),
        decreases lists.len() - i,
    {
        proof {
            assert(lists@.take(i + 1).drop_last() == lists@.take(i as int));
            lemma_total_votes_bound(lists@.take(i as int));
            assert(i * (u32::MAX as int) <= (u32::MAX as int) * (u32::MAX as int)) by (nonlinear_arith)
                requires i <= u32::MAX;
        }
        tv = tv + lists[i].votes as u64;
        i = i + 1;
    }
    assert(lists@.take(i as int) == lists@);
    tv
}

/// Assigns the quota seats of every list; returns them with their sum,
/// which never exceeds `t`.
fn allocate_quota_seats(lists: &Vec<ListSummary>, t: u32, tv: u64) -> (r: (Vec<u32>, u32))
    requires
        tv == total_votes(lists@),
        tv > 0,
    ensures
        r.0@ == initial_allocation(lists@, t as int),
        r.1 == seat_sum(r.0@),
        r.1 <= t,
{
    let ghost l = lists@;
    let mut seats: Vec<u32> = Vec::new();
    let mut given: u32 = 0;
    let mut i: usize = 0;
    while i < lists.len()
        invariant
            l == lists@,
            tv == total_votes(l),
            tv > 0,
            i <= l.len(),
            seats@ == initial_allocation(l, t as int).take(i as int),
            given == seat_sum(seats@),
            (given as int) * (tv as int) <= (t as int) * total_votes(l.take(i as int)),
        decreases l.len() - i,
    {
        let ls = lists[i];
        proof {
            lemma_u32_product(ls.votes, t);
        }
        let q: u64 = (ls.votes as u64) * (t as u64) / tv;
        let k: u32 = if q < ls.candidates as u64 { q as u32 } else { ls.candidates };
        proof {
            let v = ls.votes as int;
            let ti = t as int;
            let tvi = tv as int;
            assert(l.take(i + 1).drop_last() == l.take(i as int));
            assert((q as int) * tvi <= v * ti) by (nonlinear_arith)
                requires q as int == (v * ti) / tvi, tvi > 0, v >= 0, ti >= 0;
            assert((k as int) * tvi <= v * ti) by (nonlinear_arith)
                requires k <= q, (q as int) * tvi <= v * ti, tvi > 0;
            lemma_prefix_votes_bound(l, i + 1);
            let g = given as int;
            let pre = total_votes(l.take(i + 1));
            assert(pre == total_votes(l.take(i as int)) + v);
            assert((g + k) * tvi <= ti * pre) by (nonlinear_arith)
                requires
                    g * tvi <= ti * total_votes(l.take(i as int)),
                    (k as int) * tvi <= v * ti,
                    pre == total_votes(l.take(i as int)) + v;
            assert(g + k <= ti) by (nonlinear_arith)
                requires (g + k) * tvi <= ti * pre, pre <= tvi, tvi > 0, ti >= 0;
        }
        seats.push(k);
        given = given + k;
        i = i + 1;
        proof {
            assert(seats@.drop_last() == initial_allocation(l, t as int).take(i - 1));
            assert(seats@ == initial_allocation(l, t as int).take(i as int));
        }
    }
    proof {
        assert(seats@ == initial_allocation(l, t as int));
        assert(l.take(i as int) == l);
        let g = given as int;
        assert(g <= t) by (nonlinear_arith)
            requires g * (tv as int) <= (t as int) * (tv as int), tv > 0;
    }
    (seats, given)
}

proof fn lemma_u32_product(a: u32, b: u32)
    ensures
        (a as int) * (b as int) <= (u32::MAX as int) * (u32::MAX as int),
        (a as int) * (b as int) < u64::MAX,
{
    assert((a as int) * (b as int) <= (u32::MAX as int) * (u32::MAX as int)) by (nonlinear_arith)
        requires a <= u32::MAX, b <= u32::MAX;
}

/// The votes of a prefix never exceed the total.
pub(crate) proof fn lemma_prefix_votes_bound(l: Seq<ListSummary>, k: int)
    requires
        0 <= k <= l.len(),
    ensures
        0 <= total_votes(l.take(k)) <= total_votes(l),
    decreases l.len() - k,
{
    if k < l.len() {
        lemma_prefix_votes_bound(l, k + 1);
        assert(l.take(k + 1).drop_last() == l.take(k));
    } else {
        assert(l.take(k) == l);
    }
    lemma_total_votes_bound(l.take(k));
}

/// Decides whether the next residual seat goes by highest averages.
fn next_by_averages(lists: &Vec<ListSummary>, t: u32, s: &Vec<u32>, got: &Vec<bool>) -> (r: bool)
    requires
        s.len() == lists.len(),
        got.len() == lists.len(),
    ensures
        r == uses_averages(lists@, t as int, s@, got@),
{
    if t >= HIGHEST_AVERAGES_THRESHOLD {
        return true;
    }
    let mut i: usize = 0;
    while i < lists.len()
        invariant
            s.len() == lists.len(),
            got.len() == lists.len(),
            t < HIGHEST_AVERAGES_THRESHOLD,
            i <= lists.len(),
            forall|j: int| 0 <= j < i ==> !#[trigger] open_for_remainder(lists@, s@, got@, j),
        decreases lists.len() - i,
    {
        if s[i] < lists[i].candidates && !got[i] {
            assert(open_for_remainder(lists@, s@, got@, i as int));
            return false;
        }
        i = i + 1;
    }
    true
}

/// The standing of list `i` for the next residual seat.
fn standing_of(lists: &Vec<ListSummary>, t: u32, tv: u64, s: &Vec<u32>, avg: bool, i: usize) -> (r: Fraction)
    requires
        s.len() == lists.len(),
        i < lists.len(),
        tv == total_votes(lists@),
        tv > 0,
    ensures
        r == standing(lists@, t as int, s@, avg, i as int),
        r.wf(),
{
    let ls = lists[i];
    if avg {
        Fraction::new(ls.votes as u64, s[i] as u64 + 1)
    } else {
        proof {
            lemma_u32_product(ls.votes, t);
        }
        Fraction::new((ls.votes as u64) * (t as u64) % tv, tv)
    }
}

/// Finds the first eligible list with the greatest standing.
fn find_best(
    lists: &Vec<ListSummary>,
    t: u32,
    tv: u64,
    s: &Vec<u32>,
    got: &Vec<bool>,
    avg: bool,
) -> (r: Option<usize>)
    requires
        s.len() == lists.len(),
        got.len() == lists.len(),
        tv == total_votes(lists@),
        tv > 0,
    ensures
        match r {
            Some(b) => best_upto(lists@, t as int, s@, got@, avg, lists.len() as int) == Some(
                b as int,
            ),
            None => best_upto(lists@, t as int, s@, got@, avg, lists.len() as int) is None,
        },
{
    let mut best: Option<usize> = None;
    let mut i: usize = 0;
    while i < lists.len()
        invariant
            s.len() == lists.len(),
            got.len() == lists.len(),
            tv == total_votes(lists@),
            tv > 0,
            i <= lists.len(),
            match best {
                Some(b) => b < i && best_upto(lists@, t as int, s@, got@, avg, i as int) == Some(
                    b as int,
                ),
                None => best_upto(lists@, t as int, s@, got@, avg, i as int) is None,
            },
        decreases lists.len() - i,
    {
        if s[i] < lists[i].candidates && (avg || !got[i]) {
            match best {
                None => {
                    best = Some(i);
                },
                Some(b) => {
                    let here = standing_of(lists, t, tv, s, avg, i);
                    let there = standing_of(lists, t, tv, s, avg, b);
                    if here.compare(&there) == Comparison::Greater {
                        best = Some(i);
                    }
                },
            }
        }
        i = i + 1;
    }
    best
}

/// Collects, in order, the eligible lists whose standing equals that of `b`.
fn collect_tied(
    lists: &Vec<ListSummary>,
    t: u32,
    tv: u64,
    s: &Vec<u32>,
    got: &Vec<bool>,
    avg: bool,
    b: usize,
) -> (r: Vec<usize>)
    requires
        s.len() == lists.len(),
        got.len() == lists.len(),
        b < lists.len(),
        tv == total_votes(lists@),
        tv > 0,
    ensures
        r@ == tied_upto(lists@, t as int, s@, got@, avg, b as int, lists.len() as int),
{
    let there = standing_of(lists, t, tv, s, avg, b);
    let mut tied: Vec<usize> = Vec::new();
    let mut i: usize = 0;
    while i < lists.len()
        invariant
            s.len() == lists.len(),
            got.len() == lists.len(),
            b < lists.len(),
            tv == total_votes(lists@),
            tv > 0,
            there == standing(lists@, t as int, s@, avg, b as int),
            i <= lists.len(),
            tied@ == tied_upto(lists@, t as int, s@, got@, avg, b as int, i as int),
        decreases lists.len() - i,
    {
        if s[i] < lists[i].candidates && (avg || !got[i]) {
            let here = standing_of(lists, t, tv, s, avg, i);
            if here.compare(&there) == Comparison::Equal {
                tied.push(i);
            }
        }
        i = i + 1;
    }
    tied
}

/// The best list, if any, is an eligible one in range; there is none only
/// when no list in range is eligible.
pub(crate) proof fn lemma_best_upto(l: Seq<ListSummary>, t: int, s: Seq<u32>, got: Seq<bool>, avg: bool, k: int)
    requires
        0 <= k <= l.len(),
    ensures
        match best_upto(l, t, s, got, avg, k) {
            Some(b) => 0 <= b < k && eligible(l, s, got, avg, b),
            None => forall|i: int| 0 <= i < k ==> !#[trigger] eligible(l, s, got, avg, i),
        },
    decreases k,
{
    if k > 0 {
        lemma_best_upto(l, t, s, got, avg, k - 1);
    }
}

/// Runs the apportionment that `seat_assignment` describes.
fn assign_seats(seats: u32, summary: &ElectionSummary) -> (r: Result<SeatAllocation, ApportionmentError>)
    requires
        summary.lists.len() <= u32::MAX,
    ensures
        outcome_of(r) == apportion(seats as int, summary.lists@),
{
    let lists = &summary.lists;
    let ghost l = lists@;
    if seats == 0 {
        return Err(ApportionmentError::ZeroSeats);
    }
    if lists.len() == 0 {
        return Err(ApportionmentError::NoLists);
    }
    let tv = count_votes(lists);
    if tv == 0 {
        return Err(ApportionmentError::ZeroVotesCast);
    }
    let (mut s, given) = allocate_quota_seats(lists, seats, tv);
    let mut got: Vec<bool> = Vec::new();
    let mut i: usize = 0;
    while i < lists.len()
        invariant
            i <= lists.len(),
            got@ == Seq::new(i as nat, |j: int| false),
        decreases lists.len() - i,
    {
        got.push(false);
        i = i + 1;
    }
    let mut rem: u32 = seats - given;
    assert(got@ == no_residual_seats(l.len()));
    while rem > 0
        invariant
            l == lists@,
            l == summary.lists@,
            tv == total_votes(l),
            tv > 0,
            s.len() == l.len(),
            got.len() == l.len(),
            rem <= seats,
            seats > 0,
            l.len() > 0,
            run(l, seats as int, s@, got@, rem as nat) == apportion(seats as int, l),
        decreases rem,
    {
        let avg = next_by_averages(lists, seats, &s, &got);
        let best = find_best(lists, seats, tv, &s, &got, avg);
        proof {
            lemma_best_upto(l, seats as int, s@, got@, avg, l.len() as int);
        }
        match best {
            None => {
                return Err(ApportionmentError::AllListsExhausted);
            },
            Some(b) => {
                let tied = collect_tied(lists, seats, tv, &s, &got, avg, b);
                if tied.len() as u64 > rem as u64 {
                    return Err(
                        ApportionmentError::DrawingOfLotsNotImplemented {
                            seat: seats - rem + 1,
                            lists: tied,
                        },
                    );
                }
                let k = s[b] + 1;
                s.set(b, k);
                got.set(b, true);
                rem = rem - 1;
            },
        }
    }
    Ok(SeatAllocation { seats: s })
}

/// Apportions `seats` seats among the lists of `summary`.
///
/// Each list first takes its whole quotas, as far as its candidates reach.
/// The seats left go one at a time to the eligible list that ranks highest,
/// by largest remainder below `HIGHEST_AVERAGES_THRESHOLD` seats (each list
/// at most one such seat, then by highest averages) and by highest averages
/// from it on. Where lists rank exactly equal and not all of them can have a
/// seat, the run stops and names them; where seats remain and no list has a
/// candidate left, it stops too.
pub fn seat_assignment(seats: u32, summary: &ElectionSummary) -> (r: Result<
    SeatAllocation,
    ApportionmentError,
>)
    requires
        summary.lists.len() <= u32::MAX,
    ensures
        outcome_of(r) == apportion(seats as int, summary.lists@),
        r matches Ok(a) ==> seat_sum(a.seats@) == seats && a.seats.len() == summary.lists.len()
            && forall|i: int| 0 <= i < a.seats.len() ==> #[trigger] a.seats@[i] <= summary.lists@[i].candidates,
        r matches Err(ApportionmentError::AllListsExhausted) ==> total_candidates(summary.lists@) < seats,
{
    let r = assign_seats(seats, summary);
    proof {
        lemma_allocation_sums_to_total(seats, summary.lists@);
        lemma_allocation_within_candidates(seats, summary.lists@);
        lemma_exhaustion_needs_too_few_candidates(seats, summary.lists@);
    }
    r
}

/// The electoral quota: all votes over all seats, exactly; `None` without seats.
pub fn electoral_quota(seats: u32, summary: &ElectionSummary) -> (r: Option<Fraction>)
    requires
        summary.lists.len() <= u32::MAX,
    ensures
        seats == 0 <==> r is None,
        r matches Some(q) ==> q.num == total_votes(summary.lists@) && q.den == seats,
{
    if seats == 0 {
        return None;
    }
    let tv = count_votes(&summary.lists);
    Some(Fraction::new(tv, seats as u64))
}

/// The seats each list takes by whole quotas, capped by its candidates, and
/// the number of seats that remain for the residual procedure; `None` where
/// no vote was cast, so that there is no quota.
pub fn quota_allocation(seats: u32, summary: &ElectionSummary) -> (r: Option<(Vec<u32>, u32)>)
    requires
        summary.lists.len() <= u32::MAX,
    ensures
        total_votes(summary.lists@) == 0 <==> r is None,
        r matches Some(p) ==> p.0@ == initial_allocation(summary.lists@, seats as int) && p.1 == seats
            - seat_sum(p.0@),
{
    let tv = count_votes(&summary.lists);
    if tv == 0 {
        return None;
    }
    let (s, given) = allocate_quota_seats(&summary.lists, seats, tv);
    Some((s, seats - given))
}

} // verus!
