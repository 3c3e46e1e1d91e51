// An independent highest-averages allocator, for cross-checking the
// production path: every seat from the first goes by `votes / (seats + 1)`,
// with no quota step and no candidate caps.
use vstd::prelude::*;
use crate::fraction::{lemma_order_transitive, Comparison, Fraction};

verus! {

/// A seat count that may be unbounded.
#[derive(Clone, Copy, Debug, PartialEq, Eq, Structural)]
pub enum SeatLimit {
    Filled(u32),
    Unlimited,
}

impl SeatLimit {
    pub fn filled(n: u32) -> (r: SeatLimit)
        ensures
            r == SeatLimit::Filled(n),
    {
        SeatLimit::Filled(n)
    }

    pub fn unlimited() -> (r: SeatLimit)
        ensures
            r == SeatLimit::Unlimited,
    {
        SeatLimit::Unlimited
    }

    /// Whether one more seat fits under a limit already holding `n`.
    pub open spec fn admits(self, n: int) -> bool {
        match self {
            SeatLimit::Filled(c) => n < c,
            SeatLimit::Unlimited => true,
        }
    }
}

/// The average of list `i`: its votes over its seats plus one.
pub open spec fn average(v: Seq<u32>, s: Seq<u32>, i: int) -> Fraction {
    Fraction { num: v[i] as u64, den: (s[i] + 1) as u64 }
}

/// List `i` can take another seat under its limit.
pub open spec fn open_list(lim: Seq<SeatLimit>, s: Seq<u32>, i: int) -> bool {
    lim[i].admits(s[i] as int)
}

/// List `i` is open and no other open list has a greater average.
pub open spec fn on_top(v: Seq<u32>, lim: Seq<SeatLimit>, s: Seq<u32>, i: int) -> bool {
    open_list(lim, s, i) && forall|j: int|
        0 <= j < v.len() && #[trigger] open_list(lim, s, j) ==> average(v, s, j).cmp_spec(
            average(v, s, i),
        ) != Comparison::Greater
}

/// The lists on top among the first `k`, in order.
pub open spec fn top_upto(v: Seq<u32>, lim: Seq<SeatLimit>, s: Seq<u32>, k: int) -> Seq<usize>
    decreases k,
{
    if k <= 0 {
        Seq::empty()
    } else if on_top(v, lim, s, k - 1) {
        top_upto(v, lim, s, k - 1).push((k - 1) as usize)
    } else {
        top_upto(v, lim, s, k - 1)
    }
}

/// Hands out `rem` more seats from `s`; `None` where no list is open, or more
/// lists share the top average than seats are left.
pub open spec fn highest_averages(v: Seq<u32>, lim: Seq<SeatLimit>, s: Seq<u32>, rem: nat) -> Option<Seq<u32>>
    decreases rem,
{
    if rem == 0 {
        Some(s)
    } else {
        let top = top_upto(v, lim, s, v.len() as int);
        if top.len() == 0 || top.len() > rem {
            None
        } else {
            let w = top[0] as int;
            highest_averages(v, lim, s.update(w, (s[w] + 1) as u32), (rem - 1) as nat)
        }
    }
}

/// No seats yet for any of `n` lists.
pub open spec fn no_seats(n: nat) -> Seq<u32> {
    Seq::new(n, |i: int| 0u32)
}

proof fn lemma_top_upto(v: Seq<u32>, lim: Seq<SeatLimit>, s: Seq<u32>, k: int)
    requires
        0 <= k <= v.len() <= usize::MAX,
    ensures
        forall|x: int| 0 <= x < top_upto(v, lim, s, k).len() ==> (#[trigger] top_upto(v, lim, s, k)[x]) < k
            && on_top(v, lim, s, top_upto(v, lim, s, k)[x] as int),
        (forall|j: int| 0 <= j < k ==> !#[trigger] open_list(lim, s, j)) ==> top_upto(v, lim, s, k).len() == 0,
    decreases k,
{
    if k > 0 {
        lemma_top_upto(v, lim, s, k - 1);
        let prev = top_upto(v, lim, s, k - 1);
        if on_top(v, lim, s, k - 1) {
            assert forall|x: int| 0 <= x < top_upto(v, lim, s, k).len() implies (#[trigger] top_upto(v, lim, s, k)[x]) < k
                && on_top(v, lim, s, top_upto(v, lim, s, k)[x] as int) by {
                if x < prev.len() {
                    assert(top_upto(v, lim, s, k)[x] == prev[x]);
                } else {
                    assert(top_upto(v, lim, s, k)[x] == (k - 1) as usize);
                }
            }
        }
    }
}

fn admits(limit: SeatLimit, n: u32) -> (r: bool)
    ensures
        r == limit.admits(n as int),
{
    match limit {
        SeatLimit::Filled(c) => n < c,
        SeatLimit::Unlimited => true,
    }
}

fn average_of(votes: &Vec<u32>, s: &Vec<u32>, i: usize) -> (r: Fraction)
    requires
        i < votes.len(),
        s.len() == votes.len(),
    ensures
        r == average(votes@, s@, i as int),
        r.wf(),
{
    Fraction::new(votes[i] as u64, s[i] as u64 + 1)
}

/// The open lists that share the greatest average, in order.
fn top_lists(votes: &Vec<u32>, limits: &Vec<SeatLimit>, s: &Vec<u32>) -> (r: Vec<usize>)
    requires
        limits.len() == votes.len(),
        s.len() == votes.len(),
    ensures
        r@ == top_upto(votes@, limits@, s@, votes.len() as int),
{
    let ghost v = votes@;
    let ghost lim = limits@;
    let mut best: Option<usize> = None;
    let mut i: usize = 0;
    while i < votes.len()
        invariant
            limits.len() == votes.len(),
            s.len() == votes.len(),
            v == votes@,
            lim == limits@,
            i <= votes.len(),
            match best {
                None => forall|j: int| 0 <= j < i ==> !#[trigger] open_list(lim, s@, j),
                Some(m) => m < votes.len() && open_list(lim, s@, m as int) && forall|j: int|
                    0 <= j < i && #[trigger] open_list(lim, s@, j) ==> average(v, s@, j).cmp_spec(
                        average(v, s@, m as int),
                    ) != Comparison::Greater,
            },
        decreases votes.len() - i,
    {
        if admits(limits[i], s[i]) {
            match best {
                None => {
                    best = Some(i);
                },
                Some(m) => {
                    let here = average_of(votes, s, i);
                    let there = average_of(votes, s, m);
                    if here.compare(&there) == Comparison::Greater {
                        proof {
                            assert forall|j: int|
                                0 <= j < i + 1 && #[trigger] open_list(lim, s@, j) implies average(
                                v,
                                s@,
                                j,
                            ).cmp_spec(average(v, s@, i as int)) != Comparison::Greater by {
                                if j < i {
                                    lemma_order_transitive(average(v, s@, j), there, here);
                                }
                            }
                        }
                        best = Some(i);
                    }
                },
            }
        }
        i = i + 1;
    }
    let mut top: Vec<usize> = Vec::new();
    match best {
        None => {
            proof {
                lemma_top_upto(v, lim, s@, v.len() as int);
            }
            top
        },
        Some(m) => {
            let there = average_of(votes, s, m);
            let mut k: usize = 0;
            while k < votes.len()
                invariant
                    limits.len() == votes.len(),
                    s.len() == votes.len(),
                    v == votes@,
                    lim == limits@,
                    k <= votes.len(),
                    m < votes.len(),
                    there == average(v, s@, m as int),
                    on_top(v, lim, s@, m as int),
                    top@ == top_upto(v, lim, s@, k as int),
                decreases votes.len() - k,
            {
                let here = average_of(votes, s, k);
                let open = admits(limits[k], s[k]);
                let level = here.compare(&there) == Comparison::Equal;
                proof {
                    let ki = k as int;
                    if open && level {
                        assert forall|j: int|
                            0 <= j < v.len() && #[trigger] open_list(lim, s@, j) implies average(
                            v,
                            s@,
                            j,
                        ).cmp_spec(average(v, s@, ki)) != Comparison::Greater by {
                            lemma_order_transitive(average(v, s@, j), there, here);
                        }
                        assert(on_top(v, lim, s@, ki));
                    }
                    if on_top(v, lim, s@, ki) {
                        assert(open_list(lim, s@, m as int));
                        assert(open_list(lim, s@, ki));
                    }
                }
                if open && level {
                    top.push(k);
                }
                k = k + 1;
            }
            top
        },
    }
}

/// Allocates `seats` seats by highest averages from zero, each list up to
/// its limit. `None` where no list is open for a seat that is left, or where
/// more lists share the top average than seats are left (a drawing of lots).
pub fn allocate_highest_averages(seats: u32, votes: &Vec<u32>, limits: &Vec<SeatLimit>) -> (r: Option<Vec<u32>>)
    requires
        limits.len() == votes.len(),
    ensures
        match r {
            Some(a) => highest_averages(votes@, limits@, no_seats(votes.len() as nat), seats as nat)
                == Some(a@),
            None => highest_averages(votes@, limits@, no_seats(votes.len() as nat), seats as nat) is None,
        },
{
    let ghost v = votes@;
    let ghost lim = limits@;
    let mut s: Vec<u32> = Vec::new();
    let mut i: usize = 0;
    while i < votes.len()
        invariant
            i <= votes.len(),
            s@ == Seq::new(i as nat, |j: int| 0u32),
        decreases votes.len() - i,
    {
        s.push(0);
        i = i + 1;
    }
    assert(s@ == no_seats(votes.len() as nat));
    let mut rem: u32 = seats;
    while rem > 0
        invariant
            limits.len() == votes.len(),
            s.len() == votes.len(),
            v == votes@,
            lim == limits@,
            rem <= seats,
            forall|j: int| 0 <= j < s.len() ==> #[trigger] s@[j] <= seats - rem,
            highest_averages(v, lim, s@, rem as nat) == highest_averages(
                v,
                lim,
                no_seats(v.len()),
                seats as nat,
            ),
        decreases rem,
    {
        let top = top_lists(votes, limits, &s);
        if top.len() == 0 || top.len() as u64 > rem as u64 {
            return None;
        }
        proof {
            lemma_top_upto(v, lim, s@, v.len() as int);
            assert(top@[0] < v.len());
        }
        let w = top[0];
        let k = s[w] + 1;
        s.set(w, k);
        rem = rem - 1;
    }
    Some(s)
}

} // verus!
