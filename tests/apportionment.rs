use abacus::apportionment::{
    electoral_quota, quota_allocation, seat_assignment, ApportionmentError, ElectionSummary, ListSummary, HIGHEST_AVERAGES_THRESHOLD,
};
use abacus::fraction::{Comparison, Fraction};
use abacus::reference::{allocate_highest_averages, SeatLimit};

fn summary(votes: &[u32], candidates: &[u32]) -> ElectionSummary {
    ElectionSummary {
        lists: votes
            .iter()
            .zip(candidates.iter())
            .map(|(v, c)| ListSummary { votes: *v, candidates: *c })
            .collect(),
    }
}

fn seats_of(seats: u32, votes: &[u32], candidates: &[u32]) -> Result<Vec<u32>, ApportionmentError> {
    seat_assignment(seats, &summary(votes, candidates)).map(|a| a.seats)
}

#[test]
fn quota_seats_fill_all_seats() {
    assert_eq!(seats_of(10, &[1000, 600, 400], &[10, 10, 10]).unwrap(), vec![5, 3, 2]);
}

#[test]
fn equal_averages_at_cutoff_need_drawing_of_lots() {
    match seats_of(9, &[1000, 600, 400], &[10, 10, 10]) {
        Err(ApportionmentError::DrawingOfLotsNotImplemented { seat, lists }) => {
            assert_eq!(seat, 8);
            assert_eq!(lists, vec![0, 1, 2]);
        }
        other => panic!("expected a tie, got {:?}", other),
    }
}

#[test]
fn lists_without_candidates_left_exhaust() {
    let r = seats_of(5, &[300, 200], &[2, 2]);
    assert!(matches!(r, Err(ApportionmentError::AllListsExhausted)));
}

#[test]
fn invalid_inputs_are_rejected() {
    assert!(matches!(seats_of(0, &[10], &[5]), Err(ApportionmentError::ZeroSeats)));
    assert!(matches!(seats_of(3, &[], &[]), Err(ApportionmentError::NoLists)));
    assert!(matches!(seats_of(3, &[0, 0], &[5, 5]), Err(ApportionmentError::ZeroVotesCast)));
}

#[test]
fn largest_remainder_below_threshold() {
    // quotas 3.0, 1.25, 0.75: the remainder 0.75 wins the last seat
    assert!(5 < HIGHEST_AVERAGES_THRESHOLD);
    assert_eq!(seats_of(5, &[600, 250, 150], &[5, 5, 5]).unwrap(), vec![3, 1, 1]);
}

#[test]
fn equal_remainders_at_cutoff_need_drawing_of_lots() {
    match seats_of(5, &[900, 100], &[5, 5]) {
        Err(ApportionmentError::DrawingOfLotsNotImplemented { seat, lists }) => {
            assert_eq!(seat, 5);
            assert_eq!(lists, vec![0, 1]);
        }
        other => panic!("expected a tie, got {:?}", other),
    }
}

#[test]
fn remainder_seats_then_averages() {
    // the first list is capped at one seat; the second takes one remainder
    // seat and then the last seat by highest averages
    assert_eq!(seats_of(5, &[500, 500], &[1, 5]).unwrap(), vec![1, 4]);
}

#[test]
fn highest_averages_from_threshold() {
    // D'Hondt: 20 seats over 5000, 3000, 2000 votes
    assert_eq!(seats_of(20, &[5000, 3000, 2000], &[20, 20, 20]).unwrap(), vec![10, 6, 4]);
    assert_eq!(seats_of(9, &[750, 150, 100], &[9, 9, 9]).unwrap(), vec![7, 1, 1]);
}

#[test]
fn caps_move_seats_to_other_lists() {
    assert_eq!(seats_of(10, &[1000, 600, 400], &[3, 10, 10]).unwrap(), vec![3, 4, 3]);
}

#[test]
fn fraction_comparison_is_exact() {
    let a = Fraction::new(1, 3);
    let b = Fraction::new(2, 6);
    assert_eq!(a.compare(&b), Comparison::Equal);
    assert_eq!(Fraction::new(2, 3).compare(&Fraction::new(1, 2)), Comparison::Greater);
    assert_eq!(Fraction::new(1, 2).compare(&Fraction::new(2, 3)), Comparison::Less);
    let big = Fraction::new(u64::MAX, u64::MAX - 1);
    assert_eq!(big.compare(&Fraction::new(1, 1)), Comparison::Greater);
    assert_eq!(Fraction::new(u64::MAX, u64::MAX).compare(&Fraction::new(1, 1)), Comparison::Equal);
}

struct Lcg(u64);

impl Lcg {
    fn next(&mut self, bound: u32) -> u32 {
        self.0 = self.0.wrapping_mul(6364136223846793005).wrapping_add(1442695040888963407);
        ((self.0 >> 33) % bound as u64) as u32
    }
}

#[test]
fn matches_reference_highest_averages() {
    let mut rng = Lcg(42);
    let mut compared = 0;
    for _ in 0..2000 {
        let n = 1 + rng.next(8) as usize;
        let votes: Vec<u32> = (0..n).map(|_| rng.next(100_000)).collect();
        if votes.iter().all(|v| *v == 0) {
            continue;
        }
        let seats = HIGHEST_AVERAGES_THRESHOLD + rng.next(60);
        let caps = vec![u32::MAX; n];
        let ours = seats_of(seats, &votes, &caps);
        let limits = vec![SeatLimit::unlimited(); n];
        match (ours, allocate_highest_averages(seats, &votes, &limits)) {
            (Ok(a), Some(b)) => {
                assert_eq!(a, b, "votes {:?} seats {}", votes, seats);
                compared += 1;
            }
            (Ok(a), None) => panic!("reference tied, got {:?} for {:?}", a, votes),
            _ => {}
        }
    }
    assert!(compared > 1000);
}

#[test]
fn successful_runs_respect_total_and_caps() {
    let mut rng = Lcg(7);
    for _ in 0..2000 {
        let n = 1 + rng.next(6) as usize;
        let votes: Vec<u32> = (0..n).map(|_| rng.next(10_000)).collect();
        let caps: Vec<u32> = (0..n).map(|_| rng.next(12)).collect();
        let seats = 1 + rng.next(25);
        match seats_of(seats, &votes, &caps) {
            Ok(a) => {
                assert_eq!(a.iter().sum::<u32>(), seats);
                assert!(a.iter().zip(caps.iter()).all(|(s, c)| s <= c));
            }
            Err(ApportionmentError::AllListsExhausted) => {
                assert!(caps.iter().map(|c| *c as u64).sum::<u64>() < seats as u64);
            }
            _ => {}
        }
    }
}

#[test]
fn repeated_runs_agree() {
    let first = seats_of(9, &[1000, 600, 400], &[10, 10, 10]);
    let second = seats_of(9, &[1000, 600, 400], &[10, 10, 10]);
    assert_eq!(format!("{:?}", first), format!("{:?}", second));
    let first = seats_of(23, &[4711, 815, 2024], &[9, 9, 9]);
    let second = seats_of(23, &[4711, 815, 2024], &[9, 9, 9]);
    assert_eq!(format!("{:?}", first), format!("{:?}", second));
}

#[test]
fn more_votes_never_cost_seats_by_highest_averages() {
    let mut rng = Lcg(99);
    for _ in 0..500 {
        let n = 2 + rng.next(4) as usize;
        let votes: Vec<u32> = (0..n).map(|_| 1 + rng.next(5_000)).collect();
        let seats = HIGHEST_AVERAGES_THRESHOLD + rng.next(30);
        let caps = vec![u32::MAX; n];
        let mut more = votes.clone();
        more[0] += 1 + rng.next(2_000);
        if let (Ok(a), Ok(b)) = (seats_of(seats, &votes, &caps), seats_of(seats, &more, &caps)) {
            assert!(b[0] >= a[0], "{:?} -> {:?}", votes, more);
        }
    }
}

#[test]
fn capped_runs_match_reference_with_limits() {
    let mut rng = Lcg(2024);
    let mut compared = 0;
    for _ in 0..2000 {
        let n = 1 + rng.next(6) as usize;
        let votes: Vec<u32> = (0..n).map(|_| rng.next(50_000)).collect();
        let caps: Vec<u32> = (0..n).map(|_| rng.next(30)).collect();
        let seats = HIGHEST_AVERAGES_THRESHOLD + rng.next(40);
        let limits: Vec<SeatLimit> = caps.iter().map(|c| SeatLimit::filled(*c)).collect();
        if let (Ok(a), Some(b)) =
            (seats_of(seats, &votes, &caps), allocate_highest_averages(seats, &votes, &limits))
        {
            assert_eq!(a, b, "votes {:?} caps {:?} seats {}", votes, caps, seats);
            compared += 1;
        }
    }
    assert!(compared > 100);
}

#[test]
fn reference_allocates_by_highest_averages() {
    let unlimited = vec![SeatLimit::unlimited(); 3];
    assert_eq!(allocate_highest_averages(10, &vec![1000, 600, 400], &unlimited), Some(vec![5, 3, 2]));
    // 1000/5 = 600/3 = 400/2 for the last two seats
    assert_eq!(allocate_highest_averages(9, &vec![1000, 600, 400], &unlimited), None);
    let limited = vec![SeatLimit::filled(3), SeatLimit::unlimited(), SeatLimit::unlimited()];
    assert_eq!(allocate_highest_averages(10, &vec![1000, 600, 400], &limited), Some(vec![3, 4, 3]));
    let full = vec![SeatLimit::filled(1), SeatLimit::filled(1)];
    assert_eq!(allocate_highest_averages(3, &vec![10, 20], &full), None);
    assert_eq!(allocate_highest_averages(0, &vec![10, 20], &full), Some(vec![0, 0]));
}

#[test]
fn quota_and_initial_seats() {
    let lists = summary(&[1000, 600, 400], &[10, 10, 10]);
    let q = electoral_quota(10, &lists).unwrap();
    assert_eq!(q.compare(&Fraction::new(200, 1)), Comparison::Equal);
    assert_eq!(quota_allocation(10, &lists), Some((vec![5, 3, 2], 0)));
    // quota 2000 / 9, a little over 222
    let q = electoral_quota(9, &lists).unwrap();
    assert_eq!(q.compare(&Fraction::new(222, 1)), Comparison::Greater);
    assert_eq!(q.compare(&Fraction::new(223, 1)), Comparison::Less);
    assert_eq!(quota_allocation(9, &lists), Some((vec![4, 2, 1], 2)));
    assert!(electoral_quota(0, &lists).is_none());
    assert_eq!(quota_allocation(9, &summary(&[0, 0], &[3, 3])), None);
    // a capped list keeps only as many quota seats as it has candidates
    assert_eq!(quota_allocation(10, &summary(&[1000, 600, 400], &[3, 10, 10])), Some((vec![3, 3, 2], 2)));
}

#[test]
fn allocation_lists_seats_by_position() {
    let a = seat_assignment(10, &summary(&[1000, 600, 400], &[10, 10, 10])).unwrap();
    assert_eq!(a.get_total_seats(), vec![5, 3, 2]);
}
