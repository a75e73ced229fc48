use seed_search::generator::Generator;
use seed_search::partition::{lane_slot, run_length, search_all, thread_id, Lane};
use seed_search::probe::{leading_run, probe, DRAW_BOUND, THRESHOLD};
use seed_search::token::{encode, tokens_of};

const ALPHABET: &str = "0123456789ABCDEFGHIJKLMNPQRSTUVWXYZ";

fn decode(token: &str) -> u64 {
    let mut n: u64 = 0;
    for c in token.chars() {
        let d = ALPHABET.find(c).expect("symbol outside the alphabet") as u64;
        n = n * 35 + d;
    }
    n
}

#[test]
fn same_seed_gives_same_draws() {
    let mut a = Generator::new(987_654_321);
    let mut b = Generator::new(987_654_321);
    for _ in 0..1000 {
        let x = a.next_in_range(DRAW_BOUND);
        let y = b.next_in_range(DRAW_BOUND);
        assert_eq!(x, y);
        assert!(x < DRAW_BOUND);
    }
}

#[test]
fn different_seeds_give_different_streams() {
    let mut a = Generator::new(1);
    let mut b = Generator::new(2);
    let xs: Vec<u64> = (0..20).map(|_| a.next_in_range(DRAW_BOUND)).collect();
    let ys: Vec<u64> = (0..20).map(|_| b.next_in_range(DRAW_BOUND)).collect();
    assert_ne!(xs, ys);
}

#[test]
fn generator_matches_reference_residues() {
    let mut g = Generator::new(42);
    let expected: [u64; 16] = [0, 1, 0, 0, 1, 5, 5, 3, 7, 7, 9, 9, 4, 13, 3, 6];
    for (i, want) in expected.iter().enumerate() {
        assert_eq!(g.next_in_range(i as u64 + 1), *want);
    }
}

#[test]
fn constant_draws_have_unbounded_run() {
    let draws = vec![7u64; 50];
    assert_eq!(leading_run(&draws), 49);
    assert!(leading_run(&draws) >= THRESHOLD as usize);
}

#[test]
fn second_draw_differs_gives_zero_run() {
    let draws = vec![3u64, 4, 3, 3, 3, 3, 3, 3];
    assert_eq!(leading_run(&draws), 0);
    assert!(leading_run(&draws) < THRESHOLD as usize);
}

#[test]
fn run_stops_at_first_difference() {
    assert_eq!(leading_run(&vec![5u64, 5, 5, 2, 5, 5]), 2);
    assert_eq!(leading_run(&vec![9u64]), 0);
    assert_eq!(leading_run(&Vec::new()), 0);
}

#[test]
fn probe_agrees_with_run_of_its_draws() {
    for seed in 1..3000u64 {
        let mut g = Generator::new(seed);
        let draws: Vec<u64> = (0..6).map(|_| g.next_in_range(DRAW_BOUND)).collect();
        let run = leading_run(&draws);
        for threshold in 0..=5u32 {
            assert_eq!(probe(seed, threshold), run >= threshold as usize);
        }
    }
}

#[test]
fn probe_with_zero_threshold_always_holds() {
    assert!(probe(1, 0));
    assert!(probe(1_000_000, 0));
}

#[test]
fn encode_known_values() {
    assert_eq!(encode(1), "1");
    assert_eq!(encode(35), "10");
    assert_eq!(encode(71), "21");
    assert_eq!(encode(34), "Z");
    assert_eq!(encode(23), "N");
    assert_eq!(encode(24), "P");
    assert_eq!(encode(12345), "A2Q");
    assert_eq!(encode(1_000_000_000_000), "FIZP05LF");
    assert_eq!(encode(u64::MAX), "5G24A25UXKXFF");
}

#[test]
fn encode_zero_is_empty() {
    assert_eq!(encode(0), "");
}

#[test]
fn encode_round_trips() {
    for s in (1..100_000u64).chain([u64::MAX, u64::MAX - 1, 1 << 40]) {
        let t = encode(s);
        assert!(!t.contains('O'));
        assert_eq!(decode(&t), s);
    }
}

#[test]
fn lanes_cover_the_seed_space_once() {
    let lanes: u32 = 7;
    let ceiling: u64 = 3000;
    let slots = search_all(lanes, ceiling, 1);
    assert_eq!(slots.len(), lanes as usize);
    for lane in 0..lanes {
        let first = (1..ceiling)
            .filter(|s| (s - 1) % lanes as u64 == lane as u64)
            .find(|s| probe(*s, 1))
            .unwrap_or(0);
        assert_eq!(slots[lane as usize], first);
    }
}

#[test]
fn zero_threshold_lanes_take_their_first_seed() {
    let slots = search_all(5, 100, 0);
    assert_eq!(slots, vec![1, 2, 3, 4, 5]);
}

#[test]
fn lane_with_no_candidate_below_ceiling_stays_zero() {
    assert_eq!(lane_slot(Lane { index: 9, count: 10 }, 10, 0), 0);
    assert_eq!(lane_slot(Lane { index: 8, count: 10 }, 10, 0), 9);
}

#[test]
fn slots_are_zero_or_qualifying() {
    let lanes: u32 = 8;
    let slots = search_all(lanes, 2000, 1);
    for (i, s) in slots.iter().enumerate() {
        if *s != 0 {
            assert!(probe(*s, 1));
            assert!(*s < 2000);
            assert_eq!((*s - 1) % lanes as u64, i as u64);
        }
    }
}

#[test]
fn lane_past_size_leaves_slot_untouched() {
    let mut out = vec![0u64, 0, 0, 0];
    run_length(&mut out, 2, Lane { index: 3, count: 4 });
    assert_eq!(out, vec![0, 0, 0, 0]);
    run_length(&mut out, -1, Lane { index: 0, count: 4 });
    assert_eq!(out, vec![0, 0, 0, 0]);
}

#[test]
fn thread_id_writes_own_index() {
    let mut out = vec![0i32; 4];
    for i in 0..6u32 {
        thread_id(&mut out, 4, Lane { index: i, count: 6 });
    }
    assert_eq!(out, vec![0, 1, 2, 3]);
    let mut out = vec![-1i32; 4];
    thread_id(&mut out, 2, Lane { index: 3, count: 4 });
    assert_eq!(out, vec![-1, -1, -1, -1]);
}

#[test]
fn lane_from_grid() {
    assert_eq!(Lane::from_grid(3, 2, 32, 32), Some(Lane { index: 67, count: 1024 }));
    assert_eq!(Lane::from_grid(0, 0, 1, 1), Some(Lane { index: 0, count: 1 }));
    assert_eq!(Lane::from_grid(0, 0, 65_536, 65_536), None);
    assert_eq!(Lane::from_grid(u32::MAX, 1, 1, 1), None);
}

#[test]
fn tokens_skip_empty_slots() {
    let tokens = tokens_of(&vec![0, 35, 0, 1, 71]);
    assert_eq!(tokens, vec!["10".to_string(), "1".to_string(), "21".to_string()]);
    assert!(tokens_of(&vec![0, 0]).is_empty());
}

#[test]
fn small_end_to_end_run_reports_decodable_tokens() {
    let lanes: u32 = 16;
    let slots = search_all(lanes, 200_000, 2);
    let tokens = tokens_of(&slots);
    assert!(!tokens.is_empty());
    assert_eq!(tokens.len(), slots.iter().filter(|s| **s != 0).count());
    for t in &tokens {
        let seed = decode(t);
        assert!(probe(seed, 2));
        assert!(seed < 200_000);
    }
}
