use sumcheck::field::Fe;
use sumcheck::poly::{MPoly, MTerm};
use sumcheck::prover::Prover;
use sumcheck::verifying::{Status, Verifier};

fn fe(v: u64) -> Fe {
    Fe::from_u64(v)
}

fn same(a: &[Fe], b: &[Fe]) -> bool {
    a.len() == b.len() && a.iter().zip(b.iter()).all(|(x, y)| x.limbs == y.limbs)
}

// 2*x1^3 + x1*x3 + x2*x3
fn example() -> MPoly {
    MPoly::from_terms(
        3,
        vec![
            MTerm { coef: fe(2), powers: vec![(0, 3)] },
            MTerm { coef: fe(1), powers: vec![(0, 1), (2, 1)] },
            MTerm { coef: fe(1), powers: vec![(1, 1), (2, 1)] },
        ],
    )
    .unwrap()
}

#[test]
fn test_protocol() {
    let g = example();
    let (mut prover, first_rnd) = Prover::init(&g);
    let mut verifier = Verifier::init(&prover.g, &first_rnd, prover.h).unwrap();
    let r1 = verifier.get_rand();
    let mut poly = prover.execute_round(r1);
    let mut status = verifier.execute_round(&poly);
    while status == Status::Verifying {
        let next_r = verifier.get_rand();
        poly = prover.execute_round(next_r);
        status = verifier.execute_round(&poly);
    }
    assert_eq!(status, Status::Verified);
}

#[test]
fn claimed_sum_is_hypercube_sum() {
    let (prover, first_rnd) = Prover::init(&example());
    assert_eq!(prover.h.limbs, [12, 0, 0, 0]);
    assert!(same(&first_rnd, &[fe(1), fe(2), fe(0), fe(8)]));
    assert!(prover.r.is_empty());
}

#[test]
fn rounds_bind_challenges_in_order() {
    let (mut prover, _) = Prover::init(&example());
    let p1 = prover.execute_round(fe(2));
    assert!(same(&p1, &[fe(34), fe(1)]));
    let p2 = prover.execute_round(fe(3));
    assert!(same(&p2, &[fe(16), fe(5)]));
    assert_eq!(prover.r.len(), 2);
}

#[test]
fn honest_run_with_chosen_challenges_is_verified() {
    let g = example();
    let (mut prover, s0) = Prover::init(&g);
    let mut verifier = Verifier::init(&g, &s0, prover.h).unwrap();
    verifier.push_challenge(fe(5));
    let s1 = prover.execute_round(fe(5));
    assert_eq!(verifier.execute_round(&s1), Status::Verifying);
    verifier.push_challenge(fe(7));
    let s2 = prover.execute_round(fe(7));
    assert_eq!(verifier.execute_round(&s2), Status::Verified);
    assert_eq!(verifier.r.len(), 3);
    assert_eq!(verifier.rnd_poly.len(), 3);
}

#[test]
fn wrong_claim_is_rejected_at_start() {
    let g = example();
    let (_, s0) = Prover::init(&g);
    assert!(Verifier::init(&g, &s0, fe(13)).is_none());
    assert!(Verifier::init(&g, &s0, fe(12)).is_some());
}

#[test]
fn tampered_round_one_is_rejected_there() {
    let g = example();
    let (mut prover, s0) = Prover::init(&g);
    let mut verifier = Verifier::init(&g, &s0, prover.h).unwrap();
    let r1 = verifier.get_rand();
    let mut s1 = prover.execute_round(r1);
    if s1[0].limbs[0] < u64::MAX {
        s1[0].limbs[0] += 1;
    } else {
        s1[0].limbs[0] -= 1;
    }
    assert_eq!(verifier.execute_round(&s1), Status::Rejected);
    assert_eq!(verifier.status, Status::Rejected);
    // a rejected session is not resumed
    let r2 = verifier.get_rand();
    let s2 = prover.execute_round(r2);
    assert_eq!(verifier.execute_round(&s2), Status::Rejected);
}

#[test]
fn tampered_last_round_is_rejected() {
    let g = example();
    let (mut prover, s0) = Prover::init(&g);
    let mut verifier = Verifier::init(&g, &s0, prover.h).unwrap();
    verifier.push_challenge(fe(4));
    let s1 = prover.execute_round(fe(4));
    assert_eq!(verifier.execute_round(&s1), Status::Verifying);
    verifier.push_challenge(fe(9));
    let s2 = prover.execute_round(fe(9));
    let mut bad = s2.clone();
    bad.push(fe(1));
    assert_eq!(verifier.execute_round(&bad), Status::Rejected);
}

fn bump(c: &mut Fe) {
    if c.limbs[0] < u64::MAX {
        c.limbs[0] += 1;
    } else {
        c.limbs[0] -= 1;
    }
}

#[test]
fn tampering_is_caught_across_many_runs() {
    let g = example();
    for t in 0..30usize {
        let round = t % 3;
        let (mut prover, mut s0) = Prover::init(&g);
        if round == 0 {
            let k = t % s0.len();
            bump(&mut s0[k]);
            assert!(Verifier::init(&g, &s0, prover.h).is_none());
            continue;
        }
        let mut verifier = Verifier::init(&g, &s0, prover.h).unwrap();
        let mut status = Status::Verifying;
        for i in 1..3 {
            let c = verifier.get_rand();
            let mut s = prover.execute_round(c);
            if i == round {
                let k = t % s.len();
                bump(&mut s[k]);
            }
            status = verifier.execute_round(&s);
            if status != Status::Verifying {
                break;
            }
        }
        assert_eq!(status, Status::Rejected);
        assert_eq!(verifier.rnd_poly.len(), round + 1);
    }
}

#[test]
fn single_variable_polynomial() {
    // 3*x^2 + 5: sum over {0,1} is 5 + 8 = 13
    let g = MPoly::from_terms(
        1,
        vec![
            MTerm { coef: fe(3), powers: vec![(0, 2)] },
            MTerm { coef: fe(5), powers: vec![] },
        ],
    )
    .unwrap();
    let (prover, s0) = Prover::init(&g);
    assert_eq!(prover.h.limbs, [13, 0, 0, 0]);
    assert!(same(&s0, &[fe(5), fe(0), fe(3)]));
}

#[test]
fn malformed_polynomials_are_refused() {
    assert!(MPoly::from_terms(0, vec![]).is_none());
    assert!(MPoly::from_terms(2, vec![MTerm { coef: fe(1), powers: vec![(2, 1)] }]).is_none());
    assert!(MPoly::from_terms(2, vec![MTerm { coef: fe(1), powers: vec![(1, 1), (0, 1)] }]).is_none());
    assert!(MPoly::from_terms(2, vec![MTerm { coef: fe(1), powers: vec![(1, 1), (1, 2)] }]).is_none());
    let too_big = Fe { limbs: [u64::MAX; 4] };
    assert!(!too_big.is_canonical());
    assert!(MPoly::from_terms(2, vec![MTerm { coef: too_big, powers: vec![] }]).is_none());
    assert!(MPoly::from_terms(2, vec![MTerm { coef: fe(1), powers: vec![(0, 1), (1, 1)] }]).is_some());
}

fn small(p: &[Fe]) -> Vec<u64> {
    p.iter()
        .map(|c| {
            assert_eq!(&c.limbs[1..], &[0, 0, 0]);
            c.limbs[0]
        })
        .collect()
}

fn eval_small(p: &[u64], x: u64) -> u64 {
    p.iter().rev().fold(0, |acc, c| acc * x + c)
}

#[test]
fn round_polynomials_chain_to_the_polynomial() {
    let (mut prover, s0) = Prover::init(&example());
    let s0 = small(&s0);
    // first round: s0(0) + s0(1) is the claimed sum
    assert_eq!(eval_small(&s0, 0) + eval_small(&s0, 1), prover.h.limbs[0]);
    let s1 = small(&prover.execute_round(fe(2)));
    assert_eq!(eval_small(&s1, 0) + eval_small(&s1, 1), eval_small(&s0, 2));
    let s2 = small(&prover.execute_round(fe(3)));
    assert_eq!(eval_small(&s2, 0) + eval_small(&s2, 1), eval_small(&s1, 3));
    // last round at challenge 5 equals g(2, 3, 5) = 16 + 10 + 15
    assert_eq!(eval_small(&s2, 5), 41);
}

#[test]
fn power_above_variable_degree_is_rejected() {
    let g = example();
    let (mut prover, s0) = Prover::init(&g);
    // x1 has degree 3 in g: a trailing zero is harmless, a nonzero x1^4 is not
    let mut padded = s0.clone();
    padded.push(fe(0));
    assert!(Verifier::init(&g, &padded, prover.h).is_some());
    // 0 + 2x + 8x^3 + 2x^4 still gives 0 + 12 at the two ends
    let mut overlong = s0.clone();
    overlong.push(fe(2));
    overlong[0] = fe(0);
    assert!(Verifier::init(&g, &overlong, prover.h).is_none());
    // x2 has degree 1: an x2^2 term is rejected even when the sum still matches
    let mut verifier = Verifier::init(&g, &s0, prover.h).unwrap();
    verifier.push_challenge(fe(2));
    let s1 = small(&prover.execute_round(fe(2)));
    assert_eq!(s1, vec![34, 1]);
    // 34 + x^2 gives 34 + 35 == s0(2) == 69 at the two ends
    let bad = vec![fe(34), fe(0), fe(1)];
    assert_eq!(verifier.execute_round(&bad), Status::Rejected);
}
