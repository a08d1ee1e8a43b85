//! Prover/verifier protocol tests: assembling witness sets under each
//! strategy and judging them. The statistical side (eta, q, and the
//! thresholds derived from an eta target) is computed here, in floating
//! point, exactly as the protocol prescribes; the library consumes its
//! integer decisions.

use ckc::checker::Verifier;
use ckc::claim::{InputDomain, ProofParams, ProofStrategy, StatsCheck, ValidationResult};
use ckc::prover::Prover;
use statrs::distribution::{DiscreteCDF, NegativeBinomial};
use statrs::function::erf::erfc_inv;

fn collatz_program() -> Vec<u8> {
    let src = "; TinyRAM V=2.0 M=hv W=64 K=4\n\
               read r0, 0\n\
               _loop:\n\
               cmpe r0, 1\n\
               cjmp _end\n\
               and r1, r0, 1\n\
               cmpe r1, 0\n\
               cjmp _even\n\
               mull r2, r0, 3\n\
               add r0, r2, 1\n\
               jmp _loop\n\
               _even:\n\
               udiv r0, r0, 2\n\
               jmp _loop\n\
               _end:\n\
               answer 0\n";
    src.as_bytes().to_vec()
}

/// The per-input acceptance probability under the random-oracle assumption.
fn derive_p(kappa: u64) -> f64 {
    (kappa as f64 - 160.0).exp2()
}

/// Probability an honest prover finds at least `v` witnesses in `u` trials.
fn compute_eta(kappa: u64, u: u64, v: u64) -> f64 {
    let p = derive_p(kappa);
    let u = u as f64;
    let v = v as f64;
    let term1 = v - u * p;
    let term2 = (2.0 * u * p * (1.0 - p)).sqrt();
    0.5 * statrs::function::erf::erfc(term1 / term2)
}

/// Posterior probability of the claim given `r` witnesses in `u` trials.
fn compute_q(kappa: u64, u: u64, r: u64) -> f64 {
    if u < 1 || r < 1 {
        return 0.0;
    }
    let p = derive_p(kappa);
    let nb = NegativeBinomial::new(r as f64, p).unwrap();
    1.0 - nb.cdf(u - r + 1)
}

/// Minimal witness count to attain the eta target.
fn compute_v_min(eta0: f64, kappa: u64, u: u64) -> u64 {
    let p = derive_p(kappa);
    let alpha = erfc_inv(2.0 * eta0);
    let beta = u as f64 * p;
    (beta * (1.0 - p)).sqrt().mul_add(alpha, beta) as u64
}

/// Extra domain extension needed to attain the eta target when overtesting.
fn compute_delta_u(eta0: f64, kappa: u64, u: u64, v: u64) -> u64 {
    let p = derive_p(kappa);
    let alpha = erfc_inv(2.0 * eta0);
    ((u as f64)
        - alpha.mul_add(
            alpha.mul_add(
                1.0 - p,
                ((1.0 - p) * (alpha * alpha).mul_add(1.0 - p, 2.0 * (v as f64))).sqrt(),
            ),
            v as f64,
        ) / p) as u64
}

/// The statistical verdict the verifier's caller supplies.
fn stats_check(kappa: u64, u: u64, v: u64, epsilon: f64) -> StatsCheck {
    let eta = compute_eta(kappa, u, v);
    let q = compute_q(kappa, u, v);
    StatsCheck {
        eta_is_nan: eta.is_nan(),
        q_is_nan: q.is_nan(),
        q_above_threshold: q > 1.0 - epsilon,
    }
}

#[test]
fn run_proof() {
    let text = collatz_program();
    let params = ProofParams::new(
        "collatz_v0.tr".to_string(),
        InputDomain { start: 1, end: 1000 },
        0,
        14,
        1000,
        ProofStrategy::BestEffort,
    );
    let prover = Prover::new(params, &text).unwrap();
    let proof = prover.obtain_proof().unwrap();
    // kappa = 14 leaves 146 leading zero bits to hit: no witnesses
    assert!(proof.vset.is_empty());
}

#[test]
fn run_prover_and_verifier() {
    let text = collatz_program();
    let params = ProofParams::new(
        "collatz_v0.tr".to_string(),
        InputDomain { start: 1, end: 1000 },
        0,
        155,
        1000,
        ProofStrategy::BestEffort,
    );
    let prover = Prover::new(params, &text).unwrap();
    let proof = prover.obtain_proof().unwrap();
    let u = 999u64;
    let v = proof.vset.len() as u64;
    let verifier = Verifier::new(proof);
    assert_eq!(verifier.stat_witness_count(), v);
    assert_eq!(verifier.claimed_domain_size(), u);
    let report = verifier.check_proof(&text, stats_check(155, u, v, 0.99));
    // every witness re-checks; fewer than the agreed 1000 were found
    assert_eq!(
        report.verdict,
        ValidationResult::ValidButTooFewHashes(report.proof.vset.len() as u64)
    );
    assert!(report.valid);
}

/// BestEffort proof over [1, 1000) with kappa 8: the witness set is a
/// subset of the domain and the verifier accepts under the best-effort
/// rule even though no witness can be found.
#[test]
fn best_effort_proof() {
    let text = collatz_program();
    let params = ProofParams::new(
        "collatz_v0.tr".to_string(),
        InputDomain { start: 1, end: 1000 },
        0,
        8,
        1000,
        ProofStrategy::BestEffort,
    );
    let prover = Prover::new(params, &text).unwrap();
    let proof = prover.obtain_proof().unwrap();
    for &w in proof.vset.iter() {
        assert!(1 <= w && w < 1000);
    }
    let u = 999u64;
    let v = proof.vset.len() as u64;
    let n_witnesses = proof.vset.len() as u64;
    let verifier = Verifier::new(proof);
    let stats = stats_check(8, u, v, 0.99);
    let report = verifier.check_proof(&text, stats);
    // every declared witness validated
    assert_eq!(
        report.verdict,
        ValidationResult::ValidButTooFewHashes(n_witnesses)
    );
    // the best-effort rule: valid iff the vset checks out and no statistic is NaN
    assert_eq!(report.valid, !stats.eta_is_nan && !stats.q_is_nan);
}

/// BestEffortAdaptive with eta = 0.99, kappa = 155, u = 1000: iteration
/// halts as soon as the witness count exceeds v_min.
#[test]
fn adaptive_early_stop() {
    let text = collatz_program();
    let v_min = compute_v_min(0.99, 155, 1000);
    assert!(v_min > 0);
    let params = ProofParams::new(
        "collatz_v0.tr".to_string(),
        InputDomain { start: 1, end: 1001 },
        0,
        155,
        1000,
        ProofStrategy::BestEffortAdaptive { v_min },
    );
    let prover = Prover::new(params, &text).unwrap();
    let proof = prover.obtain_proof().unwrap();
    // the scan stopped at exactly one witness beyond the threshold,
    // well before the end of the domain
    assert_eq!(proof.vset.len() as u64, v_min + 1);
    assert!(*proof.vset.last().unwrap() < 1000);
}

/// Overtesting with eta = 0.99, kappa = 155, u = 1000, v = 5: the extension
/// is positive and the proof records the extended domain.
#[test]
fn overtesting_extension() {
    let text = collatz_program();
    let delta_u = compute_delta_u(0.99, 155, 1000, 5);
    assert!(delta_u > 0);
    let params = ProofParams::new(
        "collatz_v0.tr".to_string(),
        InputDomain { start: 1, end: 1001 },
        0,
        155,
        5,
        ProofStrategy::OverTesting { delta_u },
    );
    let prover = Prover::new(params, &text).unwrap();
    let proof = prover.obtain_proof().unwrap();
    assert_eq!(
        proof.extended_domain,
        Some(InputDomain { start: 1, end: 1001 + delta_u })
    );
    // the extension was actually scanned, yet witnesses stay inside the
    // declared domain, which select_witness insists on
    for &w in proof.vset.iter() {
        assert!(1 <= w && w < 1001);
    }
    let verifier = Verifier::new(proof);
    let stats = stats_check(155, 1000, 5, 0.99);
    let report = verifier.check_proof(&text, stats);
    // overtesting accepts only a strictly valid witness set, with finite
    // statistics
    assert_eq!(
        report.valid,
        report.verdict == ValidationResult::Valid && !stats.eta_is_nan && !stats.q_is_nan
    );
}

/// Tampering: flip one bit of the program identity the verifier sees (the
/// label `_loop` becomes `_loo0` in the text it is given) and the witnesses
/// fail with IncorrectHash.
#[test]
fn tampered_witness() {
    let text = collatz_program();
    let tampered: Vec<u8> = String::from_utf8(text.clone())
        .unwrap()
        .replace("_loop", "_loo0")
        .into_bytes();
    let params = ProofParams::new(
        "collatz_v0.tr".to_string(),
        InputDomain { start: 1, end: 1001 },
        0,
        155,
        1000,
        ProofStrategy::BestEffort,
    );
    let prover = Prover::new(params, &text).unwrap();
    let proof = prover.obtain_proof().unwrap();
    assert!(proof.vset.len() > 0);
    let u = 1000u64;
    let v = proof.vset.len() as u64;
    let verifier = Verifier::new(proof);
    let report = verifier.check_proof(&tampered, stats_check(155, u, v, 0.99));
    assert_eq!(report.verdict, ValidationResult::IncorrectHash);
    assert!(!report.valid);
}

/// A witness outside the agreed domain is rejected as IncorrectInput.
#[test]
fn witness_outside_domain() {
    let text = collatz_program();
    let params = ProofParams::new(
        "collatz_v0.tr".to_string(),
        InputDomain { start: 1, end: 100 },
        0,
        159,
        0,
        ProofStrategy::BestEffort,
    );
    let prover = Prover::new(params, &text).unwrap();
    let mut proof = prover.obtain_proof().unwrap();
    proof.vset.insert(0, 5000);
    let verifier = Verifier::new(proof);
    let report = verifier.check_proof(&text, stats_check(159, 99, 1, 0.99));
    assert_eq!(report.verdict, ValidationResult::IncorrectInput(5000));
    assert!(!report.valid);
}

/// A program text that does not parse makes the program invalid.
#[test]
fn invalid_program_verdict() {
    let text = collatz_program();
    let params = ProofParams::new(
        "collatz_v0.tr".to_string(),
        InputDomain { start: 1, end: 10 },
        0,
        159,
        0,
        ProofStrategy::BestEffort,
    );
    let prover = Prover::new(params, &text).unwrap();
    let proof = prover.obtain_proof().unwrap();
    let verifier = Verifier::new(proof);
    let garbage = "not a program\n".as_bytes().to_vec();
    let report = verifier.check_proof(&garbage, stats_check(159, 9, 1, 0.99));
    assert_eq!(report.verdict, ValidationResult::InvalidProgram);
    assert!(!report.valid);
}

/// Checking the same proof twice yields reports with the same verdict and
/// the same conclusion.
#[test]
fn verifier_is_idempotent() {
    let text = collatz_program();
    let params = ProofParams::new(
        "collatz_v0.tr".to_string(),
        InputDomain { start: 1, end: 200 },
        0,
        155,
        3,
        ProofStrategy::BestEffort,
    );
    let prover = Prover::new(params, &text).unwrap();
    let proof = prover.obtain_proof().unwrap();
    let u = 199u64;
    let v = proof.vset.len() as u64;
    let stats = stats_check(155, u, v, 0.99);
    let vset_copy = proof.vset.clone();
    let extended_copy = proof.extended_domain;
    let report1 = Verifier::new(proof).check_proof(&text, stats);
    let params2 = ProofParams::new(
        "collatz_v0.tr".to_string(),
        InputDomain { start: 1, end: 200 },
        0,
        155,
        3,
        ProofStrategy::BestEffort,
    );
    let proof2 = ckc::claim::Proof {
        vset: vset_copy,
        extended_domain: extended_copy,
        params: params2,
    };
    let report2 = Verifier::new(proof2).check_proof(&text, stats);
    assert_eq!(report1.verdict, report2.verdict);
    assert_eq!(report1.valid, report2.valid);
}

/// A fixed-effort proof is accepted only when q clears the threshold and
/// the declared witness count is actually met.
#[test]
fn fixed_effort_gate() {
    let text = collatz_program();
    // agree on a small v that the scan will certainly reach at kappa 157
    let params = ProofParams::new(
        "collatz_v0.tr".to_string(),
        InputDomain { start: 1, end: 500 },
        0,
        157,
        10,
        ProofStrategy::FixedEffort,
    );
    let prover = Prover::new(params, &text).unwrap();
    let proof = prover.obtain_proof().unwrap();
    let found = proof.vset.len() as u64;
    let verifier = Verifier::new(proof);
    // fixed effort evaluates the statistics at the declared v
    assert_eq!(verifier.stat_witness_count(), 10);
    let stats = stats_check(157, 499, 10, 0.99);
    let report = verifier.check_proof(&text, stats);
    if found >= 10 {
        assert_eq!(
            report.valid,
            !stats.eta_is_nan && !stats.q_is_nan && stats.q_above_threshold
        );
        assert_eq!(report.verdict, ValidationResult::Valid);
    } else {
        assert!(!report.valid);
    }
}

/// An adaptive scan whose threshold is never exceeded walks the whole
/// domain, like a plain best-effort scan.
#[test]
fn adaptive_without_early_stop() {
    let text = collatz_program();
    let params = ProofParams::new(
        "collatz_v0.tr".to_string(),
        InputDomain { start: 1, end: 200 },
        0,
        155,
        1000,
        ProofStrategy::BestEffortAdaptive { v_min: 10_000 },
    );
    let prover = Prover::new(params, &text).unwrap();
    let adaptive = prover.obtain_proof().unwrap();

    let params2 = ProofParams::new(
        "collatz_v0.tr".to_string(),
        InputDomain { start: 1, end: 200 },
        0,
        155,
        1000,
        ProofStrategy::BestEffort,
    );
    let prover2 = Prover::new(params2, &text).unwrap();
    let full = prover2.obtain_proof().unwrap();
    assert_eq!(adaptive.vset, full.vset);
}

/// An empty domain yields an empty witness set.
#[test]
fn empty_domain_scan() {
    let text = collatz_program();
    let params = ProofParams::new(
        "collatz_v0.tr".to_string(),
        InputDomain { start: 10, end: 10 },
        0,
        155,
        0,
        ProofStrategy::BestEffort,
    );
    let prover = Prover::new(params, &text).unwrap();
    let proof = prover.obtain_proof().unwrap();
    assert!(proof.vset.is_empty());
    let verifier = Verifier::new(proof);
    let report = verifier.check_proof(&text, stats_check(155, 0, 0, 0.99));
    assert_eq!(report.verdict, ValidationResult::Valid);
}

/// A witness whose re-run output differs from the claim is rejected as
/// IncorrectOutput, carrying the observed output.
#[test]
fn witness_with_wrong_output() {
    let text = collatz_program();
    let params = ProofParams::new(
        "collatz_v0.tr".to_string(),
        InputDomain { start: 1, end: 100 },
        7,
        155,
        0,
        ProofStrategy::BestEffort,
    );
    let proof = ckc::claim::Proof {
        vset: vec![5],
        extended_domain: None,
        params,
    };
    let verifier = Verifier::new(proof);
    let report = verifier.check_proof(&text, stats_check(155, 99, 1, 0.99));
    // collatz outputs 0, not the claimed 7
    assert_eq!(report.verdict, ValidationResult::IncorrectOutput(0));
    assert!(!report.valid);
}

/// A witness whose re-run exits with a nonzero answer is an execution error.
#[test]
fn witness_with_failing_run() {
    let text = "; TinyRAM V=2.0 M=hv W=32 K=1\nanswer 1\n".as_bytes().to_vec();
    let params = ProofParams::new(
        "failing.tr".to_string(),
        InputDomain { start: 0, end: 10 },
        0,
        155,
        0,
        ProofStrategy::BestEffort,
    );
    let proof = ckc::claim::Proof {
        vset: vec![3],
        extended_domain: None,
        params,
    };
    let verifier = Verifier::new(proof);
    let report = verifier.check_proof(&text, stats_check(155, 10, 1, 0.99));
    assert_eq!(report.verdict, ValidationResult::ExecutionError);
    assert!(!report.valid);
}

/// A NaN statistic disqualifies a proof under every strategy, overtesting
/// included: here the witness set itself is flawless (empty, with an agreed
/// count of zero), yet the proof is rejected.
#[test]
fn nan_statistics_disqualify() {
    let text = collatz_program();
    let nan_stats = StatsCheck { eta_is_nan: false, q_is_nan: true, q_above_threshold: false };
    let strategies = [
        ProofStrategy::FixedEffort,
        ProofStrategy::BestEffort,
        ProofStrategy::BestEffortAdaptive { v_min: 5 },
        ProofStrategy::OverTesting { delta_u: 0 },
    ];
    for strategy in strategies {
        let params = ProofParams::new(
            "collatz_v0.tr".to_string(),
            InputDomain { start: 1, end: 10 },
            0,
            155,
            0,
            strategy,
        );
        let proof = ckc::claim::Proof {
            vset: Vec::new(),
            extended_domain: match strategy {
                ProofStrategy::OverTesting { .. } => Some(InputDomain { start: 1, end: 10 }),
                _ => None,
            },
            params,
        };
        let report = Verifier::new(proof).check_proof(&text, nan_stats);
        assert_eq!(report.verdict, ValidationResult::Valid);
        assert!(!report.valid);
    }
}
