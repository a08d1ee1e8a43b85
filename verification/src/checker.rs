//! The verifier: re-execute the declared witnesses on a fresh machine,
//! re-check the hash threshold, and judge the proof by its strategy's
//! acceptance rule.
//!
//! The verdict on a witness set is a function of the proof and the program
//! text alone (`check_verdict`), and the accept/reject conclusion a function
//! of the verdict, the strategy and the caller's statistical verdict
//! (`accept_rule`): checking a proof twice gives the same report.

use vstd::prelude::*;
use vstd::arithmetic::power2::pow2;
use crate::claim::{
    InputDomain, Proof, ProofParams, ProofReport, ProofStrategy, StatsCheck, ValidationResult,
};
use crate::emulator::{InstrumentedVM, VmError, run_exit, run_hash, run_output, terminates};
use crate::encode::identity_bytes;
use crate::hash::{hash_value, validate_hash};
use crate::vm::MachineEnv;

verus! {

/// The verdict on the witnesses from position `i` on: the first check that
/// fails decides, in this order — domain membership, successful execution,
/// expected output, hash threshold. When every witness checks out, the
/// verdict says whether the agreed number of witnesses was reached.
pub open spec fn validate_from(
    env: MachineEnv,
    id: Seq<u8>,
    params: ProofParams,
    domain: InputDomain,
    vset: Seq<u64>,
    i: int,
) -> ValidationResult
    decreases vset.len() - i,
{
    if i < 0 || i >= vset.len() {
        if vset.len() >= params.v {
            ValidationResult::Valid
        } else {
            ValidationResult::ValidButTooFewHashes(vset.len() as u64)
        }
    } else {
        let x = vset[i];
        if !domain.spec_contains(x) {
            ValidationResult::IncorrectInput(x)
        } else if !terminates(env, x) || run_exit(env, x) != 0 {
            ValidationResult::ExecutionError
        } else if run_output(env, x) != params.expected_output {
            ValidationResult::IncorrectOutput(run_output(env, x))
        } else if !(hash_value(run_hash(env, id, x)) < pow2(params.kappa as nat)) {
            ValidationResult::IncorrectHash
        } else {
            validate_from(env, id, params, domain, vset, i + 1)
        }
    }
}

/// The domain the witnesses are validated against: the extended domain
/// under overtesting (falling back to the declared one), the declared
/// domain otherwise.
pub open spec fn validation_domain(proof: Proof) -> InputDomain {
    match proof.params.strategy {
        ProofStrategy::OverTesting { .. } => match proof.extended_domain {
            Some(d) => d,
            None => proof.params.input_domain,
        },
        _ => proof.params.input_domain,
    }
}

/// The verdict on a proof against a program text: a text that does not
/// parse makes the program invalid; otherwise the witnesses are re-run on
/// the denoted machine.
pub open spec fn check_verdict(proof: Proof, text: Seq<u8>) -> ValidationResult {
    match crate::parser::load_spec(text) {
        None => ValidationResult::InvalidProgram,
        Some((p, instrs, labels)) => {
            let env = MachineEnv {
                prog: instrs,
                labels: labels,
                word_size: p.word_size,
                num_regs: p.registers,
            };
            validate_from(
                env,
                identity_bytes(instrs),
                proof.params,
                validation_domain(proof),
                proof.vset@,
                0,
            )
        },
    }
}

/// The number of witnesses the statistical functions are evaluated at:
/// the declared count under fixed effort, the found count otherwise.
pub open spec fn spec_stat_witness_count(proof: Proof) -> u64 {
    match proof.params.strategy {
        ProofStrategy::FixedEffort => proof.params.v,
        _ => proof.vset@.len() as u64,
    }
}

/// Each strategy's acceptance rule over the witness-set verdict and the
/// caller's statistical verdict. A NaN in either statistic disqualifies
/// the proof under every strategy: the statistics come from inputs outside
/// the model's domain, and no validity decision may rest on them.
pub open spec fn accept_rule(
    strategy: ProofStrategy,
    verdict: ValidationResult,
    stats: StatsCheck,
) -> bool {
    &&& !stats.q_is_nan
    &&& !stats.eta_is_nan
    &&& match strategy {
        ProofStrategy::FixedEffort => stats.q_above_threshold && verdict
            == ValidationResult::Valid,
        ProofStrategy::BestEffort => verdict == ValidationResult::Valid
            || verdict is ValidButTooFewHashes,
        ProofStrategy::BestEffortAdaptive { .. } => verdict == ValidationResult::Valid
            || verdict is ValidButTooFewHashes,
        ProofStrategy::OverTesting { .. } => verdict == ValidationResult::Valid,
    }
}

/// Verifier idempotence: the verdict and the conclusion are functions of
/// the proof, the program text and the statistical verdict, so two reports
/// drawn from the same proof under the same inputs agree.
pub proof fn lemma_check_proof_idempotent(
    proof: Proof,
    text: Seq<u8>,
    stats: StatsCheck,
    r1: ProofReport,
    r2: ProofReport,
)
    requires
        r1.verdict == check_verdict(proof, text),
        r1.valid == accept_rule(proof.params.strategy, r1.verdict, stats),
        r2.verdict == check_verdict(proof, text),
        r2.valid == accept_rule(proof.params.strategy, r2.verdict, stats),
    ensures
        r1.verdict == r2.verdict,
        r1.valid == r2.valid,
{
}

/// The verifier: it owns the proof under judgement.
pub struct Verifier {
    /// Proof being verified.
    pub proof: Proof,
}

impl Verifier {
    /// A verifier for a proof.
    pub fn new(proof: Proof) -> (r: Verifier)
        ensures
            r.proof == proof,
    {
        Verifier { proof }
    }

    /// The witness count the statistical functions should be evaluated at.
    pub fn stat_witness_count(&self) -> (r: u64)
        ensures
            r == spec_stat_witness_count(self.proof),
    {
        match self.proof.params.strategy {
            ProofStrategy::FixedEffort => self.proof.params.v,
            _ => self.proof.vset.len() as u64,
        }
    }

    /// The size of the declared input domain, for the statistical model.
    pub fn claimed_domain_size(&self) -> (r: u64)
        ensures
            r == self.proof.params.input_domain.size(),
    {
        let d = self.proof.params.input_domain;
        if d.start <= d.end {
            d.end - d.start
        } else {
            0
        }
    }

    /// Re-run every declared witness on a fresh machine for the given
    /// domain and report the first failure, or how the count compares to
    /// the agreed number.
    fn validate_vset(&self, vm: &mut InstrumentedVM, domain: InputDomain) -> (r: ValidationResult)
        requires
            old(vm).inv(),
            self.proof.params.wf(),
        ensures
            final(vm).inv(),
            final(vm).env() == old(vm).env(),
            r == validate_from(
                old(vm).env(),
                old(vm).program@,
                self.proof.params,
                domain,
                self.proof.vset@,
                0,
            ),
    {
        let ghost env = vm.env();
        let ghost id = vm.program@;
        let vset = &self.proof.vset;
        let mut i: usize = 0;
        while i < vset.len()
            invariant
                i <= vset@.len(),
                vm.inv(),
                vm.env() == env,
                id == vm.program@,
                self.proof.params.wf(),
                vset == &self.proof.vset,
                env == old(vm).env(),
                id == old(vm).program@,
                validate_from(env, id, self.proof.params, domain, vset@, 0) == validate_from(
                    env,
                    id,
                    self.proof.params,
                    domain,
                    vset@,
                    i as int,
                ),
            decreases vset@.len() - i,
        {
            let x = vset[i];
            if !domain.contains(x) {
                return ValidationResult::IncorrectInput(x);
            }
            match vm.run(x) {
                Ok(rr) => {
                    if rr.output != self.proof.params.expected_output {
                        return ValidationResult::IncorrectOutput(rr.output);
                    }
                    if !validate_hash(&rr.hash, self.proof.params.kappa) {
                        return ValidationResult::IncorrectHash;
                    }
                },
                Err(e) => {
                    proof {
                        if e is StepLimit {
                            assert(!terminates(env, x));
                        }
                    }
                    return ValidationResult::ExecutionError;
                },
            }
            i += 1;
        }
        if vset.len() as u64 >= self.proof.params.v {
            ValidationResult::Valid
        } else {
            ValidationResult::ValidButTooFewHashes(vset.len() as u64)
        }
    }

    /// Check the proof against the program text: the witnesses are re-run
    /// on a machine freshly parsed from the text, and the verdict is gated
    /// by the strategy's acceptance rule over the caller's statistical
    /// verdict. The whole report is a function of the three inputs.
    pub fn check_proof(self, program_text: &Vec<u8>, stats: StatsCheck) -> (r: ProofReport)
        requires
            self.proof.params.wf(),
        ensures
            r.verdict == check_verdict(self.proof, program_text@),
            r.valid == accept_rule(self.proof.params.strategy, r.verdict, stats),
            r.proof == self.proof,
    {
        let mut vm = match InstrumentedVM::new(program_text) {
            Ok(vm) => vm,
            Err(_) => {
                let verdict = ValidationResult::InvalidProgram;
                let valid = Self::apply_rule(self.proof.params.strategy, verdict, stats);
                return ProofReport::create(self.proof, verdict, valid);
            },
        };
        let domain = match self.proof.params.strategy {
            ProofStrategy::OverTesting { .. } => match self.proof.extended_domain {
                Some(d) => d,
                None => self.proof.params.input_domain,
            },
            _ => self.proof.params.input_domain,
        };
        let verdict = self.validate_vset(&mut vm, domain);
        let valid = Self::apply_rule(self.proof.params.strategy, verdict, stats);
        ProofReport::create(self.proof, verdict, valid)
    }

    /// The strategy's acceptance rule, executable.
    fn apply_rule(strategy: ProofStrategy, verdict: ValidationResult, stats: StatsCheck) -> (r:
        bool)
        ensures
            r == accept_rule(strategy, verdict, stats),
    {
        let stats_ok = !stats.q_is_nan && !stats.eta_is_nan;
        stats_ok && match strategy {
            ProofStrategy::FixedEffort => stats.q_above_threshold && verdict
                == ValidationResult::Valid,
            ProofStrategy::BestEffort => verdict == ValidationResult::Valid || matches!(
                verdict,
                ValidationResult::ValidButTooFewHashes(_),
            ),
            ProofStrategy::BestEffortAdaptive { .. } => verdict == ValidationResult::Valid
                || matches!(verdict, ValidationResult::ValidButTooFewHashes(_)),
            ProofStrategy::OverTesting { .. } => verdict == ValidationResult::Valid,
        }
    }
}

} // verus!
