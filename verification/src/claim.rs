//! The proof artifact: the claim's parameters, the witness set a prover
//! assembles, and the verifier's report.
//!
//! The statistical side of the protocol — the acceptance probability `eta`,
//! the posterior claim probability `q`, and the thresholds derived from
//! them — is floating-point arithmetic and lives with the caller. What
//! reaches this library are its integer decisions: the adaptive witness
//! threshold, the domain extension, and the booleans of `StatsCheck`.

use vstd::prelude::*;

verus! {

/// A half-open range of inputs `[start, end)`.
#[derive(Debug, Clone, Copy, PartialEq, Eq, Structural)]
pub struct InputDomain {
    pub start: u64,
    pub end: u64,
}

impl InputDomain {
    /// Whether `i` lies in the range.
    pub open spec fn spec_contains(self, i: u64) -> bool {
        self.start <= i < self.end
    }

    /// Whether `i` lies in the range.
    #[verifier::when_used_as_spec(spec_contains)]
    pub fn contains(self, i: u64) -> (r: bool)
        ensures
            r == self.spec_contains(i),
    {
        self.start <= i && i < self.end
    }

    /// The number of inputs in the range.
    pub open spec fn size(self) -> int {
        if self.start <= self.end {
            self.end - self.start
        } else {
            0
        }
    }
}

/// How the prover assembles, and the verifier judges, a witness set. The
/// thresholds that the statistical model derives from an `eta` target are
/// computed by the caller and carried here as plain integers.
#[derive(Debug, Clone, Copy, PartialEq, Eq, Structural)]
pub enum ProofStrategy {
    /// Iterate the whole domain; the verifier additionally gates on the
    /// claim probability exceeding a caller-chosen threshold.
    FixedEffort,
    /// Iterate the whole domain and hand over every witness found.
    BestEffort,
    /// Stop iterating as soon as more than `v_min` witnesses are found.
    BestEffortAdaptive { v_min: u64 },
    /// Extend the domain by `delta_u` extra inputs and iterate all of it.
    OverTesting { delta_u: u64 },
}

/// The parameters a proof is made and checked under.
pub struct ProofParams {
    /// The program the claim is about.
    pub program_file: String,
    /// The claimed domain `[start, end)`.
    pub input_domain: InputDomain,
    /// The output the program must yield on every input of the domain.
    pub expected_output: u64,
    /// The hash threshold in bits: a run's digest must lie below
    /// `2^kappa` for the input to count as a witness.
    pub kappa: u64,
    /// The agreed number of witnesses.
    pub v: u64,
    /// The proof strategy.
    pub strategy: ProofStrategy,
}

impl ProofParams {
    /// The threshold must leave at least one digest bit constrained.
    pub open spec fn wf(self) -> bool {
        self.kappa < 160
    }

    /// Bundle the parameters of a proof.
    pub fn new(
        program_file: String,
        input_domain: InputDomain,
        expected_output: u64,
        kappa: u64,
        v: u64,
        strategy: ProofStrategy,
    ) -> (r: ProofParams)
        requires
            kappa < 160,
        ensures
            r == (ProofParams { program_file, input_domain, expected_output, kappa, v, strategy }),
            r.wf(),
    {
        ProofParams { program_file, input_domain, expected_output, kappa, v, strategy }
    }
}

/// A proof: the witness set, the extended domain recorded under the
/// overtesting strategy, and the parameters it was made under.
pub struct Proof {
    /// The input indices selected as witnesses, in ascending order.
    pub vset: Vec<u64>,
    /// The enlarged range iterated under overtesting.
    pub extended_domain: Option<InputDomain>,
    /// The parameters of the proof.
    pub params: ProofParams,
}

/// The outcome of re-checking a witness set, in the order the checks are
/// made: the first offending witness decides.
#[derive(Debug, Clone, Copy, PartialEq, Eq, Structural)]
pub enum ValidationResult {
    /// A witness's re-run digest does not pass the hash threshold.
    IncorrectHash,
    /// The program text does not parse into a machine.
    InvalidProgram,
    /// A witness lies outside the agreed domain.
    IncorrectInput(u64),
    /// A witness's re-run output is not the expected one.
    IncorrectOutput(u64),
    /// A witness's re-run did not exit successfully.
    ExecutionError,
    /// Every witness checks out, but fewer than the agreed number were given.
    ValidButTooFewHashes(u64),
    /// Every witness checks out and enough were given.
    Valid,
}

/// The caller-computed statistical verdict on `(eta, q)`: whether either is
/// NaN — which disqualifies a proof — and whether `q` clears the acceptance
/// threshold `1 - epsilon` of the fixed-effort strategy.
#[derive(Debug, Clone, Copy, PartialEq, Eq, Structural)]
pub struct StatsCheck {
    /// `eta` is NaN.
    pub eta_is_nan: bool,
    /// `q` is NaN.
    pub q_is_nan: bool,
    /// `q > 1 - epsilon`.
    pub q_above_threshold: bool,
}

/// The verifier's report: the proof it judged, the witness-set verdict, and
/// the accept/reject conclusion.
pub struct ProofReport {
    /// The proof being reported on.
    pub proof: Proof,
    /// The outcome of re-checking the witness set.
    pub verdict: ValidationResult,
    /// Whether the proof is accepted.
    pub valid: bool,
}

impl ProofReport {
    /// Assemble a report.
    pub fn create(proof: Proof, verdict: ValidationResult, valid: bool) -> (r: ProofReport)
        ensures
            r == (ProofReport { proof, verdict, valid }),
    {
        ProofReport { proof, verdict, valid }
    }
}

} // verus!
