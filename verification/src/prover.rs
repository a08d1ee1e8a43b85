//! The prover: iterate the input domain, run every input on the
//! instrumented machine, and collect the inputs whose output matches the
//! claim and whose trace digest passes the hash threshold.
//!
//! The witness set each strategy yields is pinned to the spec-level
//! `witnesses` sequence, so the verifier's soundness is a statement about
//! the same abstract runs the prover filtered.

use vstd::prelude::*;
use vstd::arithmetic::power2::pow2;
use crate::claim::{InputDomain, Proof, ProofParams, ProofStrategy};
use crate::emulator::{
    InstrumentedVM, RunResult, VmError, run_hash, run_ok, run_output,
};
use crate::hash::{hash_value, validate_hash};
use crate::parser::ParseError;
use crate::vm::MachineEnv;

verus! {

/// An input counts as a witness when its run exits successfully with the
/// expected output, lies in the claimed domain, and its trace digest lies
/// below `2^kappa`.
pub open spec fn accept(env: MachineEnv, id: Seq<u8>, params: ProofParams, i: u64) -> bool {
    &&& run_ok(env, i)
    &&& run_output(env, i) == params.expected_output
    &&& params.input_domain.spec_contains(i)
    &&& hash_value(run_hash(env, id, i)) < pow2(params.kappa as nat)
}

/// The witnesses among the inputs `lo <= i < hi`, in ascending order.
pub open spec fn witnesses(env: MachineEnv, id: Seq<u8>, params: ProofParams, lo: int, hi: int)
    -> Seq<u64>
    decreases hi - lo,
{
    if lo >= hi {
        Seq::empty()
    } else {
        (if accept(env, id, params, lo as u64) {
            seq![lo as u64]
        } else {
            Seq::empty()
        }) + witnesses(env, id, params, lo + 1, hi)
    }
}

/// Extending the scanned range by one input appends at most that input.
pub proof fn lemma_witnesses_snoc(
    env: MachineEnv,
    id: Seq<u8>,
    params: ProofParams,
    lo: int,
    k: int,
)
    requires
        lo <= k,
    ensures
        witnesses(env, id, params, lo, k + 1) == witnesses(env, id, params, lo, k) + (if accept(
            env,
            id,
            params,
            k as u64,
        ) {
            seq![k as u64]
        } else {
            Seq::<u64>::empty()
        }),
    decreases k - lo,
{
    let tail = if accept(env, id, params, k as u64) {
        seq![k as u64]
    } else {
        Seq::<u64>::empty()
    };
    if lo == k {
        assert(witnesses(env, id, params, k + 1, k + 1) =~= Seq::<u64>::empty());
        assert(tail + Seq::<u64>::empty() =~= tail);
        assert(witnesses(env, id, params, lo, k) =~= Seq::<u64>::empty());
        assert(Seq::<u64>::empty() + tail =~= tail);
    } else {
        lemma_witnesses_snoc(env, id, params, lo + 1, k);
        let head = if accept(env, id, params, lo as u64) {
            seq![lo as u64]
        } else {
            Seq::<u64>::empty()
        };
        assert(head + (witnesses(env, id, params, lo + 1, k) + tail) =~= (head + witnesses(
            env,
            id,
            params,
            lo + 1,
            k,
        )) + tail);
    }
}

/// Soundness of a witness set: every index the prover hands over is
/// accepted — it lies in the scanned range and in the claimed domain, its
/// run exits successfully with the expected output, and its trace digest
/// passes the hash threshold.
pub proof fn lemma_witnesses_sound(
    env: MachineEnv,
    id: Seq<u8>,
    params: ProofParams,
    lo: int,
    hi: int,
)
    requires
        0 <= lo,
        hi <= u64::MAX + 1,
    ensures
        forall|t: int|
            0 <= t < witnesses(env, id, params, lo, hi).len() ==> {
                let w = #[trigger] witnesses(env, id, params, lo, hi)[t];
                &&& accept(env, id, params, w)
                &&& lo <= w < hi
            },
    decreases hi - lo,
{
    if lo < hi {
        lemma_witnesses_sound(env, id, params, lo + 1, hi);
        let whole = witnesses(env, id, params, lo, hi);
        let head = if accept(env, id, params, lo as u64) {
            seq![lo as u64]
        } else {
            Seq::<u64>::empty()
        };
        let rest = witnesses(env, id, params, lo + 1, hi);
        assert forall|t: int|
            0 <= t < whole.len() implies {
            let w = #[trigger] whole[t];
            &&& accept(env, id, params, w)
            &&& lo <= w < hi
        } by {
            if t < head.len() {
                assert(whole[t] == lo as u64);
            } else {
                assert(whole[t] == rest[t - head.len()]);
            }
        }
    }
}

/// What a whole-domain scan (the best-effort and fixed-effort strategies)
/// yields: every run in the domain succeeded and the witness set is exactly
/// the accepted inputs, in order; or some run in the domain failed.
pub open spec fn scan_post(
    env: MachineEnv,
    id: Seq<u8>,
    params: ProofParams,
    lo: u64,
    hi: u64,
    r: Result<Proof, VmError>,
) -> bool {
    match r {
        Ok(proof) => {
            &&& proof.vset@ == witnesses(env, id, params, lo as int, hi as int)
            &&& (forall|i: u64| lo <= i < hi ==> run_ok(env, i))
            &&& proof.extended_domain is None
            &&& proof.params == params
        },
        Err(_) => exists|i: u64| lo <= i < hi && !run_ok(env, i),
    }
}

/// What an adaptive scan yields: some stopping point `j` such that the
/// witness set is exactly the accepted inputs below `j`, no proper prefix
/// had already exceeded the threshold, and the scan stopped early only
/// because the threshold was exceeded.
pub open spec fn adaptive_post(
    env: MachineEnv,
    id: Seq<u8>,
    params: ProofParams,
    thr: u64,
    lo: u64,
    hi: u64,
    r: Result<Proof, VmError>,
) -> bool {
    let top = if hi < lo {
        lo
    } else {
        hi
    };
    match r {
        Ok(proof) => exists|j: u64|
            {
                &&& lo <= j <= top
                &&& proof.vset@ == #[trigger] witnesses(env, id, params, lo as int, j as int)
                &&& (forall|k: int|
                    lo <= k < j ==> witnesses(env, id, params, lo as int, k).len() <= thr)
                &&& (j < top ==> proof.vset@.len() > thr)
                &&& (forall|i: u64| lo <= i < j ==> run_ok(env, i))
                &&& proof.extended_domain is None
                &&& proof.params == params
            },
        Err(_) => exists|i: u64| lo <= i < top && !run_ok(env, i),
    }
}

/// What an overtesting scan yields: the witness set of the extended range,
/// which is recorded in the proof.
pub open spec fn overtesting_post(
    env: MachineEnv,
    id: Seq<u8>,
    params: ProofParams,
    delta: u64,
    r: Result<Proof, VmError>,
) -> bool {
    let lo = params.input_domain.start;
    let hi = (params.input_domain.end + delta) as u64;
    match r {
        Ok(proof) => {
            &&& proof.vset@ == witnesses(env, id, params, lo as int, hi as int)
            &&& (forall|i: u64| lo <= i < hi ==> run_ok(env, i))
            &&& proof.extended_domain == Some(InputDomain { start: lo, end: hi })
            &&& proof.params == params
        },
        Err(_) => exists|i: u64| lo <= i < hi && !run_ok(env, i),
    }
}

/// The prover: the claim's parameters and the instrumented machine it
/// scans the domain with.
pub struct Prover {
    /// Parameters of the proof being assembled.
    pub params: ProofParams,
    /// The machine, constructed once for the whole session.
    pub vm: InstrumentedVM,
}

impl Prover {
    /// The prover's internal invariant.
    pub open spec fn wf(self) -> bool {
        &&& self.params.wf()
        &&& self.vm.inv()
    }

    /// A prover for a program text; fails when the text does not parse.
    pub fn new(params: ProofParams, program_text: &Vec<u8>) -> (r: Result<Prover, ParseError>)
        requires
            params.wf(),
        ensures
            r is Ok <==> crate::parser::load_spec(program_text@) is Some,
            r matches Ok(p) ==> {
                let (pa, instrs, labels) = crate::parser::load_spec(program_text@)->Some_0;
                &&& p.wf()
                &&& p.params == params
                &&& p.vm.env() == (MachineEnv {
                    prog: instrs,
                    labels: labels,
                    word_size: pa.word_size,
                    num_regs: pa.registers,
                })
            },
    {
        match InstrumentedVM::new(program_text) {
            Ok(vm) => Ok(Prover { params, vm }),
            Err(e) => Err(e),
        }
    }

    /// Whether a run result makes its input a witness: the output matches
    /// the claim, the input lies in the claimed domain, and the digest
    /// passes the hash threshold.
    pub fn select_witness(&self, run_result: &RunResult) -> (r: bool)
        requires
            self.params.wf(),
            run_result.hash@.len() == 20,
        ensures
            r == {
                &&& run_result.output == self.params.expected_output
                &&& self.params.input_domain.spec_contains(run_result.input)
                &&& hash_value(run_result.hash@) < pow2(self.params.kappa as nat)
            },
    {
        if run_result.output != self.params.expected_output {
            return false;
        }
        if !self.params.input_domain.contains(run_result.input) {
            return false;
        }
        validate_hash(&run_result.hash, self.params.kappa)
    }

    /// Scan `[lo, hi)` in ascending order and collect every witness; a
    /// backwards range holds no inputs.
    fn scan(&mut self, lo: u64, hi: u64) -> (r: Result<Vec<u64>, VmError>)
        requires
            old(self).wf(),
        ensures
            final(self).wf(),
            final(self).vm.env() == old(self).vm.env(),
            final(self).vm.program == old(self).vm.program,
            final(self).params == old(self).params,
            ({
                let env = old(self).vm.env();
                let id = old(self).vm.program@;
                let params = old(self).params;
                match r {
                    Ok(vset) => vset@ == witnesses(env, id, params, lo as int, hi as int) && (
                    forall|i: u64| lo <= i < hi ==> run_ok(env, i)),
                    Err(_) => exists|i: u64| lo <= i < hi && !run_ok(env, i),
                }
            }),
    {
        let ghost env = self.vm.env();
        let ghost id = self.vm.program@;
        let ghost params = self.params;
        let mut vset: Vec<u64> = Vec::new();
        proof {
            assert(witnesses(env, id, params, lo as int, lo as int) =~= Seq::<u64>::empty());
        }
        if lo >= hi {
            proof {
                assert(witnesses(env, id, params, lo as int, hi as int) =~= Seq::<u64>::empty());
            }
            return Ok(vset);
        }
        let mut i: u64 = lo;
        while i < hi
            invariant
                lo <= i <= hi,
                self.wf(),
                self.vm.env() == env,
                self.vm.program == old(self).vm.program,
                id == self.vm.program@,
                self.params == params,
                params == old(self).params,
                env == old(self).vm.env(),
                params.wf(),
                vset@ == witnesses(env, id, params, lo as int, i as int),
                forall|j: u64| lo <= j < i ==> run_ok(env, j),
            decreases hi - i,
        {
            let rr = match self.vm.run(i) {
                Ok(rr) => rr,
                Err(e) => {
                    proof {
                        assert(!run_ok(env, i));
                    }
                    return Err(e);
                },
            };
            proof {
                lemma_witnesses_snoc(env, id, params, lo as int, i as int);
            }
            if self.select_witness(&rr) {
                vset.push(i);
                proof {
                    assert(accept(env, id, params, i));
                    assert(vset@ =~= witnesses(env, id, params, lo as int, i + 1));
                }
            } else {
                proof {
                    assert(!accept(env, id, params, i));
                    assert(vset@ =~= witnesses(env, id, params, lo as int, i + 1));
                }
            }
            i += 1;
        }
        Ok(vset)
    }

    /// Best effort: iterate the whole declared domain and hand over every
    /// witness found.
    pub fn obtain_proof_best_effort(self) -> (r: Result<Proof, VmError>)
        requires
            self.wf(),
        ensures
            scan_post(
                self.vm.env(),
                self.vm.program@,
                self.params,
                self.params.input_domain.start,
                self.params.input_domain.end,
                r,
            ),
    {
        let mut this = self;
        let lo = this.params.input_domain.start;
        let hi = this.params.input_domain.end;
        match this.scan(lo, hi) {
            Ok(vset) => Ok(Proof { vset, extended_domain: None, params: this.params }),
            Err(e) => Err(e),
        }
    }

    /// Fixed effort: the proof is assembled exactly as under best effort;
    /// the strategies differ only at the verifier's acceptance gate.
    pub fn obtain_proof_fixed_effort(self) -> (r: Result<Proof, VmError>)
        requires
            self.wf(),
        ensures
            scan_post(
                self.vm.env(),
                self.vm.program@,
                self.params,
                self.params.input_domain.start,
                self.params.input_domain.end,
                r,
            ),
    {
        self.obtain_proof_best_effort()
    }

    /// Best effort, adaptive: iterate the declared domain but stop as soon
    /// as the witness count exceeds `v_min`.
    pub fn obtain_proof_bea(self, v_min: u64) -> (r: Result<Proof, VmError>)
        requires
            self.wf(),
        ensures
            adaptive_post(
                self.vm.env(),
                self.vm.program@,
                self.params,
                v_min,
                self.params.input_domain.start,
                self.params.input_domain.end,
                r,
            ),
    {
        let ghost env = self.vm.env();
        let ghost id = self.vm.program@;
        let ghost params = self.params;
        let mut this = self;
        let lo = this.params.input_domain.start;
        let hi = this.params.input_domain.end;
        let mut vset: Vec<u64> = Vec::new();
        proof {
            assert(witnesses(env, id, params, lo as int, lo as int) =~= Seq::<u64>::empty());
        }
        if lo >= hi {
            proof {
                let j = lo;
                assert(lo <= j);
                assert(vset@ == witnesses(env, id, params, lo as int, j as int));
            }
            return Ok(Proof { vset, extended_domain: None, params: this.params });
        }
        let mut i: u64 = lo;
        while i < hi && vset.len() as u64 <= v_min
            invariant
                lo <= i <= hi,
                this.wf(),
                this.vm.env() == env,
                id == this.vm.program@,
                this.params == params,
                params.wf(),
                env == self.vm.env(),
                id == self.vm.program@,
                params == self.params,
                lo == self.params.input_domain.start,
                hi == self.params.input_domain.end,
                vset@ == witnesses(env, id, params, lo as int, i as int),
                forall|k: int|
                    lo <= k < i ==> witnesses(env, id, params, lo as int, k).len() <= v_min,
                forall|j: u64| lo <= j < i ==> run_ok(env, j),
                i < hi || vset@.len() <= v_min || i == hi,
                vset@.len() > v_min ==> (exists|j0: u64|
                    lo <= j0 <= i && vset@ == witnesses(env, id, params, lo as int, j0 as int)),
            decreases hi - i,
        {
            let rr = match this.vm.run(i) {
                Ok(rr) => rr,
                Err(e) => {
                    proof {
                        assert(!run_ok(env, i));
                    }
                    return Err(e);
                },
            };
            proof {
                lemma_witnesses_snoc(env, id, params, lo as int, i as int);
            }
            if this.select_witness(&rr) {
                vset.push(i);
                proof {
                    assert(accept(env, id, params, i));
                    assert(vset@ =~= witnesses(env, id, params, lo as int, i + 1));
                }
            } else {
                proof {
                    assert(!accept(env, id, params, i));
                    assert(vset@ =~= witnesses(env, id, params, lo as int, i + 1));
                }
            }
            i += 1;
        }
        proof {
            let j = i;
            assert(lo <= j <= hi);
            assert(vset@ == witnesses(env, id, params, lo as int, j as int));
            if i < hi {
                assert(vset@.len() > v_min);
            }
        }
        Ok(Proof { vset, extended_domain: None, params: this.params })
    }

    /// Overtesting: extend the domain by `delta_u` inputs, iterate all of
    /// the extended range, and record it in the proof.
    pub fn obtain_proof_overtesting(self, delta_u: u64) -> (r: Result<Proof, VmError>)
        requires
            self.wf(),
            self.params.input_domain.end + delta_u <= u64::MAX,
        ensures
            overtesting_post(self.vm.env(), self.vm.program@, self.params, delta_u, r),
    {
        let mut this = self;
        let lo = this.params.input_domain.start;
        let hi = this.params.input_domain.end + delta_u;
        match this.scan(lo, hi) {
            Ok(vset) => Ok(
                Proof {
                    vset,
                    extended_domain: Some(InputDomain { start: lo, end: hi }),
                    params: this.params,
                },
            ),
            Err(e) => Err(e),
        }
    }

    /// Assemble a proof for the claim, by the strategy of the parameters.
    pub fn obtain_proof(self) -> (r: Result<Proof, VmError>)
        requires
            self.wf(),
            self.params.strategy matches ProofStrategy::OverTesting { delta_u } ==> self
                .params
                .input_domain
                .end + delta_u <= u64::MAX,
        ensures
            ({
                let env = self.vm.env();
                let id = self.vm.program@;
                let lo = self.params.input_domain.start;
                let hi = self.params.input_domain.end;
                match self.params.strategy {
                    ProofStrategy::BestEffort => scan_post(env, id, self.params, lo, hi, r),
                    ProofStrategy::FixedEffort => scan_post(env, id, self.params, lo, hi, r),
                    ProofStrategy::BestEffortAdaptive { v_min } => adaptive_post(
                        env,
                        id,
                        self.params,
                        v_min,
                        lo,
                        hi,
                        r,
                    ),
                    ProofStrategy::OverTesting { delta_u } => overtesting_post(
                        env,
                        id,
                        self.params,
                        delta_u,
                        r,
                    ),
                }
            }),
    {
        match self.params.strategy {
            ProofStrategy::BestEffort => self.obtain_proof_best_effort(),
            ProofStrategy::FixedEffort => self.obtain_proof_fixed_effort(),
            ProofStrategy::BestEffortAdaptive { v_min } => self.obtain_proof_bea(v_min),
            ProofStrategy::OverTesting { delta_u } => self.obtain_proof_overtesting(delta_u),
        }
    }
}

} // verus!
