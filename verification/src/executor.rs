//! Circuit executor: arithmetic-circuit gates over secret-shared values.
//!
//! An `ExecCircuit` binds a sharing scheme to a party's view of an MPC
//! session and exposes the gates as thin, exactly-specified steps over the
//! scheme's share algebra. All gates here are local: Shamir multiplication
//! multiplies share values naively and therefore yields a share of a
//! degree-doubled polynomial; a degree-reduction sub-protocol is a separate
//! extension point, not performed here.

use vstd::prelude::*;
use vstd::string::StringExecFns;
use crate::field::{fadd, fe_val, fe_wf, fmul, FieldElement};
use crate::rng::MpcRng;
use crate::secret_sharing::{SecretSharing, SecretSharingError};

verus! {

/// Errors of the executor layer. Scheme errors are wrapped, not discarded.
#[derive(Clone, Debug, PartialEq)]
pub enum ExecutionError {
    SecretSharingError(SecretSharingError),
    InvalidInput,
    CommunicationError,
    VerificationFailed,
    CircuitError(String),
}

impl ExecutionError {
    /// A human-readable description of the error.
    pub fn message(&self) -> (r: String) {
        match self {
            ExecutionError::SecretSharingError(e) => {
                let mut s = "Secret sharing error: ".to_owned();
                s.append(e.message());
                s
            },
            ExecutionError::InvalidInput => "Invalid input provided".to_owned(),
            ExecutionError::CommunicationError => "Communication error between parties".to_owned(),
            ExecutionError::VerificationFailed => "Circuit execution verification failed".to_owned(),
            ExecutionError::CircuitError(msg) => {
                let mut s = "Circuit error: ".to_owned();
                s.append(msg.as_str());
                s
            },
        }
    }
}

/// Field value of the linear combination of the first `k` shares with the
/// first `k` coefficients, folded term by term from the left.
pub open spec fn lincomb_prefix<SS: SecretSharing>(
    shares: Seq<SS::Share>,
    coeffs: Seq<FieldElement>,
    k: int,
) -> int
    decreases k,
{
    if k <= 1 {
        fmul(SS::share_value(shares[0]), fe_val(coeffs[0]))
    } else {
        fadd(
            lincomb_prefix::<SS>(shares, coeffs, k - 1),
            fmul(SS::share_value(shares[k - 1]), fe_val(coeffs[k - 1])),
        )
    }
}

/// A party's executor: its identity, the session size, and the scheme.
pub struct ExecCircuit<SS: SecretSharing> {
    /// Party identifier in the MPC protocol; always below `num_parties`.
    pub party_id: usize,
    /// Number of parties in the protocol.
    pub num_parties: usize,
    /// Secret sharing scheme instance.
    pub secret_sharing: SS,
}

impl<SS: SecretSharing> ExecCircuit<SS> {
    /// The executor's structural invariant.
    pub open spec fn wf(self) -> bool {
        self.party_id < self.num_parties
    }

    /// Create a new circuit executor for one party.
    pub fn new(party_id: usize, num_parties: usize, secret_sharing: SS) -> (r: Self)
        requires
            party_id < num_parties,
        ensures
            r.party_id == party_id,
            r.num_parties == num_parties,
            r.wf(),
    {
        ExecCircuit { party_id, num_parties, secret_sharing }
    }

    /// Execute an addition gate: local pointwise addition of two shares.
    pub fn add_gate(&mut self, left: &SS::Share, right: &SS::Share) -> (r: Result<
        SS::Share,
        ExecutionError,
    >)
        requires
            SS::share_wf(*left),
            SS::share_wf(*right),
        ensures
            *final(self) == *old(self),
            match r {
                Ok(s) => SS::share_index(*left) == SS::share_index(*right) && SS::share_wf(s)
                    && SS::share_index(s) == SS::share_index(*left) && SS::share_value(s) == fadd(
                    SS::share_value(*left),
                    SS::share_value(*right),
                ),
                Err(e) => SS::share_index(*left) != SS::share_index(*right) && e
                    == ExecutionError::SecretSharingError(SecretSharingError::InvalidShares),
            },
    {
        match SS::add_shares(left, right) {
            Ok(s) => Ok(s),
            Err(e) => Err(ExecutionError::SecretSharingError(e)),
        }
    }

    /// Execute a multiplication gate. For Shamir this is the naive value
    /// product (a share of a degree-doubled polynomial); for additive
    /// sharing it is unsupported and fails.
    pub fn mul_gate(&mut self, left: &SS::Share, right: &SS::Share) -> (r: Result<
        SS::Share,
        ExecutionError,
    >)
        requires
            SS::share_wf(*left),
            SS::share_wf(*right),
        ensures
            *final(self) == *old(self),
            match r {
                Ok(s) => SS::mul_supported() && SS::share_wf(s) && SS::share_index(s)
                    == SS::share_index(*left) && SS::share_value(s) == fmul(
                    SS::share_value(*left),
                    SS::share_value(*right),
                ),
                Err(e) => !SS::mul_supported() && e == ExecutionError::SecretSharingError(
                    SecretSharingError::ReconstructionFailed,
                ),
            },
    {
        match SS::mul_shares(left, right) {
            Ok(s) => Ok(s),
            Err(e) => Err(ExecutionError::SecretSharingError(e)),
        }
    }

    /// Execute a linear-combination gate: `sum_i coeffs[i] * shares[i]`,
    /// computed left to right as scalar multiplications and additions.
    pub fn linear_combination_gate(
        &mut self,
        shares: &[SS::Share],
        coefficients: &[FieldElement],
    ) -> (r: Result<SS::Share, ExecutionError>)
        requires
            forall|i: int| 0 <= i < shares@.len() ==> #[trigger] SS::share_wf(shares@[i]),
            forall|i: int| 0 <= i < coefficients@.len() ==> fe_wf(#[trigger] coefficients@[i]),
        ensures
            *final(self) == *old(self),
            match r {
                Ok(s) => shares@.len() == coefficients@.len() && shares@.len() >= 1 && (forall|
                    i: int,
                |
                    0 <= i < shares@.len() ==> #[trigger] SS::share_index(shares@[i])
                        == SS::share_index(shares@[0])) && SS::share_wf(s) && SS::share_index(s)
                    == SS::share_index(shares@[0]) && SS::share_value(s) == lincomb_prefix::<SS>(
                    shares@,
                    coefficients@,
                    shares@.len() as int,
                ),
                Err(e) => if shares@.len() != coefficients@.len() || shares@.len() == 0 {
                    e == ExecutionError::InvalidInput
                } else {
                    (exists|i: int|
                        0 <= i < shares@.len() && #[trigger] SS::share_index(shares@[i])
                            != SS::share_index(shares@[0])) && e
                        == ExecutionError::SecretSharingError(SecretSharingError::InvalidShares)
                },
            },
    {
        if shares.len() != coefficients.len() {
            return Err(ExecutionError::InvalidInput);
        }
        if shares.len() == 0 {
            return Err(ExecutionError::InvalidInput);
        }
        let mut result = SS::scalar_mul_share(&shares[0], coefficients[0]);
        let mut i: usize = 1;
        while i < shares.len()
            invariant
                1 <= i <= shares@.len(),
                shares@.len() == coefficients@.len(),
                forall|t: int| 0 <= t < shares@.len() ==> #[trigger] SS::share_wf(shares@[t]),
                forall|t: int| 0 <= t < coefficients@.len() ==> fe_wf(#[trigger] coefficients@[t]),
                SS::share_wf(result),
                SS::share_index(result) == SS::share_index(shares@[0]),
                SS::share_value(result) == lincomb_prefix::<SS>(shares@, coefficients@, i as int),
                forall|t: int|
                    0 <= t < i ==> #[trigger] SS::share_index(shares@[t]) == SS::share_index(
                        shares@[0],
                    ),
            decreases shares@.len() - i,
        {
            let term = SS::scalar_mul_share(&shares[i], coefficients[i]);
            match SS::add_shares(&result, &term) {
                Ok(s) => {
                    result = s;
                },
                Err(e) => {
                    return Err(ExecutionError::SecretSharingError(e));
                },
            }
            i = i + 1;
        }
        Ok(result)
    }

    /// Input a secret into the circuit: split it among the session's
    /// parties with the given threshold.
    pub fn input_secret(
        &mut self,
        secret: &FieldElement,
        threshold: usize,
        rng: &mut MpcRng,
    ) -> (r: Result<Vec<SS::Share>, ExecutionError>)
        requires
            fe_wf(*secret),
        ensures
            *final(self) == *old(self),
            match r {
                Ok(shares) => SS::params_ok(threshold as int, old(self).num_parties as int)
                    && shares@.len() == old(self).num_parties && (forall|i: int|
                    0 <= i < shares@.len() ==> #[trigger] SS::share_wf(shares@[i]))
                    && SS::shares_post(
                    fe_val(*secret),
                    threshold as int,
                    old(self).num_parties as int,
                    shares@,
                ),
                Err(e) => !SS::params_ok(threshold as int, old(self).num_parties as int) && e
                    == ExecutionError::SecretSharingError(SecretSharingError::InvalidInput),
            },
    {
        match SS::share_secret(secret, threshold, self.num_parties, rng) {
            Ok(v) => Ok(v),
            Err(e) => Err(ExecutionError::SecretSharingError(e)),
        }
    }

    /// Reveal a secret-shared value from a quorum of shares.
    pub fn reveal_secret(&self, shares: &[SS::Share]) -> (r: Result<FieldElement, ExecutionError>)
        requires
            forall|i: int| 0 <= i < shares@.len() ==> #[trigger] SS::share_wf(shares@[i]),
        ensures
            match r {
                Ok(v) => fe_wf(v) && SS::reconstruct_spec(shares@) == Ok::<
                    int,
                    SecretSharingError,
                >(fe_val(v)),
                Err(e) => exists|se: SecretSharingError|
                    SS::reconstruct_spec(shares@) == Err::<int, SecretSharingError>(se) && e
                        == ExecutionError::SecretSharingError(se),
            },
    {
        match SS::reconstruct_secret(shares) {
            Ok(v) => Ok(v),
            Err(e) => Err(ExecutionError::SecretSharingError(e)),
        }
    }

    /// Execute an entire circuit over the given inputs. The circuit body is
    /// an open extension point; this produces no outputs.
    pub fn execute_circuit(&mut self, _inputs: &[SS::Share]) -> (r: Result<
        Vec<SS::Share>,
        ExecutionError,
    >)
        ensures
            *final(self) == *old(self),
            match r {
                Ok(outputs) => outputs@.len() == 0,
                Err(_) => false,
            },
    {
        Ok(Vec::new())
    }

    /// Verify the integrity of a circuit execution. The check is an open
    /// extension point; it accepts every transcript.
    pub fn verify_execution(&self, _inputs: &[FieldElement], _outputs: &[FieldElement]) -> (r:
        Result<bool, ExecutionError>)
        ensures
            r == Ok::<bool, ExecutionError>(true),
    {
        Ok(true)
    }
}

/// Tallies of one or more circuit executions.
#[derive(Clone, Copy, Debug, PartialEq, Eq, Structural)]
pub struct ExecutionStats {
    /// Number of addition gates executed.
    pub num_add_gates: usize,
    /// Number of multiplication gates executed.
    pub num_mul_gates: usize,
    /// Total communication rounds.
    pub communication_rounds: usize,
    /// Total bytes communicated.
    pub bytes_communicated: usize,
    /// Execution time in milliseconds.
    pub execution_time_ms: u64,
}

impl ExecutionStats {
    /// Fresh, all-zero statistics.
    pub fn new() -> (r: Self)
        ensures
            r.num_add_gates == 0,
            r.num_mul_gates == 0,
            r.communication_rounds == 0,
            r.bytes_communicated == 0,
            r.execution_time_ms == 0,
    {
        ExecutionStats {
            num_add_gates: 0,
            num_mul_gates: 0,
            communication_rounds: 0,
            bytes_communicated: 0,
            execution_time_ms: 0,
        }
    }

    /// Accumulate the tallies of another execution into this one.
    pub fn merge(&mut self, other: &ExecutionStats)
        requires
            old(self).num_add_gates + other.num_add_gates <= usize::MAX,
            old(self).num_mul_gates + other.num_mul_gates <= usize::MAX,
            old(self).communication_rounds + other.communication_rounds <= usize::MAX,
            old(self).bytes_communicated + other.bytes_communicated <= usize::MAX,
            old(self).execution_time_ms + other.execution_time_ms <= u64::MAX,
        ensures
            final(self).num_add_gates == old(self).num_add_gates + other.num_add_gates,
            final(self).num_mul_gates == old(self).num_mul_gates + other.num_mul_gates,
            final(self).communication_rounds == old(self).communication_rounds
                + other.communication_rounds,
            final(self).bytes_communicated == old(self).bytes_communicated
                + other.bytes_communicated,
            final(self).execution_time_ms == old(self).execution_time_ms
                + other.execution_time_ms,
    {
        self.num_add_gates = self.num_add_gates + other.num_add_gates;
        self.num_mul_gates = self.num_mul_gates + other.num_mul_gates;
        self.communication_rounds = self.communication_rounds + other.communication_rounds;
        self.bytes_communicated = self.bytes_communicated + other.bytes_communicated;
        self.execution_time_ms = self.execution_time_ms + other.execution_time_ms;
    }
}

} // verus!
