//! Operation modes: how much communication a gate sequence may consume.
//!
//! An operation mode wraps an executor and governs batching and the round
//! budget. Isolation mode caps communication hard: a gate sequence that
//! needs more rounds than the cap fails rather than degrade. Collaboration
//! mode runs with open communication. Each mode exposes a communication
//! pattern whose cost model (rounds, bytes per round, latency) uses declared
//! design constants, preserved exactly for reproducible estimates.

use vstd::prelude::*;
use vstd::arithmetic::mul::lemma_mul_inequality;
use crate::executor::{ExecCircuit, ExecutionError};
use crate::field::FieldElement;
use crate::secret_sharing::SecretSharing;

verus! {

/// A mode's policy for running a circuit over batched inputs.
pub trait OperationMode<SS: SecretSharing>: Sized {
    /// Whether a run over `num_inputs` inputs fits the mode's budget.
    spec fn exec_ok(self, num_inputs: int) -> bool;

    /// The communication pattern the mode induces.
    spec fn pattern_spec(self) -> CommunicationPattern;

    /// Execute a circuit over the inputs under this mode's policy.
    fn execute_circuit(&self, executor: &mut ExecCircuit<SS>, inputs: &[SS::Share]) -> (r: Result<
        Vec<SS::Share>,
        ExecutionError,
    >)
        ensures
            *final(executor) == *old(executor),
            match r {
                Ok(outputs) => self.exec_ok(inputs@.len() as int) && outputs@.len() == 0,
                Err(e) => !self.exec_ok(inputs@.len() as int) && e
                    == ExecutionError::CommunicationError,
            },
    ;

    /// Get the communication pattern for this mode.
    fn get_communication_pattern(&self) -> (r: CommunicationPattern)
        ensures
            r == self.pattern_spec(),
    ;

    /// Verify an execution under this mode; every transcript is accepted by
    /// the current open extension point.
    fn verify_execution(
        &self,
        executor: &ExecCircuit<SS>,
        inputs: &[FieldElement],
        outputs: &[FieldElement],
    ) -> (r: Result<bool, ExecutionError>)
        ensures
            r == Ok::<bool, ExecutionError>(true),
    ;
}

/// Isolation mode: parties work independently with minimal communication.
#[derive(Clone, Copy, Debug, PartialEq, Eq, Structural)]
pub struct IsolationMode {
    /// Level of isolation (0 = no communication, 1 = minimal, 2 = moderate).
    pub isolation_level: u8,
    /// Maximum allowed communication rounds.
    pub max_communication_rounds: usize,
}

/// The batch size an isolation level allows, a declared policy constant.
pub open spec fn isolation_batch_size(level: u8) -> usize {
    if level == 0 {
        1
    } else if level == 1 {
        10
    } else if level == 2 {
        100
    } else {
        1000
    }
}

impl IsolationMode {
    /// Create a new isolation mode.
    pub fn new(isolation_level: u8, max_communication_rounds: usize) -> (r: Self)
        ensures
            r.isolation_level == isolation_level,
            r.max_communication_rounds == max_communication_rounds,
    {
        IsolationMode { isolation_level, max_communication_rounds }
    }

    /// Whether communication is still allowed in the given round.
    pub fn is_communication_allowed(&self, round: usize) -> (r: bool)
        ensures
            r == (round < self.max_communication_rounds && self.isolation_level > 0),
    {
        round < self.max_communication_rounds && self.isolation_level > 0
    }

    /// Maximum batch size for operations at this isolation level.
    pub fn get_max_batch_size(&self) -> (r: usize)
        ensures
            r == isolation_batch_size(self.isolation_level),
    {
        match self.isolation_level {
            0 => 1,  // No batching, complete isolation
            1 => 10,  // Small batches
            2 => 100,  // Moderate batches
            _ => 1000,  // Large batches
        }
    }

    /// The communication pattern of this mode.
    pub fn get_communication_pattern(&self) -> (r: CommunicationPattern)
        ensures
            r == (CommunicationPattern::Minimal {
                max_rounds: self.max_communication_rounds,
                batch_size: isolation_batch_size(self.isolation_level),
            }),
    {
        CommunicationPattern::Minimal {
            max_rounds: self.max_communication_rounds,
            batch_size: self.get_max_batch_size(),
        }
    }
}

impl<SS: SecretSharing> OperationMode<SS> for IsolationMode {
    /// A run fits the budget when it is empty, or when the level permits
    /// communication and the inputs fit in `max_rounds` batches.
    open spec fn exec_ok(self, num_inputs: int) -> bool {
        num_inputs == 0 || (self.isolation_level > 0 && num_inputs
            <= self.max_communication_rounds * isolation_batch_size(self.isolation_level))
    }

    open spec fn pattern_spec(self) -> CommunicationPattern {
        CommunicationPattern::Minimal {
            max_rounds: self.max_communication_rounds,
            batch_size: isolation_batch_size(self.isolation_level),
        }
    }

    fn execute_circuit(&self, executor: &mut ExecCircuit<SS>, inputs: &[SS::Share]) -> (r: Result<
        Vec<SS::Share>,
        ExecutionError,
    >) {
        let mut outputs: Vec<SS::Share> = Vec::new();
        let mut communication_rounds: usize = 0;
        let batch_size = self.get_max_batch_size();
        let n = inputs.len();
        let mut start: usize = 0;
        while start < n
            invariant
                n == inputs@.len(),
                batch_size == isolation_batch_size(self.isolation_level),
                1 <= batch_size,
                start <= n,
                outputs@.len() == 0,
                *executor == *old(executor),
                start == n || start == communication_rounds * batch_size,
                start <= communication_rounds * batch_size,
                start > 0 ==> self.isolation_level > 0 && communication_rounds
                    <= self.max_communication_rounds,
            decreases n - start,
        {
            if self.is_communication_allowed(communication_rounds) {
                let remaining = n - start;
                let step = if remaining < batch_size {
                    remaining
                } else {
                    batch_size
                };
                let end = start + step;
                let batch = &inputs[start..end];
                match executor.execute_circuit(batch) {
                    Ok(mut batch_output) => {
                        outputs.append(&mut batch_output);
                    },
                    Err(e) => {
                        return Err(e);
                    },
                }
                proof {
                    lemma_mul_inequality(
                        communication_rounds as int,
                        communication_rounds + 1,
                        batch_size as int,
                    );
                }
                communication_rounds = communication_rounds + 1;
                start = end;
            } else {
                proof {
                    let b = isolation_batch_size(self.isolation_level) as int;
                    if self.isolation_level > 0 {
                        lemma_mul_inequality(
                            self.max_communication_rounds as int,
                            communication_rounds as int,
                            b,
                        );
                    }
                }
                return Err(ExecutionError::CommunicationError);
            }
        }
        proof {
            if n > 0 {
                lemma_mul_inequality(
                    communication_rounds as int,
                    self.max_communication_rounds as int,
                    batch_size as int,
                );
            }
        }
        Ok(outputs)
    }

    fn get_communication_pattern(&self) -> (r: CommunicationPattern) {
        CommunicationPattern::Minimal {
            max_rounds: self.max_communication_rounds,
            batch_size: self.get_max_batch_size(),
        }
    }

    fn verify_execution(
        &self,
        executor: &ExecCircuit<SS>,
        inputs: &[FieldElement],
        outputs: &[FieldElement],
    ) -> (r: Result<bool, ExecutionError>) {
        // Verification in isolation mode uses local checks only.
        executor.verify_execution(inputs, outputs)
    }
}

/// Collaboration mode: parties work together with open communication.
#[derive(Clone, Copy, Debug, PartialEq, Eq, Structural)]
pub struct CollaborationMode {
    /// Level of collaboration (1 = basic, 2 = enhanced, 3 = full).
    pub collaboration_level: u8,
    /// Whether to use optimized protocols.
    pub use_optimized_protocols: bool,
    /// Whether to enable parallel processing.
    pub enable_parallel_processing: bool,
}

/// The parallelism a collaboration level yields, a declared policy constant.
pub open spec fn collaboration_parallelism(level: u8, parallel: bool) -> usize {
    if !parallel {
        1
    } else if level == 1 {
        2
    } else if level == 2 {
        4
    } else if level == 3 {
        8
    } else {
        1
    }
}

impl CollaborationMode {
    /// Create a new collaboration mode.
    pub fn new(
        collaboration_level: u8,
        use_optimized_protocols: bool,
        enable_parallel_processing: bool,
    ) -> (r: Self)
        ensures
            r.collaboration_level == collaboration_level,
            r.use_optimized_protocols == use_optimized_protocols,
            r.enable_parallel_processing == enable_parallel_processing,
    {
        CollaborationMode { collaboration_level, use_optimized_protocols, enable_parallel_processing }
    }

    /// The degree of parallelism this mode runs with.
    pub fn get_parallelism_degree(&self) -> (r: usize)
        ensures
            r == collaboration_parallelism(
                self.collaboration_level,
                self.enable_parallel_processing,
            ),
    {
        if self.enable_parallel_processing {
            match self.collaboration_level {
                1 => 2,
                2 => 4,
                3 => 8,
                _ => 1,
            }
        } else {
            1
        }
    }

    /// Whether optimized protocols should be used.
    pub fn should_use_optimized_protocols(&self) -> (r: bool)
        ensures
            r == (self.use_optimized_protocols && self.collaboration_level >= 2),
    {
        self.use_optimized_protocols && self.collaboration_level >= 2
    }

    /// The communication pattern of this mode.
    pub fn get_communication_pattern(&self) -> (r: CommunicationPattern)
        ensures
            r == (CommunicationPattern::Full {
                parallelism_degree: collaboration_parallelism(
                    self.collaboration_level,
                    self.enable_parallel_processing,
                ),
                use_optimized_protocols: self.use_optimized_protocols
                    && self.collaboration_level >= 2,
            }),
    {
        CommunicationPattern::Full {
            parallelism_degree: self.get_parallelism_degree(),
            use_optimized_protocols: self.should_use_optimized_protocols(),
        }
    }

    /// Run the circuit with the work partitioned among parties. The
    /// partitioning itself is an open extension point; the executor is
    /// consulted once.
    fn execute_parallel<SS: SecretSharing>(
        &self,
        executor: &mut ExecCircuit<SS>,
        inputs: &[SS::Share],
    ) -> (r: Result<Vec<SS::Share>, ExecutionError>)
        ensures
            *final(executor) == *old(executor),
            match r {
                Ok(outputs) => outputs@.len() == 0,
                Err(_) => false,
            },
    {
        executor.execute_circuit(inputs)
    }

    /// Run the circuit sequentially with full communication.
    fn execute_sequential<SS: SecretSharing>(
        &self,
        executor: &mut ExecCircuit<SS>,
        inputs: &[SS::Share],
    ) -> (r: Result<Vec<SS::Share>, ExecutionError>)
        ensures
            *final(executor) == *old(executor),
            match r {
                Ok(outputs) => outputs@.len() == 0,
                Err(_) => false,
            },
    {
        executor.execute_circuit(inputs)
    }
}

impl<SS: SecretSharing> OperationMode<SS> for CollaborationMode {
    /// Collaboration mode imposes no communication budget.
    open spec fn exec_ok(self, num_inputs: int) -> bool {
        true
    }

    open spec fn pattern_spec(self) -> CommunicationPattern {
        CommunicationPattern::Full {
            parallelism_degree: collaboration_parallelism(
                self.collaboration_level,
                self.enable_parallel_processing,
            ),
            use_optimized_protocols: self.use_optimized_protocols && self.collaboration_level
                >= 2,
        }
    }

    fn execute_circuit(&self, executor: &mut ExecCircuit<SS>, inputs: &[SS::Share]) -> (r: Result<
        Vec<SS::Share>,
        ExecutionError,
    >) {
        if self.enable_parallel_processing {
            self.execute_parallel(executor, inputs)
        } else {
            self.execute_sequential(executor, inputs)
        }
    }

    fn get_communication_pattern(&self) -> (r: CommunicationPattern) {
        CommunicationPattern::Full {
            parallelism_degree: self.get_parallelism_degree(),
            use_optimized_protocols: self.should_use_optimized_protocols(),
        }
    }

    fn verify_execution(
        &self,
        executor: &ExecCircuit<SS>,
        inputs: &[FieldElement],
        outputs: &[FieldElement],
    ) -> (r: Result<bool, ExecutionError>) {
        // Collaboration at level 3 and above leaves room for additional
        // consistency checks; the baseline check is the executor's.
        executor.verify_execution(inputs, outputs)
    }
}

/// Communication patterns for the two modes.
#[derive(Clone, Copy, Debug, PartialEq, Eq, Structural)]
pub enum CommunicationPattern {
    /// Minimal communication with hard constraints.
    Minimal { max_rounds: usize, batch_size: usize },
    /// Full communication with optimization.
    Full { parallelism_degree: usize, use_optimized_protocols: bool },
}

impl CommunicationPattern {
    /// The estimated communication complexity of this pattern. The byte and
    /// latency figures are declared design parameters, not measurements.
    pub fn get_communication_complexity(&self) -> (r: CommunicationComplexity)
        requires
            self matches CommunicationPattern::Full { parallelism_degree, .. }
                ==> parallelism_degree * 4096 <= usize::MAX,
        ensures
            match *self {
                CommunicationPattern::Minimal { max_rounds, batch_size } => r
                    == (CommunicationComplexity {
                    rounds: max_rounds,
                    bytes_per_round: 1024,
                    latency_ms: 10,
                }),
                CommunicationPattern::Full { parallelism_degree, use_optimized_protocols } => r
                    == (CommunicationComplexity {
                    rounds: (parallelism_degree * 2) as usize,
                    bytes_per_round: ((if use_optimized_protocols {
                        2048int
                    } else {
                        4096int
                    }) * parallelism_degree) as usize,
                    latency_ms: 5,
                }),
            },
    {
        match self {
            CommunicationPattern::Minimal { max_rounds, .. } => {
                CommunicationComplexity {
                    rounds: *max_rounds,
                    bytes_per_round: 1024,  // Conservative estimate
                    latency_ms: 10,  // Low latency due to minimal communication
                }
            },
            CommunicationPattern::Full { parallelism_degree, use_optimized_protocols } => {
                let base_bytes: usize = if *use_optimized_protocols {
                    2048
                } else {
                    4096
                };
                CommunicationComplexity {
                    rounds: *parallelism_degree * 2,  // More rounds for coordination
                    bytes_per_round: base_bytes * *parallelism_degree,
                    latency_ms: 5,  // Lower latency due to optimizations
                }
            },
        }
    }
}

/// Communication complexity metrics.
#[derive(Clone, Copy, Debug, PartialEq, Eq, Structural)]
pub struct CommunicationComplexity {
    /// Number of communication rounds.
    pub rounds: usize,
    /// Bytes communicated per round.
    pub bytes_per_round: usize,
    /// Latency per round in milliseconds.
    pub latency_ms: u64,
}

impl CommunicationComplexity {
    /// Total communication cost in bytes.
    pub fn total_bytes(&self) -> (r: usize)
        requires
            self.rounds * self.bytes_per_round <= usize::MAX,
        ensures
            r == self.rounds * self.bytes_per_round,
    {
        self.rounds * self.bytes_per_round
    }

    /// Total latency in milliseconds.
    pub fn total_latency_ms(&self) -> (r: u64)
        requires
            self.rounds * self.latency_ms <= u64::MAX,
        ensures
            r == self.rounds * self.latency_ms,
    {
        (self.rounds as u64) * self.latency_ms
    }
}

} // verus!
