use eos_mpc::executor::{ExecCircuit, ExecutionError};
use eos_mpc::field::fe_from_u64;
use eos_mpc::modes::{
    CollaborationMode, CommunicationComplexity, CommunicationPattern, IsolationMode,
    OperationMode,
};
use eos_mpc::rng::MpcRng;
use eos_mpc::secret_sharing::{SecretSharing, ShamirSecretSharing, ShamirShare};

#[test]
fn isolation_round_cap() {
    let mode = IsolationMode::new(1, 3);
    assert!(mode.is_communication_allowed(2));
    assert!(!mode.is_communication_allowed(3));
    let silent = IsolationMode::new(0, 3);
    assert!(!silent.is_communication_allowed(0));
}

#[test]
fn isolation_batch_sizes_per_level() {
    assert_eq!(IsolationMode::new(0, 1).get_max_batch_size(), 1);
    assert_eq!(IsolationMode::new(1, 1).get_max_batch_size(), 10);
    assert_eq!(IsolationMode::new(2, 1).get_max_batch_size(), 100);
    assert_eq!(IsolationMode::new(3, 1).get_max_batch_size(), 1000);
    assert_eq!(IsolationMode::new(200, 1).get_max_batch_size(), 1000);
}

#[test]
fn isolation_pattern_and_complexity() {
    let mode = IsolationMode::new(2, 4);
    let pattern = mode.get_communication_pattern();
    assert_eq!(
        pattern,
        CommunicationPattern::Minimal { max_rounds: 4, batch_size: 100 }
    );
    let c = pattern.get_communication_complexity();
    assert_eq!(c.rounds, 4);
    assert_eq!(c.bytes_per_round, 1024);
    assert_eq!(c.latency_ms, 10);
    assert_eq!(c.total_bytes(), 4096);
    assert_eq!(c.total_latency_ms(), 40);
}

#[test]
fn isolation_executes_within_budget() {
    let mut rng = MpcRng::from_seed(41);
    let mut exec = ExecCircuit::new(0, 3, ShamirSecretSharing::new());
    let shares = exec.input_secret(&fe_from_u64(9), 2, &mut rng).unwrap();
    // Level 1 batches 10 inputs per round; 3 inputs fit in one round.
    let mode = IsolationMode::new(1, 3);
    let out = mode.execute_circuit(&mut exec, &shares).unwrap();
    assert!(out.is_empty());
}

#[test]
fn isolation_blocks_when_rounds_exhausted() {
    let mut rng = MpcRng::from_seed(42);
    let mut exec = ExecCircuit::new(0, 3, ShamirSecretSharing::new());
    let shares = exec.input_secret(&fe_from_u64(9), 2, &mut rng).unwrap();
    // Level 0 forbids communication outright.
    let mode = IsolationMode::new(0, 5);
    let r = mode.execute_circuit(&mut exec, &shares);
    assert!(matches!(r, Err(ExecutionError::CommunicationError)));
    // Level 1 with no allowed round fails on the first batch.
    let capped = IsolationMode::new(1, 0);
    let r = capped.execute_circuit(&mut exec, &shares);
    assert!(matches!(r, Err(ExecutionError::CommunicationError)));
    // An empty input sequence consumes no rounds at all.
    let none: Vec<ShamirShare> = Vec::new();
    let out = capped.execute_circuit(&mut exec, &none).unwrap();
    assert!(out.is_empty());
}

#[test]
fn collaboration_parallelism_degrees() {
    assert_eq!(CollaborationMode::new(1, false, true).get_parallelism_degree(), 2);
    assert_eq!(CollaborationMode::new(2, false, true).get_parallelism_degree(), 4);
    assert_eq!(CollaborationMode::new(3, false, true).get_parallelism_degree(), 8);
    assert_eq!(CollaborationMode::new(9, false, true).get_parallelism_degree(), 1);
    assert_eq!(CollaborationMode::new(3, false, false).get_parallelism_degree(), 1);
}

#[test]
fn collaboration_optimized_protocol_policy() {
    assert!(CollaborationMode::new(2, true, false).should_use_optimized_protocols());
    assert!(CollaborationMode::new(3, true, true).should_use_optimized_protocols());
    assert!(!CollaborationMode::new(1, true, false).should_use_optimized_protocols());
    assert!(!CollaborationMode::new(3, false, false).should_use_optimized_protocols());
}

#[test]
fn collaboration_communication_complexity_example() {
    let mode = CollaborationMode::new(3, true, true);
    let pattern = mode.get_communication_pattern();
    assert_eq!(
        pattern,
        CommunicationPattern::Full { parallelism_degree: 8, use_optimized_protocols: true }
    );
    let c = pattern.get_communication_complexity();
    assert_eq!(c.rounds, 16);
    assert_eq!(c.bytes_per_round, 2048 * 8);
    assert_eq!(c.bytes_per_round, 16384);
    assert_eq!(c.latency_ms, 5);
    assert_eq!(c.total_bytes(), 262144);
    assert_eq!(c.total_latency_ms(), 80);
}

#[test]
fn collaboration_unoptimized_bytes_are_doubled() {
    let mode = CollaborationMode::new(3, false, true);
    let pattern = mode.get_communication_pattern();
    let c = pattern.get_communication_complexity();
    assert_eq!(c.rounds, 16);
    assert_eq!(c.bytes_per_round, 4096 * 8);
}

#[test]
fn collaboration_executes_both_paths() {
    let mut rng = MpcRng::from_seed(43);
    let mut exec = ExecCircuit::new(0, 3, ShamirSecretSharing::new());
    let shares = exec.input_secret(&fe_from_u64(4), 2, &mut rng).unwrap();
    let parallel = CollaborationMode::new(3, true, true);
    assert!(parallel.execute_circuit(&mut exec, &shares).unwrap().is_empty());
    let sequential = CollaborationMode::new(3, true, false);
    assert!(sequential.execute_circuit(&mut exec, &shares).unwrap().is_empty());
}

#[test]
fn modes_verify_execution_accepts() {
    let exec = ExecCircuit::new(0, 2, ShamirSecretSharing::new());
    let iso = IsolationMode::new(1, 1);
    assert!(OperationMode::<ShamirSecretSharing>::verify_execution(&iso, &exec, &[], &[]).unwrap());
    let collab = CollaborationMode::new(2, true, false);
    assert!(
        OperationMode::<ShamirSecretSharing>::verify_execution(&collab, &exec, &[], &[]).unwrap()
    );
}

#[test]
fn complexity_totals_multiply() {
    let c = CommunicationComplexity { rounds: 7, bytes_per_round: 3, latency_ms: 11 };
    assert_eq!(c.total_bytes(), 21);
    assert_eq!(c.total_latency_ms(), 77);
}
