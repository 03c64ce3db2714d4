use eos_mpc::executor::{ExecCircuit, ExecutionError, ExecutionStats};
use eos_mpc::field::{fe_from_u64, FieldElement};
use eos_mpc::rng::MpcRng;
use eos_mpc::secret_sharing::{
    AdditiveSecretSharing, SecretSharing, SecretSharingError, ShamirSecretSharing, ShamirShare,
};

fn fe(x: u64) -> FieldElement {
    fe_from_u64(x)
}

#[test]
fn executor_add_gate_adds_secrets() {
    let mut rng = MpcRng::from_seed(31);
    let mut exec = ExecCircuit::new(0, 5, ShamirSecretSharing::new());
    let sh_a = exec.input_secret(&fe(19), 3, &mut rng).unwrap();
    let sh_b = exec.input_secret(&fe(23), 3, &mut rng).unwrap();
    let mut summed: Vec<ShamirShare> = Vec::new();
    for i in 0..3 {
        summed.push(exec.add_gate(&sh_a[i], &sh_b[i]).unwrap());
    }
    let result = exec.reveal_secret(&summed).unwrap();
    assert_eq!(result, fe(42));
}

#[test]
fn executor_mul_gate_multiplies_with_threshold_one() {
    // With threshold one each share carries the secret itself, so the naive
    // product of shares reveals the product of the secrets.
    let mut rng = MpcRng::from_seed(32);
    let mut exec = ExecCircuit::new(0, 1, ShamirSecretSharing::new());
    let sh_a = exec.input_secret(&fe(6), 1, &mut rng).unwrap();
    let sh_b = exec.input_secret(&fe(7), 1, &mut rng).unwrap();
    let prod = exec.mul_gate(&sh_a[0], &sh_b[0]).unwrap();
    assert_eq!(exec.reveal_secret(&[prod]).unwrap(), fe(42));
}

#[test]
fn executor_mul_gate_fails_for_additive_scheme() {
    let mut rng = MpcRng::from_seed(33);
    let mut exec = ExecCircuit::new(0, 3, AdditiveSecretSharing::new());
    let sh_a = exec.input_secret(&fe(2), 0, &mut rng).unwrap();
    let sh_b = exec.input_secret(&fe(3), 0, &mut rng).unwrap();
    let r = exec.mul_gate(&sh_a[0], &sh_b[0]);
    assert!(matches!(
        r,
        Err(ExecutionError::SecretSharingError(SecretSharingError::ReconstructionFailed))
    ));
}

#[test]
fn executor_linear_combination_gate_combines_secrets() {
    // reveal(linear_combination([s1, s2], [c1, c2])) == c1*v1 + c2*v2.
    let mut rng = MpcRng::from_seed(34);
    let mut exec = ExecCircuit::new(0, 5, ShamirSecretSharing::new());
    let sh_a = exec.input_secret(&fe(3), 3, &mut rng).unwrap();
    let sh_b = exec.input_secret(&fe(5), 3, &mut rng).unwrap();
    let mut combined: Vec<ShamirShare> = Vec::new();
    for i in 0..3 {
        let shares = [sh_a[i].clone(), sh_b[i].clone()];
        let coeffs = [fe(2), fe(7)];
        combined.push(exec.linear_combination_gate(&shares, &coeffs).unwrap());
    }
    let result = exec.reveal_secret(&combined).unwrap();
    assert_eq!(result, fe(2 * 3 + 7 * 5));
}

#[test]
fn executor_linear_combination_gate_rejects_bad_input() {
    let mut rng = MpcRng::from_seed(35);
    let mut exec = ExecCircuit::new(0, 3, ShamirSecretSharing::new());
    let sh = exec.input_secret(&fe(1), 2, &mut rng).unwrap();
    let empty_shares: [ShamirShare; 0] = [];
    let empty_coeffs: [FieldElement; 0] = [];
    let r = exec.linear_combination_gate(&empty_shares, &empty_coeffs);
    assert!(matches!(r, Err(ExecutionError::InvalidInput)));
    let shares = [sh[0].clone(), sh[1].clone()];
    let coeffs = [fe(1)];
    let r = exec.linear_combination_gate(&shares, &coeffs);
    assert!(matches!(r, Err(ExecutionError::InvalidInput)));
    let coeffs2 = [fe(1), fe(1)];
    let r = exec.linear_combination_gate(&shares, &coeffs2);
    assert!(matches!(
        r,
        Err(ExecutionError::SecretSharingError(SecretSharingError::InvalidShares))
    ));
}

#[test]
fn executor_scheme_errors_are_wrapped() {
    let mut rng = MpcRng::from_seed(36);
    let mut exec = ExecCircuit::new(1, 3, ShamirSecretSharing::new());
    let r = exec.input_secret(&fe(5), 4, &mut rng);
    assert!(matches!(
        r,
        Err(ExecutionError::SecretSharingError(SecretSharingError::InvalidInput))
    ));
    let none: Vec<ShamirShare> = Vec::new();
    let r = exec.reveal_secret(&none);
    assert!(matches!(
        r,
        Err(ExecutionError::SecretSharingError(SecretSharingError::InsufficientShares))
    ));
}

#[test]
fn executor_open_extension_hooks() {
    let mut exec = ExecCircuit::new(0, 2, ShamirSecretSharing::new());
    let inputs: [ShamirShare; 0] = [];
    let outputs = exec.execute_circuit(&inputs).unwrap();
    assert!(outputs.is_empty());
    let ok = exec.verify_execution(&[], &[]).unwrap();
    assert!(ok);
}

#[test]
fn execution_stats_merge_accumulates() {
    let mut a = ExecutionStats::new();
    assert_eq!(a.num_add_gates, 0);
    a.num_add_gates = 2;
    a.num_mul_gates = 1;
    a.communication_rounds = 3;
    a.bytes_communicated = 100;
    a.execution_time_ms = 7;
    let mut b = ExecutionStats::new();
    b.num_add_gates = 5;
    b.bytes_communicated = 11;
    b.merge(&a);
    assert_eq!(b.num_add_gates, 7);
    assert_eq!(b.num_mul_gates, 1);
    assert_eq!(b.communication_rounds, 3);
    assert_eq!(b.bytes_communicated, 111);
    assert_eq!(b.execution_time_ms, 7);
}

#[test]
fn execution_error_messages() {
    assert_eq!(ExecutionError::InvalidInput.message(), "Invalid input provided");
    assert_eq!(
        ExecutionError::CommunicationError.message(),
        "Communication error between parties"
    );
    assert_eq!(
        ExecutionError::VerificationFailed.message(),
        "Circuit execution verification failed"
    );
    assert_eq!(
        ExecutionError::SecretSharingError(SecretSharingError::InvalidShares).message(),
        "Secret sharing error: Invalid shares provided"
    );
    assert_eq!(
        ExecutionError::CircuitError(String::from("bad wire")).message(),
        "Circuit error: bad wire"
    );
}

#[test]
fn executor_add_gate_adds_additive_secrets() {
    let mut rng = MpcRng::from_seed(37);
    let mut exec = ExecCircuit::new(0, 4, AdditiveSecretSharing::new());
    let sh_a = exec.input_secret(&fe(30), 0, &mut rng).unwrap();
    let sh_b = exec.input_secret(&fe(12), 0, &mut rng).unwrap();
    let mut summed = Vec::new();
    for i in 0..4 {
        summed.push(exec.add_gate(&sh_a[i], &sh_b[i]).unwrap());
    }
    assert_eq!(exec.reveal_secret(&summed).unwrap(), fe(42));
}

#[test]
fn executor_linear_combination_gate_additive() {
    let mut rng = MpcRng::from_seed(38);
    let mut exec = ExecCircuit::new(0, 3, AdditiveSecretSharing::new());
    let sh_a = exec.input_secret(&fe(4), 0, &mut rng).unwrap();
    let sh_b = exec.input_secret(&fe(9), 0, &mut rng).unwrap();
    let mut combined = Vec::new();
    for i in 0..3 {
        let shares = [sh_a[i].clone(), sh_b[i].clone()];
        let coeffs = [fe(3), fe(10)];
        combined.push(exec.linear_combination_gate(&shares, &coeffs).unwrap());
    }
    assert_eq!(exec.reveal_secret(&combined).unwrap(), fe(3 * 4 + 10 * 9));
}

#[test]
fn executor_add_gate_rejects_mismatched_indices() {
    let mut rng = MpcRng::from_seed(39);
    let mut exec = ExecCircuit::new(0, 3, ShamirSecretSharing::new());
    let sh = exec.input_secret(&fe(8), 2, &mut rng).unwrap();
    let r = exec.add_gate(&sh[0], &sh[1]);
    assert!(matches!(
        r,
        Err(ExecutionError::SecretSharingError(SecretSharingError::InvalidShares))
    ));
}
