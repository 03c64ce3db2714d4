use eos_mpc::field::{fe_from_u64, FieldElement};
use eos_mpc::rng::MpcRng;
use eos_mpc::secret_sharing::{
    AdditiveSecretSharing, AdditiveShare, SecretSharing, SecretSharingError, ShamirSecretSharing,
    ShamirShare,
};

fn fe(x: u64) -> FieldElement {
    fe_from_u64(x)
}

#[test]
fn shamir_round_trip_small_parameters() {
    let mut rng = MpcRng::from_seed(7);
    for threshold in 1..=5usize {
        for num_parties in threshold..=6usize {
            let secret = fe(123456789);
            let shares =
                ShamirSecretSharing::share_secret(&secret, threshold, num_parties, &mut rng)
                    .unwrap();
            assert_eq!(shares.len(), num_parties);
            let recovered =
                ShamirSecretSharing::reconstruct_secret(&shares[..threshold]).unwrap();
            assert_eq!(recovered, secret);
        }
    }
}

#[test]
fn shamir_round_trip_fifty_parties() {
    let mut rng = MpcRng::from_seed(11);
    let secret = fe(987654321);
    let shares = ShamirSecretSharing::share_secret(&secret, 10, 50, &mut rng).unwrap();
    assert_eq!(shares.len(), 50);
    let recovered = ShamirSecretSharing::reconstruct_secret(&shares[..10]).unwrap();
    assert_eq!(recovered, secret);
    // Any other threshold-sized subset reconstructs the same secret.
    let subset: Vec<ShamirShare> = shares.iter().rev().take(10).cloned().collect();
    let again = ShamirSecretSharing::reconstruct_secret(&subset).unwrap();
    assert_eq!(again, secret);
}

#[test]
fn shamir_example_end_to_end() {
    // Secret 42, threshold 3, parties 5: shares at indices 1..=5, any 3
    // reconstruct 42, and 2 reconstruct an unrelated value.
    let mut rng = MpcRng::from_seed(12345);
    let secret = fe(42);
    let shares = ShamirSecretSharing::share_secret(&secret, 3, 5, &mut rng).unwrap();
    assert_eq!(shares.len(), 5);
    for (i, s) in shares.iter().enumerate() {
        assert_eq!(s.index, i + 1);
    }
    let first3 = ShamirSecretSharing::reconstruct_secret(&shares[..3]).unwrap();
    assert_eq!(first3, secret);
    let mixed = [shares[1].clone(), shares[3].clone(), shares[4].clone()];
    assert_eq!(ShamirSecretSharing::reconstruct_secret(&mixed).unwrap(), secret);
    let too_few = ShamirSecretSharing::reconstruct_secret(&shares[..2]).unwrap();
    assert_ne!(too_few, secret);
}

#[test]
fn shamir_threshold_subset_permutation_invariance() {
    let mut rng = MpcRng::from_seed(99);
    let secret = fe(5550123);
    let shares = ShamirSecretSharing::share_secret(&secret, 3, 6, &mut rng).unwrap();
    let subsets: [[usize; 3]; 4] = [[0, 1, 2], [3, 4, 5], [5, 2, 0], [4, 1, 3]];
    for idxs in subsets.iter() {
        let subset: Vec<ShamirShare> = idxs.iter().map(|&i| shares[i].clone()).collect();
        assert_eq!(ShamirSecretSharing::reconstruct_secret(&subset).unwrap(), secret);
    }
}

#[test]
fn shamir_rejects_threshold_above_parties() {
    let mut rng = MpcRng::from_seed(1);
    let r = ShamirSecretSharing::share_secret(&fe(9), 4, 3, &mut rng);
    assert!(matches!(r, Err(SecretSharingError::InvalidInput)));
}

#[test]
fn shamir_reconstruct_empty_is_insufficient() {
    let none: Vec<ShamirShare> = Vec::new();
    let r = ShamirSecretSharing::reconstruct_secret(&none);
    assert!(matches!(r, Err(SecretSharingError::InsufficientShares)));
}

#[test]
fn shamir_duplicate_indices_are_invalid() {
    let mut rng = MpcRng::from_seed(2);
    let shares = ShamirSecretSharing::share_secret(&fe(77), 2, 4, &mut rng).unwrap();
    let dup = [shares[0].clone(), shares[0].clone()];
    let r = ShamirSecretSharing::reconstruct_secret(&dup);
    assert!(matches!(r, Err(SecretSharingError::InvalidShares)));
}

#[test]
fn shamir_add_shares_requires_matching_index() {
    let a = ShamirShare { index: 1, value: fe(10) };
    let b = ShamirShare { index: 2, value: fe(20) };
    assert!(matches!(
        ShamirSecretSharing::add_shares(&a, &b),
        Err(SecretSharingError::InvalidShares)
    ));
    let c = ShamirShare { index: 1, value: fe(20) };
    let sum = ShamirSecretSharing::add_shares(&a, &c).unwrap();
    assert_eq!(sum.index, 1);
    assert_eq!(sum.value, fe(30));
}

#[test]
fn shamir_mul_and_scalar_mul_on_plain_shares() {
    let a = ShamirShare { index: 3, value: fe(6) };
    let b = ShamirShare { index: 3, value: fe(7) };
    let prod = ShamirSecretSharing::mul_shares(&a, &b).unwrap();
    assert_eq!(prod.index, 3);
    assert_eq!(prod.value, fe(42));
    let scaled = ShamirSecretSharing::scalar_mul_share(&a, fe(5));
    assert_eq!(scaled.index, 3);
    assert_eq!(scaled.value, fe(30));
}

#[test]
fn shamir_verify_share_is_trivially_true() {
    let a = ShamirShare { index: 1, value: fe(1) };
    assert!(ShamirSecretSharing::verify_share(&a, &()));
    let b = AdditiveShare { party_id: 0, value: fe(1) };
    assert!(AdditiveSecretSharing::verify_share(&b, &()));
}

#[test]
fn additive_round_trip_all_sizes() {
    let mut rng = MpcRng::from_seed(21);
    for num_parties in 1..=10usize {
        let secret = fe(31337);
        let shares =
            AdditiveSecretSharing::share_secret(&secret, 0, num_parties, &mut rng).unwrap();
        assert_eq!(shares.len(), num_parties);
        for (i, s) in shares.iter().enumerate() {
            assert_eq!(s.party_id, i);
        }
        let recovered = AdditiveSecretSharing::reconstruct_secret(&shares).unwrap();
        assert_eq!(recovered, secret);
    }
}

#[test]
fn additive_omitting_any_share_gives_wrong_value() {
    let mut rng = MpcRng::from_seed(22);
    let secret = fe(424242);
    let shares = AdditiveSecretSharing::share_secret(&secret, 0, 5, &mut rng).unwrap();
    for skip in 0..5usize {
        let partial: Vec<AdditiveShare> = shares
            .iter()
            .enumerate()
            .filter(|(i, _)| *i != skip)
            .map(|(_, s)| s.clone())
            .collect();
        let wrong = AdditiveSecretSharing::reconstruct_secret(&partial).unwrap();
        assert_ne!(wrong, secret);
    }
}

#[test]
fn additive_rejects_zero_parties() {
    let mut rng = MpcRng::from_seed(3);
    let r = AdditiveSecretSharing::share_secret(&fe(5), 0, 0, &mut rng);
    assert!(matches!(r, Err(SecretSharingError::InvalidInput)));
}

#[test]
fn additive_mul_shares_is_unsupported() {
    let a = AdditiveShare { party_id: 0, value: fe(2) };
    let b = AdditiveShare { party_id: 0, value: fe(3) };
    let r = AdditiveSecretSharing::mul_shares(&a, &b);
    assert!(matches!(r, Err(SecretSharingError::ReconstructionFailed)));
}

#[test]
fn additive_scalar_mul_scales_reconstruction() {
    let mut rng = MpcRng::from_seed(23);
    let secret = fe(6);
    let shares = AdditiveSecretSharing::share_secret(&secret, 0, 4, &mut rng).unwrap();
    let scaled: Vec<AdditiveShare> =
        shares.iter().map(|s| AdditiveSecretSharing::scalar_mul_share(s, fe(7))).collect();
    let revealed = AdditiveSecretSharing::reconstruct_secret(&scaled).unwrap();
    assert_eq!(revealed, fe(42));
}

#[test]
fn shamir_scalar_mul_scales_reconstruction() {
    let mut rng = MpcRng::from_seed(24);
    let secret = fe(6);
    let shares = ShamirSecretSharing::share_secret(&secret, 3, 5, &mut rng).unwrap();
    let scaled: Vec<ShamirShare> =
        shares.iter().map(|s| ShamirSecretSharing::scalar_mul_share(s, fe(7))).collect();
    let revealed = ShamirSecretSharing::reconstruct_secret(&scaled[..3]).unwrap();
    assert_eq!(revealed, fe(42));
}

#[test]
fn error_messages_name_each_failure() {
    assert_eq!(
        SecretSharingError::InsufficientShares.message(),
        "Insufficient shares for reconstruction"
    );
    assert_eq!(SecretSharingError::InvalidShares.message(), "Invalid shares provided");
    assert_eq!(SecretSharingError::ReconstructionFailed.message(), "Secret reconstruction failed");
    assert_eq!(SecretSharingError::InvalidInput.message(), "Invalid sharing parameters");
}
