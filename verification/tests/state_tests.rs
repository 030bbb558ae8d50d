use psi_protocol::crypto::random_scalar;
use psi_protocol::ComputingState;
use psi_protocol::DoubleBlindedState;
use psi_protocol::FinalState;
use psi_protocol::PreparedState;
use psi_protocol::PsiState;

#[test]
fn test_prepared_state_new() {
    let secret = random_scalar();
    let state = PreparedState::new(secret, vec![], vec![]);
    assert!(!state.hash_to_blinded().iter().any(|entry| entry.0 == [0u8; 32]));
}

#[test]
fn test_computing_state_new() {
    let secret = random_scalar();
    let state = ComputingState::new(secret, vec![], vec![], vec![]);
    assert!(!state.blinded_map().iter().any(|entry| entry.0 == [0u8; 32]));
}

#[test]
fn test_final_state_new() {
    let state = FinalState::new(vec![]);
    assert!(!state.hash_to_double_blinded().iter().any(|entry| entry.0 == [0u8; 32]));
}

fn assert_implements_psistate<S: PsiState>() {}

#[test]
fn test_all_states_implement_psi_state() {
    // This test verifies that all state types implement PsiState
    assert_implements_psistate::<PreparedState>();
    assert_implements_psistate::<ComputingState>();
    assert_implements_psistate::<DoubleBlindedState>();
    assert_implements_psistate::<FinalState>();
}
