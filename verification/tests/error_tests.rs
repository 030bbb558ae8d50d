use psi_protocol::PsiError;

#[test]
fn test_error_display() {
    assert_eq!(
        PsiError::EmptyInput.describe(),
        "Input data cannot be empty"
    );
    assert_eq!(
        PsiError::InvalidBlindedPoints("test".to_string()).describe(),
        "Invalid blinded points: test"
    );
    assert_eq!(
        PsiError::CryptoError("test".to_string()).describe(),
        "Cryptographic error: test"
    );
}

#[test]
fn test_result_type() {
    let ok_result: Result<(), PsiError> = Ok(());
    let err_result: Result<(), PsiError> = Err(PsiError::EmptyInput);
    assert!(ok_result.is_ok());
    assert!(err_result.is_err());
}
