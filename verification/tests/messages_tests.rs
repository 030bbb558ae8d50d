use psi_protocol::BlindedPointsMessage;
use psi_protocol::DoubleBlindedPointsMessage;
use psi_protocol::PsiError;
use psi_protocol::PsiResult;

#[test]
fn test_blinded_points_message_new() {
    let blinded_points = vec![[0u8; 32]];
    let msg = BlindedPointsMessage::new(blinded_points.clone());
    assert_eq!(msg.blinded_points, blinded_points);
    assert_eq!(msg.len(), 1);
    assert!(!msg.is_empty());
}

#[test]
fn test_blinded_points_message_empty() {
    let msg = BlindedPointsMessage::new(vec![]);
    assert_eq!(msg.len(), 0);
    assert!(msg.is_empty());
}

#[test]
fn test_blinded_points_message_validated() {
    let blinded_points = vec![[0u8; 32]];
    let msg = BlindedPointsMessage::new_validated(blinded_points.clone());
    assert!(msg.is_ok());
    assert_eq!(msg.unwrap().blinded_points, blinded_points);
}

#[test]
fn test_blinded_points_message_validated_empty() {
    let msg = BlindedPointsMessage::new_validated(vec![]);
    assert!(msg.is_err());
    assert_eq!(
        msg.unwrap_err(),
        PsiError::InvalidBlindedPoints("Blinded points vector cannot be empty".to_string())
    );
}

#[test]
fn test_psi_result() {
    let hash = [1u8; 32];
    let point = [0u8; 32];
    let map = vec![(hash, point)];

    let result = PsiResult::new(vec![hash], map.clone());
    assert_eq!(result.len(), 1);
    assert!(!result.is_empty());
    assert_eq!(result.intersection_hashes, vec![hash]);
    assert_eq!(result.double_blinded_map, map);
}

#[test]
fn test_psi_result_empty() {
    let result = PsiResult::new(vec![], vec![]);
    assert_eq!(result.len(), 0);
    assert!(result.is_empty());
}

#[test]
fn test_double_blinded_points_message_new() {
    let double_blinded_points = vec![[0u8; 32]];
    let msg = DoubleBlindedPointsMessage::new(double_blinded_points.clone());
    assert_eq!(msg.double_blinded_points, double_blinded_points);
    assert_eq!(msg.len(), 1);
    assert!(!msg.is_empty());
}

#[test]
fn test_double_blinded_points_message_empty() {
    let msg = DoubleBlindedPointsMessage::new(vec![]);
    assert_eq!(msg.len(), 0);
    assert!(msg.is_empty());
}
