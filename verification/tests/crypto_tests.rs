use psi_protocol::crypto::blind_point;
use psi_protocol::crypto::blind_points;
use psi_protocol::crypto::decompress_point;
use psi_protocol::crypto::hash_bytes;
use psi_protocol::crypto::hash_inputs_to_points;
use psi_protocol::crypto::hash_multiple;
use psi_protocol::crypto::hash_to_point;
use psi_protocol::crypto::random_scalar;
use psi_protocol::PsiError;

#[test]
fn test_hash_bytes() {
    let input = b"test input";
    let hash1 = hash_bytes(input);
    let hash2 = hash_bytes(input);
    assert_eq!(hash1, hash2, "Hashing same input should produce same output");

    let different_input = b"different input";
    let hash3 = hash_bytes(different_input);
    assert_ne!(
        hash1, hash3,
        "Hashing different input should produce different output"
    );
}

#[test]
fn test_hash_to_point() {
    let hash = [42u8; 32];
    let point1 = hash_to_point(&hash);
    let point2 = hash_to_point(&hash);
    assert_eq!(point1, point2, "Hash-to-curve should be deterministic");
}

#[test]
fn test_hash_multiple() {
    let inputs = vec![b"apple".to_vec(), b"banana".to_vec()];
    let hashes = hash_multiple(&inputs);
    assert_eq!(hashes.len(), 2);
    assert_ne!(
        hashes[0], hashes[1],
        "Different inputs should produce different hashes"
    );
}

#[test]
fn test_hash_inputs_to_points() {
    let inputs = vec![b"apple".to_vec(), b"banana".to_vec()];
    let map = hash_inputs_to_points(&inputs);
    assert_eq!(map.len(), 2);

    // Verify the same input produces the same hash and point
    let hashes = hash_multiple(&inputs);
    assert!(map.iter().any(|entry| entry.0 == hashes[0]));
    assert!(map.iter().any(|entry| entry.0 == hashes[1]));
}

#[test]
fn test_blind_point() {
    let hash = [42u8; 32];
    let point = hash_to_point(&hash);
    let secret = random_scalar();
    let blinded = blind_point(&point, &secret);

    // Blinded point should be a valid compressed point
    let decompressed = decompress_point(&blinded);
    assert!(decompressed.is_ok(), "Blinded point should be valid");
}

#[test]
fn test_blind_points() {
    let inputs = vec![b"apple".to_vec(), b"banana".to_vec()];
    let points = hash_inputs_to_points(&inputs);
    let secret = random_scalar();
    let blinded = blind_points(&points, &secret);

    assert_eq!(blinded.len(), 2);
    // Blinded points should be valid compressed points
    for entry in &blinded {
        assert!(decompress_point(&entry.1).is_ok());
    }
}

#[test]
fn test_random_scalar() {
    let scalar1 = random_scalar();
    let scalar2 = random_scalar();
    // With overwhelming probability, two random scalars should be different
    assert_ne!(scalar1, scalar2, "Random scalars should be different");
}

#[test]
fn test_decompress_point() {
    let hash = [42u8; 32];
    let point = hash_to_point(&hash);
    let decompressed = decompress_point(&point);

    assert!(decompressed.is_ok());
    assert_eq!(decompressed.unwrap(), point);
}

#[test]
fn test_decompress_point_invalid() {
    // An all-zeros compressed point is unlikely to be valid
    let invalid = [0u8; 32];
    let result = decompress_point(&invalid);
    // This might fail or succeed depending on the point, but the function should handle it
    // If it succeeds, it's a valid point; if it fails, it should return an error
    match result {
        Ok(_) => {}, // Valid point, that's fine
        Err(e) => assert!(matches!(e, PsiError::CryptoError(_))),
    }
}

#[test]
fn test_hash_not_identity() {
    // The digest of a 32-byte input differs from the input itself.
    let input = [7u8; 32];
    let digest = hash_bytes(&input);
    assert_ne!(digest, input);
}

#[test]
fn test_hash_to_point_not_identity() {
    // The curve point of a digest differs from the digest bytes.
    let digest = hash_bytes(b"some item");
    let point = hash_to_point(&digest);
    assert_ne!(point, digest);
}

#[test]
fn test_blind_changes_point() {
    // Blinding moves the point: the blinded encoding differs from the
    // original encoding (up to the negligible chance of a unit scalar).
    let point = hash_to_point(&hash_bytes(b"some item"));
    let secret = random_scalar();
    let blinded = blind_point(&point, &secret);
    assert_ne!(blinded, point);
}

#[test]
fn test_blind_point_deterministic() {
    // Same point, same secret: same blinded encoding.
    let point = hash_to_point(&hash_bytes(b"another item"));
    let secret = random_scalar();
    assert_eq!(blind_point(&point, &secret), blind_point(&point, &secret));
}

#[test]
fn test_hash_inputs_to_points_dedup() {
    // Duplicate items collapse to one digest entry.
    let inputs = vec![b"pear".to_vec(), b"pear".to_vec(), b"plum".to_vec()];
    let map = hash_inputs_to_points(&inputs);
    assert_eq!(map.len(), 2);
    assert_eq!(map[0].0, hash_bytes(b"pear"));
    assert_eq!(map[1].0, hash_bytes(b"plum"));
}
