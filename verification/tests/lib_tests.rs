use psi_protocol::crypto::hash_bytes;
use psi_protocol::protocol::run_pair;
use psi_protocol::PsiError;
use psi_protocol::PsiProtocol;
use rand::RngCore;
use std::collections::HashSet;

fn random_topic_hash(rng: &mut rand::rngs::OsRng) -> [u8; 32] {
    let mut array = [0u8; 32];
    rng.fill_bytes(&mut array);
    array
}

#[test]
fn test_full_protocol_with_intersection() {
    // Create test data: 90 unique each, 10 common
    let mut rng = rand::rngs::OsRng;
    let mut alice_items = Vec::new();
    let mut bob_items = Vec::new();

    for _ in 0..90 {
        alice_items.push(random_topic_hash(&mut rng).to_vec());
        bob_items.push(random_topic_hash(&mut rng).to_vec());
    }

    // Add 10 common items
    for _ in 0..10 {
        let common = random_topic_hash(&mut rng).to_vec();
        alice_items.push(common.clone());
        bob_items.push(common);
    }

    // Execute protocol
    let alice = PsiProtocol::new(&alice_items).unwrap();
    let bob = PsiProtocol::new(&bob_items).unwrap();

    let alice_msg = alice.message();
    let bob_msg = bob.message();

    let (alice_intermediate, alice_double_msg) = alice.compute(bob_msg).unwrap();
    let (bob_intermediate, bob_double_msg) = bob.compute(alice_msg).unwrap();

    let (_alice_final, alice_result) = alice_intermediate.finalize(bob_double_msg).unwrap();
    let (_bob_final, bob_result) = bob_intermediate.finalize(alice_double_msg).unwrap();

    // Verify results
    assert_eq!(alice_result.len(), 10);
    assert_eq!(bob_result.len(), 10);

    // Convert to sets for comparison (order may differ)
    let alice_set: HashSet<_> = alice_result.intersection_hashes.into_iter().collect();
    let bob_set: HashSet<_> = bob_result.intersection_hashes.into_iter().collect();
    assert_eq!(alice_set, bob_set);

    assert_eq!(alice_result.double_blinded_map.len(), 10);
    assert_eq!(bob_result.double_blinded_map.len(), 10);
}

#[test]
fn test_full_protocol_no_intersection() {
    let alice_items = vec![b"apple".to_vec(), b"banana".to_vec()];
    let bob_items = vec![b"cherry".to_vec(), b"date".to_vec()];

    let alice = PsiProtocol::new(&alice_items).unwrap();
    let bob = PsiProtocol::new(&bob_items).unwrap();

    let alice_msg = alice.message();
    let bob_msg = bob.message();

    let (alice_intermediate, alice_double_msg) = alice.compute(bob_msg).unwrap();
    let (bob_intermediate, bob_double_msg) = bob.compute(alice_msg).unwrap();

    let (_alice_final, alice_result) = alice_intermediate.finalize(bob_double_msg).unwrap();
    let (_bob_final, bob_result) = bob_intermediate.finalize(alice_double_msg).unwrap();

    assert_eq!(alice_result.len(), 0);
    assert_eq!(bob_result.len(), 0);
}

#[test]
fn test_full_protocol_single_item_intersection() {
    let common_item = b"common".to_vec();
    let alice_items = vec![b"alice_only".to_vec(), common_item.clone()];
    let bob_items = vec![b"bob_only".to_vec(), common_item];

    let alice = PsiProtocol::new(&alice_items).unwrap();
    let bob = PsiProtocol::new(&bob_items).unwrap();

    let alice_msg = alice.message();
    let bob_msg = bob.message();

    let (alice_intermediate, alice_double_msg) = alice.compute(bob_msg).unwrap();
    let (bob_intermediate, bob_double_msg) = bob.compute(alice_msg).unwrap();

    let (_alice_final, alice_result) = alice_intermediate.finalize(bob_double_msg).unwrap();
    let (_bob_final, bob_result) = bob_intermediate.finalize(alice_double_msg).unwrap();

    assert_eq!(alice_result.len(), 1);
    assert_eq!(bob_result.len(), 1);
    assert_eq!(
        alice_result.intersection_hashes,
        bob_result.intersection_hashes
    );
}

#[test]
fn test_run_pair_shared_pairs() {
    // Two items of four shared on each side.
    let alice_items = vec![
        b"a".to_vec(),
        b"s1".to_vec(),
        b"a2".to_vec(),
        b"s2".to_vec(),
    ];
    let bob_items = vec![
        b"b1".to_vec(),
        b"s1".to_vec(),
        b"b2".to_vec(),
        b"s2".to_vec(),
    ];
    let (alice_result, bob_result) = run_pair(&alice_items, &bob_items).unwrap();
    assert_eq!(alice_result.len(), 2);
    assert_eq!(bob_result.len(), 2);

    let expected: HashSet<[u8; 32]> = vec![hash_bytes(b"s1"), hash_bytes(b"s2")]
        .into_iter()
        .collect();
    let alice_set: HashSet<[u8; 32]> = alice_result.intersection_hashes.into_iter().collect();
    let bob_set: HashSet<[u8; 32]> = bob_result.intersection_hashes.into_iter().collect();
    assert_eq!(alice_set, expected);
    assert_eq!(bob_set, expected);
}

#[test]
fn test_run_pair_disjoint() {
    let alice_items = vec![b"apple".to_vec(), b"banana".to_vec()];
    let bob_items = vec![b"cherry".to_vec(), b"date".to_vec()];
    let (alice_result, bob_result) = run_pair(&alice_items, &bob_items).unwrap();
    assert_eq!(alice_result.len(), 0);
    assert_eq!(bob_result.len(), 0);
}

#[test]
fn test_run_pair_single_item() {
    // Equal single items intersect in one digest; distinct ones in none.
    let (ra, rb) = run_pair(&vec![b"same".to_vec()], &vec![b"same".to_vec()]).unwrap();
    assert_eq!(ra.len(), 1);
    assert_eq!(rb.len(), 1);
    assert_eq!(ra.intersection_hashes, vec![hash_bytes(b"same")]);
    assert_eq!(rb.intersection_hashes, vec![hash_bytes(b"same")]);

    let (ra, rb) = run_pair(&vec![b"one".to_vec()], &vec![b"other".to_vec()]).unwrap();
    assert_eq!(ra.len(), 0);
    assert_eq!(rb.len(), 0);
}

#[test]
fn test_run_pair_empty_side() {
    let result = run_pair(&[], &vec![b"x".to_vec()]);
    assert!(matches!(result, Err(PsiError::EmptyInput)));
    let result = run_pair(&vec![b"x".to_vec()], &[]);
    assert!(matches!(result, Err(PsiError::EmptyInput)));
}

#[test]
fn test_run_pair_random_sets() {
    // 90 random items per side plus 10 shared random items: intersection of
    // exactly 10 on both sides, set-equal across sides.
    let mut rng = rand::rngs::OsRng;
    let mut alice_items = Vec::new();
    let mut bob_items = Vec::new();
    for _ in 0..90 {
        alice_items.push(random_topic_hash(&mut rng).to_vec());
        bob_items.push(random_topic_hash(&mut rng).to_vec());
    }
    for _ in 0..10 {
        let common = random_topic_hash(&mut rng).to_vec();
        alice_items.push(common.clone());
        bob_items.push(common);
    }
    let (alice_result, bob_result) = run_pair(&alice_items, &bob_items).unwrap();
    assert_eq!(alice_result.len(), 10);
    assert_eq!(bob_result.len(), 10);
    let alice_set: HashSet<_> = alice_result.intersection_hashes.into_iter().collect();
    let bob_set: HashSet<_> = bob_result.intersection_hashes.into_iter().collect();
    assert_eq!(alice_set, bob_set);
}
