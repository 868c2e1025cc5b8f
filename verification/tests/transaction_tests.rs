//! Transaction assembly: key and logic checks, delta tracking, and the
//! witness encodings handed to the prover.

use aarm::digest::{Digest, Hashable};
use aarm::keygen::{generate_merkle_path_32, random_32, random_nsk};
use aarm::logic::{LogicCircuit, TrivialLogicWitness, ACTION_TREE_DEPTH};
use aarm::merkle_path::MerklePath;
use aarm::resource::{NullifierKey, Resource};
use aarm::transaction::{
    generate_compliance_witness, generate_consumption_input, Transaction, TransactionError,
};

fn d(x: u32) -> Digest {
    Digest::new([x, x, x, x, x, x, x, x])
}

fn resource_with_key(key: &NullifierKey) -> Resource {
    Resource {
        logic_ref: d(1),
        label_ref: d(2),
        quantity: 5,
        value_ref: d(3),
        is_ephemeral: false,
        nonce: d(4),
        nk_commitment: key.commit(),
        rand_seed: d(5),
    }
}

/// An input with the wrong secret key is rejected with the key error and
/// the transaction is unchanged.
#[test]
fn add_input_rejects_wrong_key() {
    let key = NullifierKey { key: d(9) };
    let wrong = NullifierKey { key: d(10) };
    let r = resource_with_key(&key);
    let mut tx = Transaction::default();
    let e = tx.add_input(&r, &vec![1, 2, 3], &wrong, vec![0u8; 4], &d(100));
    assert_eq!(e, Err(TransactionError::IncorrectNullifierSecretKey(wrong)));
    assert_eq!(tx.proofs.len(), 0);
    assert_eq!(tx.consumed_total, 0);
}

/// A resource whose logic reference does not match the program image is
/// rejected; garbage bytes are no ELF at all.
#[test]
fn add_input_rejects_logic_mismatch() {
    let key = NullifierKey { key: d(9) };
    let r = resource_with_key(&key);
    let mut tx = Transaction::default();
    let e = tx.add_input(&r, &vec![1, 2, 3], &key, vec![0u8; 4], &d(100));
    assert_eq!(e, Err(TransactionError::LogicImageMismatch));
    let e = tx.add_output(&r, &vec![9, 9], vec![0u8; 4], &d(200));
    assert_eq!(e, Err(TransactionError::LogicImageMismatch));
    assert_eq!(tx.proofs.len(), 0);
}

/// The delta tracks consumed and created units; an empty transaction is
/// balanced.
#[test]
fn delta_tracking() {
    let tx = Transaction::default();
    assert!(tx.is_balanced());
    let tx2 = Transaction { proofs: Vec::new(), consumed_total: 5, created_total: 3 };
    assert!(!tx2.is_balanced());
    let tx3 = Transaction { proofs: Vec::new(), consumed_total: 4, created_total: 4 };
    assert!(tx3.is_balanced());
}

/// The consumption witness carries its parts and encodes every path
/// entry after the key and the resource.
#[test]
fn consumption_witness_encoding() {
    let key = random_nsk();
    let r = resource_with_key(&key);
    let path = generate_merkle_path_32();
    let w = generate_consumption_input(key, r, path);
    let bytes = w.encode();
    // key (32) + resource (202) + 32 levels of (32 + 1)
    assert_eq!(bytes.len(), 32 + 202 + 32 * 33);
    // the first path entry's digest has all words 1
    assert_eq!(bytes[32 + 202], 1);
    // level flags alternate, starting on the left
    assert_eq!(bytes[32 + 202 + 32], 0);
    assert_eq!(bytes[32 + 202 + 33 + 32], 1);
}

/// The compliance witness encodes both resources, the path, the delta
/// randomness and the key, in that order.
#[test]
fn compliance_witness_encoding() {
    let key = random_nsk();
    let consumed = resource_with_key(&key);
    let created = resource_with_key(&key);
    let path = generate_merkle_path_32();
    let w = generate_compliance_witness(consumed, created, d(33), path, key);
    let bytes = w.encode();
    // two resources (202 each) + 32 levels of 33 + rcv (32) + key (32)
    assert_eq!(bytes.len(), 202 + 202 + 32 * 33 + 32 + 32);
    // both resource encodings open with the commitment domain tag
    assert_eq!(bytes[0], 2);
    assert_eq!(bytes[202], 2);
}

/// Freshly drawn values have the right shape.
#[test]
fn random_values_have_expected_shape() {
    let bytes = random_32();
    assert_eq!(bytes.len(), 32);
    let k1 = random_nsk();
    let k2 = random_nsk();
    // two independent draws commit differently with overwhelming probability
    assert_ne!(k1.commit(), k2.commit());
}

/// The trivial logic constrains an admissible witness to its tag and the
/// root its existence path climbs to.
#[test]
fn trivial_logic_constrain() {
    let key = NullifierKey { key: d(9) };
    let mut r = resource_with_key(&key);
    r.quantity = 0;
    r.is_ephemeral = true;
    let mut auth = Vec::new();
    for i in 0..ACTION_TREE_DEPTH {
        auth.push((d(i as u32 + 40), i % 2 == 0));
    }
    let path = MerklePath::<{ ACTION_TREE_DEPTH }, Digest>::from_path(auth.clone());
    let w = TrivialLogicWitness::new(r, path, key, true);
    let instance = w.constrain();
    let nf = r.nullifier(&key).expect("key matches");
    assert_eq!(instance.tag, nf);
    assert!(instance.is_consumed);
    // the root folds the tag up the path, combining by level
    let mut cur = nf;
    for (i, e) in auth.iter().enumerate() {
        cur = if e.1 { Digest::combine(i, &e.0, &cur) } else { Digest::combine(i, &cur, &e.0) };
    }
    assert_eq!(instance.root, cur);
    assert_eq!(instance.cipher, vec![1, 2, 3, 4]);
    assert_eq!(instance.app_data.len(), 2);
    assert_eq!(instance.app_data[1].blob, vec![5, 6, 7, 8]);
    assert_eq!(instance.app_data[1].deletion_criterion, 1);

    // a created resource exposes its commitment
    let path2 = MerklePath::<{ ACTION_TREE_DEPTH }, Digest>::from_path(auth);
    let w2 = TrivialLogicWitness::new(r, path2, key, false);
    assert_eq!(w2.constrain().tag, r.commitment());

    // the padding witness is admissible by construction
    let wd = TrivialLogicWitness::default_witness();
    assert_eq!(wd.resource.quantity, 0);
    assert!(wd.resource.is_ephemeral);
}
