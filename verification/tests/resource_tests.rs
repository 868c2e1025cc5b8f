//! Resource identity: commitments and nullifiers, their determinism, and
//! the key-mismatch failure. The hash wrappers are cross-checked against
//! the backend's own SHA-256.

use aarm::digest::{Digest, Hashable};
use aarm::keygen::{generate_npk, generate_resource};
use aarm::resource::{NullifierKey, NullifierKeyCommitment, Resource};

fn d(x: u32) -> Digest {
    Digest::new([x, x, x, x, x, x, x, x])
}

fn sample_resource(key: &NullifierKey) -> Resource {
    Resource {
        logic_ref: d(1),
        label_ref: d(2),
        quantity: 7,
        value_ref: d(3),
        is_ephemeral: false,
        nonce: d(4),
        nk_commitment: key.commit(),
        rand_seed: d(5),
    }
}

/// Deriving a nullifier twice from the same inputs gives the same digest,
/// and it differs from the resource's commitment.
#[test]
fn nullifier_is_deterministic_and_distinct() {
    let key = NullifierKey { key: d(9) };
    let r = sample_resource(&key);
    let n1 = r.nullifier(&key).expect("matching key must derive");
    let n2 = r.nullifier(&key).expect("matching key must derive");
    assert_eq!(n1, n2);
    assert_ne!(n1, r.commitment());
}

/// A key whose commitment is not the resource's recorded one fails with
/// key-mismatch and never silently returns a digest.
#[test]
fn nullifier_key_mismatch_fails() {
    let key = NullifierKey { key: d(9) };
    let wrong = NullifierKey { key: d(10) };
    let r = sample_resource(&key);
    assert!(r.nullifier(&wrong).is_none());
    assert!(r.nullifier(&key).is_some());
}

/// The commitment is the SHA-256 of the canonical encoding: cross-checked
/// against the backend hash over the same bytes.
#[test]
fn commitment_matches_backend_hash() {
    let key = NullifierKey { key: d(9) };
    let r = sample_resource(&key);
    let encoding = r.encode();
    let expected = <risc0_zkvm::sha::Impl as risc0_zkvm::sha::Sha256>::hash_bytes(&encoding);
    let got = r.commitment();
    let w = expected.as_words();
    assert_eq!(
        [got.w0, got.w1, got.w2, got.w3, got.w4, got.w5, got.w6, got.w7],
        [w[0], w[1], w[2], w[3], w[4], w[5], w[6], w[7]]
    );
}

/// The canonical encoding lays every field down at its fixed offset.
#[test]
fn encoding_layout() {
    let key = NullifierKey { key: d(9) };
    let r = sample_resource(&key);
    let e = r.encode();
    assert_eq!(e.len(), 202);
    assert_eq!(e[0], 2);
    // quantity as eight little-endian bytes after the two digests
    assert_eq!(&e[65..73], &[7, 0, 0, 0, 0, 0, 0, 0]);
    // the ephemeral flag
    assert_eq!(e[105], 0);
}

/// The combine operation hashes the height, then both children: checked
/// against the backend hash over the same preimage.
#[test]
fn combine_matches_backend_hash() {
    let a = d(1);
    let b = d(2);
    let got = Digest::combine(3, &a, &b);
    let mut preimage: Vec<u8> = Vec::new();
    preimage.extend_from_slice(&3u64.to_le_bytes());
    for w in [a.w0, a.w1, a.w2, a.w3, a.w4, a.w5, a.w6, a.w7] {
        preimage.extend_from_slice(&w.to_le_bytes());
    }
    for w in [b.w0, b.w1, b.w2, b.w3, b.w4, b.w5, b.w6, b.w7] {
        preimage.extend_from_slice(&w.to_le_bytes());
    }
    let expected = <risc0_zkvm::sha::Impl as risc0_zkvm::sha::Sha256>::hash_bytes(&preimage);
    let w = expected.as_words();
    assert_eq!(
        [got.w0, got.w1, got.w2, got.w3, got.w4, got.w5, got.w6, got.w7],
        [w[0], w[1], w[2], w[3], w[4], w[5], w[6], w[7]]
    );
    // domain separation: the height matters
    assert_ne!(Digest::combine(4, &a, &b), got);
}

/// The key generators commit consistently.
#[test]
fn key_commitments_are_stable() {
    let key = NullifierKey { key: d(21) };
    let c1: NullifierKeyCommitment = generate_npk(&key);
    let c2 = key.commit();
    let c3 = key.public_key();
    assert_eq!(c1, c2);
    assert_eq!(c2, c3);
    assert_ne!(c1.commitment, key.key);
}

/// Building a resource from parts hashes the raw logic and nonce bytes.
#[test]
fn generate_resource_hashes_parts() {
    let key = NullifierKey { key: d(9) };
    let logic_bytes = vec![1u8, 2, 3];
    let nonce_bytes = vec![4u8, 5];
    let r = generate_resource(
        d(2),
        &nonce_bytes,
        7,
        d(3),
        true,
        key.commit(),
        &logic_bytes,
        d(5),
    );
    let logic = <risc0_zkvm::sha::Impl as risc0_zkvm::sha::Sha256>::hash_bytes(&logic_bytes);
    let lw = logic.as_words();
    assert_eq!(r.logic_ref, Digest::new([lw[0], lw[1], lw[2], lw[3], lw[4], lw[5], lw[6], lw[7]]));
    assert!(r.is_ephemeral);
    assert_eq!(r.quantity, 7);
}
