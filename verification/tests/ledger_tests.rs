//! Ledger behaviour: atomicity, no double-spend, no duplicate creation,
//! and the end-to-end create-then-consume scenario.

use aarm::digest::Digest;
use aarm::ledger::{CheckedProof, Claim, ResourceMachine, ResourceMachineError};
use aarm::resource::{NullifierKey, Resource};
use aarm::transaction::{ProofRecord, Transaction};

fn d(x: u32) -> Digest {
    Digest::new([x, x, x, x, x, x, x, x])
}

fn machine() -> ResourceMachine {
    ResourceMachine::new(d(100), d(200))
}

fn valid_create(c: Digest) -> CheckedProof {
    CheckedProof { valid: true, claim: Claim::Create { commitment: c } }
}

fn valid_consume(root: Digest, n: Digest) -> CheckedProof {
    CheckedProof { valid: true, claim: Claim::Consume { root, nullifier: n } }
}

/// A transaction holding one valid creation and one unit whose proof
/// fails leaves the nullifier set, commitment list and root set exactly
/// as they were.
#[test]
fn failing_unit_leaves_ledger_unchanged() {
    let mut m = machine();
    m.apply_checked(&vec![valid_create(d(1))]).expect("creation applies");
    let roots_before = m.roots().clone();
    let nullifiers_before = m.nullifiers().clone();
    let commitments_before = m.commitments().clone();

    let bad = CheckedProof { valid: false, claim: Claim::Create { commitment: d(2) } };
    let r = m.apply_checked(&vec![valid_create(d(3)), bad]);
    assert_eq!(r, Err(ResourceMachineError::InvalidProof));

    assert_eq!(m.roots(), &roots_before);
    assert_eq!(m.nullifiers(), &nullifiers_before);
    assert_eq!(m.commitments(), &commitments_before);
}

/// Revealing a nullifier a second time fails with the revealed-nullifier
/// error, whatever transaction brings it.
#[test]
fn no_double_spend() {
    let mut m = machine();
    m.apply_checked(&vec![valid_create(d(1))]).expect("creation applies");
    let root = m.roots()[0];
    let n = d(7);
    m.apply_checked(&vec![valid_consume(root, n)]).expect("first consumption applies");

    let r = m.apply_checked(&vec![valid_consume(root, n)]);
    assert_eq!(r, Err(ResourceMachineError::RevealedNullifier(n)));
}

/// Creating the same commitment a second time fails with the
/// duplicate-commitment error.
#[test]
fn no_duplicate_creation() {
    let mut m = machine();
    m.apply_checked(&vec![valid_create(d(1))]).expect("first creation applies");
    let r = m.apply_checked(&vec![valid_create(d(1))]);
    assert_eq!(r, Err(ResourceMachineError::DuplicateCommitment(d(1))));

    // Two identical creations inside one transaction both pass the
    // pre-state checks and are both committed.
    let mut m2 = machine();
    m2.apply_checked(&vec![valid_create(d(2)), valid_create(d(2))]).expect("applies");
    assert_eq!(m2.commitments().len(), 2);
}

/// A consumption against a root the ledger has never seen is rejected.
#[test]
fn unknown_root_rejected() {
    let mut m = machine();
    let r = m.apply_checked(&vec![valid_consume(d(5), d(6))]);
    assert_eq!(r, Err(ResourceMachineError::UnknownRoot(d(5))));
}

/// A unit whose journal did not decode is rejected.
#[test]
fn malformed_instance_rejected() {
    let mut m = machine();
    let r = m.apply_checked(&vec![CheckedProof { valid: true, claim: Claim::Malformed }]);
    assert_eq!(r, Err(ResourceMachineError::MalformedInstance));
}

/// End to end: a creation-only transaction commits the resource, a
/// consumption against the new root reveals its nullifier, and replaying
/// the consumption fails without changing state.
#[test]
fn create_then_consume_then_replay() {
    let key = NullifierKey { key: d(9) };
    let resource = Resource {
        logic_ref: d(1),
        label_ref: d(2),
        quantity: 0,
        value_ref: d(3),
        is_ephemeral: false,
        nonce: d(4),
        nk_commitment: key.commit(),
        rand_seed: d(5),
    };
    let cm = resource.commitment();
    let nf = resource.nullifier(&key).expect("key matches");

    let mut m = machine();
    // Apply a creation-only transaction for the resource
    m.apply_checked(&vec![valid_create(cm)]).expect("creation applies");
    assert_eq!(m.commitments(), &vec![cm]);
    assert_eq!(m.roots().len(), 1);
    assert_eq!(m.nullifiers().len(), 0);

    // The committed resource has a valid Merkle path against the new root
    let root = m.roots()[0];
    let path = m.tree().path(0);
    assert_eq!(path.root(cm), root);
    assert_eq!(root, m.tree().root());

    // Consume it against that root
    m.apply_checked(&vec![valid_consume(root, nf)]).expect("consumption applies");
    assert_eq!(m.nullifiers(), &vec![nf]);

    // Replaying the same consumption fails and changes nothing
    let nullifiers_before = m.nullifiers().clone();
    let roots_before = m.roots().clone();
    let commitments_before = m.commitments().clone();
    let r = m.apply_checked(&vec![valid_consume(root, nf)]);
    assert_eq!(r, Err(ResourceMachineError::RevealedNullifier(nf)));
    assert_eq!(m.nullifiers(), &nullifiers_before);
    assert_eq!(m.roots(), &roots_before);
    assert_eq!(m.commitments(), &commitments_before);
}

/// Units the machine does not dispatch on pass verification but change
/// nothing.
#[test]
fn other_units_are_inert() {
    let mut m = machine();
    m.apply_checked(&vec![CheckedProof { valid: true, claim: Claim::Other }]).expect("applies");
    assert_eq!(m.commitments().len(), 0);
    assert_eq!(m.nullifiers().len(), 0);
    // the empty tree's root is still recorded
    assert_eq!(m.roots().len(), 1);
}

/// The full apply rejects a transaction whose receipt bytes do not decode
/// or verify, and leaves the machine unchanged.
#[test]
fn apply_rejects_garbage_receipts() {
    let mut m = machine();
    let mut tx = Transaction::default();
    tx.proofs.push(ProofRecord { proof: vec![1, 2, 3, 4], image_id: d(100) });
    let r = m.apply(&tx);
    assert_eq!(r, Err(ResourceMachineError::InvalidProof));
    assert_eq!(m.roots().len(), 0);
    assert_eq!(m.commitments().len(), 0);
}
