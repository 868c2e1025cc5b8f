//! Journal decoding: the fixed instance layouts, through real receipts
//! assembled with the backend's own types.

use aarm::digest::Digest;
use aarm::backend::{verify, VerifyError};
use aarm::instance::{
    get_compliance_instance, get_logic_instance, parse_consumption, parse_creation, InstanceError,
};

fn d(x: u32) -> Digest {
    Digest::new([x, x + 1, x + 2, x + 3, x + 4, x + 5, x + 6, x + 7])
}

fn digest_bytes(dg: &Digest) -> Vec<u8> {
    let mut out = Vec::new();
    for w in [dg.w0, dg.w1, dg.w2, dg.w3, dg.w4, dg.w5, dg.w6, dg.w7] {
        out.extend_from_slice(&w.to_le_bytes());
    }
    out
}

fn fake_receipt_bytes(journal: Vec<u8>) -> Vec<u8> {
    let claim = risc0_zkvm::ReceiptClaim::ok(risc0_zkvm::sha::Digest::ZERO, journal.clone());
    let inner = risc0_zkvm::InnerReceipt::Fake(risc0_zkvm::FakeReceipt::new(claim));
    let receipt = risc0_zkvm::Receipt::new(inner, journal);
    bincode::serialize(&receipt).expect("receipt serializes")
}

/// A compliance journal of six digests decodes to the instance holding
/// them in order.
#[test]
fn compliance_instance_round_trip() {
    let parts = [d(1), d(10), d(20), d(30), d(40), d(50)];
    let mut journal = Vec::new();
    for p in &parts {
        journal.extend_from_slice(&digest_bytes(p));
    }
    let receipt = fake_receipt_bytes(journal);
    let ci = get_compliance_instance(&receipt).expect("192-byte journal decodes");
    assert_eq!(ci.nullifier, parts[0]);
    assert_eq!(ci.commitment, parts[1]);
    assert_eq!(ci.consumed_logic_ref, parts[2]);
    assert_eq!(ci.created_logic_ref, parts[3]);
    assert_eq!(ci.merkle_root, parts[4]);
    assert_eq!(ci.delta, parts[5]);
}

/// A journal of the wrong shape is a malformed journal; bytes that are no
/// receipt are a malformed receipt.
#[test]
fn malformed_instances_are_rejected() {
    let receipt = fake_receipt_bytes(vec![0u8; 191]);
    assert_eq!(get_compliance_instance(&receipt), Err(InstanceError::MalformedJournal));
    assert_eq!(
        get_compliance_instance(&vec![9u8, 9, 9]),
        Err(InstanceError::MalformedReceipt)
    );
}

/// A logic journal splits into its twenty-six 32-byte fields.
#[test]
fn logic_instance_fields() {
    let mut journal = Vec::new();
    for i in 0..26u8 {
        journal.extend_from_slice(&[i; 32]);
    }
    let receipt = fake_receipt_bytes(journal);
    let fields = get_logic_instance(&receipt).expect("832-byte journal decodes");
    assert_eq!(fields.len(), 26);
    for (i, f) in fields.iter().enumerate() {
        assert_eq!(f, &vec![i as u8; 32]);
    }
    let short = fake_receipt_bytes(vec![0u8; 64]);
    assert_eq!(get_logic_instance(&short), Err(InstanceError::MalformedJournal));
}

/// Consumption and creation journals decode at exactly their sizes.
#[test]
fn consumption_and_creation_journals() {
    let root = d(3);
    let nf = d(4);
    let mut j = digest_bytes(&root);
    j.extend_from_slice(&digest_bytes(&nf));
    let parsed = parse_consumption(&j).expect("64 bytes decode");
    assert_eq!(parsed.0, root);
    assert_eq!(parsed.1, nf);
    assert!(parse_consumption(&vec![0u8; 63]).is_none());

    let cm = d(5);
    let parsed = parse_creation(&digest_bytes(&cm)).expect("32 bytes decode");
    assert_eq!(parsed, cm);
    assert!(parse_creation(&vec![0u8; 33]).is_none());
}

/// A standalone verification request checks its guest id length first.
#[test]
fn verify_checks_guest_id_length() {
    let receipt = fake_receipt_bytes(vec![0u8; 32]);
    assert_eq!(verify(&receipt, &vec![1, 2, 3]), Err(VerifyError::BadGuestIdLength));
    // a fake receipt carries no cryptographic seal, so verification fails
    assert_eq!(verify(&receipt, &vec![0u32; 8]), Err(VerifyError::Failed));
}
