//! Adapter conversions: byte expansion and per-unit instance decoding.

use aarm::adapter::{
    insert_zeros, Action, AdapterAction, AdapterExpirableBlob, AdapterLogicInstance,
    AdapterTransaction, Bundle, Delta, ForwarderCalldata, LogicProof,
};
use aarm::digest::Digest;
use aarm::instance::{ExpirableBlob, InstanceError, LogicInstance};

fn d(x: u32) -> Digest {
    Digest::new([x, x, x, x, x, x, x, x])
}

fn fake_receipt_bytes(journal: Vec<u8>) -> Vec<u8> {
    let claim = risc0_zkvm::ReceiptClaim::ok(risc0_zkvm::sha::Digest::ZERO, journal.clone());
    let inner = risc0_zkvm::InnerReceipt::Fake(risc0_zkvm::FakeReceipt::new(claim));
    let receipt = risc0_zkvm::Receipt::new(inner, journal);
    bincode::serialize(&receipt).expect("receipt serializes")
}

fn sample_logic_instance() -> LogicInstance {
    LogicInstance {
        tag: d(1),
        is_consumed: true,
        root: d(2),
        cipher: vec![1, 2],
        app_data: vec![
            ExpirableBlob { blob: vec![3, 4], deletion_criterion: 0 },
            ExpirableBlob { blob: vec![5], deletion_criterion: 1 },
        ],
    }
}

/// Each byte is followed by three zeros.
#[test]
fn insert_zeros_expands_each_byte() {
    assert_eq!(insert_zeros(&vec![1, 2]), vec![1, 0, 0, 0, 2, 0, 0, 0]);
    assert_eq!(insert_zeros(&vec![]), Vec::<u8>::new());
    assert_eq!(insert_zeros(&vec![255]), vec![255, 0, 0, 0]);
}

/// Blob and logic-instance conversion expand the byte fields and keep
/// everything else.
#[test]
fn blob_and_instance_conversion() {
    let blob = ExpirableBlob { blob: vec![9, 8], deletion_criterion: 1 };
    let converted = AdapterExpirableBlob::from(&blob);
    assert_eq!(converted.blob, vec![9, 0, 0, 0, 8, 0, 0, 0]);
    assert_eq!(converted.deletion_criterion, 1);

    let li = sample_logic_instance();
    let converted = AdapterLogicInstance::from(&li);
    assert_eq!(converted.tag, d(1));
    assert!(converted.is_consumed);
    assert_eq!(converted.root, d(2));
    assert_eq!(converted.cipher, vec![1, 0, 0, 0, 2, 0, 0, 0]);
    assert_eq!(converted.app_data.len(), 2);
    assert_eq!(converted.app_data[0].blob, vec![3, 0, 0, 0, 4, 0, 0, 0]);
    assert_eq!(converted.app_data[1].blob, vec![5, 0, 0, 0]);
}

fn compliance_journal() -> Vec<u8> {
    let mut journal = Vec::new();
    for p in [d(1), d(2), d(3), d(4), d(5), d(6)] {
        for w in [p.w0, p.w1, p.w2, p.w3, p.w4, p.w5, p.w6, p.w7] {
            journal.extend_from_slice(&w.to_le_bytes());
        }
    }
    journal
}

/// Converting an action decodes every compliance unit's instance and
/// converts every logic proof.
#[test]
fn action_conversion() {
    let receipt = fake_receipt_bytes(compliance_journal());
    let action = Action {
        compliance_units: vec![receipt.clone()],
        logic_proofs: vec![LogicProof {
            verifying_key: d(7),
            receipt: receipt.clone(),
            instance: sample_logic_instance(),
        }],
        resource_forwarder_calldata_pairs: vec![],
    };
    let a = AdapterAction::from(&action).expect("the unit decodes");
    assert_eq!(a.compliance_units.len(), 1);
    assert_eq!(a.compliance_units[0].proof, receipt);
    assert_eq!(a.compliance_units[0].instance.nullifier, d(1));
    assert_eq!(a.compliance_units[0].instance.delta, d(6));
    assert_eq!(a.logic_proofs.len(), 1);
    assert_eq!(a.logic_proofs[0].verifying_key, d(7));
    assert_eq!(a.logic_proofs[0].instance.cipher, vec![1, 0, 0, 0, 2, 0, 0, 0]);

    let bad = Action {
        compliance_units: vec![vec![1, 2, 3]],
        logic_proofs: vec![],
        resource_forwarder_calldata_pairs: vec![],
    };
    assert!(matches!(AdapterAction::from(&bad), Err(InstanceError::MalformedReceipt)));
}

/// A balanced bundle converts whole; its delta proof is carried through.
#[test]
fn bundle_conversion() {
    let receipt = fake_receipt_bytes(compliance_journal());
    let action = Action {
        compliance_units: vec![receipt],
        logic_proofs: vec![],
        resource_forwarder_calldata_pairs: vec![(
            aarm::resource::Resource {
                logic_ref: d(1),
                label_ref: d(2),
                quantity: 0,
                value_ref: d(3),
                is_ephemeral: true,
                nonce: d(4),
                nk_commitment: aarm::resource::NullifierKeyCommitment { commitment: d(5) },
                rand_seed: d(6),
            },
            ForwarderCalldata { untrusted_forwarder: vec![1], input: vec![2], output: vec![3] },
        )],
    };
    let bundle = Bundle { actions: vec![action], delta_proof: Delta::Proof(vec![7, 8, 9]) };
    let t: AdapterTransaction = AdapterTransaction::from(bundle).expect("the bundle converts");
    assert_eq!(t.actions.len(), 1);
    assert_eq!(t.delta_proof, vec![7, 8, 9]);
    assert_eq!(t.actions[0].resource_forwarder_calldata_pairs.len(), 1);
}
