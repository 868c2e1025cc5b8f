//! Transaction assembly: proof records, the running delta, and the
//! consumption and creation inputs handed to the external prover. Proof
//! generation itself happens outside; the records it returns are carried
//! here and checked by the ledger.

use crate::backend::{compute_image_id_words, image_id_of};
use crate::digest::{push_digest_le, Digest};
use crate::merkle_path::MerklePath;
use crate::resource::{nk_commit_spec, NullifierKey, Resource};
use crate::COMMITMENT_TREE_DEPTH;
use vstd::prelude::*;

verus! {

/// A proof of one statement, as the prover returned it, with the image id
/// of the program it must verify against.
#[derive(Clone, Debug)]
pub struct ProofRecord {
    /// The serialized receipt.
    pub proof: Vec<u8>,
    /// The data required to verify the proof.
    pub image_id: Digest,
}

/// The errors that can occur when assembling a transaction.
#[derive(Clone, Copy, Debug, PartialEq, Eq, Structural)]
pub enum TransactionError {
    /// Invalid nullifier secret key given for a resource.
    IncorrectNullifierSecretKey(NullifierKey),
    /// The resource's logic reference does not match the program it is to
    /// be proved with.
    LogicImageMismatch,
}

/// The witness handed to the prover for a consumption statement.
pub struct ConsumptionInput {
    pub nsk: NullifierKey,
    pub resource: Resource,
    pub path: MerklePath<COMMITMENT_TREE_DEPTH, Digest>,
}

/// The witness handed to the prover for a creation statement.
pub struct CreationInput {
    pub resource: Resource,
}

impl CreationInput {
    /// The canonical byte encoding handed to the prover.
    pub fn encode(&self) -> (out: Vec<u8>)
        ensures
            out@ == crate::resource::resource_encoding(self.resource),
    {
        self.resource.encode()
    }
}

/// A transaction under assembly: proof records plus the total delta
/// change it induces, tracked as the consumed and created unit totals.
pub struct Transaction {
    /// A set of proof records.
    pub proofs: Vec<ProofRecord>,
    /// Units consumed so far.
    pub consumed_total: u128,
    /// Units created so far.
    pub created_total: u128,
}

impl Transaction {
    /// The transaction's net delta: created units minus consumed units.
    /// Consuming a resource contributes negatively, creating one
    /// positively.
    pub open spec fn spec_delta(&self) -> int {
        self.created_total - self.consumed_total
    }

    /// Whether the transaction conserves value: its delta is zero.
    pub fn is_balanced(&self) -> (r: bool)
        ensures
            r == (self.spec_delta() == 0),
    {
        self.consumed_total == self.created_total
    }

    /// Adds an input to the transaction: checks that the secret key can
    /// consume the resource and that the resource's logic matches the
    /// program the compliance receipt was produced with, then records the
    /// receipt and the delta contribution.
    pub fn add_input(
        &mut self,
        resource: &Resource,
        resource_elf: &Vec<u8>,
        nsk: &NullifierKey,
        compliance_receipt: Vec<u8>,
        consume_image_id: &Digest,
    ) -> (r: Result<(), TransactionError>)
        requires
            old(self).consumed_total + resource.quantity <= u128::MAX,
        ensures
            r is Ok <==> (nk_commit_spec(*nsk) == resource.nk_commitment && image_id_of(
                resource_elf@,
            ) == Some(resource.logic_ref@)),
            r == Err::<(), TransactionError>(
                TransactionError::IncorrectNullifierSecretKey(*nsk),
            ) <==> nk_commit_spec(*nsk) != resource.nk_commitment,
            nk_commit_spec(*nsk) == resource.nk_commitment ==> (r == Err::<(),
            TransactionError>(TransactionError::LogicImageMismatch) <==> image_id_of(
                resource_elf@,
            ) != Some(resource.logic_ref@)),
            r is Ok ==> {
                &&& final(self).proofs@.len() == old(self).proofs@.len() + 1
                &&& final(self).proofs@[old(self).proofs@.len() as int].proof@
                    == compliance_receipt@
                &&& final(self).proofs@[old(self).proofs@.len() as int].image_id
                    == *consume_image_id
                &&& forall|i: int|
                    0 <= i < old(self).proofs@.len() ==> final(self).proofs@[i] == old(
                        self,
                    ).proofs@[i]
                &&& final(self).consumed_total == old(self).consumed_total + resource.quantity
                &&& final(self).created_total == old(self).created_total
                &&& final(self).spec_delta() == old(self).spec_delta() - resource.quantity
            },
            r is Err ==> *final(self) == *old(self),
    {
        // Ensure that the nullifier secret key is correct
        if resource.nullifier(nsk).is_none() {
            return Err(TransactionError::IncorrectNullifierSecretKey(*nsk));
        }
        // Ensure that the program we prove with corresponds to the
        // resource's logic reference
        if !logic_matches(resource, resource_elf) {
            return Err(TransactionError::LogicImageMismatch);
        }
        self.consumed_total = self.consumed_total + resource.quantity as u128;
        self.proofs.push(ProofRecord { proof: compliance_receipt, image_id: *consume_image_id });
        Ok(())
    }

    /// Adds an output to the transaction: checks the resource's logic
    /// against the program the compliance receipt was produced with, then
    /// records the receipt and the delta contribution.
    pub fn add_output(
        &mut self,
        resource: &Resource,
        resource_elf: &Vec<u8>,
        compliance_receipt: Vec<u8>,
        create_image_id: &Digest,
    ) -> (r: Result<(), TransactionError>)
        requires
            old(self).created_total + resource.quantity <= u128::MAX,
        ensures
            r is Ok <==> image_id_of(resource_elf@) == Some(resource.logic_ref@),
            r == Err::<(), TransactionError>(TransactionError::LogicImageMismatch) <==>
                image_id_of(resource_elf@) != Some(resource.logic_ref@),
            r is Ok ==> {
                &&& final(self).proofs@.len() == old(self).proofs@.len() + 1
                &&& final(self).proofs@[old(self).proofs@.len() as int].proof@
                    == compliance_receipt@
                &&& final(self).proofs@[old(self).proofs@.len() as int].image_id
                    == *create_image_id
                &&& forall|i: int|
                    0 <= i < old(self).proofs@.len() ==> final(self).proofs@[i] == old(
                        self,
                    ).proofs@[i]
                &&& final(self).created_total == old(self).created_total + resource.quantity
                &&& final(self).consumed_total == old(self).consumed_total
                &&& final(self).spec_delta() == old(self).spec_delta() + resource.quantity
            },
            r is Err ==> *final(self) == *old(self),
    {
        if !logic_matches(resource, resource_elf) {
            return Err(TransactionError::LogicImageMismatch);
        }
        self.created_total = self.created_total + resource.quantity as u128;
        self.proofs.push(ProofRecord { proof: compliance_receipt, image_id: *create_image_id });
        Ok(())
    }
}

impl Default for Transaction {
    /// An empty transaction: no proofs, zero delta.
    fn default() -> (t: Transaction)
        ensures
            t.proofs@.len() == 0,
            t.consumed_total == 0,
            t.created_total == 0,
    {
        Transaction { proofs: Vec::new(), consumed_total: 0, created_total: 0 }
    }
}

/// Whether the given ELF computes the resource's logic: its image id
/// matches the resource's logic reference.
pub fn logic_matches(resource: &Resource, resource_elf: &Vec<u8>) -> (r: bool)
    ensures
        r == (image_id_of(resource_elf@) == Some(resource.logic_ref@)),
{
    match compute_image_id_words(resource_elf) {
        Some(id) => {
            let eq = id == resource.logic_ref;
            proof {
                if id == resource.logic_ref {
                    assert(id@ == resource.logic_ref@);
                } else {
                    assert(id@ != resource.logic_ref@) by {
                        if id@ == resource.logic_ref@ {
                            assert(id.w0 == resource.logic_ref.w0 && id.w1
                                == resource.logic_ref.w1 && id.w2 == resource.logic_ref.w2 && id.w3
                                == resource.logic_ref.w3 && id.w4 == resource.logic_ref.w4 && id.w5
                                == resource.logic_ref.w5 && id.w6 == resource.logic_ref.w6 && id.w7
                                == resource.logic_ref.w7);
                        }
                    }
                }
            }
            eq
        },
        None => false,
    }
}

/// The witness of one compliance unit: the consumed and the created
/// resource, the delta randomness, the consumed resource's membership
/// path, and the consuming key.
pub struct ComplianceWitness {
    pub consumed_resource: Resource,
    pub created_resource: Resource,
    pub merkle_path: MerklePath<COMMITMENT_TREE_DEPTH, Digest>,
    pub rcv: Digest,
    pub nf_key: NullifierKey,
}

/// Assembles the witness of one compliance unit from its parts.
pub fn generate_compliance_witness(
    consumed_resource: Resource,
    created_resource: Resource,
    rcv: Digest,
    merkle_path: MerklePath<COMMITMENT_TREE_DEPTH, Digest>,
    nf_key: NullifierKey,
) -> (w: ComplianceWitness)
    ensures
        w.consumed_resource == consumed_resource,
        w.created_resource == created_resource,
        w.rcv == rcv,
        w.merkle_path == merkle_path,
        w.nf_key == nf_key,
{
    ComplianceWitness { consumed_resource, created_resource, merkle_path, rcv, nf_key }
}

/// Assembles the witness for a consumption statement.
pub fn generate_consumption_input(
    nsk: NullifierKey,
    resource: Resource,
    path: MerklePath<COMMITMENT_TREE_DEPTH, Digest>,
) -> (w: ConsumptionInput)
    ensures
        w.nsk == nsk,
        w.resource == resource,
        w.path == path,
{
    ConsumptionInput { nsk, resource, path }
}

/// The canonical byte encoding of a compliance witness: both resources,
/// the path, then the delta randomness and the key.
pub open spec fn compliance_witness_encoding(w: ComplianceWitness) -> Seq<u8> {
    crate::resource::resource_encoding(w.consumed_resource) + crate::resource::resource_encoding(
        w.created_resource,
    ) + path_encoding(w.merkle_path.spec_auth()) + crate::digest::digest_le_bytes(w.rcv)
        + crate::digest::digest_le_bytes(w.nf_key.key)
}

impl ComplianceWitness {
    /// The canonical byte encoding handed to the prover.
    pub fn encode(&self) -> (out: Vec<u8>)
        ensures
            out@ == compliance_witness_encoding(*self),
    {
        let mut buf = self.consumed_resource.encode();
        let mut created = self.created_resource.encode();
        buf.append(&mut created);
        let mut path_bytes = encode_path_entries(self.merkle_path.entries());
        buf.append(&mut path_bytes);
        push_digest_le(&mut buf, &self.rcv);
        push_digest_le(&mut buf, &self.nf_key.key);
        proof {
            assert(buf@ =~= compliance_witness_encoding(*self));
        }
        buf
    }
}

/// Encodes a path's entries: each sibling digest followed by its flag.
fn encode_path_entries(entries: &Vec<(Digest, bool)>) -> (out: Vec<u8>)
    ensures
        out@ == path_encoding(entries@),
{
    let n = entries.len();
    let mut out: Vec<u8> = Vec::new();
    let mut i: usize = 0;
    while i < n
        invariant
            i <= n,
            n == entries@.len(),
            out@ == path_encoding(entries@.take(i as int)),
        decreases n - i,
    {
        let e = entries[i];
        push_digest_le(&mut out, &e.0);
        out.push(if e.1 {
            1u8
        } else {
            0u8
        });
        proof {
            assert(entries@.take(i + 1).drop_last() =~= entries@.take(i as int));
            assert(entries@.take(i + 1).last() == entries@[i as int]);
            assert(out@ =~= path_encoding(entries@.take(i + 1)));
        }
        i = i + 1;
    }
    proof {
        assert(entries@.take(n as int) =~= entries@);
    }
    out
}

/// The byte encoding of an authentication path: each entry's sibling
/// digest followed by its side flag.
pub open spec fn path_encoding(auth: Seq<(Digest, bool)>) -> Seq<u8>
    decreases auth.len(),
{
    if auth.len() == 0 {
        Seq::empty()
    } else {
        path_encoding(auth.drop_last()) + crate::digest::digest_le_bytes(auth.last().0) + seq![
            if auth.last().1 {
                1u8
            } else {
                0u8
            },
        ]
    }
}

/// The canonical byte encoding of a consumption witness: the secret key,
/// the resource, then the path entries in order.
pub open spec fn consumption_input_encoding(w: ConsumptionInput) -> Seq<u8> {
    crate::digest::digest_le_bytes(w.nsk.key) + crate::resource::resource_encoding(w.resource)
        + path_encoding(w.path.spec_auth())
}

impl ConsumptionInput {
    /// The canonical byte encoding handed to the prover.
    pub fn encode(&self) -> (out: Vec<u8>)
        ensures
            out@ == consumption_input_encoding(*self),
    {
        let mut buf: Vec<u8> = Vec::new();
        push_digest_le(&mut buf, &self.nsk.key);
        let mut enc = self.resource.encode();
        buf.append(&mut enc);
        let entries = self.path.entries();
        let n = entries.len();
        let ghost base = buf@;
        let ghost auth = self.path.spec_auth();
        let mut i: usize = 0;
        while i < n
            invariant
                i <= n,
                n == auth.len(),
                entries@ == auth,
                buf@ == base + path_encoding(auth.take(i as int)),
            decreases n - i,
        {
            let e = entries[i];
            push_digest_le(&mut buf, &e.0);
            buf.push(if e.1 {
                1u8
            } else {
                0u8
            });
            proof {
                assert(auth.take(i + 1).drop_last() =~= auth.take(i as int));
                assert(auth.take(i + 1).last() == auth[i as int]);
                assert(buf@ =~= base + path_encoding(auth.take(i + 1)));
            }
            i = i + 1;
        }
        proof {
            assert(auth.take(n as int) =~= auth);
            assert(buf@ =~= consumption_input_encoding(*self));
        }
        buf
    }
}

} // verus!
