//! The resource identity model: commitments, nullifiers and value deltas.
//! A resource is an immutable record; creating it publishes a commitment,
//! consuming it reveals a nullifier that only the holder of the matching
//! secret key can derive.

use crate::digest::{
    digest_le_bytes, digest_of_words, push_digest_le, push_u64_le, sha256_of, sha256_words, Digest,
    u64_le_bytes,
};
use vstd::prelude::*;

verus! {

/// Domain tag hashed in front of a nullifier-key commitment.
pub const TAG_KEY_COMMITMENT: u8 = 1;

/// Domain tag hashed in front of a resource's canonical encoding.
pub const TAG_COMMITMENT: u8 = 2;

/// Domain tag hashed in front of a nullifier preimage.
pub const TAG_NULLIFIER: u8 = 3;

/// A nullifier secret key: whoever holds it can consume the resources
/// bound to its commitment.
#[derive(Clone, Copy, Debug, PartialEq, Eq, Structural)]
pub struct NullifierKey {
    pub key: Digest,
}

/// The public commitment to a nullifier key, recorded in a resource.
#[derive(Clone, Copy, Debug, PartialEq, Eq, Structural)]
pub struct NullifierKeyCommitment {
    pub commitment: Digest,
}

/// The commitment a nullifier key gives rise to.
pub open spec fn nk_commit_spec(k: NullifierKey) -> NullifierKeyCommitment {
    NullifierKeyCommitment {
        commitment: digest_of_words(sha256_of(seq![TAG_KEY_COMMITMENT] + digest_le_bytes(k.key))),
    }
}

impl NullifierKey {
    /// Derives the public commitment to this secret key.
    pub fn commit(&self) -> (r: NullifierKeyCommitment)
        ensures
            r == nk_commit_spec(*self),
    {
        let mut buf: Vec<u8> = Vec::new();
        buf.push(TAG_KEY_COMMITMENT);
        push_digest_le(&mut buf, &self.key);
        proof {
            assert(buf@ =~= seq![TAG_KEY_COMMITMENT] + digest_le_bytes(self.key));
        }
        let d = sha256_words(&buf);
        NullifierKeyCommitment { commitment: d }
    }

    /// The public key of this secret key: its commitment.
    pub fn public_key(&self) -> (r: NullifierKeyCommitment)
        ensures
            r == nk_commit_spec(*self),
    {
        self.commit()
    }
}

/// The core asset record. Immutable once built: it is only ever created
/// (committed) or consumed (nullified).
#[derive(Clone, Copy, Debug, PartialEq, Eq, Structural)]
pub struct Resource {
    /// Reference to the application logic that governs this resource.
    pub logic_ref: Digest,
    /// Reference to the resource's label.
    pub label_ref: Digest,
    /// How many units the resource carries.
    pub quantity: u64,
    /// Reference to the resource's value data.
    pub value_ref: Digest,
    /// Whether the resource is ephemeral: created and consumed within one
    /// transaction, for padding and intents.
    pub is_ephemeral: bool,
    /// Freshness nonce.
    pub nonce: Digest,
    /// Commitment to the nullifier key of the party who may consume it.
    pub nk_commitment: NullifierKeyCommitment,
    /// Randomness seed.
    pub rand_seed: Digest,
}

/// The canonical byte encoding of a resource, hashed into its commitment:
/// a domain tag, then every field at a fixed width.
pub open spec fn resource_encoding(r: Resource) -> Seq<u8> {
    seq![TAG_COMMITMENT] + digest_le_bytes(r.logic_ref) + digest_le_bytes(r.label_ref)
        + u64_le_bytes(r.quantity) + digest_le_bytes(r.value_ref) + seq![
        if r.is_ephemeral {
            1u8
        } else {
            0u8
        },
    ] + digest_le_bytes(r.nonce) + digest_le_bytes(r.nk_commitment.commitment) + digest_le_bytes(
        r.rand_seed,
    )
}

/// A resource's commitment: the domain-separated hash of its canonical
/// encoding.
pub open spec fn commitment_spec(r: Resource) -> Digest {
    digest_of_words(sha256_of(resource_encoding(r)))
}

/// The nullifier preimage: a domain tag, the resource's commitment, and
/// the consuming party's secret key.
pub open spec fn nullifier_preimage(cm: Digest, k: NullifierKey) -> Seq<u8> {
    seq![TAG_NULLIFIER] + digest_le_bytes(cm) + digest_le_bytes(k.key)
}

/// The nullifier derived from a commitment with a secret key.
pub open spec fn nullifier_of(cm: Digest, k: NullifierKey) -> Digest {
    digest_of_words(sha256_of(nullifier_preimage(cm, k)))
}

/// A resource's nullifier: derivable exactly when the secret key matches
/// the resource's recorded key commitment.
pub open spec fn nullifier_spec(r: Resource, k: NullifierKey) -> Option<Digest> {
    if nk_commit_spec(k) == r.nk_commitment {
        Some(nullifier_of(commitment_spec(r), k))
    } else {
        None
    }
}

impl Resource {
    /// The canonical byte encoding hashed into the commitment.
    pub fn encode(&self) -> (out: Vec<u8>)
        ensures
            out@ == resource_encoding(*self),
    {
        let mut buf: Vec<u8> = Vec::new();
        buf.push(TAG_COMMITMENT);
        push_digest_le(&mut buf, &self.logic_ref);
        push_digest_le(&mut buf, &self.label_ref);
        push_u64_le(&mut buf, self.quantity);
        push_digest_le(&mut buf, &self.value_ref);
        buf.push(if self.is_ephemeral { 1u8 } else { 0u8 });
        push_digest_le(&mut buf, &self.nonce);
        push_digest_le(&mut buf, &self.nk_commitment.commitment);
        push_digest_le(&mut buf, &self.rand_seed);
        proof {
            assert(buf@ =~= resource_encoding(*self));
        }
        buf
    }

    /// The resource's commitment, published when it is created.
    pub fn commitment(&self) -> (c: Digest)
        ensures
            c == commitment_spec(*self),
    {
        let buf = self.encode();
        sha256_words(&buf)
    }

    /// The resource's nullifier, the double-spend tag revealed when it is
    /// consumed: derived exactly when the secret key matches the recorded
    /// key commitment, and an error otherwise, never a silent digest.
    pub fn nullifier(&self, nf_key: &NullifierKey) -> (n: Option<Digest>)
        ensures
            n == nullifier_spec(*self, *nf_key),
            n is Some <==> nk_commit_spec(*nf_key) == self.nk_commitment,
    {
        let cm = self.commitment();
        self.nullifier_from_commitment(nf_key, &cm)
    }

    /// The nullifier, given the resource's already computed commitment.
    pub fn nullifier_from_commitment(&self, nf_key: &NullifierKey, cm: &Digest) -> (n: Option<
        Digest,
    >)
        requires
            *cm == commitment_spec(*self),
        ensures
            n == nullifier_spec(*self, *nf_key),
            n is Some <==> nk_commit_spec(*nf_key) == self.nk_commitment,
    {
        let nk = nf_key.commit();
        if nk == self.nk_commitment {
            let mut buf: Vec<u8> = Vec::new();
            buf.push(TAG_NULLIFIER);
            push_digest_le(&mut buf, cm);
            push_digest_le(&mut buf, &nf_key.key);
            proof {
                assert(buf@ =~= nullifier_preimage(*cm, *nf_key));
            }
            Some(sha256_words(&buf))
        } else {
            None
        }
    }

    /// The magnitude of the resource's value contribution: positive when
    /// the resource is created, negative when it is consumed.
    pub fn delta(&self) -> (d: u64)
        ensures
            d == self.quantity,
    {
        self.quantity
    }
}

/// Deriving a nullifier is deterministic: any two derivations from the
/// same resource and the same secret key agree.
pub proof fn lemma_nullifier_deterministic(
    r: Resource,
    k: NullifierKey,
    n1: Option<Digest>,
    n2: Option<Digest>,
)
    requires
        n1 == nullifier_spec(r, k),
        n2 == nullifier_spec(r, k),
    ensures
        n1 == n2,
{
}

/// A secret key whose commitment differs from the resource's recorded
/// one never yields a nullifier.
pub proof fn lemma_nullifier_key_mismatch(r: Resource, k: NullifierKey)
    requires
        nk_commit_spec(k) != r.nk_commitment,
    ensures
        nullifier_spec(r, k) is None,
{
}

} // verus!
