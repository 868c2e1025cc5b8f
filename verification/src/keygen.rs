//! Key and test-vector generation: random 32-byte values, nullifier
//! secret keys derived from them, and a fixed synthetic Merkle path.

use crate::digest::{sha256_words, Digest};
use crate::merkle_path::MerklePath;
use crate::resource::{nk_commit_spec, NullifierKey, NullifierKeyCommitment, Resource};
use crate::COMMITMENT_TREE_DEPTH;
use vstd::prelude::*;

verus! {

/// Relies on rand::Rng::gen: 32 bytes drawn from the thread-local
/// generator. Nothing holds of the value itself.
#[verifier::external_body]
pub fn random_32() -> (r: Vec<u8>)
    ensures
        r@.len() == 32,
{
    let mut rng = rand::thread_rng();
    let bytes: [u8; 32] = rand::Rng::gen(&mut rng);
    bytes.to_vec()
}

/// Draws a fresh nullifier secret key: the hash of 32 random bytes. Of
/// every outcome this much holds: the key is the SHA-256 of some 32-byte
/// seed.
pub fn generate_nsk() -> (k: NullifierKey)
    ensures
        exists|seed: Seq<u8>| seed.len() == 32 && k.key@ == #[trigger] crate::digest::sha256_of(
            seed,
        ),
{
    let bytes = random_32();
    let d = sha256_words(&bytes);
    proof {
        assert(bytes@.len() == 32 && d@ == crate::digest::sha256_of(bytes@));
    }
    NullifierKey { key: d }
}

/// Draws a fresh nullifier secret key.
pub fn random_nsk() -> (k: NullifierKey)
    ensures
        exists|seed: Seq<u8>| seed.len() == 32 && k.key@ == #[trigger] crate::digest::sha256_of(
            seed,
        ),
{
    generate_nsk()
}

/// Derives the public commitment of a nullifier key.
pub fn generate_npk(nf_key: &NullifierKey) -> (r: NullifierKeyCommitment)
    ensures
        r == nk_commit_spec(*nf_key),
{
    nf_key.commit()
}

/// A fixed synthetic Merkle path: level `i` carries the digest whose
/// words are all `i + 1`, standing on the right at every odd level.
pub fn generate_merkle_path_32() -> (p: MerklePath<COMMITMENT_TREE_DEPTH, Digest>)
    ensures
        p.wf(),
        forall|i: int|
            0 <= i < COMMITMENT_TREE_DEPTH ==> #[trigger] p.spec_auth()[i] == (
                Digest {
                    w0: (i + 1) as u32,
                    w1: (i + 1) as u32,
                    w2: (i + 1) as u32,
                    w3: (i + 1) as u32,
                    w4: (i + 1) as u32,
                    w5: (i + 1) as u32,
                    w6: (i + 1) as u32,
                    w7: (i + 1) as u32,
                },
                i % 2 == 1,
            ),
{
    let mut auth: Vec<(Digest, bool)> = Vec::new();
    let mut i: usize = 0;
    while i < COMMITMENT_TREE_DEPTH
        invariant
            i <= COMMITMENT_TREE_DEPTH,
            auth@.len() == i,
            forall|k: int|
                0 <= k < i ==> #[trigger] auth@[k] == (
                    Digest {
                        w0: (k + 1) as u32,
                        w1: (k + 1) as u32,
                        w2: (k + 1) as u32,
                        w3: (k + 1) as u32,
                        w4: (k + 1) as u32,
                        w5: (k + 1) as u32,
                        w6: (k + 1) as u32,
                        w7: (k + 1) as u32,
                    },
                    k % 2 == 1,
                ),
        decreases COMMITMENT_TREE_DEPTH - i,
    {
        let w = (i + 1) as u32;
        let d = Digest { w0: w, w1: w, w2: w, w3: w, w4: w, w5: w, w6: w, w7: w };
        auth.push((d, i % 2 == 1));
        i = i + 1;
    }
    MerklePath::from_path(auth)
}

/// A fixed synthetic Merkle path, under the other name the bindings use:
/// the same path `generate_merkle_path_32` builds.
pub fn random_merkle_path_32() -> (p: MerklePath<COMMITMENT_TREE_DEPTH, Digest>)
    ensures
        p.wf(),
        forall|i: int|
            0 <= i < COMMITMENT_TREE_DEPTH ==> #[trigger] p.spec_auth()[i] == (
                Digest {
                    w0: (i + 1) as u32,
                    w1: (i + 1) as u32,
                    w2: (i + 1) as u32,
                    w3: (i + 1) as u32,
                    w4: (i + 1) as u32,
                    w5: (i + 1) as u32,
                    w6: (i + 1) as u32,
                    w7: (i + 1) as u32,
                },
                i % 2 == 1,
            ),
{
    generate_merkle_path_32()
}

/// Builds a resource from its parts, hashing the raw logic bytes into the
/// logic reference and the raw nonce bytes into the nonce.
pub fn generate_resource(
    label_ref: Digest,
    nonce_bytes: &Vec<u8>,
    quantity: u64,
    value_ref: Digest,
    is_ephemeral: bool,
    nk_commitment: NullifierKeyCommitment,
    logic_bytes: &Vec<u8>,
    rand_seed: Digest,
) -> (r: Resource)
    ensures
        r.logic_ref@ == crate::digest::sha256_of(logic_bytes@),
        r.label_ref == label_ref,
        r.quantity == quantity,
        r.value_ref == value_ref,
        r.is_ephemeral == is_ephemeral,
        r.nonce@ == crate::digest::sha256_of(nonce_bytes@),
        r.nk_commitment == nk_commitment,
        r.rand_seed == rand_seed,
{
    Resource {
        logic_ref: sha256_words(logic_bytes),
        label_ref,
        quantity,
        value_ref,
        is_ephemeral,
        nonce: sha256_words(nonce_bytes),
        nk_commitment,
        rand_seed,
    }
}

} // verus!
