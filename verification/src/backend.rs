//! The boundary to the external proof system: receipt verification and
//! journal extraction, trusted at their interface and nothing more.

use crate::digest::Digest;
use vstd::prelude::*;

verus! {

/// Whether the receipt encoded in the given bytes verifies against the
/// given program image id.
pub uninterp spec fn proof_checks(receipt: Seq<u8>, image_id: Seq<u32>) -> bool;

/// The journal bytes of the receipt encoded in the given bytes, or
/// nothing when the bytes do not decode to a receipt.
pub uninterp spec fn journal_of(receipt: Seq<u8>) -> Option<Seq<u8>>;

/// The image id of a program ELF, or nothing for a malformed ELF.
pub uninterp spec fn image_id_of(elf: Seq<u8>) -> Option<Seq<u32>>;

/// Relies on bincode::deserialize and risc0_zkvm::Receipt::verify_with_context:
/// whether the receipt encoded in `proof` verifies against the program
/// digest `image_id`. Development mode is pinned off here — the default
/// context reads it from the process environment — so the outcome is a
/// function of the bytes alone.
#[verifier::external_body]
pub(crate) fn verify_proof(proof: &Vec<u8>, image_id: &Digest) -> (r: bool)
    ensures
        r == proof_checks(proof@, image_id@),
{
    let d = image_id;
    let id = risc0_zkvm::sha::Digest::new([d.w0, d.w1, d.w2, d.w3, d.w4, d.w5, d.w6, d.w7]);
    let ctx = risc0_zkvm::VerifierContext::default().with_dev_mode(false);
    match bincode::deserialize::<risc0_zkvm::Receipt>(proof) {
        Ok(receipt) => receipt.verify_with_context(&ctx, id).is_ok(),
        Err(_) => false,
    }
}

/// Relies on bincode::deserialize: the journal bytes carried by the
/// receipt encoded in `proof`; a function of the bytes alone.
#[verifier::external_body]
pub(crate) fn journal_bytes(proof: &Vec<u8>) -> (r: Option<Vec<u8>>)
    ensures
        match r {
            Some(j) => journal_of(proof@) == Some(j@),
            None => journal_of(proof@) is None,
        },
{
    match bincode::deserialize::<risc0_zkvm::Receipt>(proof) {
        Ok(receipt) => Some(receipt.journal.bytes),
        Err(_) => None,
    }
}

/// Relies on risc0_zkvm::compute_image_id: the image id is derived from
/// the ELF bytes alone.
#[verifier::external_body]
pub(crate) fn compute_image_id_words(elf: &Vec<u8>) -> (r: Option<Digest>)
    ensures
        match r {
            Some(d) => image_id_of(elf@) == Some(d@),
            None => image_id_of(elf@) is None,
        },
{
    match risc0_zkvm::compute_image_id(elf.as_slice()) {
        Ok(d) => {
            let w = d.as_words();
            Some(Digest { w0: w[0], w1: w[1], w2: w[2], w3: w[3], w4: w[4], w5: w[5], w6: w[6], w7: w[7] })
        },
        Err(_) => None,
    }
}

/// Why a standalone verification request was rejected.
#[derive(Clone, Copy, Debug, PartialEq, Eq, Structural)]
pub enum VerifyError {
    /// The guest id must hold exactly eight 32-bit words.
    BadGuestIdLength,
    /// The receipt did not verify against the guest id.
    Failed,
}

/// Verifies a serialized receipt against a guest id given as words.
/// Succeeds exactly when the id has eight words and the receipt checks
/// out against it.
pub fn verify(receipt_bytes: &Vec<u8>, guest_id: &Vec<u32>) -> (r: Result<bool, VerifyError>)
    ensures
        guest_id@.len() != 8 ==> r == Err::<bool, VerifyError>(VerifyError::BadGuestIdLength),
        guest_id@.len() == 8 ==> {
            let id = crate::digest::digest_of_words(guest_id@);
            if proof_checks(receipt_bytes@, id@) {
                r == Ok::<bool, VerifyError>(true)
            } else {
                r == Err::<bool, VerifyError>(VerifyError::Failed)
            }
        },
{
    if guest_id.len() != 8 {
        return Err(VerifyError::BadGuestIdLength);
    }
    let id = Digest {
        w0: guest_id[0],
        w1: guest_id[1],
        w2: guest_id[2],
        w3: guest_id[3],
        w4: guest_id[4],
        w5: guest_id[5],
        w6: guest_id[6],
        w7: guest_id[7],
    };
    proof {
        assert(id@ =~= crate::digest::digest_of_words(guest_id@)@);
        assert(id == crate::digest::digest_of_words(guest_id@));
    }
    if verify_proof(receipt_bytes, &id) {
        Ok(true)
    } else {
        Err(VerifyError::Failed)
    }
}

} // verus!
