//! Public instances: what a proof asserts to the ledger, decoded from a
//! receipt's journal. Until the proof verifies these are untrusted input.

use crate::backend::{journal_bytes, journal_of};
use crate::digest::Digest;
use vstd::prelude::*;

verus! {

/// The public instance of a compliance proof: one resource was validly
/// consumed, one validly created, and their deltas cancel.
#[derive(Clone, Copy, Debug, PartialEq, Eq, Structural)]
pub struct ComplianceInstance {
    /// Nullifier of the consumed resource.
    pub nullifier: Digest,
    /// Commitment of the created resource.
    pub commitment: Digest,
    /// Logic reference of the consumed resource.
    pub consumed_logic_ref: Digest,
    /// Logic reference of the created resource.
    pub created_logic_ref: Digest,
    /// The tree root the consumption was checked against.
    pub merkle_root: Digest,
    /// The unit's aggregate delta commitment, carried opaquely.
    pub delta: Digest,
}

/// A blob of application data with a deletion criterion attached.
#[derive(Clone, Debug)]
pub struct ExpirableBlob {
    pub blob: Vec<u8>,
    pub deletion_criterion: u8,
}

/// The public instance of a resource-logic proof.
#[derive(Clone, Debug)]
pub struct LogicInstance {
    /// The consumed resource's nullifier or the created one's commitment.
    pub tag: Digest,
    /// Whether the tag is a nullifier.
    pub is_consumed: bool,
    /// The action tree root the tag was checked against.
    pub root: Digest,
    /// Ciphertext transmitting the resource data, carried opaquely.
    pub cipher: Vec<u8>,
    /// Application data with per-field deletion criteria.
    pub app_data: Vec<ExpirableBlob>,
}

/// One little-endian 32-bit word read out of a byte sequence.
pub open spec fn le_word_at(b: Seq<u8>, off: int) -> u32 {
    (b[off] as u32) | (b[off + 1] as u32) << 8 | (b[off + 2] as u32) << 16 | (b[off + 3] as u32)
        << 24
}

/// One digest read out of a byte sequence: eight little-endian words.
pub open spec fn digest_at(b: Seq<u8>, off: int) -> Digest {
    Digest {
        w0: le_word_at(b, off),
        w1: le_word_at(b, off + 4),
        w2: le_word_at(b, off + 8),
        w3: le_word_at(b, off + 12),
        w4: le_word_at(b, off + 16),
        w5: le_word_at(b, off + 20),
        w6: le_word_at(b, off + 24),
        w7: le_word_at(b, off + 28),
    }
}

/// Reads one little-endian 32-bit word.
pub fn read_word(b: &Vec<u8>, off: usize) -> (w: u32)
    requires
        off + 4 <= b@.len(),
    ensures
        w == le_word_at(b@, off as int),
{
    let l = b.len();
    proof {
        assert(off + 4 <= l);
    }
    (b[off] as u32) | (b[off + 1] as u32) << 8 | (b[off + 2] as u32) << 16 | (b[off + 3] as u32)
        << 24
}

/// Reads one digest: eight little-endian words.
pub fn read_digest(b: &Vec<u8>, off: usize) -> (d: Digest)
    requires
        off + 32 <= b@.len(),
    ensures
        d == digest_at(b@, off as int),
{
    let l = b.len();
    proof {
        assert(off + 32 <= l);
    }
    Digest {
        w0: read_word(b, off),
        w1: read_word(b, off + 4),
        w2: read_word(b, off + 8),
        w3: read_word(b, off + 12),
        w4: read_word(b, off + 16),
        w5: read_word(b, off + 20),
        w6: read_word(b, off + 24),
        w7: read_word(b, off + 28),
    }
}

/// Reassembling a word from its four little-endian bytes gives the word
/// back.
proof fn lemma_word_round_trip(w: u32)
    ensures
        ((w & 0xff) | (((w >> 8) & 0xff) << 8) | (((w >> 16) & 0xff) << 16) | (((w >> 24) & 0xff)
            << 24)) == w,
{
    assert(((w & 0xff) | (((w >> 8) & 0xff) << 8) | (((w >> 16) & 0xff) << 16) | (((w >> 24)
        & 0xff) << 24)) == w) by (bit_vector);
}

/// One word read back out of its four little-endian bytes.
proof fn lemma_word_at(b: Seq<u8>, off: int, w: u32)
    requires
        0 <= off,
        off + 4 <= b.len(),
        b[off] == (w & 0xff) as u8,
        b[off + 1] == ((w >> 8) & 0xff) as u8,
        b[off + 2] == ((w >> 16) & 0xff) as u8,
        b[off + 3] == ((w >> 24) & 0xff) as u8,
    ensures
        le_word_at(b, off) == w,
{
    assert(((w & 0xff) as u8) as u32 == (w & 0xff) && (((w >> 8) & 0xff) as u8) as u32 == ((w >> 8)
        & 0xff) && (((w >> 16) & 0xff) as u8) as u32 == ((w >> 16) & 0xff) && (((w >> 24)
        & 0xff) as u8) as u32 == ((w >> 24) & 0xff)) by (bit_vector);
    lemma_word_round_trip(w);
}

/// Reading a digest back out of its little-endian byte encoding gives the
/// digest itself: the journal layouts and the hash preimages agree on the
/// byte order.
pub proof fn lemma_digest_round_trip(d: Digest)
    ensures
        digest_at(crate::digest::digest_le_bytes(d), 0) == d,
{
    let b = crate::digest::digest_le_bytes(d);
    assert(b.len() == 32);
    lemma_word_at(b, 0, d.w0);
    lemma_word_at(b, 4, d.w1);
    lemma_word_at(b, 8, d.w2);
    lemma_word_at(b, 12, d.w3);
    lemma_word_at(b, 16, d.w4);
    lemma_word_at(b, 20, d.w5);
    lemma_word_at(b, 24, d.w6);
    lemma_word_at(b, 28, d.w7);
}

/// What a consumption journal asserts: the root checked against and the
/// revealed nullifier. Exactly 64 bytes decode.
pub open spec fn parse_consumption_spec(j: Seq<u8>) -> Option<(Digest, Digest)> {
    if j.len() == 64 {
        Some((digest_at(j, 0), digest_at(j, 32)))
    } else {
        None
    }
}

/// What a creation journal asserts: the new commitment. Exactly 32 bytes
/// decode.
pub open spec fn parse_creation_spec(j: Seq<u8>) -> Option<Digest> {
    if j.len() == 32 {
        Some(digest_at(j, 0))
    } else {
        None
    }
}

/// The compliance instance a journal asserts: six digests in order.
/// Exactly 192 bytes decode.
pub open spec fn parse_compliance_spec(j: Seq<u8>) -> Option<ComplianceInstance> {
    if j.len() == 192 {
        Some(
            ComplianceInstance {
                nullifier: digest_at(j, 0),
                commitment: digest_at(j, 32),
                consumed_logic_ref: digest_at(j, 64),
                created_logic_ref: digest_at(j, 96),
                merkle_root: digest_at(j, 128),
                delta: digest_at(j, 160),
            },
        )
    } else {
        None
    }
}

/// Decodes a consumption journal: the root and the nullifier.
pub fn parse_consumption(j: &Vec<u8>) -> (r: Option<(Digest, Digest)>)
    ensures
        r == parse_consumption_spec(j@),
{
    if j.len() == 64 {
        Some((read_digest(j, 0), read_digest(j, 32)))
    } else {
        None
    }
}

/// Decodes a creation journal: the commitment.
pub fn parse_creation(j: &Vec<u8>) -> (r: Option<Digest>)
    ensures
        r == parse_creation_spec(j@),
{
    if j.len() == 32 {
        Some(read_digest(j, 0))
    } else {
        None
    }
}

/// Decodes a compliance journal into its public instance.
pub fn parse_compliance(j: &Vec<u8>) -> (r: Option<ComplianceInstance>)
    ensures
        r == parse_compliance_spec(j@),
{
    if j.len() == 192 {
        Some(
            ComplianceInstance {
                nullifier: read_digest(j, 0),
                commitment: read_digest(j, 32),
                consumed_logic_ref: read_digest(j, 64),
                created_logic_ref: read_digest(j, 96),
                merkle_root: read_digest(j, 128),
                delta: read_digest(j, 160),
            },
        )
    } else {
        None
    }
}

/// Why an instance could not be taken out of a receipt.
#[derive(Clone, Copy, Debug, PartialEq, Eq, Structural)]
pub enum InstanceError {
    /// The bytes do not decode to a receipt.
    MalformedReceipt,
    /// The receipt's journal has the wrong shape.
    MalformedJournal,
}

/// The compliance instance asserted by a serialized receipt.
pub open spec fn compliance_instance_of(receipt: Seq<u8>) -> Result<
    ComplianceInstance,
    InstanceError,
> {
    match journal_of(receipt) {
        Some(j) => match parse_compliance_spec(j) {
            Some(ci) => Ok(ci),
            None => Err(InstanceError::MalformedJournal),
        },
        None => Err(InstanceError::MalformedReceipt),
    }
}

/// Takes the compliance instance out of a serialized receipt.
pub fn get_compliance_instance(receipt: &Vec<u8>) -> (r: Result<ComplianceInstance, InstanceError>)
    ensures
        r == compliance_instance_of(receipt@),
{
    match journal_bytes(receipt) {
        Some(j) => match parse_compliance(&j) {
            Some(ci) => Ok(ci),
            None => Err(InstanceError::MalformedJournal),
        },
        None => Err(InstanceError::MalformedReceipt),
    }
}

/// The fixed layout of a logic journal: a tag, a root, a mac, a public
/// key in two halves, a nonce, then ten ciphertext words and ten
/// application-data words of 32 bytes each — 832 bytes in all.
pub open spec fn logic_journal_len() -> nat {
    832
}

/// Takes the logic instance's fields out of a serialized receipt, each as
/// a 32-byte value, in the journal's order. The layout assumed here packs
/// every field into its raw 32 bytes, digests and byte arrays alike; a
/// guest that word-expands its byte arrays writes a longer journal, which
/// this decoder rejects as malformed.
pub fn get_logic_instance(receipt: &Vec<u8>) -> (r: Result<Vec<Vec<u8>>, InstanceError>)
    ensures
        match r {
            Ok(fields) => {
                &&& journal_of(receipt@) is Some
                &&& journal_of(receipt@).unwrap().len() == logic_journal_len()
                &&& fields@.len() == 26
                &&& forall|i: int|
                    0 <= i < 26 ==> (#[trigger] fields@[i])@ == journal_of(
                        receipt@,
                    ).unwrap().subrange(32 * i, 32 * i + 32)
            },
            Err(InstanceError::MalformedReceipt) => journal_of(receipt@) is None,
            Err(InstanceError::MalformedJournal) => journal_of(receipt@) is Some && journal_of(
                receipt@,
            ).unwrap().len() != logic_journal_len(),
        },
{
    match journal_bytes(receipt) {
        Some(j) => {
            if j.len() != 832 {
                return Err(InstanceError::MalformedJournal);
            }
            let mut fields: Vec<Vec<u8>> = Vec::new();
            let mut i: usize = 0;
            while i < 26
                invariant
                    i <= 26,
                    j@.len() == 832,
                    fields@.len() == i,
                    forall|t: int|
                        0 <= t < i ==> (#[trigger] fields@[t])@ == j@.subrange(
                            32 * t,
                            32 * t + 32,
                        ),
                decreases 26 - i,
            {
                let mut field: Vec<u8> = Vec::new();
                let mut b: usize = 0;
                while b < 32
                    invariant
                        b <= 32,
                        i < 26,
                        j@.len() == 832,
                        field@ == j@.subrange(32 * i as int, 32 * i as int + b as int),
                    decreases 32 - b,
                {
                    let x = j[32 * i + b];
                    field.push(x);
                    proof {
                        assert(field@ =~= j@.subrange(32 * i as int, 32 * i as int + b + 1));
                    }
                    b = b + 1;
                }
                fields.push(field);
                i = i + 1;
            }
            Ok(fields)
        },
        None => Err(InstanceError::MalformedReceipt),
    }
}

} // verus!
