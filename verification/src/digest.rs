//! The fixed-width digest type and the hash combine operation that the
//! commitment tree and the resource identity model are built on.

use vstd::prelude::*;

verus! {

/// A fixed-width digest: eight 32-bit words, 32 bytes in all. Digests
/// compare by their words, so they can be kept in ordered storage.
#[derive(Clone, Copy, Debug, PartialEq, Eq, PartialOrd, Ord, Structural)]
pub struct Digest {
    pub w0: u32,
    pub w1: u32,
    pub w2: u32,
    pub w3: u32,
    pub w4: u32,
    pub w5: u32,
    pub w6: u32,
    pub w7: u32,
}

impl View for Digest {
    type V = Seq<u32>;

    open spec fn view(&self) -> Seq<u32> {
        seq![self.w0, self.w1, self.w2, self.w3, self.w4, self.w5, self.w6, self.w7]
    }
}

/// The digest whose words are the given sequence's first eight entries.
pub open spec fn digest_of_words(ws: Seq<u32>) -> Digest {
    Digest {
        w0: ws[0],
        w1: ws[1],
        w2: ws[2],
        w3: ws[3],
        w4: ws[4],
        w5: ws[5],
        w6: ws[6],
        w7: ws[7],
    }
}

/// The little-endian bytes of one 32-bit word.
pub open spec fn word_le_bytes(w: u32) -> Seq<u8> {
    seq![
        (w & 0xff) as u8,
        ((w >> 8) & 0xff) as u8,
        ((w >> 16) & 0xff) as u8,
        ((w >> 24) & 0xff) as u8,
    ]
}

/// The little-endian bytes of one 64-bit word.
pub open spec fn u64_le_bytes(w: u64) -> Seq<u8> {
    seq![
        (w & 0xff) as u8,
        ((w >> 8) & 0xff) as u8,
        ((w >> 16) & 0xff) as u8,
        ((w >> 24) & 0xff) as u8,
        ((w >> 32) & 0xff) as u8,
        ((w >> 40) & 0xff) as u8,
        ((w >> 48) & 0xff) as u8,
        ((w >> 56) & 0xff) as u8,
    ]
}

/// The 32 bytes of a digest, word by word, little-endian.
pub open spec fn digest_le_bytes(d: Digest) -> Seq<u8> {
    word_le_bytes(d.w0) + word_le_bytes(d.w1) + word_le_bytes(d.w2) + word_le_bytes(d.w3)
        + word_le_bytes(d.w4) + word_le_bytes(d.w5) + word_le_bytes(d.w6) + word_le_bytes(d.w7)
}

/// SHA-256 of a byte sequence, as eight 32-bit words.
pub uninterp spec fn sha256_of(data: Seq<u8>) -> Seq<u32>;

/// Relies on risc0_zkvm::sha::Impl::hash_bytes: SHA-256 of the input
/// bytes, a function of those bytes alone, returned as eight words.
#[verifier::external_body]
pub(crate) fn sha256_words(data: &Vec<u8>) -> (r: Digest)
    ensures
        r@ == sha256_of(data@),
{
    let d = <risc0_zkvm::sha::Impl as risc0_zkvm::sha::Sha256>::hash_bytes(data.as_slice());
    let w = d.as_words();
    Digest { w0: w[0], w1: w[1], w2: w[2], w3: w[3], w4: w[4], w5: w[5], w6: w[6], w7: w[7] }
}

/// Appends the little-endian bytes of one 32-bit word.
pub fn push_word_le(out: &mut Vec<u8>, w: u32)
    ensures
        final(out)@ == old(out)@ + word_le_bytes(w),
{
    out.push((w & 0xff) as u8);
    out.push(((w >> 8) & 0xff) as u8);
    out.push(((w >> 16) & 0xff) as u8);
    out.push(((w >> 24) & 0xff) as u8);
    assert(out@ =~= old(out)@ + word_le_bytes(w));
}

/// Appends the little-endian bytes of one 64-bit word.
pub fn push_u64_le(out: &mut Vec<u8>, w: u64)
    ensures
        final(out)@ == old(out)@ + u64_le_bytes(w),
{
    out.push((w & 0xff) as u8);
    out.push(((w >> 8) & 0xff) as u8);
    out.push(((w >> 16) & 0xff) as u8);
    out.push(((w >> 24) & 0xff) as u8);
    out.push(((w >> 32) & 0xff) as u8);
    out.push(((w >> 40) & 0xff) as u8);
    out.push(((w >> 48) & 0xff) as u8);
    out.push(((w >> 56) & 0xff) as u8);
    assert(out@ =~= old(out)@ + u64_le_bytes(w));
}

/// Appends the 32 bytes of a digest, word by word, little-endian.
pub fn push_digest_le(out: &mut Vec<u8>, d: &Digest)
    ensures
        final(out)@ == old(out)@ + digest_le_bytes(*d),
{
    push_word_le(out, d.w0);
    push_word_le(out, d.w1);
    push_word_le(out, d.w2);
    push_word_le(out, d.w3);
    push_word_le(out, d.w4);
    push_word_le(out, d.w5);
    push_word_le(out, d.w6);
    push_word_le(out, d.w7);
    proof {
        assert(out@ =~= old(out)@ + digest_le_bytes(*d));
    }
}

/// A hashable node of a Merkle tree: a blank leaf value and a
/// height-separated two-child combine operation.
pub trait Hashable: Sized + Copy {
    /// The canonical empty-leaf value.
    spec fn spec_blank() -> Self;

    /// The parent of two children at the given height.
    spec fn spec_combine(height: int, lhs: Self, rhs: Self) -> Self;

    /// Returns a blank leaf node.
    fn blank() -> (r: Self)
        ensures
            r == Self::spec_blank(),
    ;

    /// Returns the parent node of the two given nodes, where `height` is
    /// the tree row the children stand on.
    fn combine(height: usize, lhs: &Self, rhs: &Self) -> (r: Self)
        ensures
            r == Self::spec_combine(height as int, *lhs, *rhs),
    ;
}

/// The hash preimage of a combine step: the height as eight bytes of
/// domain separation, then the left child, then the right child.
pub open spec fn combine_preimage(height: int, lhs: Digest, rhs: Digest) -> Seq<u8> {
    u64_le_bytes(height as u64) + digest_le_bytes(lhs) + digest_le_bytes(rhs)
}

impl Hashable for Digest {
    open spec fn spec_blank() -> Digest {
        Digest { w0: 0, w1: 0, w2: 0, w3: 0, w4: 0, w5: 0, w6: 0, w7: 0 }
    }

    open spec fn spec_combine(height: int, lhs: Digest, rhs: Digest) -> Digest {
        digest_of_words(sha256_of(combine_preimage(height, lhs, rhs)))
    }

    /// Returns a blank leaf node: the all-zero digest.
    fn blank() -> (r: Digest) {
        Digest { w0: 0, w1: 0, w2: 0, w3: 0, w4: 0, w5: 0, w6: 0, w7: 0 }
    }

    /// Returns the domain-separated hash of the two given nodes.
    fn combine(height: usize, lhs: &Digest, rhs: &Digest) -> (r: Digest) {
        let mut buf: Vec<u8> = Vec::new();
        push_u64_le(&mut buf, height as u64);
        push_digest_le(&mut buf, lhs);
        push_digest_le(&mut buf, rhs);
        proof {
            assert(buf@ =~= combine_preimage(height as int, *lhs, *rhs));
        }
        let r = sha256_words(&buf);
        proof {
            let ws = sha256_of(combine_preimage(height as int, *lhs, *rhs));
            assert(r.w0 == ws[0] && r.w1 == ws[1] && r.w2 == ws[2] && r.w3 == ws[3] && r.w4
                == ws[4] && r.w5 == ws[5] && r.w6 == ws[6] && r.w7 == ws[7]);
        }
        r
    }
}

impl Digest {
    /// Builds a digest from eight words.
    pub fn new(words: [u32; 8]) -> (d: Digest)
        ensures
            d@ == words@,
    {
        let d = Digest {
            w0: words[0],
            w1: words[1],
            w2: words[2],
            w3: words[3],
            w4: words[4],
            w5: words[5],
            w6: words[6],
            w7: words[7],
        };
        proof {
            assert(d@ =~= words@);
        }
        d
    }
}

} // verus!
