//! The resource machine ledger: historical roots, revealed nullifiers and
//! the ordered commitment list, with the two-pass verify-then-commit
//! application of a transaction. A rejected transaction leaves the ledger
//! exactly as it was.

use crate::backend::{journal_bytes, journal_of, proof_checks, verify_proof};
use crate::digest::Digest;
use crate::instance::{parse_consumption, parse_consumption_spec, parse_creation, parse_creation_spec};
use crate::transaction::{ProofRecord, Transaction};
use crate::tree::{root_spec, CommitmentTree};
use crate::COMMITMENT_TREE_DEPTH;
use vstd::arithmetic::power2::pow2;
use vstd::prelude::*;

verus! {

/// The errors that can occur when processing a transaction.
#[derive(Clone, Copy, Debug, PartialEq, Eq, Structural)]
pub enum ResourceMachineError {
    /// A proof in the transaction does not verify.
    InvalidProof,
    /// A proof's journal does not decode to its expected instance.
    MalformedInstance,
    /// The proof refers to an unknown root.
    UnknownRoot(Digest),
    /// The nullifier has already been revealed.
    RevealedNullifier(Digest),
    /// This commitment has already been made.
    DuplicateCommitment(Digest),
}

/// What one proof, once checked, claims of the ledger.
#[derive(Clone, Copy, Debug, PartialEq, Eq, Structural)]
pub enum Claim {
    /// A resource was consumed: checked against `root`, revealing
    /// `nullifier`.
    Consume { root: Digest, nullifier: Digest },
    /// A resource was created with this commitment.
    Create { commitment: Digest },
    /// A proof for a program the ledger does not dispatch on.
    Other,
    /// The journal did not decode to the expected instance.
    Malformed,
}

/// A proof's verification outcome together with its claim.
#[derive(Clone, Copy, Debug, PartialEq, Eq, Structural)]
pub struct CheckedProof {
    /// Whether the proof verified against its program id.
    pub valid: bool,
    /// What the proof claims.
    pub claim: Claim,
}

/// The ledger's three monotone collections, as mathematical sequences.
pub struct LedgerView {
    pub roots: Seq<Digest>,
    pub nullifiers: Seq<Digest>,
    pub commitments: Seq<Digest>,
}

/// Appends an element unless it is already present: set insertion over a
/// sequence.
pub open spec fn insert_unique(s: Seq<Digest>, d: Digest) -> Seq<Digest> {
    if s.contains(d) {
        s
    } else {
        s.push(d)
    }
}

/// The error one checked proof raises against a ledger state, if any.
/// All checks read the same pre-state: verification never mutates.
pub open spec fn claim_error(v: LedgerView, p: CheckedProof) -> Option<ResourceMachineError> {
    if !p.valid {
        Some(ResourceMachineError::InvalidProof)
    } else {
        match p.claim {
            Claim::Malformed => Some(ResourceMachineError::MalformedInstance),
            Claim::Consume { root, nullifier } => if !v.roots.contains(root) {
                Some(ResourceMachineError::UnknownRoot(root))
            } else if v.nullifiers.contains(nullifier) {
                Some(ResourceMachineError::RevealedNullifier(nullifier))
            } else {
                None
            },
            Claim::Create { commitment } => if v.commitments.contains(commitment) {
                Some(ResourceMachineError::DuplicateCommitment(commitment))
            } else {
                None
            },
            Claim::Other => None,
        }
    }
}

/// Whether every checked proof passes against the pre-state.
pub open spec fn all_pass(v: LedgerView, records: Seq<CheckedProof>) -> bool {
    forall|i: int| 0 <= i < records.len() ==> (#[trigger] claim_error(v, records[i])) is None
}

/// The state changes one checked proof commits.
pub open spec fn commit_one(v: LedgerView, p: CheckedProof) -> LedgerView {
    match p.claim {
        Claim::Consume { root, nullifier } => LedgerView {
            nullifiers: insert_unique(v.nullifiers, nullifier),
            ..v
        },
        Claim::Create { commitment } => LedgerView {
            commitments: v.commitments.push(commitment),
            ..v
        },
        _ => v,
    }
}

/// The state changes a whole record sequence commits, in order.
pub open spec fn commit_all(v: LedgerView, records: Seq<CheckedProof>) -> LedgerView
    decreases records.len(),
{
    if records.len() == 0 {
        v
    } else {
        commit_all(commit_one(v, records[0]), records.drop_first())
    }
}

/// The ledger state a transaction's checked records move the machine to:
/// every consumption and creation committed in order, the tree rebuilt
/// over the new commitment list, and its root recorded.
pub open spec fn apply_outcome(v: LedgerView, records: Seq<CheckedProof>) -> LedgerView {
    let c = commit_all(v, records);
    LedgerView {
        roots: insert_unique(c.roots, root_spec(c.commitments, COMMITMENT_TREE_DEPTH as nat)),
        ..c
    }
}

/// Looks for a digest in a vector.
fn contains_digest(v: &Vec<Digest>, d: &Digest) -> (r: bool)
    ensures
        r == v@.contains(*d),
{
    let n = v.len();
    let mut i: usize = 0;
    while i < n
        invariant
            i <= n,
            n == v@.len(),
            forall|k: int| 0 <= k < i ==> v@[k] != *d,
        decreases n - i,
    {
        if v[i] == *d {
            return true;
        }
        i = i + 1;
    }
    proof {
        assert(!v@.contains(*d));
    }
    false
}

/// A representation of the state of a resource machine: all previous
/// roots, all revealed nullifiers, the ordered commitments, the current
/// commitment tree, and the two program ids the machine dispatches on.
pub struct ResourceMachine {
    roots: Vec<Digest>,
    nullifiers: Vec<Digest>,
    commitments: Vec<Digest>,
    tree: CommitmentTree<COMMITMENT_TREE_DEPTH, Digest>,
    consume_id: Digest,
    create_id: Digest,
}

impl View for ResourceMachine {
    type V = LedgerView;

    closed spec fn view(&self) -> LedgerView {
        LedgerView { roots: self.roots@, nullifiers: self.nullifiers@, commitments: self.commitments@ }
    }
}

impl ResourceMachine {
    /// The id of the consumption program.
    pub closed spec fn spec_consume_id(&self) -> Digest {
        self.consume_id
    }

    /// The id of the creation program.
    pub closed spec fn spec_create_id(&self) -> Digest {
        self.create_id
    }

    /// The current commitment tree.
    pub closed spec fn spec_tree(&self) -> CommitmentTree<COMMITMENT_TREE_DEPTH, Digest> {
        self.tree
    }

    /// The machine invariant: the tree is well formed and commits exactly
    /// the ledger's commitment list.
    pub open spec fn wf(&self) -> bool {
        &&& self.spec_tree().wf()
        &&& self.spec_tree().leaves() == self@.commitments
    }

    /// A fresh machine over the two program ids, with empty state.
    pub fn new(consume_id: Digest, create_id: Digest) -> (m: ResourceMachine)
        ensures
            m.wf(),
            m@.roots == Seq::<Digest>::empty(),
            m@.nullifiers == Seq::<Digest>::empty(),
            m@.commitments == Seq::<Digest>::empty(),
            m.spec_consume_id() == consume_id,
            m.spec_create_id() == create_id,
    {
        let tree = CommitmentTree::<COMMITMENT_TREE_DEPTH, Digest>::default();
        let m = ResourceMachine {
            roots: Vec::new(),
            nullifiers: Vec::new(),
            commitments: Vec::new(),
            tree,
            consume_id,
            create_id,
        };
        proof {
            assert(m@.roots =~= Seq::<Digest>::empty());
            assert(m@.nullifiers =~= Seq::<Digest>::empty());
            assert(m@.commitments =~= Seq::<Digest>::empty());
        }
        m
    }

    /// The current tree, for deriving paths to committed resources.
    pub fn tree(&self) -> (t: &CommitmentTree<COMMITMENT_TREE_DEPTH, Digest>)
        ensures
            t == self.spec_tree(),
    {
        &self.tree
    }

    /// All the previous roots.
    pub fn roots(&self) -> (r: &Vec<Digest>)
        ensures
            r@ == self@.roots,
    {
        &self.roots
    }

    /// All previously revealed nullifiers.
    pub fn nullifiers(&self) -> (r: &Vec<Digest>)
        ensures
            r@ == self@.nullifiers,
    {
        &self.nullifiers
    }

    /// The ordered list of commitments.
    pub fn commitments(&self) -> (r: &Vec<Digest>)
        ensures
            r@ == self@.commitments,
    {
        &self.commitments
    }

    /// Applies already-checked proof records to the machine, in two
    /// strict passes: a read-only verify pass over the pre-state, then,
    /// only if every record passed, the commit pass. A failing
    /// transaction leaves the machine untouched.
    pub fn apply_checked(&mut self, records: &Vec<CheckedProof>) -> (r: Result<
        (),
        ResourceMachineError,
    >)
        requires
            old(self).wf(),
            old(self)@.commitments.len() + records@.len() <= pow2(COMMITMENT_TREE_DEPTH as nat),
            2 * (old(self)@.commitments.len() + records@.len()) + 2 * (
            COMMITMENT_TREE_DEPTH as nat) < usize::MAX,
        ensures
            final(self).wf(),
            final(self).spec_consume_id() == old(self).spec_consume_id(),
            final(self).spec_create_id() == old(self).spec_create_id(),
            r is Ok <==> all_pass(old(self)@, records@),
            r is Ok ==> final(self)@ == apply_outcome(old(self)@, records@),
            r is Err ==> *final(self) == *old(self),
            r matches Err(e) ==> exists|i: int|
                0 <= i < records@.len() && #[trigger] claim_error(old(self)@, records@[i])
                    == Some(e) && forall|k: int|
                    0 <= k < i ==> claim_error(old(self)@, records@[k]) is None,
    {
        let n = records.len();
        let ghost v0 = self@;
        let ghost m0 = *self;
        // Verify pass: read-only checks against the pre-state.
        let mut i: usize = 0;
        while i < n
            invariant
                i <= n,
                n == records@.len(),
                *self == m0,
                m0 == *old(self),
                m0.wf(),
                v0 == self@,
                forall|k: int| 0 <= k < i ==> (#[trigger] claim_error(v0, records@[k])) is None,
            decreases n - i,
        {
            let p = records[i];
            if !p.valid {
                proof {
                    assert(claim_error(v0, records@[i as int]) == Some(
                        ResourceMachineError::InvalidProof,
                    ));
                }
                return Err(ResourceMachineError::InvalidProof);
            }
            match p.claim {
                Claim::Malformed => {
                    proof {
                        assert(claim_error(v0, records@[i as int]) == Some(
                            ResourceMachineError::MalformedInstance,
                        ));
                    }
                    return Err(ResourceMachineError::MalformedInstance);
                },
                Claim::Consume { root, nullifier } => {
                    if !contains_digest(&self.roots, &root) {
                        proof {
                            assert(claim_error(v0, records@[i as int]) == Some(
                                ResourceMachineError::UnknownRoot(root),
                            ));
                        }
                        return Err(ResourceMachineError::UnknownRoot(root));
                    }
                    if contains_digest(&self.nullifiers, &nullifier) {
                        proof {
                            assert(claim_error(v0, records@[i as int]) == Some(
                                ResourceMachineError::RevealedNullifier(nullifier),
                            ));
                        }
                        return Err(ResourceMachineError::RevealedNullifier(nullifier));
                    }
                },
                Claim::Create { commitment } => {
                    if contains_digest(&self.commitments, &commitment) {
                        proof {
                            assert(claim_error(v0, records@[i as int]) == Some(
                                ResourceMachineError::DuplicateCommitment(commitment),
                            ));
                        }
                        return Err(ResourceMachineError::DuplicateCommitment(commitment));
                    }
                },
                Claim::Other => {},
            }
            proof {
                assert(claim_error(v0, records@[i as int]) is None);
            }
            i = i + 1;
        }
        // All the checks have passed: commit every state change.
        proof {
            assert(records@.skip(0) =~= records@);
        }
        let mut i: usize = 0;
        while i < n
            invariant
                i <= n,
                n == records@.len(),
                self.roots@ == v0.roots,
                self.consume_id == m0.consume_id,
                self.create_id == m0.create_id,
                commit_all(v0, records@) == commit_all(self@, records@.skip(i as int)),
                self@.commitments.len() <= v0.commitments.len() + i,
                v0.commitments.len() + records@.len() <= pow2(COMMITMENT_TREE_DEPTH as nat),
                2 * (v0.commitments.len() + records@.len()) + 2 * (COMMITMENT_TREE_DEPTH as nat)
                    < usize::MAX,
            decreases n - i,
        {
            let p = records[i];
            let ghost pre = self@;
            match p.claim {
                Claim::Consume { root, nullifier } => {
                    // Reveal the nullifier
                    if !contains_digest(&self.nullifiers, &nullifier) {
                        self.nullifiers.push(nullifier);
                    }
                },
                Claim::Create { commitment } => {
                    // Commit the commitment
                    self.commitments.push(commitment);
                },
                _ => {},
            }
            proof {
                assert(self@.roots =~= commit_one(pre, records@[i as int]).roots);
                assert(self@.nullifiers =~= commit_one(pre, records@[i as int]).nullifiers);
                assert(self@.commitments =~= commit_one(pre, records@[i as int]).commitments);
                assert(self@ == commit_one(pre, records@[i as int]));
                assert(records@.skip(i as int).drop_first() =~= records@.skip(i + 1));
                assert(records@.skip(i as int)[0] == records@[i as int]);
            }
            i = i + 1;
        }
        proof {
            assert(records@.skip(n as int) =~= Seq::<CheckedProof>::empty());
            assert(commit_all(self@, records@.skip(n as int)) == self@);
        }
        // Finally, make a new commitment tree and record its root.
        let new_tree = CommitmentTree::<COMMITMENT_TREE_DEPTH, Digest>::new(
            self.commitments.as_slice(),
        );
        let root = new_tree.root();
        self.tree = new_tree;
        if !contains_digest(&self.roots, &root) {
            self.roots.push(root);
        }
        proof {
            let c = commit_all(v0, records@);
            assert(self@.roots =~= insert_unique(
                c.roots,
                root_spec(c.commitments, COMMITMENT_TREE_DEPTH as nat),
            ));
            assert(self@.nullifiers =~= apply_outcome(v0, records@).nullifiers);
            assert(self@.commitments =~= apply_outcome(v0, records@).commitments);
            assert(self@ == apply_outcome(v0, records@));
        }
        Ok(())
    }

    /// Applies the given transaction to the resource machine: verifies
    /// every proof and decodes its instance, checks all of it against the
    /// current state, then commits every change atomically. Any failure
    /// leaves the machine untouched.
    pub fn apply(&mut self, tx: &Transaction) -> (r: Result<(), ResourceMachineError>)
        requires
            old(self).wf(),
            old(self)@.commitments.len() + tx.proofs@.len() <= pow2(COMMITMENT_TREE_DEPTH as nat),
            2 * (old(self)@.commitments.len() + tx.proofs@.len()) + 2 * (
            COMMITMENT_TREE_DEPTH as nat) < usize::MAX,
        ensures
            final(self).wf(),
            final(self).spec_consume_id() == old(self).spec_consume_id(),
            final(self).spec_create_id() == old(self).spec_create_id(),
            ({
                let records = checked_records(
                    old(self).spec_consume_id(),
                    old(self).spec_create_id(),
                    tx.proofs@,
                );
                &&& (r is Ok <==> all_pass(old(self)@, records))
                &&& (r is Ok ==> final(self)@ == apply_outcome(old(self)@, records))
                &&& (r is Err ==> *final(self) == *old(self))
                &&& (r matches Err(e) ==> exists|i: int|
                    0 <= i < records.len() && #[trigger] claim_error(old(self)@, records[i])
                        == Some(e) && forall|k: int|
                        0 <= k < i ==> claim_error(old(self)@, records[k]) is None)
            }),
    {
        let ghost m0 = *self;
        let n = tx.proofs.len();
        let mut records: Vec<CheckedProof> = Vec::new();
        let mut i: usize = 0;
        while i < n
            invariant
                i <= n,
                n == tx.proofs@.len(),
                *self == m0,
                m0 == *old(self),
                m0.wf(),
                old(self)@.commitments.len() + tx.proofs@.len() <= pow2(
                    COMMITMENT_TREE_DEPTH as nat,
                ),
                2 * (old(self)@.commitments.len() + tx.proofs@.len()) + 2 * (
                COMMITMENT_TREE_DEPTH as nat) < usize::MAX,
                records@.len() == i,
                forall|k: int|
                    0 <= k < i ==> records@[k] == checked_of(
                        m0.spec_consume_id(),
                        m0.spec_create_id(),
                        tx.proofs@[k],
                    ),
            decreases n - i,
        {
            let rec = &tx.proofs[i];
            // The proof must pass the verification
            let valid = verify_proof(&rec.proof, &rec.image_id);
            let claim = if rec.image_id == self.consume_id {
                match journal_bytes(&rec.proof) {
                    Some(j) => match parse_consumption(&j) {
                        Some(rn) => Claim::Consume { root: rn.0, nullifier: rn.1 },
                        None => Claim::Malformed,
                    },
                    None => Claim::Malformed,
                }
            } else if rec.image_id == self.create_id {
                match journal_bytes(&rec.proof) {
                    Some(j) => match parse_creation(&j) {
                        Some(cm) => Claim::Create { commitment: cm },
                        None => Claim::Malformed,
                    },
                    None => Claim::Malformed,
                }
            } else {
                Claim::Other
            };
            records.push(CheckedProof { valid, claim });
            proof {
                assert(records@[i as int] == checked_of(
                    m0.spec_consume_id(),
                    m0.spec_create_id(),
                    tx.proofs@[i as int],
                ));
            }
            i = i + 1;
        }
        proof {
            assert(records@ =~= checked_records(
                m0.spec_consume_id(),
                m0.spec_create_id(),
                tx.proofs@,
            ));
        }
        self.apply_checked(&records)
    }
}

/// The checked form of one proof record: its verification outcome and the
/// instance its journal asserts, dispatched on the machine's program ids.
pub open spec fn checked_of(consume_id: Digest, create_id: Digest, rec: ProofRecord) -> CheckedProof {
    CheckedProof {
        valid: proof_checks(rec.proof@, rec.image_id@),
        claim: if rec.image_id == consume_id {
            match journal_of(rec.proof@) {
                Some(j) => match parse_consumption_spec(j) {
                    Some(rn) => Claim::Consume { root: rn.0, nullifier: rn.1 },
                    None => Claim::Malformed,
                },
                None => Claim::Malformed,
            }
        } else if rec.image_id == create_id {
            match journal_of(rec.proof@) {
                Some(j) => match parse_creation_spec(j) {
                    Some(cm) => Claim::Create { commitment: cm },
                    None => Claim::Malformed,
                },
                None => Claim::Malformed,
            }
        } else {
            Claim::Other
        },
    }
}

/// The checked forms of a transaction's proof records, in order.
pub open spec fn checked_records(
    consume_id: Digest,
    create_id: Digest,
    proofs: Seq<ProofRecord>,
) -> Seq<CheckedProof> {
    proofs.map_values(|rec: ProofRecord| checked_of(consume_id, create_id, rec))
}

/// Inserting into a sequence-as-set keeps what it holds, and afterwards
/// it holds the inserted element.
proof fn lemma_insert_unique_contains(s: Seq<Digest>, d: Digest, n: Digest)
    ensures
        s.contains(n) ==> insert_unique(s, d).contains(n),
        insert_unique(s, d).contains(d),
{
    if !s.contains(d) {
        assert(s.push(d)[s.len() as int] == d);
        if s.contains(n) {
            let w = choose|w: int| 0 <= w < s.len() && s[w] == n;
            assert(s.push(d)[w] == n);
        }
    }
}

/// Appending to a sequence keeps what it holds, and afterwards it holds
/// the appended element.
proof fn lemma_push_contains(s: Seq<Digest>, d: Digest, n: Digest)
    ensures
        s.contains(n) ==> s.push(d).contains(n),
        s.push(d).contains(d),
{
    assert(s.push(d)[s.len() as int] == d);
    if s.contains(n) {
        let w = choose|w: int| 0 <= w < s.len() && s[w] == n;
        assert(s.push(d)[w] == n);
    }
}

/// Committing records never un-reveals a nullifier and never drops a
/// commitment: both collections grow monotonically.
pub proof fn lemma_commit_monotone(v: LedgerView, records: Seq<CheckedProof>, d: Digest)
    ensures
        v.nullifiers.contains(d) ==> commit_all(v, records).nullifiers.contains(d),
        v.commitments.contains(d) ==> commit_all(v, records).commitments.contains(d),
    decreases records.len(),
{
    if records.len() > 0 {
        let v1 = commit_one(v, records[0]);
        match records[0].claim {
            Claim::Consume { root, nullifier } => {
                lemma_insert_unique_contains(v.nullifiers, nullifier, d);
            },
            Claim::Create { commitment } => {
                lemma_push_contains(v.commitments, commitment, d);
            },
            _ => {},
        }
        lemma_commit_monotone(v1, records.drop_first(), d);
    }
}

/// Applying records with a consumption reveals its nullifier, and with a
/// creation commits its commitment.
pub proof fn lemma_commit_records_effect(v: LedgerView, records: Seq<CheckedProof>, i: int)
    requires
        0 <= i < records.len(),
    ensures
        records[i].claim matches Claim::Consume { root, nullifier } ==> commit_all(
            v,
            records,
        ).nullifiers.contains(nullifier),
        records[i].claim matches Claim::Create { commitment } ==> commit_all(
            v,
            records,
        ).commitments.contains(commitment),
    decreases records.len(),
{
    let v1 = commit_one(v, records[0]);
    if i == 0 {
        match records[0].claim {
            Claim::Consume { root, nullifier } => {
                lemma_insert_unique_contains(v.nullifiers, nullifier, nullifier);
                lemma_commit_monotone(v1, records.drop_first(), nullifier);
            },
            Claim::Create { commitment } => {
                lemma_push_contains(v.commitments, commitment, commitment);
                lemma_commit_monotone(v1, records.drop_first(), commitment);
            },
            _ => {},
        }
    } else {
        lemma_commit_records_effect(v1, records.drop_first(), i - 1);
        assert(records.drop_first()[i - 1] == records[i]);
    }
}

/// No double-spend: once records reveal nullifier `n`, any later record
/// sequence with a verified unit revealing `n` again is rejected; where
/// that unit's root is known, the error is the revealed nullifier.
pub proof fn lemma_no_double_spend(
    v0: LedgerView,
    tx1: Seq<CheckedProof>,
    tx2: Seq<CheckedProof>,
    i: int,
    j: int,
    r1: Digest,
    r2: Digest,
    n: Digest,
)
    requires
        0 <= i < tx1.len(),
        tx1[i] == (CheckedProof { valid: true, claim: Claim::Consume { root: r1, nullifier: n } }),
        0 <= j < tx2.len(),
        tx2[j] == (CheckedProof { valid: true, claim: Claim::Consume { root: r2, nullifier: n } }),
    ensures
        !all_pass(apply_outcome(v0, tx1), tx2),
        apply_outcome(v0, tx1).roots.contains(r2) ==> claim_error(apply_outcome(v0, tx1), tx2[j])
            == Some(ResourceMachineError::RevealedNullifier(n)),
{
    lemma_commit_records_effect(v0, tx1, i);
    let v1 = apply_outcome(v0, tx1);
    assert(v1.nullifiers.contains(n));
    assert(claim_error(v1, tx2[j]) is Some);
    assert(!all_pass(v1, tx2)) by {
        if all_pass(v1, tx2) {
            assert(claim_error(v1, tx2[j]) is None);
        }
    }
}

/// No duplicate creation: once records create commitment `c`, any later
/// record sequence with a verified unit creating `c` again is rejected
/// with the duplicate-commitment error.
pub proof fn lemma_no_duplicate_creation(
    v0: LedgerView,
    tx1: Seq<CheckedProof>,
    tx2: Seq<CheckedProof>,
    i: int,
    j: int,
    c: Digest,
)
    requires
        0 <= i < tx1.len(),
        tx1[i] == (CheckedProof { valid: true, claim: Claim::Create { commitment: c } }),
        0 <= j < tx2.len(),
        tx2[j] == (CheckedProof { valid: true, claim: Claim::Create { commitment: c } }),
    ensures
        !all_pass(apply_outcome(v0, tx1), tx2),
        claim_error(apply_outcome(v0, tx1), tx2[j]) == Some(
            ResourceMachineError::DuplicateCommitment(c),
        ),
{
    lemma_commit_records_effect(v0, tx1, i);
    let v1 = apply_outcome(v0, tx1);
    assert(v1.commitments.contains(c));
    assert(!all_pass(v1, tx2)) by {
        if all_pass(v1, tx2) {
            assert(claim_error(v1, tx2[j]) is None);
        }
    }
}

} // verus!
