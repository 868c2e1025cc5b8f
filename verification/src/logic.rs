//! Application logic circuits: the constraints a resource's governing
//! program asserts over its witness, producing a public logic instance.

use crate::digest::{Digest, Hashable};
use crate::instance::{ExpirableBlob, LogicInstance};
use crate::merkle_path::{path_root_spec, MerklePath};
use crate::resource::{commitment_spec, nk_commit_spec, nullifier_of, NullifierKey, Resource};
use vstd::prelude::*;

verus! {

/// Depth of the per-action Merkle tree over one action's tags.
pub const ACTION_TREE_DEPTH: usize = 4;

/// A logic-constraints implementation: what an application circuit
/// asserts of its witness, and the public instance it exposes.
pub trait LogicCircuit: Sized {
    /// When the witness is admissible: the circuit's own assertions hold
    /// of it.
    spec fn admissible(&self) -> bool;

    /// What the exposed instance says of the witness.
    spec fn instance_ok(&self, r: LogicInstance) -> bool;

    /// What the padding witness looks like.
    spec fn is_default(&self) -> bool;

    /// The padding witness the circuit runs on when nothing is proved.
    fn default_witness() -> (w: Self)
        ensures
            w.is_default(),
    ;

    /// Computes the circuit's public instance from the witness.
    fn constrain(&self) -> (r: LogicInstance)
        requires
            self.admissible(),
        ensures
            self.instance_ok(r),
    ;
}

/// The trivial circuit's witness: an ephemeral, zero-quantity resource
/// together with its existence path in the action tree.
pub struct TrivialLogicWitness {
    pub resource: Resource,
    pub receive_existence_path: MerklePath<ACTION_TREE_DEPTH, Digest>,
    pub is_consumed: bool,
    pub nf_key: NullifierKey,
}

impl TrivialLogicWitness {
    /// The tag the witness exposes: the resource's nullifier when it is
    /// consumed, its commitment when it is created.
    pub open spec fn spec_tag(&self) -> Digest {
        if self.is_consumed {
            nullifier_of(commitment_spec(self.resource), self.nf_key)
        } else {
            commitment_spec(self.resource)
        }
    }

    pub fn new(
        resource: Resource,
        receive_existence_path: MerklePath<ACTION_TREE_DEPTH, Digest>,
        nf_key: NullifierKey,
        is_consumed: bool,
    ) -> (w: Self)
        ensures
            w.resource == resource,
            w.receive_existence_path == receive_existence_path,
            w.nf_key == nf_key,
            w.is_consumed == is_consumed,
    {
        Self { resource, receive_existence_path, is_consumed, nf_key }
    }
}

impl LogicCircuit for TrivialLogicWitness {
    /// The trivial logic accepts only ephemeral, zero-quantity resources,
    /// and a consumption needs the matching secret key.
    open spec fn admissible(&self) -> bool {
        &&& self.resource.quantity == 0
        &&& self.resource.is_ephemeral
        &&& self.is_consumed ==> nk_commit_spec(self.nf_key) == self.resource.nk_commitment
        &&& self.receive_existence_path.wf()
    }

    /// The instance carries the witness's tag, its side, and the action
    /// root its existence path climbs to, with fixed placeholder data.
    open spec fn instance_ok(&self, r: LogicInstance) -> bool {
        &&& r.tag == self.spec_tag()
        &&& r.is_consumed == self.is_consumed
        &&& r.root == path_root_spec(self.receive_existence_path.spec_auth(), self.spec_tag())
        &&& r.cipher@ == seq![1u8, 2u8, 3u8, 4u8]
        &&& r.app_data@.len() == 2
        &&& r.app_data@[0].blob@ == seq![1u8, 2u8, 3u8, 4u8]
        &&& r.app_data@[0].deletion_criterion == 0
        &&& r.app_data@[1].blob@ == seq![5u8, 6u8, 7u8, 8u8]
        &&& r.app_data@[1].deletion_criterion == 1
    }

    /// The padding witness: an all-zero ephemeral resource of quantity
    /// zero, created, with an all-blank existence path and a zero key.
    open spec fn is_default(&self) -> bool {
        let zero = Digest { w0: 0, w1: 0, w2: 0, w3: 0, w4: 0, w5: 0, w6: 0, w7: 0 };
        &&& self.resource == (Resource {
            logic_ref: zero,
            label_ref: zero,
            quantity: 0,
            value_ref: zero,
            is_ephemeral: true,
            nonce: zero,
            nk_commitment: crate::resource::NullifierKeyCommitment { commitment: zero },
            rand_seed: zero,
        })
        &&& self.receive_existence_path.wf()
        &&& forall|i: int|
            0 <= i < ACTION_TREE_DEPTH ==> #[trigger] self.receive_existence_path.spec_auth()[i]
                == (zero, false)
        &&& !self.is_consumed
        &&& self.nf_key == (NullifierKey { key: zero })
    }

    fn default_witness() -> (w: Self) {
        let blank = Digest::blank();
        let mut auth: Vec<(Digest, bool)> = Vec::new();
        let mut i: usize = 0;
        while i < ACTION_TREE_DEPTH
            invariant
                i <= ACTION_TREE_DEPTH,
                auth@.len() == i,
                blank == Digest::spec_blank(),
                forall|k: int| 0 <= k < i ==> #[trigger] auth@[k] == (Digest::spec_blank(), false),
            decreases ACTION_TREE_DEPTH - i,
        {
            let ghost pre = auth@;
            auth.push((blank, false));
            proof {
                assert(auth@ == pre.push((blank, false)));
                assert(pre.push((blank, false))[pre.len() as int] == (blank, false));
                assert forall|k: int|
                    0 <= k < i + 1 implies #[trigger] auth@[k] == (Digest::spec_blank(), false) by {
                    if k < i {
                        assert(pre[k] == (Digest::spec_blank(), false));
                        assert(auth@[k] == pre[k]);
                    } else {
                        assert(auth@[k] == (blank, false));
                    }
                }
            }
            i = i + 1;
        }
        let path = MerklePath::from_path(auth);
        let zero = Digest::blank();
        TrivialLogicWitness {
            resource: Resource {
                logic_ref: zero,
                label_ref: zero,
                quantity: 0,
                value_ref: zero,
                is_ephemeral: true,
                nonce: zero,
                nk_commitment: crate::resource::NullifierKeyCommitment { commitment: zero },
                rand_seed: zero,
            },
            receive_existence_path: path,
            is_consumed: false,
            nf_key: NullifierKey { key: zero },
        }
    }

    fn constrain(&self) -> (r: LogicInstance) {
        // Load the self resource; the receive resource is always a
        // created resource
        let self_cm = self.resource.commitment();
        let tag = if self.is_consumed {
            let n = self.resource.nullifier_from_commitment(&self.nf_key, &self_cm);
            n.unwrap()
        } else {
            self_cm
        };
        let root = self.receive_existence_path.root(tag);
        let mut cipher: Vec<u8> = Vec::new();
        cipher.push(1u8);
        cipher.push(2u8);
        cipher.push(3u8);
        cipher.push(4u8);
        let mut blob0: Vec<u8> = Vec::new();
        blob0.push(1u8);
        blob0.push(2u8);
        blob0.push(3u8);
        blob0.push(4u8);
        let mut blob1: Vec<u8> = Vec::new();
        blob1.push(5u8);
        blob1.push(6u8);
        blob1.push(7u8);
        blob1.push(8u8);
        let mut app_data: Vec<ExpirableBlob> = Vec::new();
        app_data.push(ExpirableBlob { blob: blob0, deletion_criterion: 0 });
        app_data.push(ExpirableBlob { blob: blob1, deletion_criterion: 1 });
        let r = LogicInstance { tag, is_consumed: self.is_consumed, root, cipher, app_data };
        proof {
            assert(r.cipher@ =~= seq![1u8, 2u8, 3u8, 4u8]);
            assert(r.app_data@[0].blob@ =~= seq![1u8, 2u8, 3u8, 4u8]);
            assert(r.app_data@[1].blob@ =~= seq![5u8, 6u8, 7u8, 8u8]);
        }
        r
    }
}

} // verus!
