//! Conversion of assembled transactions into the form a settlement-layer
//! verifier contract consumes: per-field expansion of byte blobs and
//! decoding of every unit's public instance. Re-encoding the proofs
//! themselves for a specific settlement layer is boundary work and stays
//! outside this core.

use crate::digest::Digest;
use crate::instance::{
    compliance_instance_of, get_compliance_instance, ComplianceInstance, ExpirableBlob,
    InstanceError, LogicInstance,
};
use crate::resource::Resource;
use vstd::prelude::*;

verus! {

/// Calldata for an external forwarder contract, carried opaquely.
#[derive(Clone, Debug)]
pub struct ForwarderCalldata {
    pub untrusted_forwarder: Vec<u8>,
    pub input: Vec<u8>,
    pub output: Vec<u8>,
}

/// A logic proof: the receipt, the verifying key of its program, and the
/// instance its journal asserts.
#[derive(Clone, Debug)]
pub struct LogicProof {
    pub verifying_key: Digest,
    pub receipt: Vec<u8>,
    pub instance: LogicInstance,
}

/// One action: compliance receipts, logic proofs, and the forwarder
/// calldata of the resources it touches.
pub struct Action {
    pub compliance_units: Vec<Vec<u8>>,
    pub logic_proofs: Vec<LogicProof>,
    pub resource_forwarder_calldata_pairs: Vec<(Resource, ForwarderCalldata)>,
}

/// A transaction-level delta: the open witness while the transaction is
/// still unbalanced, or the final balancing proof.
pub enum Delta {
    Witness(Digest),
    Proof(Vec<u8>),
}

/// An assembled transaction bound for settlement: ordered actions plus
/// the balancing delta proof.
pub struct Bundle {
    pub actions: Vec<Action>,
    pub delta_proof: Delta,
}

#[derive(Clone, Debug)]
pub struct AdapterTransaction {
    pub actions: Vec<AdapterAction>,
    /// The delta proof is a signature over the aggregate delta.
    pub delta_proof: Vec<u8>,
}

#[derive(Clone, Debug)]
pub struct AdapterAction {
    pub compliance_units: Vec<AdapterComplianceUnit>,
    pub logic_proofs: Vec<AdapterLogicProof>,
    pub resource_forwarder_calldata_pairs: Vec<(Resource, ForwarderCalldata)>,
}

#[derive(Clone, Debug)]
pub struct AdapterComplianceUnit {
    /// The proof bytes of the unit, as the prover returned them.
    pub proof: Vec<u8>,
    /// The instance decoded from the unit's journal.
    pub instance: ComplianceInstance,
}

#[derive(Clone, Debug)]
pub struct AdapterLogicInstance {
    pub tag: Digest,
    pub is_consumed: bool,
    pub root: Digest,
    pub cipher: Vec<u8>,
    pub app_data: Vec<AdapterExpirableBlob>,
}

#[derive(Clone, Debug)]
pub struct AdapterExpirableBlob {
    pub blob: Vec<u8>,
    pub deletion_criterion: u8,
}

#[derive(Clone, Debug)]
pub struct AdapterLogicProof {
    /// The verifying key of the logic program.
    pub verifying_key: Digest,
    /// The instance decoded from the proof's journal.
    pub instance: AdapterLogicInstance,
}

/// Each byte followed by three zero bytes: the expansion a 256-bit-word
/// target reads byte fields with.
pub open spec fn interleave_zeros(s: Seq<u8>) -> Seq<u8>
    decreases s.len(),
{
    if s.len() == 0 {
        Seq::empty()
    } else {
        interleave_zeros(s.drop_last()) + seq![s.last(), 0u8, 0u8, 0u8]
    }
}

/// Expands each byte to four: the original byte followed by three zeros.
pub fn insert_zeros(v: &Vec<u8>) -> (out: Vec<u8>)
    requires
        4 * v@.len() <= usize::MAX,
    ensures
        out@ == interleave_zeros(v@),
        out@.len() == 4 * v@.len(),
{
    let n = v.len();
    let mut out: Vec<u8> = Vec::new();
    let mut i: usize = 0;
    while i < n
        invariant
            i <= n,
            n == v@.len(),
            4 * (n as nat) <= usize::MAX,
            out@ == interleave_zeros(v@.take(i as int)),
            out@.len() == 4 * i,
        decreases n - i,
    {
        let b = v[i];
        out.push(b);
        out.push(0u8);
        out.push(0u8);
        out.push(0u8);
        proof {
            assert(v@.take(i + 1).drop_last() =~= v@.take(i as int));
            assert(v@.take(i + 1).last() == v@[i as int]);
            assert(out@ =~= interleave_zeros(v@.take(i + 1)));
        }
        i = i + 1;
    }
    proof {
        assert(v@.take(n as int) =~= v@);
    }
    out
}

/// How a blob converts: bytes expanded, criterion kept.
pub open spec fn blob_converted(src: ExpirableBlob, dst: AdapterExpirableBlob) -> bool {
    &&& dst.blob@ == interleave_zeros(src.blob@)
    &&& dst.deletion_criterion == src.deletion_criterion
}

/// How a logic instance converts: tag, side and root kept, cipher and
/// every blob expanded.
pub open spec fn logic_instance_converted(src: LogicInstance, dst: AdapterLogicInstance) -> bool {
    &&& dst.tag == src.tag
    &&& dst.is_consumed == src.is_consumed
    &&& dst.root == src.root
    &&& dst.cipher@ == interleave_zeros(src.cipher@)
    &&& dst.app_data@.len() == src.app_data@.len()
    &&& forall|i: int|
        0 <= i < src.app_data@.len() ==> blob_converted(src.app_data@[i], #[trigger] dst.app_data@[i])
}

impl AdapterExpirableBlob {
    /// Converts one blob.
    pub fn from(src: &ExpirableBlob) -> (dst: AdapterExpirableBlob)
        requires
            4 * src.blob@.len() <= usize::MAX,
        ensures
            blob_converted(*src, dst),
    {
        AdapterExpirableBlob {
            blob: insert_zeros(&src.blob),
            deletion_criterion: src.deletion_criterion,
        }
    }
}

/// How a whole action converts: every compliance unit carries its receipt
/// bytes and the instance those bytes' journal asserts, every logic proof
/// keeps its key and converts its instance, and the calldata pairs carry
/// over one for one.
pub open spec fn action_converted(src: Action, dst: AdapterAction) -> bool {
    &&& dst.compliance_units@.len() == src.compliance_units@.len()
    &&& forall|i: int|
        0 <= i < src.compliance_units@.len() ==> {
            &&& (#[trigger] dst.compliance_units@[i]).proof@ == src.compliance_units@[i]@
            &&& Ok::<ComplianceInstance, InstanceError>(dst.compliance_units@[i].instance)
                == compliance_instance_of(src.compliance_units@[i]@)
        }
    &&& dst.logic_proofs@.len() == src.logic_proofs@.len()
    &&& forall|i: int|
        0 <= i < src.logic_proofs@.len() ==> {
            &&& (#[trigger] dst.logic_proofs@[i]).verifying_key == src.logic_proofs@[i].verifying_key
            &&& logic_instance_converted(
                src.logic_proofs@[i].instance,
                dst.logic_proofs@[i].instance,
            )
        }
    &&& dst.resource_forwarder_calldata_pairs@.len()
        == src.resource_forwarder_calldata_pairs@.len()
    &&& forall|i: int|
        0 <= i < src.resource_forwarder_calldata_pairs@.len() ==> {
            &&& (#[trigger] dst.resource_forwarder_calldata_pairs@[i]).0
                == src.resource_forwarder_calldata_pairs@[i].0
            &&& dst.resource_forwarder_calldata_pairs@[i].1.untrusted_forwarder@
                == src.resource_forwarder_calldata_pairs@[i].1.untrusted_forwarder@
            &&& dst.resource_forwarder_calldata_pairs@[i].1.input@
                == src.resource_forwarder_calldata_pairs@[i].1.input@
            &&& dst.resource_forwarder_calldata_pairs@[i].1.output@
                == src.resource_forwarder_calldata_pairs@[i].1.output@
        }
}

impl AdapterAction {
    /// Converts one action: decodes every compliance unit's instance from
    /// its receipt and converts every logic proof's instance. Fails with
    /// the decoding error of the first unit whose journal does not hold a
    /// compliance instance.
    pub fn from(action: &Action) -> (r: Result<AdapterAction, InstanceError>)
        requires
            forall|i: int|
                0 <= i < action.logic_proofs@.len() ==> 4 * (#[trigger] action.logic_proofs@[i]).instance.cipher@.len() <= usize::MAX,
            forall|i: int, k: int|
                0 <= i < action.logic_proofs@.len() && 0 <= k
                    < action.logic_proofs@[i].instance.app_data@.len() ==> 4 * (
                #[trigger] action.logic_proofs@[i].instance.app_data@[k]).blob@.len() <= usize::MAX,
        ensures
            r is Ok <==> forall|i: int|
                0 <= i < action.compliance_units@.len() ==> compliance_instance_of(
                    (#[trigger] action.compliance_units@[i])@,
                ) is Ok,
            r matches Ok(a) ==> action_converted(*action, a),
    {
        let nu = action.compliance_units.len();
        let mut compliance_units: Vec<AdapterComplianceUnit> = Vec::new();
        let mut i: usize = 0;
        while i < nu
            invariant
                i <= nu,
                nu == action.compliance_units@.len(),
                compliance_units@.len() == i,
                forall|k: int|
                    0 <= k < i ==> {
                        &&& (#[trigger] compliance_units@[k]).proof@
                            == action.compliance_units@[k]@
                        &&& Ok::<ComplianceInstance, InstanceError>(
                            compliance_units@[k].instance,
                        ) == compliance_instance_of(action.compliance_units@[k]@)
                    },
            decreases nu - i,
        {
            let receipt = &action.compliance_units[i];
            let instance = match get_compliance_instance(receipt) {
                Ok(ci) => ci,
                Err(e) => {
                    return Err(e);
                },
            };
            let mut proof: Vec<u8> = Vec::new();
            let rl = receipt.len();
            let mut b: usize = 0;
            while b < rl
                invariant
                    b <= rl,
                    rl == receipt@.len(),
                    proof@ == receipt@.take(b as int),
                decreases rl - b,
            {
                let x = receipt[b];
                proof.push(x);
                proof {
                    assert(proof@ =~= receipt@.take(b + 1));
                }
                b = b + 1;
            }
            proof {
                assert(proof@ =~= receipt@);
            }
            compliance_units.push(AdapterComplianceUnit { proof, instance });
            i = i + 1;
        }
        let nl = action.logic_proofs.len();
        let mut logic_proofs: Vec<AdapterLogicProof> = Vec::new();
        let mut i: usize = 0;
        while i < nl
            invariant
                i <= nl,
                nl == action.logic_proofs@.len(),
                logic_proofs@.len() == i,
                forall|k: int|
                    0 <= k < action.logic_proofs@.len() ==> 4 * (
                    #[trigger] action.logic_proofs@[k]).instance.cipher@.len() <= usize::MAX,
                forall|k: int, t: int|
                    0 <= k < action.logic_proofs@.len() && 0 <= t
                        < action.logic_proofs@[k].instance.app_data@.len() ==> 4 * (
                    #[trigger] action.logic_proofs@[k].instance.app_data@[t]).blob@.len()
                        <= usize::MAX,
                forall|k: int|
                    0 <= k < i ==> {
                        &&& (#[trigger] logic_proofs@[k]).verifying_key
                            == action.logic_proofs@[k].verifying_key
                        &&& logic_instance_converted(
                            action.logic_proofs@[k].instance,
                            logic_proofs@[k].instance,
                        )
                    },
            decreases nl - i,
        {
            let lp = &action.logic_proofs[i];
            let instance = AdapterLogicInstance::from(&lp.instance);
            logic_proofs.push(AdapterLogicProof { verifying_key: lp.verifying_key, instance });
            i = i + 1;
        }
        let np = action.resource_forwarder_calldata_pairs.len();
        let mut pairs: Vec<(Resource, ForwarderCalldata)> = Vec::new();
        let mut i: usize = 0;
        while i < np
            invariant
                i <= np,
                np == action.resource_forwarder_calldata_pairs@.len(),
                pairs@.len() == i,
                forall|k: int|
                    0 <= k < i ==> {
                        &&& (#[trigger] pairs@[k]).0
                            == action.resource_forwarder_calldata_pairs@[k].0
                        &&& pairs@[k].1.untrusted_forwarder@
                            == action.resource_forwarder_calldata_pairs@[k].1.untrusted_forwarder@
                        &&& pairs@[k].1.input@
                            == action.resource_forwarder_calldata_pairs@[k].1.input@
                        &&& pairs@[k].1.output@
                            == action.resource_forwarder_calldata_pairs@[k].1.output@
                    },
            decreases np - i,
        {
            let p = &action.resource_forwarder_calldata_pairs[i];
            let fc = ForwarderCalldata {
                untrusted_forwarder: clone_bytes(&p.1.untrusted_forwarder),
                input: clone_bytes(&p.1.input),
                output: clone_bytes(&p.1.output),
            };
            pairs.push((p.0, fc));
            i = i + 1;
        }
        proof {
            assert forall|k: int|
                0 <= k < action.compliance_units@.len() implies compliance_instance_of(
                (#[trigger] action.compliance_units@[k])@,
            ) is Ok by {
                assert(Ok::<ComplianceInstance, InstanceError>(compliance_units@[k].instance)
                    == compliance_instance_of(action.compliance_units@[k]@));
            }
        }
        Ok(
            AdapterAction {
                compliance_units,
                logic_proofs,
                resource_forwarder_calldata_pairs: pairs,
            },
        )
    }
}

/// Copies a byte vector.
fn clone_bytes(v: &Vec<u8>) -> (out: Vec<u8>)
    ensures
        out@ == v@,
{
    let n = v.len();
    let mut out: Vec<u8> = Vec::new();
    let mut i: usize = 0;
    while i < n
        invariant
            i <= n,
            n == v@.len(),
            out@ == v@.take(i as int),
        decreases n - i,
    {
        let x = v[i];
        out.push(x);
        proof {
            assert(out@ =~= v@.take(i + 1));
        }
        i = i + 1;
    }
    proof {
        assert(out@ =~= v@);
    }
    out
}

impl AdapterTransaction {
    /// Converts an assembled transaction. Only balanced transactions,
    /// whose delta is a finished proof, convert.
    pub fn from(bundle: Bundle) -> (r: Result<AdapterTransaction, InstanceError>)
        requires
            bundle.delta_proof is Proof,
            forall|a: int, i: int|
                0 <= a < bundle.actions@.len() && 0 <= i
                    < bundle.actions@[a].logic_proofs@.len() ==> 4 * (
                #[trigger] bundle.actions@[a].logic_proofs@[i]).instance.cipher@.len()
                    <= usize::MAX,
            forall|a: int, i: int, k: int|
                0 <= a < bundle.actions@.len() && 0 <= i
                    < bundle.actions@[a].logic_proofs@.len() && 0 <= k
                    < bundle.actions@[a].logic_proofs@[i].instance.app_data@.len() ==> 4 * (
                #[trigger] bundle.actions@[a].logic_proofs@[i].instance.app_data@[k]).blob@.len()
                    <= usize::MAX,
        ensures
            r matches Ok(t) ==> {
                &&& t.actions@.len() == bundle.actions@.len()
                &&& forall|a: int|
                    0 <= a < bundle.actions@.len() ==> action_converted(
                        bundle.actions@[a],
                        #[trigger] t.actions@[a],
                    )
                &&& t.delta_proof@ == bundle.delta_proof->Proof_0@
            },
            r is Err ==> exists|a: int, i: int|
                0 <= a < bundle.actions@.len() && 0 <= i
                    < bundle.actions@[a].compliance_units@.len() && compliance_instance_of(
                    (#[trigger] bundle.actions@[a].compliance_units@[i])@,
                ) is Err,
    {
        let na = bundle.actions.len();
        let mut actions: Vec<AdapterAction> = Vec::new();
        let mut i: usize = 0;
        while i < na
            invariant
                i <= na,
                na == bundle.actions@.len(),
                actions@.len() == i,
                forall|a: int|
                    0 <= a < i ==> action_converted(bundle.actions@[a], #[trigger] actions@[a]),
                forall|a: int, k: int|
                    0 <= a < bundle.actions@.len() && 0 <= k
                        < bundle.actions@[a].logic_proofs@.len() ==> 4 * (
                    #[trigger] bundle.actions@[a].logic_proofs@[k]).instance.cipher@.len()
                        <= usize::MAX,
                forall|a: int, k: int, t: int|
                    0 <= a < bundle.actions@.len() && 0 <= k
                        < bundle.actions@[a].logic_proofs@.len() && 0 <= t
                        < bundle.actions@[a].logic_proofs@[k].instance.app_data@.len() ==> 4 * (
                    #[trigger] bundle.actions@[a].logic_proofs@[k].instance.app_data@[t]).blob@.len()
                        <= usize::MAX,
            decreases na - i,
        {
            match AdapterAction::from(&bundle.actions[i]) {
                Ok(a) => {
                    actions.push(a);
                    proof {
                        assert(action_converted(bundle.actions@[i as int], actions@[i as int]));
                    }
                },
                Err(e) => {
                    proof {
                        let a0 = i as int;
                        assert(exists|k: int|
                            0 <= k < bundle.actions@[a0].compliance_units@.len()
                                && compliance_instance_of(
                                (#[trigger] bundle.actions@[a0].compliance_units@[k])@,
                            ) is Err);
                    }
                    return Err(e);
                },
            }
            i = i + 1;
        }
        let delta_proof = match bundle.delta_proof {
            Delta::Proof(p) => p,
            Delta::Witness(_) => {
                proof {
                    assert(false);
                }
                Vec::new()
            },
        };
        Ok(AdapterTransaction { actions, delta_proof })
    }
}

impl AdapterLogicInstance {
    /// Converts one logic instance.
    pub fn from(src: &LogicInstance) -> (dst: AdapterLogicInstance)
        requires
            4 * src.cipher@.len() <= usize::MAX,
            forall|i: int|
                0 <= i < src.app_data@.len() ==> 4 * (#[trigger] src.app_data@[i]).blob@.len()
                    <= usize::MAX,
        ensures
            logic_instance_converted(*src, dst),
    {
        let cipher = insert_zeros(&src.cipher);
        let n = src.app_data.len();
        let mut app_data: Vec<AdapterExpirableBlob> = Vec::new();
        let mut i: usize = 0;
        while i < n
            invariant
                i <= n,
                n == src.app_data@.len(),
                app_data@.len() == i,
                forall|k: int|
                    0 <= k < src.app_data@.len() ==> 4 * (#[trigger] src.app_data@[k]).blob@.len()
                        <= usize::MAX,
                forall|k: int|
                    0 <= k < i ==> blob_converted(src.app_data@[k], #[trigger] app_data@[k]),
            decreases n - i,
        {
            let b = AdapterExpirableBlob::from(&src.app_data[i]);
            app_data.push(b);
            i = i + 1;
        }
        AdapterLogicInstance {
            tag: src.tag,
            is_consumed: src.is_consumed,
            root: src.root,
            cipher,
            app_data,
        }
    }
}

} // verus!
