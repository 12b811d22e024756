use vstd::prelude::*;

use crate::byte::{build_bytes, components_bytes, Component};
use crate::error::Error;
use crate::types::{is_valid_name, Identifier, Uuid};
use vstd::string::StringSliceAdditionalSpecFns;

verus! {

/// The composite edge key: the first vertex id, the type name with its
/// length byte, then the second vertex id.
pub open spec fn key_bytes(out_id: Seq<u8>, t: Seq<u8>, in_id: Seq<u8>) -> Seq<u8> {
    out_id + (seq![t.len() as u8] + t) + in_id
}

/// An edge between two vertices, with its type and the properties the
/// property store handed back.
pub struct Edge<P> {
    pub source: Uuid,
    pub target: Uuid,
    pub t: Identifier,
    pub properties: P,
}

impl<P> Edge<P> {
    pub fn new(source: Uuid, target: Uuid, t: Identifier, properties: P) -> (r: Edge<P>)
        ensures
            r.source == source,
            r.target == target,
            r.t@ == t@,
            r.properties == properties,
    {
        Edge { source, target, t, properties }
    }
}

/// What an edge creation needs before it touches the store: the validated
/// type and the key to record.
pub struct CreatePlan {
    pub t: Identifier,
    pub key: Vec<u8>,
}

/// The phases of an edge creation. Each phase names the step to perform
/// next; the two last are terminal.
#[derive(Clone, Copy, Debug, PartialEq, Eq, Structural)]
pub enum CreatePhase {
    /// Hand the properties to the property store.
    PersistProperties,
    /// Write the edge key, with an empty value, in the transaction.
    WriteKey,
    /// Write what the property store handed back, in the same transaction.
    WriteProperties,
    /// Commit the transaction.
    Commit,
    /// The edge and its properties are committed together.
    Committed,
    /// The transaction was abandoned: nothing of the edge is visible.
    Aborted,
}

/// The phase after `phase`, once its step has succeeded or failed.
pub open spec fn spec_next_phase(phase: CreatePhase, succeeded: bool) -> CreatePhase {
    match phase {
        CreatePhase::Committed => CreatePhase::Committed,
        CreatePhase::Aborted => CreatePhase::Aborted,
        _ => if !succeeded {
            CreatePhase::Aborted
        } else {
            match phase {
                CreatePhase::PersistProperties => CreatePhase::WriteKey,
                CreatePhase::WriteKey => CreatePhase::WriteProperties,
                CreatePhase::WriteProperties => CreatePhase::Commit,
                _ => CreatePhase::Committed,
            }
        },
    }
}

/// The phase reached from `phase` after steps with the given outcomes.
pub open spec fn run_phases(phase: CreatePhase, outcomes: Seq<bool>) -> CreatePhase
    decreases outcomes.len(),
{
    if outcomes.len() == 0 {
        phase
    } else {
        run_phases(spec_next_phase(phase, outcomes[0]), outcomes.drop_first())
    }
}

/// Edge storage: composite keys and the decisions of edge creation.
pub struct EdgeController {}

impl EdgeController {
    pub fn new() -> (r: EdgeController) {
        EdgeController {  }
    }

    /// The composite key `UUID(out_id) ‖ Identifier(t) ‖ UUID(in_id)`.
    pub fn key(&self, out_id: Uuid, t: &Identifier, in_id: Uuid) -> (r: Vec<u8>)
        ensures
            r@ == key_bytes(out_id@, t@, in_id@),
    {
        let cs = [Component::Uuid(out_id), Component::Identifier(t), Component::Uuid(in_id)];
        let ghost s = cs@;
        proof {
            reveal_with_fuel(components_bytes, 4);
            assert(s.drop_last() =~= seq![s[0], s[1]]);
            assert(s.drop_last().drop_last() =~= seq![s[0]]);
            assert(s.drop_last().drop_last().drop_last() =~= Seq::<Component>::empty());
            assert(components_bytes(s) =~= key_bytes(out_id@, t@, in_id@));
        }
        match build_bytes(cs.as_slice()) {
            Ok(v) => v,
            Err(_) => {
                proof {
                    assert(s[0].writable() && s[1].writable() && s[2].writable());
                }
                Vec::new()
            },
        }
    }

    /// Validates the type name and computes the key of an edge from `source`
    /// to `target`: the key leads with the target, for lookups by target.
    pub fn prepare_create(&self, source: Uuid, target: Uuid, t: &str) -> (r: Result<CreatePlan, Error>)
        ensures
            is_valid_name(t.spec_bytes()) ==> (r matches Ok(p) && p.t@ == t.spec_bytes() && p.key@
                == key_bytes(target@, t.spec_bytes(), source@)),
            !is_valid_name(t.spec_bytes()) ==> r is Err && r->Err_0 == Error::Validation,
    {
        let t_id = match Identifier::new(t) {
            Ok(i) => i,
            Err(e) => {
                return Err(e);
            },
        };
        let key = self.key(target, &t_id, source);
        Ok(CreatePlan { t: t_id, key })
    }

    /// The next phase of an edge creation: the following step where the
    /// current one succeeded, `Aborted` where it failed.
    pub fn next_phase(&self, phase: CreatePhase, succeeded: bool) -> (r: CreatePhase)
        ensures
            r == spec_next_phase(phase, succeeded),
    {
        match phase {
            CreatePhase::Committed => CreatePhase::Committed,
            CreatePhase::Aborted => CreatePhase::Aborted,
            _ => if !succeeded {
                CreatePhase::Aborted
            } else {
                match phase {
                    CreatePhase::PersistProperties => CreatePhase::WriteKey,
                    CreatePhase::WriteKey => CreatePhase::WriteProperties,
                    CreatePhase::WriteProperties => CreatePhase::Commit,
                    _ => CreatePhase::Committed,
                }
            },
        }
    }
}

/// The key of `(a, t, b)` is the bytes of `Component::Uuid(a)`,
/// `Component::Identifier(t)` and `Component::Uuid(b)` in that order, and
/// differs from the key of `(b, t, a)` whenever `a` and `b` differ.
pub proof fn lemma_key_orientation(a: Uuid, t: Identifier, b: Uuid)
    ensures
        key_bytes(a@, t@, b@) == Component::Uuid(a).spec_bytes() + Component::Identifier(&t).spec_bytes()
            + Component::Uuid(b).spec_bytes(),
        a@ != b@ ==> key_bytes(a@, t@, b@) != key_bytes(b@, t@, a@),
{
    if a@ != b@ {
        assert(key_bytes(a@, t@, b@).take(16) =~= a@);
        assert(key_bytes(b@, t@, a@).take(16) =~= b@);
    }
}

/// An edge creation commits only when every step succeeds: from the first
/// phase, four successful steps reach `Committed`; a failed step at any of
/// the four reaches `Aborted`, so neither the key nor the properties become
/// visible.
pub proof fn lemma_create_atomic(outcomes: Seq<bool>)
    requires
        outcomes.len() == 4,
    ensures
        (outcomes[0] && outcomes[1] && outcomes[2] && outcomes[3]) ==> run_phases(
            CreatePhase::PersistProperties,
            outcomes,
        ) == CreatePhase::Committed,
        !(outcomes[0] && outcomes[1] && outcomes[2] && outcomes[3]) ==> run_phases(
            CreatePhase::PersistProperties,
            outcomes,
        ) == CreatePhase::Aborted,
{
    reveal_with_fuel(run_phases, 5);
    let o1 = outcomes.drop_first();
    let o2 = o1.drop_first();
    let o3 = o2.drop_first();
    assert(o1[0] == outcomes[1] && o2[0] == outcomes[2] && o3[0] == outcomes[3]);
    assert(o3.drop_first().len() == 0);
}

} // verus!
