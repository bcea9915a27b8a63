use vstd::prelude::*;
use crate::authorizer::{
    any_satisfied, decide, errored, id_of_satisfied, lemma_ids_nonempty, lemma_satisfied_ids, response_of, Decision,
    PolicySet, Response,
};
use crate::entities::{descends, Entities};
use crate::policy::{policy_outcome, Effect, Outcome, Policy, Scope};
use crate::request::Request;
use crate::uid::EntityUid;

verus! {

/// A satisfied forbid policy makes the decision `Deny`, however many permit
/// policies are satisfied too; the reasons name that forbid and no permit.
pub proof fn lemma_forbid_overrides_permit(ps: PolicySet, req: Request, store: Entities, i: int)
    requires
        ps.wf(),
        0 <= i < ps@.len(),
        ps@[i].effect == Effect::Forbid,
        policy_outcome(ps@[i], req@, store@) == Outcome::Satisfied,
    ensures
        decide(ps@, req@, store@) == Decision::Deny,
        response_of(ps@, req@, store@).decision == Decision::Deny,
        response_of(ps@, req@, store@).reasons.contains(ps@[i].id@),
        forall|j: int| 0 <= j < ps@.len() && ps@[j].effect == Effect::Permit
            ==> !response_of(ps@, req@, store@).reasons.contains(#[trigger] ps@[j].id@),
{
    assert(ps@.contains(ps@[i]));
    lemma_satisfied_ids(ps@, req@, store@, Effect::Forbid);
    let reasons = response_of(ps@, req@, store@).reasons;
    assert forall|j: int| 0 <= j < ps@.len() && ps@[j].effect == Effect::Permit
        implies !reasons.contains(#[trigger] ps@[j].id@) by {
        if reasons.contains(ps@[j].id@) {
            let k = choose|k: int| 0 <= k < reasons.len() && reasons[k] == ps@[j].id@;
            assert(id_of_satisfied(ps@, req@, store@, Effect::Forbid, reasons[k]));
            let f = choose|f: int| 0 <= f < ps@.len() && ps@[f].id@ == reasons[k] && ps@[f].effect == Effect::Forbid
                && #[trigger] policy_outcome(ps@[f], req@, store@) == Outcome::Satisfied;
            assert(f != j);
            if f < j {
                assert(ps@[f].id@ != ps@[j].id@);
            } else {
                assert(ps@[j].id@ != ps@[f].id@);
            }
        }
    }
}

/// When no policy is satisfied (in particular when there is none), the
/// decision is `Deny`, no policy is named as a reason, and the errors are
/// those of the policies whose conditions failed to evaluate.
pub proof fn lemma_default_deny(ps: PolicySet, req: Request, store: Entities)
    requires
        forall|i: int| 0 <= i < ps@.len() ==> policy_outcome(ps@[i], req@, store@) != Outcome::Satisfied,
    ensures
        decide(ps@, req@, store@) == Decision::Deny,
        response_of(ps@, req@, store@).decision == Decision::Deny,
        response_of(ps@, req@, store@).reasons.len() == 0,
        response_of(ps@, req@, store@).errors == errored(ps@, req@, store@),
{
    assert forall|p: Policy| ps@.contains(p) implies policy_outcome(p, req@, store@) != Outcome::Satisfied by {
        let k = choose|k: int| 0 <= k < ps@.len() && ps@[k] == p;
        assert(policy_outcome(ps@[k], req@, store@) != Outcome::Satisfied);
    }
    assert(!any_satisfied(ps@, req@, store@, Effect::Forbid));
    assert(!any_satisfied(ps@, req@, store@, Effect::Permit));
    lemma_ids_nonempty(ps@, req@, store@, Effect::Permit);
}

/// Two policy sets that hold the same policies in any order decide every
/// request alike.
pub proof fn lemma_order_independent(a: PolicySet, b: PolicySet, req: Request, store: Entities)
    requires
        a@.to_multiset() == b@.to_multiset(),
    ensures
        decide(a@, req@, store@) == decide(b@, req@, store@),
{
    assert forall|p: Policy| a@.contains(p) <==> b@.contains(p) by {
        vstd::seq_lib::to_multiset_contains(a@, p);
        vstd::seq_lib::to_multiset_contains(b@, p);
    }
    assert(any_satisfied(a@, req@, store@, Effect::Forbid) == any_satisfied(b@, req@, store@, Effect::Forbid));
    assert(any_satisfied(a@, req@, store@, Effect::Permit) == any_satisfied(b@, req@, store@, Effect::Permit));
}

/// A policy whose three scope clauses are `Any` and that has no condition is
/// satisfied by every request.
pub proof fn lemma_any_scope_satisfied(p: Policy, req: Request, store: Entities)
    requires
        p.principal is Any,
        p.action is Any,
        p.resource is Any,
        p.conditions@.len() == 0,
    ensures
        policy_outcome(p, req@, store@) == Outcome::Satisfied,
{
}

/// Every entity is its own ancestor under `in`.
pub proof fn lemma_descends_reflexive(store: Entities, e: EntityUid)
    ensures
        descends(store@, e@, e@),
{
}

/// Two answers to one query are the same response.
pub proof fn lemma_idempotent(ps: PolicySet, req: Request, store: Entities, r1: Response, r2: Response)
    requires
        r1@ == response_of(ps@, req@, store@),
        r2@ == response_of(ps@, req@, store@),
    ensures
        r1@ == r2@,
        r1.decision == r2.decision,
{
}

} // verus!
