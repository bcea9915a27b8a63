use vstd::prelude::*;
use crate::entities::{Entities, EntityV};
use crate::expr::EvalError;
use crate::policy::{policy_outcome, Effect, Outcome, Policy};
use crate::request::{Request, RequestV};

verus! {

/// The answer to an authorization query.
#[derive(Debug, Clone, Copy, PartialEq, Eq, Structural)]
pub enum Decision {
    Allow,
    Deny,
}

/// Why a policy set was refused.
#[derive(Debug, Clone, Copy, PartialEq, Eq, Structural)]
pub enum PolicySetError {
    DuplicateId,
}

/// Whether no two policies share an identifier.
pub open spec fn ids_unique(ps: Seq<Policy>) -> bool {
    forall|i: int, j: int| 0 <= i < j < ps.len() ==> ps[i].id@ != ps[j].id@
}

/// A collection of policies with distinct identifiers.
#[derive(Debug)]
pub struct PolicySet {
    policies: Vec<Policy>,
}

impl View for PolicySet {
    type V = Seq<Policy>;

    closed spec fn view(&self) -> Seq<Policy> {
        self.policies@
    }
}

impl PolicySet {
    pub open spec fn wf(&self) -> bool {
        ids_unique(self@)
    }

    /// The set with no policies.
    pub fn empty() -> (r: PolicySet)
        ensures
            r@.len() == 0,
            r.wf(),
    {
        PolicySet { policies: Vec::new() }
    }

    /// Gathers policies into a set; two policies with one identifier are refused.
    pub fn new(policies: Vec<Policy>) -> (r: Result<PolicySet, PolicySetError>)
        ensures
            r is Ok <==> ids_unique(policies@),
            r matches Ok(ps) ==> ps@ == policies@ && ps.wf(),
            r matches Err(e) ==> e == PolicySetError::DuplicateId,
    {
        let mut i: usize = 0;
        while i < policies.len()
            invariant
                i <= policies.len(),
                forall|a: int, b: int| 0 <= a < b < i ==> policies@[a].id@ != policies@[b].id@,
            decreases policies.len() - i,
        {
            let mut j: usize = 0;
            while j < i
                invariant
                    j <= i < policies.len(),
                    forall|a: int, b: int| 0 <= a < b < i ==> policies@[a].id@ != policies@[b].id@,
                    forall|a: int| 0 <= a < j ==> policies@[a].id@ != policies@[i as int].id@,
                decreases i - j,
            {
                if policies[j].id == policies[i].id {
                    return Err(PolicySetError::DuplicateId);
                }
                j += 1;
            }
            i += 1;
        }
        Ok(PolicySet { policies })
    }

    pub fn len(&self) -> (r: usize)
        ensures
            r == self@.len(),
    {
        self.policies.len()
    }

    pub fn get(&self, i: usize) -> (r: &Policy)
        requires
            i < self@.len(),
        ensures
            *r == self@[i as int],
    {
        &self.policies[i]
    }
}

/// Whether some policy of `ps` with effect `eff` is satisfied.
pub open spec fn any_satisfied(ps: Seq<Policy>, r: RequestV, s: Seq<EntityV>, eff: Effect) -> bool {
    exists|p: Policy| ps.contains(p) && p.effect == eff && #[trigger] policy_outcome(p, r, s) == Outcome::Satisfied
}

/// The decision rule: a satisfied forbid denies; otherwise a satisfied permit
/// allows; otherwise the request is denied.
pub open spec fn decide(ps: Seq<Policy>, r: RequestV, s: Seq<EntityV>) -> Decision {
    if any_satisfied(ps, r, s, Effect::Forbid) {
        Decision::Deny
    } else if any_satisfied(ps, r, s, Effect::Permit) {
        Decision::Allow
    } else {
        Decision::Deny
    }
}

/// The identifiers of the satisfied policies with effect `eff`, in order.
pub open spec fn satisfied_ids(ps: Seq<Policy>, r: RequestV, s: Seq<EntityV>, eff: Effect) -> Seq<Seq<char>>
    decreases ps.len(),
{
    if ps.len() == 0 {
        Seq::empty()
    } else {
        let p = ps.last();
        let rest = satisfied_ids(ps.drop_last(), r, s, eff);
        if p.effect == eff && policy_outcome(p, r, s) == Outcome::Satisfied {
            rest.push(p.id@)
        } else {
            rest
        }
    }
}

/// The identifiers of the policies whose conditions failed to evaluate, each
/// with its error, in order.
pub open spec fn errored(ps: Seq<Policy>, r: RequestV, s: Seq<EntityV>) -> Seq<(Seq<char>, EvalError)>
    decreases ps.len(),
{
    if ps.len() == 0 {
        Seq::empty()
    } else {
        let p = ps.last();
        let rest = errored(ps.drop_last(), r, s);
        match policy_outcome(p, r, s) {
            Outcome::Errored(x) => rest.push((p.id@, x)),
            _ => rest,
        }
    }
}

/// The model of a response.
pub struct ResponseV {
    pub decision: Decision,
    pub reasons: Seq<Seq<char>>,
    pub errors: Seq<(Seq<char>, EvalError)>,
}

/// The response to a query: the decision, the policies that determined it
/// (the satisfied forbids on a denial by a forbid, the satisfied permits on
/// an allow), and the policies whose evaluation failed.
pub open spec fn response_of(ps: Seq<Policy>, r: RequestV, s: Seq<EntityV>) -> ResponseV {
    let d = decide(ps, r, s);
    ResponseV {
        decision: d,
        reasons: if any_satisfied(ps, r, s, Effect::Forbid) {
            satisfied_ids(ps, r, s, Effect::Forbid)
        } else {
            satisfied_ids(ps, r, s, Effect::Permit)
        },
        errors: errored(ps, r, s),
    }
}

/// An immutable snapshot of a decision and its diagnostics.
#[derive(Debug, Clone)]
pub struct Response {
    pub decision: Decision,
    pub reasons: Vec<String>,
    pub errors: Vec<(String, EvalError)>,
}

impl View for Response {
    type V = ResponseV;

    open spec fn view(&self) -> ResponseV {
        ResponseV {
            decision: self.decision,
            reasons: self.reasons@.map_values(|x: String| x@),
            errors: self.errors@.map_values(|x: (String, EvalError)| (x.0@, x.1)),
        }
    }
}

impl Response {
    pub fn decision(&self) -> (r: Decision)
        ensures
            r == self.decision,
    {
        self.decision
    }

    /// Whether the decision is `Allow`.
    pub fn allowed(&self) -> (r: bool)
        ensures
            r == (self.decision == Decision::Allow),
    {
        self.decision == Decision::Allow
    }
}

/// Evaluates queries. It holds no state: each query is answered from its
/// arguments alone.
#[derive(Debug, Clone, Copy)]
pub struct Authorizer {}

impl Authorizer {
    pub fn new() -> (r: Authorizer)
        ensures
            r == (Authorizer {}),
    {
        Authorizer {}
    }

    /// Answers the query `request` against the policies and the entities.
    pub fn is_authorized(&self, request: &Request, policy_set: &PolicySet, entities: &Entities) -> (r: Response)
        ensures
            r@ == response_of(policy_set@, request@, entities@),
            r.decision == decide(policy_set@, request@, entities@),
    {
        let ghost ps = policy_set@;
        let mut forbids: Vec<String> = Vec::new();
        let mut permits: Vec<String> = Vec::new();
        let mut errors: Vec<(String, EvalError)> = Vec::new();
        let mut i: usize = 0;
        let n = policy_set.len();
        while i < n
            invariant
                i <= n,
                n == ps.len(),
                ps == policy_set@,
                forbids@.map_values(|x: String| x@) == satisfied_ids(ps.take(i as int), request@, entities@, Effect::Forbid),
                permits@.map_values(|x: String| x@) == satisfied_ids(ps.take(i as int), request@, entities@, Effect::Permit),
                errors@.map_values(|x: (String, EvalError)| (x.0@, x.1)) == errored(ps.take(i as int), request@, entities@),
            decreases n - i,
        {
            let p = policy_set.get(i);
            assert(ps.take(i + 1).drop_last() =~= ps.take(i as int));
            assert(ps.take(i + 1).last() == *p);
            let o = p.outcome(request, entities);
            match o {
                Outcome::Satisfied => {
                    match p.effect {
                        Effect::Forbid => {
                            forbids.push(p.id.clone());
                        },
                        Effect::Permit => {
                            permits.push(p.id.clone());
                        },
                    }
                },
                Outcome::Errored(x) => {
                    errors.push((p.id.clone(), x));
                },
                Outcome::NotApplicable => {},
            }
            assert(forbids@.map_values(|x: String| x@) =~= satisfied_ids(ps.take(i + 1), request@, entities@, Effect::Forbid));
            assert(permits@.map_values(|x: String| x@) =~= satisfied_ids(ps.take(i + 1), request@, entities@, Effect::Permit));
            assert(errors@.map_values(|x: (String, EvalError)| (x.0@, x.1)) =~= errored(ps.take(i + 1), request@, entities@));
            i += 1;
        }
        assert(ps.take(n as int) =~= ps);
        proof {
            lemma_ids_nonempty(ps, request@, entities@, Effect::Forbid);
            lemma_ids_nonempty(ps, request@, entities@, Effect::Permit);
        }
        if forbids.len() > 0 {
            Response { decision: Decision::Deny, reasons: forbids, errors }
        } else if permits.len() > 0 {
            Response { decision: Decision::Allow, reasons: permits, errors }
        } else {
            Response { decision: Decision::Deny, reasons: permits, errors }
        }
    }
}

/// Whether `x` is the identifier of a satisfied policy of `ps` with effect `eff`.
pub open spec fn id_of_satisfied(ps: Seq<Policy>, r: RequestV, s: Seq<EntityV>, eff: Effect, x: Seq<char>) -> bool {
    exists|i: int| 0 <= i < ps.len() && ps[i].id@ == x && ps[i].effect == eff
        && #[trigger] policy_outcome(ps[i], r, s) == Outcome::Satisfied
}

/// Each listed identifier belongs to a satisfied policy with effect `eff`,
/// and each such policy's identifier is listed.
pub proof fn lemma_satisfied_ids(ps: Seq<Policy>, r: RequestV, s: Seq<EntityV>, eff: Effect)
    ensures
        forall|k: int| 0 <= k < satisfied_ids(ps, r, s, eff).len()
            ==> id_of_satisfied(ps, r, s, eff, #[trigger] satisfied_ids(ps, r, s, eff)[k]),
        forall|i: int| 0 <= i < ps.len() && ps[i].effect == eff && policy_outcome(ps[i], r, s) == Outcome::Satisfied
            ==> satisfied_ids(ps, r, s, eff).contains(#[trigger] ps[i].id@),
    decreases ps.len(),
{
    if ps.len() > 0 {
        let q = ps.drop_last();
        lemma_satisfied_ids(q, r, s, eff);
        let ids = satisfied_ids(ps, r, s, eff);
        let qi = satisfied_ids(q, r, s, eff);
        assert forall|k: int| 0 <= k < ids.len() implies id_of_satisfied(ps, r, s, eff, #[trigger] ids[k]) by {
            if k < qi.len() {
                assert(ids[k] == qi[k]);
                assert(id_of_satisfied(q, r, s, eff, qi[k]));
                let i = choose|i: int| 0 <= i < q.len() && q[i].id@ == qi[k] && q[i].effect == eff
                    && #[trigger] policy_outcome(q[i], r, s) == Outcome::Satisfied;
                assert(ps[i] == q[i]);
            } else {
                assert(ps[ps.len() - 1] == ps.last());
            }
        }
        assert forall|i: int| 0 <= i < ps.len() && ps[i].effect == eff && policy_outcome(ps[i], r, s) == Outcome::Satisfied
            implies ids.contains(#[trigger] ps[i].id@) by {
            if i < ps.len() - 1 {
                assert(q[i] == ps[i]);
                assert(qi.contains(q[i].id@));
                let k = choose|k: int| 0 <= k < qi.len() && qi[k] == q[i].id@;
                assert(ids[k] == qi[k]);
            } else {
                assert(ids[ids.len() - 1] == ps[i].id@);
            }
        }
    }
}

/// Some policy with effect `eff` is satisfied exactly when the list of their
/// identifiers is not empty.
pub proof fn lemma_ids_nonempty(ps: Seq<Policy>, r: RequestV, s: Seq<EntityV>, eff: Effect)
    ensures
        any_satisfied(ps, r, s, eff) <==> satisfied_ids(ps, r, s, eff).len() > 0,
    decreases ps.len(),
{
    if ps.len() > 0 {
        let p = ps.last();
        let q = ps.drop_last();
        lemma_ids_nonempty(q, r, s, eff);
        if any_satisfied(q, r, s, eff) {
            let w = choose|w: Policy| q.contains(w) && w.effect == eff && policy_outcome(w, r, s) == Outcome::Satisfied;
            let k = choose|k: int| 0 <= k < q.len() && q[k] == w;
            assert(ps[k] == w);
        }
        if any_satisfied(ps, r, s, eff) {
            let w = choose|w: Policy| ps.contains(w) && w.effect == eff && policy_outcome(w, r, s) == Outcome::Satisfied;
            let k = choose|k: int| 0 <= k < ps.len() && ps[k] == w;
            if k < ps.len() - 1 {
                assert(q[k] == w);
            }
        }
        if p.effect == eff && policy_outcome(p, r, s) == Outcome::Satisfied {
            assert(ps[ps.len() - 1] == p);
        }
    }
}

} // verus!
