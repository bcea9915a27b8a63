use vstd::prelude::*;
use crate::entities::{descends, Entities, EntityV};
use crate::expr::{eval, evaluate, EvalError, Expr};
use crate::request::{Request, RequestV};
use crate::uid::{EntityUid, UidV};
use crate::value::{Val, Value};

verus! {

/// What a satisfied policy contributes to the decision.
#[derive(Debug, Clone, Copy, PartialEq, Eq, Structural)]
pub enum Effect {
    Permit,
    Forbid,
}

/// A scope clause for one of principal, action and resource.
#[derive(Debug)]
pub enum Scope {
    /// Matches every component, and a missing one too.
    Any,
    /// Matches exactly this entity.
    Eq(EntityUid),
    /// Matches an entity that is, or descends from, one of these.
    In(Vec<EntityUid>),
    /// Matches an entity of this type.
    Is(String),
    /// Matches an entity of this type that is, or descends from, one of these.
    IsIn(String, Vec<EntityUid>),
}

/// Whether a condition must hold (`when`) or must not hold (`unless`).
#[derive(Debug, Clone, Copy, PartialEq, Eq, Structural)]
pub enum CondKind {
    When,
    Unless,
}

#[derive(Debug)]
pub struct Condition {
    pub kind: CondKind,
    pub body: Expr,
}

/// A policy: an identifier, an effect, three scope clauses and conditions.
#[derive(Debug)]
pub struct Policy {
    pub id: String,
    pub effect: Effect,
    pub principal: Scope,
    pub action: Scope,
    pub resource: Scope,
    pub conditions: Vec<Condition>,
}

/// What one policy does for one request.
#[derive(Debug, Clone, Copy, PartialEq, Eq, Structural)]
pub enum Outcome {
    /// Its scope or a condition does not match.
    NotApplicable,
    /// Its scope and every condition match.
    Satisfied,
    /// A condition failed to evaluate, or gave no boolean.
    Errored(EvalError),
}

/// Whether the entity `u` is, or descends from, one of `us`.
pub open spec fn in_any(s: Seq<EntityV>, u: UidV, us: Seq<EntityUid>) -> bool {
    exists|i: int| 0 <= i < us.len() && descends(s, u, #[trigger] us[i]@)
}

/// Whether a scope clause admits the request component `c`.
pub open spec fn scope_matches(sc: Scope, c: Option<UidV>, s: Seq<EntityV>) -> bool {
    match sc {
        Scope::Any => true,
        Scope::Eq(u) => c == Some(u@),
        Scope::In(us) => c matches Some(x) && in_any(s, x, us@),
        Scope::Is(t) => c matches Some(x) && x.ty == t@,
        Scope::IsIn(t, us) => c matches Some(x) && x.ty == t@ && in_any(s, x, us@),
    }
}

/// The outcome of the conditions `cs`, evaluated in order; evaluation stops
/// at the first one that fails to match.
pub open spec fn conds_outcome(cs: Seq<Condition>, r: RequestV, s: Seq<EntityV>) -> Outcome
    decreases cs.len(),
{
    if cs.len() == 0 {
        Outcome::Satisfied
    } else {
        match eval(cs[0].body, r, s) {
            Ok(Val::Bool(b)) => if b == (cs[0].kind == CondKind::When) {
                conds_outcome(cs.drop_first(), r, s)
            } else {
                Outcome::NotApplicable
            },
            Ok(_) => Outcome::Errored(EvalError::TypeError),
            Err(x) => Outcome::Errored(x),
        }
    }
}

pub open spec fn scope_admits(p: Policy, r: RequestV, s: Seq<EntityV>) -> bool {
    scope_matches(p.principal, r.principal, s) && scope_matches(p.action, r.action, s)
        && scope_matches(p.resource, r.resource, s)
}

/// What the policy does for the request: a policy whose scope does not admit
/// the request is not a candidate, and its conditions are not evaluated.
pub open spec fn policy_outcome(p: Policy, r: RequestV, s: Seq<EntityV>) -> Outcome {
    if scope_admits(p, r, s) {
        conds_outcome(p.conditions@, r, s)
    } else {
        Outcome::NotApplicable
    }
}

fn in_any_exec(store: &Entities, u: &EntityUid, us: &Vec<EntityUid>) -> (r: bool)
    ensures
        r == in_any(store@, u@, us@),
{
    let mut i: usize = 0;
    while i < us.len()
        invariant
            i <= us.len(),
            forall|k: int| 0 <= k < i ==> !descends(store@, u@, #[trigger] us@[k]@),
        decreases us.len() - i,
    {
        if store.is_descendant(u, &us[i]) {
            return true;
        }
        i += 1;
    }
    false
}

impl Scope {
    /// Whether this clause admits the request component `c`.
    pub fn matches(&self, c: &Option<EntityUid>, store: &Entities) -> (r: bool)
        ensures
            r == scope_matches(*self, crate::request::opt_uid(*c), store@),
    {
        match self {
            Scope::Any => true,
            Scope::Eq(u) => match c {
                Some(x) => x.same(u),
                None => false,
            },
            Scope::In(us) => match c {
                Some(x) => in_any_exec(store, x, us),
                None => false,
            },
            Scope::Is(t) => match c {
                Some(x) => {
                    let xt = x.entity_type().to_owned();
                    xt == *t
                },
                None => false,
            },
            Scope::IsIn(t, us) => match c {
                Some(x) => {
                    let xt = x.entity_type().to_owned();
                    xt == *t && in_any_exec(store, x, us)
                },
                None => false,
            },
        }
    }
}

impl Policy {
    /// Whether the scope admits the request.
    pub fn is_candidate(&self, req: &Request, store: &Entities) -> (r: bool)
        ensures
            r == scope_admits(*self, req@, store@),
    {
        self.principal.matches(&req.principal, store) && self.action.matches(&req.action, store)
            && self.resource.matches(&req.resource, store)
    }

    /// What this policy does for the request.
    pub fn outcome(&self, req: &Request, store: &Entities) -> (r: Outcome)
        ensures
            r == policy_outcome(*self, req@, store@),
    {
        if !self.is_candidate(req, store) {
            return Outcome::NotApplicable;
        }
        let ghost cs = self.conditions@;
        assert(cs.subrange(0, cs.len() as int) =~= cs);
        let mut i: usize = 0;
        while i < self.conditions.len()
            invariant
                i <= self.conditions.len(),
                cs == self.conditions@,
                scope_admits(*self, req@, store@),
                conds_outcome(cs, req@, store@) == conds_outcome(cs.subrange(i as int, cs.len() as int), req@, store@),
            decreases self.conditions.len() - i,
        {
            let ghost rest = cs.subrange(i as int, cs.len() as int);
            assert(rest.drop_first() =~= cs.subrange(i + 1, cs.len() as int));
            let c = &self.conditions[i];
            assert(rest[0] == *c);
            match evaluate(&c.body, req, store) {
                Ok(Value::Bool(b)) => {
                    let want = match c.kind {
                        CondKind::When => true,
                        CondKind::Unless => false,
                    };
                    if b != want {
                        return Outcome::NotApplicable;
                    }
                },
                Ok(_) => {
                    return Outcome::Errored(EvalError::TypeError);
                },
                Err(x) => {
                    return Outcome::Errored(x);
                },
            }
            i += 1;
        }
        Outcome::Satisfied
    }
}

} // verus!
