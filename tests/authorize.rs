use yacedar::authorizer::{Authorizer, Decision, PolicySet, PolicySetError};
use yacedar::entities::{Entities, EntitiesError, Entity};
use yacedar::expr::{evaluate, EvalError, Expr, Var};
use yacedar::policy::{CondKind, Condition, Effect, Outcome, Policy, Scope};
use yacedar::request::{Context, Request};
use yacedar::uid::{EntityUid, UidError};
use yacedar::value::{Record, Value};

fn uid(t: &str, id: &str) -> EntityUid {
    EntityUid::new(t, id).unwrap()
}

fn policy(id: &str, effect: Effect, conditions: Vec<Condition>) -> Policy {
    Policy {
        id: id.to_string(),
        effect,
        principal: Scope::Any,
        action: Scope::Any,
        resource: Scope::Any,
        conditions,
    }
}

fn request(ctx: Option<Context>) -> Request {
    Request::new(Some(uid("User", "U1")), Some(uid("Action", "A1")), Some(uid("Resource", "R1")), ctx)
}

fn blocked_when() -> Condition {
    Condition {
        kind: CondKind::When,
        body: Expr::Eq(
            Box::new(Expr::ContextAttr("blocked".to_string())),
            Box::new(Expr::Lit(Value::Bool(true))),
        ),
    }
}

fn ctx_blocked(b: bool) -> Context {
    Record::new(vec![("blocked".to_string(), Value::Bool(b))])
}

fn entity(u: EntityUid, parents: Vec<EntityUid>, attrs: Vec<(String, Value)>) -> Entity {
    Entity { uid: u, attrs: Record::new(attrs), parents }
}

#[test]
fn permit_all_allows() {
    let ps = PolicySet::new(vec![policy("p0", Effect::Permit, vec![])]).unwrap();
    let r = Authorizer::new().is_authorized(&request(None), &ps, &Entities::empty());
    assert_eq!(r.decision(), Decision::Allow);
    assert!(r.allowed());
    assert_eq!(r.reasons, vec!["p0".to_string()]);
}

#[test]
fn forbid_on_blocked_context() {
    let ps = PolicySet::new(vec![
        policy("p0", Effect::Permit, vec![]),
        policy("p1", Effect::Forbid, vec![blocked_when()]),
    ])
    .unwrap();
    let store = Entities::empty();
    let deny = Authorizer::new().is_authorized(&request(Some(ctx_blocked(true))), &ps, &store);
    assert_eq!(deny.decision(), Decision::Deny);
    assert_eq!(deny.reasons, vec!["p1".to_string()]);
    let allow = Authorizer::new().is_authorized(&request(Some(ctx_blocked(false))), &ps, &store);
    assert_eq!(allow.decision(), Decision::Allow);
    assert!(allow.allowed());
}

#[test]
fn group_scope_without_membership_denies() {
    let mut p = policy("admins", Effect::Permit, vec![]);
    p.principal = Scope::In(vec![uid("Group", "admins")]);
    let ps = PolicySet::new(vec![p]).unwrap();
    let store = Entities::new(vec![entity(uid("User", "U1"), vec![uid("Group", "staff")], vec![])]).unwrap();
    let r = Authorizer::new().is_authorized(&request(None), &ps, &store);
    assert_eq!(r.decision(), Decision::Deny);
    assert!(!r.allowed());
    assert!(r.reasons.is_empty());
}

#[test]
fn group_scope_with_transitive_membership_allows() {
    let mut p = policy("admins", Effect::Permit, vec![]);
    p.principal = Scope::In(vec![uid("Group", "admins")]);
    let ps = PolicySet::new(vec![p]).unwrap();
    let store = Entities::new(vec![
        entity(uid("User", "U1"), vec![uid("Group", "staff")], vec![]),
        entity(uid("Group", "staff"), vec![uid("Group", "admins")], vec![]),
    ])
    .unwrap();
    let r = Authorizer::new().is_authorized(&request(None), &ps, &store);
    assert_eq!(r.decision(), Decision::Allow);
}

#[test]
fn forbid_overrides_permits() {
    let ps = PolicySet::new(vec![
        policy("a", Effect::Permit, vec![]),
        policy("b", Effect::Forbid, vec![]),
        policy("c", Effect::Permit, vec![]),
    ])
    .unwrap();
    let r = Authorizer::new().is_authorized(&request(None), &ps, &Entities::empty());
    assert_eq!(r.decision(), Decision::Deny);
    assert_eq!(r.reasons, vec!["b".to_string()]);
}

#[test]
fn empty_policy_set_denies() {
    let r = Authorizer::new().is_authorized(&request(None), &PolicySet::empty(), &Entities::empty());
    assert_eq!(r.decision(), Decision::Deny);
    assert!(r.reasons.is_empty());
    assert!(r.errors.is_empty());
}

#[test]
fn unmatched_policies_deny() {
    let mut p = policy("p", Effect::Permit, vec![]);
    p.resource = Scope::Eq(uid("Resource", "other"));
    let ps = PolicySet::new(vec![p]).unwrap();
    let r = Authorizer::new().is_authorized(&request(None), &ps, &Entities::empty());
    assert_eq!(r.decision(), Decision::Deny);
}

#[test]
fn order_does_not_change_decision() {
    let a = PolicySet::new(vec![
        policy("p0", Effect::Permit, vec![]),
        policy("p1", Effect::Forbid, vec![blocked_when()]),
    ])
    .unwrap();
    let b = PolicySet::new(vec![
        policy("p1", Effect::Forbid, vec![blocked_when()]),
        policy("p0", Effect::Permit, vec![]),
    ])
    .unwrap();
    for blocked in [true, false] {
        let req = request(Some(ctx_blocked(blocked)));
        let ra = Authorizer::new().is_authorized(&req, &a, &Entities::empty());
        let rb = Authorizer::new().is_authorized(&req, &b, &Entities::empty());
        assert_eq!(ra.decision(), rb.decision());
    }
}

#[test]
fn any_scope_matches_request_without_components() {
    let p = policy("p", Effect::Permit, vec![]);
    let req = Request::new(None, None, None, None);
    assert_eq!(p.outcome(&req, &Entities::empty()), Outcome::Satisfied);
    let mut q = policy("q", Effect::Permit, vec![]);
    q.action = Scope::Is("Action".to_string());
    assert_eq!(q.outcome(&req, &Entities::empty()), Outcome::NotApplicable);
}

#[test]
fn entity_descends_from_itself() {
    let store = Entities::new(vec![entity(uid("User", "U1"), vec![], vec![])]).unwrap();
    assert!(store.is_descendant(&uid("User", "U1"), &uid("User", "U1")));
    assert!(Entities::empty().is_descendant(&uid("User", "ghost"), &uid("User", "ghost")));
    assert!(!store.is_descendant(&uid("User", "U1"), &uid("Group", "g")));
}

#[test]
fn cyclic_hierarchy_terminates() {
    let store = Entities::new(vec![
        entity(uid("Group", "a"), vec![uid("Group", "b")], vec![]),
        entity(uid("Group", "b"), vec![uid("Group", "a")], vec![]),
    ])
    .unwrap();
    assert!(store.is_descendant(&uid("Group", "a"), &uid("Group", "b")));
    assert!(store.is_descendant(&uid("Group", "b"), &uid("Group", "a")));
    assert!(!store.is_descendant(&uid("Group", "a"), &uid("Group", "c")));
}

#[test]
fn same_query_twice_gives_same_response() {
    let ps = PolicySet::new(vec![
        policy("p0", Effect::Permit, vec![]),
        policy("p1", Effect::Forbid, vec![blocked_when()]),
    ])
    .unwrap();
    let req = request(Some(ctx_blocked(true)));
    let store = Entities::empty();
    let auth = Authorizer::new();
    let r1 = auth.is_authorized(&req, &ps, &store);
    let r2 = auth.is_authorized(&req, &ps, &store);
    assert_eq!(r1.decision(), r2.decision());
    assert_eq!(r1.reasons, r2.reasons);
    assert_eq!(r1.errors, r2.errors);
}

#[test]
fn errored_policy_is_skipped_and_recorded() {
    let ps = PolicySet::new(vec![
        policy("p0", Effect::Permit, vec![]),
        policy("p1", Effect::Forbid, vec![blocked_when()]),
    ])
    .unwrap();
    let r = Authorizer::new().is_authorized(&request(None), &ps, &Entities::empty());
    assert_eq!(r.decision(), Decision::Allow);
    assert_eq!(r.errors, vec![("p1".to_string(), EvalError::MissingAttribute)]);
}

#[test]
fn unless_condition_excludes() {
    let c = Condition { kind: CondKind::Unless, body: Expr::ContextAttr("blocked".to_string()) };
    let ps = PolicySet::new(vec![policy("p0", Effect::Permit, vec![c])]).unwrap();
    let store = Entities::empty();
    let r = Authorizer::new().is_authorized(&request(Some(ctx_blocked(true))), &ps, &store);
    assert_eq!(r.decision(), Decision::Deny);
    let r = Authorizer::new().is_authorized(&request(Some(ctx_blocked(false))), &ps, &store);
    assert_eq!(r.decision(), Decision::Allow);
}

#[test]
fn uid_type_name_is_checked() {
    let u = EntityUid::new("App::User", "alice").unwrap();
    assert_eq!(u.entity_type(), "App::User");
    assert_eq!(u.id(), "alice");
    assert_eq!(EntityUid::new("not a type", "x").unwrap_err(), UidError::InvalidTypeName);
    assert_eq!(EntityUid::new("User::", "x").unwrap_err(), UidError::InvalidTypeName);
    assert!(EntityUid::new("User", "any \"id\" at all").is_ok());
    assert_eq!(EntityUid::from_checked(false, "User", "x").unwrap_err(), UidError::InvalidTypeName);
}

#[test]
fn duplicate_entities_refused() {
    let r = Entities::new(vec![
        entity(uid("User", "U1"), vec![], vec![]),
        entity(uid("User", "U1"), vec![], vec![]),
    ]);
    assert_eq!(r.unwrap_err(), EntitiesError::DuplicateUid);
}

#[test]
fn duplicate_policy_ids_refused() {
    let r = PolicySet::new(vec![policy("p", Effect::Permit, vec![]), policy("p", Effect::Forbid, vec![])]);
    assert_eq!(r.unwrap_err(), PolicySetError::DuplicateId);
}

#[test]
fn lookup_reports_missing_entity() {
    let store = Entities::new(vec![entity(uid("User", "U1"), vec![], vec![])]).unwrap();
    assert!(store.lookup(&uid("User", "U1")).is_some());
    assert!(store.lookup(&uid("User", "U2")).is_none());
}

fn eval_in(e: &Expr, store: &Entities) -> Result<Value, EvalError> {
    evaluate(e, &request(Some(ctx_blocked(true))), store)
}

fn lit(n: i64) -> Box<Expr> {
    Box::new(Expr::Lit(Value::Long(n)))
}

#[test]
fn evaluation_errors() {
    let store = Entities::new(vec![entity(
        uid("User", "U1"),
        vec![],
        vec![("age".to_string(), Value::Long(30))],
    )])
    .unwrap();
    let missing_var = Expr::Var(Var::Principal);
    assert_eq!(
        evaluate(&missing_var, &Request::new(None, None, None, None), &store).unwrap_err(),
        EvalError::MissingVariable
    );
    let missing_entity = Expr::Attr(Box::new(Expr::Var(Var::Resource)), "age".to_string());
    assert_eq!(eval_in(&missing_entity, &store).unwrap_err(), EvalError::MissingEntity);
    let missing_attr = Expr::Attr(Box::new(Expr::Var(Var::Principal)), "name".to_string());
    assert_eq!(eval_in(&missing_attr, &store).unwrap_err(), EvalError::MissingAttribute);
    let type_err = Expr::Not(lit(1));
    assert_eq!(eval_in(&type_err, &store).unwrap_err(), EvalError::TypeError);
    let overflow = Expr::Add(lit(i64::MAX), lit(1));
    assert_eq!(eval_in(&overflow, &store).unwrap_err(), EvalError::Overflow);
    let underflow = Expr::Sub(lit(i64::MIN), lit(1));
    assert_eq!(eval_in(&underflow, &store).unwrap_err(), EvalError::Overflow);
}

fn as_bool(r: Result<Value, EvalError>) -> bool {
    match r {
        Ok(Value::Bool(b)) => b,
        _ => panic!("not a boolean"),
    }
}

#[test]
fn evaluation_values() {
    let store = Entities::new(vec![
        entity(uid("User", "U1"), vec![uid("Group", "g")], vec![("age".to_string(), Value::Long(30))]),
    ])
    .unwrap();
    let age = || Box::new(Expr::Attr(Box::new(Expr::Var(Var::Principal)), "age".to_string()));
    match eval_in(&Expr::Add(age(), lit(12)), &store) {
        Ok(Value::Long(n)) => assert_eq!(n, 42),
        _ => panic!("expected a number"),
    }
    match eval_in(&Expr::Sub(age(), lit(40)), &store) {
        Ok(Value::Long(n)) => assert_eq!(n, -10),
        _ => panic!("expected a number"),
    }
    assert!(as_bool(eval_in(&Expr::Less(lit(1), age()), &store)));
    assert!(!as_bool(eval_in(&Expr::LessEq(age(), lit(29)), &store)));
    assert!(as_bool(eval_in(&Expr::HasAttr(Box::new(Expr::Var(Var::Principal)), "age".to_string()), &store)));
    assert!(!as_bool(eval_in(&Expr::HasContextAttr("hour".to_string()), &store)));
    let group = Box::new(Expr::Lit(Value::Entity(uid("Group", "g"))));
    assert!(as_bool(eval_in(&Expr::In(Box::new(Expr::Var(Var::Principal)), group), &store)));
    let set = Value::SetOf(vec![Value::Entity(uid("Group", "h")), Value::Entity(uid("Group", "g"))]);
    let in_set = Expr::In(Box::new(Expr::Var(Var::Principal)), Box::new(Expr::Lit(set.copy())));
    assert!(as_bool(eval_in(&in_set, &store)));
    let contains = Expr::Contains(
        Box::new(Expr::Lit(set)),
        Box::new(Expr::Lit(Value::Entity(uid("Group", "h")))),
    );
    assert!(as_bool(eval_in(&contains, &store)));
    let mixed = Value::SetOf(vec![Value::Long(1)]);
    let bad_in = Expr::In(Box::new(Expr::Var(Var::Principal)), Box::new(Expr::Lit(mixed)));
    assert_eq!(eval_in(&bad_in, &store).unwrap_err(), EvalError::TypeError);
    let short = Expr::And(Box::new(Expr::Lit(Value::Bool(false))), Box::new(Expr::Not(lit(1))));
    assert!(!as_bool(eval_in(&short, &store)));
    let or = Expr::Or(Box::new(Expr::Lit(Value::Bool(true))), Box::new(Expr::Not(lit(1))));
    assert!(as_bool(eval_in(&or, &store)));
}

#[test]
fn scope_is_and_eq() {
    let store = Entities::new(vec![entity(uid("User", "U1"), vec![uid("Group", "g")], vec![])]).unwrap();
    let req = request(None);
    assert!(Scope::Is("User".to_string()).matches(&req.principal, &store));
    assert!(!Scope::Is("Group".to_string()).matches(&req.principal, &store));
    assert!(Scope::IsIn("User".to_string(), vec![uid("Group", "g")]).matches(&req.principal, &store));
    assert!(!Scope::IsIn("Admin".to_string(), vec![uid("Group", "g")]).matches(&req.principal, &store));
    assert!(Scope::Eq(uid("User", "U1")).matches(&req.principal, &store));
    assert!(!Scope::Eq(uid("User", "U2")).matches(&req.principal, &store));
    assert!(!Scope::Eq(uid("User", "U1")).matches(&None, &store));
}

#[test]
fn nested_values_compare_and_read() {
    let store = Entities::empty();
    let inner = || Value::Record(Record::new(vec![("n".to_string(), Value::Long(7))]));
    let a = Value::SetOf(vec![inner(), Value::SetOf(vec![Value::Str("x".to_string())])]);
    let b = Value::SetOf(vec![inner(), Value::SetOf(vec![Value::Str("x".to_string())])]);
    let c = Value::SetOf(vec![inner(), Value::SetOf(vec![Value::Str("y".to_string())])]);
    assert!(a.equals(&b));
    let reordered = Value::SetOf(vec![Value::SetOf(vec![Value::Str("x".to_string())]), inner(), inner()]);
    assert!(a.equals(&reordered));
    assert!(reordered.equals(&a));
    assert!(!a.equals(&c));
    assert!(a.copy().equals(&a));
    let read = Expr::Attr(Box::new(Expr::Lit(inner())), "n".to_string());
    match eval_in(&read, &store) {
        Ok(Value::Long(n)) => assert_eq!(n, 7),
        _ => panic!("expected a number"),
    }
    let has = Expr::HasAttr(Box::new(Expr::Lit(inner())), "m".to_string());
    assert!(!as_bool(eval_in(&has, &store)));
    let contains = Expr::Contains(Box::new(Expr::Lit(a)), Box::new(Expr::Lit(inner())));
    assert!(as_bool(eval_in(&contains, &store)));
}

#[test]
fn missing_context_is_empty_record() {
    let req = Request::new(None, None, None, None);
    assert!(req.context.fields.is_empty());
    let has = Expr::HasContextAttr("blocked".to_string());
    assert!(!as_bool(evaluate(&has, &req, &Entities::empty())));
    let read = Expr::ContextAttr("blocked".to_string());
    assert_eq!(evaluate(&read, &req, &Entities::empty()).unwrap_err(), EvalError::MissingAttribute);
}

#[test]
fn sets_and_records_ignore_order() {
    let s12 = Value::SetOf(vec![Value::Long(1), Value::Long(2)]);
    let s21 = Value::SetOf(vec![Value::Long(2), Value::Long(1)]);
    let s11 = Value::SetOf(vec![Value::Long(1), Value::Long(1)]);
    let s1 = Value::SetOf(vec![Value::Long(1)]);
    assert!(s12.equals(&s21));
    assert!(s11.equals(&s1));
    assert!(!s12.equals(&s1));
    let r_ab = Value::Record(Record::new(vec![
        ("a".to_string(), Value::Long(1)),
        ("b".to_string(), Value::Long(2)),
    ]));
    let r_ba = Value::Record(Record::new(vec![
        ("b".to_string(), Value::Long(2)),
        ("a".to_string(), Value::Long(1)),
    ]));
    let r_a = Value::Record(Record::new(vec![("a".to_string(), Value::Long(1))]));
    assert!(r_ab.equals(&r_ba));
    assert!(!r_ab.equals(&r_a));
    assert!(!r_a.equals(&r_ab));
    let store = Entities::empty();
    let eq = Expr::Eq(Box::new(Expr::Lit(s12.copy())), Box::new(Expr::Lit(s21)));
    assert!(as_bool(eval_in(&eq, &store)));
    let contains = Expr::Contains(
        Box::new(Expr::Lit(Value::SetOf(vec![r_ab]))),
        Box::new(Expr::Lit(r_ba)),
    );
    assert!(as_bool(eval_in(&contains, &store)));
}

#[test]
fn type_name_grammar() {
    assert!(EntityUid::new("_x9", "a").is_ok());
    assert!(EntityUid::new("A::B::C", "a").is_ok());
    assert!(EntityUid::new("principal", "a").is_ok());
    assert_eq!(EntityUid::new("9x", "a").unwrap_err(), UidError::InvalidTypeName);
    assert_eq!(EntityUid::new("if", "a").unwrap_err(), UidError::InvalidTypeName);
    assert_eq!(EntityUid::new("A::in", "a").unwrap_err(), UidError::InvalidTypeName);
    assert_eq!(EntityUid::new("A:: B", "a").unwrap_err(), UidError::InvalidTypeName);
    assert_eq!(EntityUid::new("", "a").unwrap_err(), UidError::InvalidTypeName);
}

#[test]
fn multiplication_and_negation() {
    let store = Entities::empty();
    match eval_in(&Expr::Mul(lit(6), lit(-7)), &store) {
        Ok(Value::Long(n)) => assert_eq!(n, -42),
        _ => panic!("expected a number"),
    }
    match eval_in(&Expr::Neg(lit(5)), &store) {
        Ok(Value::Long(n)) => assert_eq!(n, -5),
        _ => panic!("expected a number"),
    }
    assert_eq!(eval_in(&Expr::Mul(lit(i64::MAX), lit(2)), &store).unwrap_err(), EvalError::Overflow);
    assert_eq!(eval_in(&Expr::Neg(lit(i64::MIN)), &store).unwrap_err(), EvalError::Overflow);
    let not_long = Expr::Neg(Box::new(Expr::Lit(Value::Bool(true))));
    assert_eq!(eval_in(&not_long, &store).unwrap_err(), EvalError::TypeError);
}

#[test]
fn conditional_expression() {
    let store = Entities::empty();
    let pick = |c: bool| Expr::If(Box::new(Expr::Lit(Value::Bool(c))), lit(1), lit(2));
    match eval_in(&pick(true), &store) {
        Ok(Value::Long(n)) => assert_eq!(n, 1),
        _ => panic!("expected a number"),
    }
    match eval_in(&pick(false), &store) {
        Ok(Value::Long(n)) => assert_eq!(n, 2),
        _ => panic!("expected a number"),
    }
    let bad = Expr::If(lit(0), lit(1), lit(2));
    assert_eq!(eval_in(&bad, &store).unwrap_err(), EvalError::TypeError);
}
