use vstd::prelude::*;
use crate::entities::{descends, find_entity, EntityV, Entities};
use crate::request::{Request, RequestV};
use crate::uid::UidV;
use crate::value::{find_field, lemma_values_view, seq_has, val_eq, values_view, Val, Value};

verus! {

/// A request variable that names an entity.
#[derive(Debug, Clone, Copy, PartialEq, Eq, Structural)]
pub enum Var {
    Principal,
    Action,
    Resource,
}

/// A condition expression.
#[derive(Debug)]
pub enum Expr {
    Lit(Value),
    Var(Var),
    /// `context.name`
    ContextAttr(String),
    /// `context has name`
    HasContextAttr(String),
    /// `e.name`, where `e` is an entity or a record
    Attr(Box<Expr>, String),
    /// `e has name`
    HasAttr(Box<Expr>, String),
    Not(Box<Expr>),
    And(Box<Expr>, Box<Expr>),
    Or(Box<Expr>, Box<Expr>),
    Eq(Box<Expr>, Box<Expr>),
    Less(Box<Expr>, Box<Expr>),
    LessEq(Box<Expr>, Box<Expr>),
    Add(Box<Expr>, Box<Expr>),
    Sub(Box<Expr>, Box<Expr>),
    Mul(Box<Expr>, Box<Expr>),
    /// arithmetic negation
    Neg(Box<Expr>),
    /// `if c then t else e`
    If(Box<Expr>, Box<Expr>, Box<Expr>),
    /// `a in b`: `b` is an entity or a set of entities
    In(Box<Expr>, Box<Expr>),
    /// `a.contains(b)`: `a` is a set
    Contains(Box<Expr>, Box<Expr>),
}

/// Why the evaluation of one policy's condition failed.
#[derive(Debug, Clone, Copy, PartialEq, Eq, Structural)]
pub enum EvalError {
    MissingVariable,
    MissingEntity,
    MissingAttribute,
    TypeError,
    Overflow,
}

pub open spec fn var_value(x: Var, r: RequestV) -> Option<UidV> {
    match x {
        Var::Principal => r.principal,
        Var::Action => r.action,
        Var::Resource => r.resource,
    }
}

pub open spec fn long_in_range(z: int) -> bool {
    i64::MIN <= z <= i64::MAX
}

/// Whether every member of the set is an entity reference.
pub open spec fn all_entities(xs: Seq<Val>) -> bool {
    forall|i: int| 0 <= i < xs.len() ==> xs[i] is Entity
}

/// Whether `u` descends from some member of the set.
pub open spec fn in_some(s: Seq<EntityV>, u: UidV, xs: Seq<Val>) -> bool {
    exists|i: int| 0 <= i < xs.len() && descends(s, u, #[trigger] xs[i]->Entity_0)
}

/// The value of `e` for the request `r` and the store `s`.
pub open spec fn eval(e: Expr, r: RequestV, s: Seq<EntityV>) -> Result<Val, EvalError>
    decreases e,
{
    match e {
        Expr::Lit(v) => Ok(v@),
        Expr::Var(x) => match var_value(x, r) {
            Some(u) => Ok(Val::Entity(u)),
            None => Err(EvalError::MissingVariable),
        },
        Expr::ContextAttr(n) => match find_field(r.context, n@) {
            Some(v) => Ok(v),
            None => Err(EvalError::MissingAttribute),
        },
        Expr::HasContextAttr(n) => Ok(Val::Bool(find_field(r.context, n@) is Some)),
        Expr::Attr(a, n) => match eval(*a, r, s) {
            Ok(Val::Entity(u)) => match find_entity(s, u) {
                Some(en) => match find_field(en.attrs, n@) {
                    Some(v) => Ok(v),
                    None => Err(EvalError::MissingAttribute),
                },
                None => Err(EvalError::MissingEntity),
            },
            Ok(Val::Record(fs)) => match find_field(fs, n@) {
                Some(v) => Ok(v),
                None => Err(EvalError::MissingAttribute),
            },
            Ok(_) => Err(EvalError::TypeError),
            Err(x) => Err(x),
        },
        Expr::HasAttr(a, n) => match eval(*a, r, s) {
            Ok(Val::Entity(u)) => Ok(Val::Bool(match find_entity(s, u) {
                Some(en) => find_field(en.attrs, n@) is Some,
                None => false,
            })),
            Ok(Val::Record(fs)) => Ok(Val::Bool(find_field(fs, n@) is Some)),
            Ok(_) => Err(EvalError::TypeError),
            Err(x) => Err(x),
        },
        Expr::Not(a) => match eval(*a, r, s) {
            Ok(Val::Bool(b)) => Ok(Val::Bool(!b)),
            Ok(_) => Err(EvalError::TypeError),
            Err(x) => Err(x),
        },
        Expr::And(a, b) => match eval(*a, r, s) {
            Ok(Val::Bool(false)) => Ok(Val::Bool(false)),
            Ok(Val::Bool(true)) => match eval(*b, r, s) {
                Ok(Val::Bool(y)) => Ok(Val::Bool(y)),
                Ok(_) => Err(EvalError::TypeError),
                Err(x) => Err(x),
            },
            Ok(_) => Err(EvalError::TypeError),
            Err(x) => Err(x),
        },
        Expr::Or(a, b) => match eval(*a, r, s) {
            Ok(Val::Bool(true)) => Ok(Val::Bool(true)),
            Ok(Val::Bool(false)) => match eval(*b, r, s) {
                Ok(Val::Bool(y)) => Ok(Val::Bool(y)),
                Ok(_) => Err(EvalError::TypeError),
                Err(x) => Err(x),
            },
            Ok(_) => Err(EvalError::TypeError),
            Err(x) => Err(x),
        },
        Expr::Eq(a, b) => match (eval(*a, r, s), eval(*b, r, s)) {
            (Err(x), _) => Err(x),
            (Ok(_), Err(x)) => Err(x),
            (Ok(x), Ok(y)) => Ok(Val::Bool(val_eq(x, y))),
        },
        Expr::Less(a, b) => match (eval(*a, r, s), eval(*b, r, s)) {
            (Err(x), _) => Err(x),
            (Ok(_), Err(x)) => Err(x),
            (Ok(Val::Long(x)), Ok(Val::Long(y))) => Ok(Val::Bool(x < y)),
            _ => Err(EvalError::TypeError),
        },
        Expr::LessEq(a, b) => match (eval(*a, r, s), eval(*b, r, s)) {
            (Err(x), _) => Err(x),
            (Ok(_), Err(x)) => Err(x),
            (Ok(Val::Long(x)), Ok(Val::Long(y))) => Ok(Val::Bool(x <= y)),
            _ => Err(EvalError::TypeError),
        },
        Expr::Add(a, b) => match (eval(*a, r, s), eval(*b, r, s)) {
            (Err(x), _) => Err(x),
            (Ok(_), Err(x)) => Err(x),
            (Ok(Val::Long(x)), Ok(Val::Long(y))) => if long_in_range(x + y) {
                Ok(Val::Long(x + y))
            } else {
                Err(EvalError::Overflow)
            },
            _ => Err(EvalError::TypeError),
        },
        Expr::Sub(a, b) => match (eval(*a, r, s), eval(*b, r, s)) {
            (Err(x), _) => Err(x),
            (Ok(_), Err(x)) => Err(x),
            (Ok(Val::Long(x)), Ok(Val::Long(y))) => if long_in_range(x - y) {
                Ok(Val::Long(x - y))
            } else {
                Err(EvalError::Overflow)
            },
            _ => Err(EvalError::TypeError),
        },
        Expr::Mul(a, b) => match (eval(*a, r, s), eval(*b, r, s)) {
            (Err(x), _) => Err(x),
            (Ok(_), Err(x)) => Err(x),
            (Ok(Val::Long(x)), Ok(Val::Long(y))) => if long_in_range(x * y) {
                Ok(Val::Long(x * y))
            } else {
                Err(EvalError::Overflow)
            },
            _ => Err(EvalError::TypeError),
        },
        Expr::Neg(a) => match eval(*a, r, s) {
            Ok(Val::Long(x)) => if long_in_range(-x) {
                Ok(Val::Long(-x))
            } else {
                Err(EvalError::Overflow)
            },
            Ok(_) => Err(EvalError::TypeError),
            Err(x) => Err(x),
        },
        Expr::If(c, t, f) => match eval(*c, r, s) {
            Ok(Val::Bool(true)) => eval(*t, r, s),
            Ok(Val::Bool(false)) => eval(*f, r, s),
            Ok(_) => Err(EvalError::TypeError),
            Err(x) => Err(x),
        },
        Expr::In(a, b) => match (eval(*a, r, s), eval(*b, r, s)) {
            (Err(x), _) => Err(x),
            (Ok(_), Err(x)) => Err(x),
            (Ok(Val::Entity(u)), Ok(Val::Entity(v))) => Ok(Val::Bool(descends(s, u, v))),
            (Ok(Val::Entity(u)), Ok(Val::SetOf(xs))) => if all_entities(xs) {
                Ok(Val::Bool(in_some(s, u, xs)))
            } else {
                Err(EvalError::TypeError)
            },
            _ => Err(EvalError::TypeError),
        },
        Expr::Contains(a, b) => match (eval(*a, r, s), eval(*b, r, s)) {
            (Err(x), _) => Err(x),
            (Ok(_), Err(x)) => Err(x),
            (Ok(Val::SetOf(xs)), Ok(y)) => Ok(Val::Bool(seq_has(xs, y))),
            _ => Err(EvalError::TypeError),
        },
    }
}

/// The model of an evaluation result.
pub open spec fn result_view(r: Result<Value, EvalError>) -> Result<Val, EvalError> {
    match r {
        Ok(v) => Ok(v@),
        Err(x) => Err(x),
    }
}

fn var_uid(x: Var, req: &Request) -> (r: Option<&crate::uid::EntityUid>)
    ensures
        match r {
            Some(u) => var_value(x, req@) == Some(u@),
            None => var_value(x, req@) is None,
        },
{
    match x {
        Var::Principal => req.principal.as_ref(),
        Var::Action => req.action.as_ref(),
        Var::Resource => req.resource.as_ref(),
    }
}

/// Whether `u` descends from some member of `xs`, or a type error when a
/// member is no entity reference.
fn in_set(store: &Entities, u: &crate::uid::EntityUid, xs: &Vec<Value>) -> (r: Result<bool, EvalError>)
    ensures
        match r {
            Ok(b) => all_entities(values_view(xs@)) && b == in_some(store@, u@, values_view(xs@)),
            Err(x) => !all_entities(values_view(xs@)) && x == EvalError::TypeError,
        },
{
    let ghost vs = values_view(xs@);
    proof {
        lemma_values_view(xs@);
    }
    let mut i: usize = 0;
    while i < xs.len()
        invariant
            i <= xs.len(),
            vs == values_view(xs@),
            vs.len() == xs.len(),
            forall|k: int| 0 <= k < xs.len() ==> #[trigger] vs[k] == xs@[k]@,
            forall|k: int| 0 <= k < i ==> vs[k] is Entity,
        decreases xs.len() - i,
    {
        match &xs[i] {
            Value::Entity(_) => {},
            _ => {
                assert(!(vs[i as int] is Entity));
                return Err(EvalError::TypeError);
            },
        }
        i += 1;
    }
    let mut j: usize = 0;
    while j < xs.len()
        invariant
            j <= xs.len(),
            vs == values_view(xs@),
            vs.len() == xs.len(),
            forall|k: int| 0 <= k < xs.len() ==> #[trigger] vs[k] == xs@[k]@,
            all_entities(vs),
            forall|k: int| 0 <= k < j ==> !descends(store@, u@, #[trigger] vs[k]->Entity_0),
        decreases xs.len() - j,
    {
        match &xs[j] {
            Value::Entity(v) => {
                if store.is_descendant(u, v) {
                    assert(descends(store@, u@, vs[j as int]->Entity_0));
                    return Ok(true);
                }
            },
            _ => {},
        }
        j += 1;
    }
    Ok(false)
}

/// Whether the set holds a member equal to `y`.
fn set_has(xs: &Vec<Value>, y: &Value) -> (r: bool)
    ensures
        r == seq_has(values_view(xs@), y@),
{
    let ghost vs = values_view(xs@);
    proof {
        lemma_values_view(xs@);
    }
    let mut i: usize = 0;
    while i < xs.len()
        invariant
            i <= xs.len(),
            vs == values_view(xs@),
            vs.len() == xs.len(),
            forall|k: int| 0 <= k < xs.len() ==> #[trigger] vs[k] == xs@[k]@,
            forall|k: int| 0 <= k < i ==> !val_eq(#[trigger] vs[k], y@),
        decreases xs.len() - i,
    {
        if xs[i].equals(y) {
            assert(val_eq(vs[i as int], y@));
            return true;
        }
        i += 1;
    }
    false
}

/// Evaluates `e` for the request and the store. Evaluation is total: a
/// missing variable, entity or attribute, a type mismatch or an overflow is
/// an error, never a panic.
#[verifier::rlimit(80)]
pub fn evaluate(e: &Expr, req: &Request, store: &Entities) -> (r: Result<Value, EvalError>)
    ensures
        result_view(r) == eval(*e, req@, store@),
    decreases e,
{
    match e {
        Expr::Lit(v) => Ok(v.copy()),
        Expr::Var(x) => match var_uid(*x, req) {
            Some(u) => Ok(Value::Entity(u.copy())),
            None => Err(EvalError::MissingVariable),
        },
        Expr::ContextAttr(n) => match req.context.get(n) {
            Some(v) => Ok(v),
            None => Err(EvalError::MissingAttribute),
        },
        Expr::HasContextAttr(n) => Ok(Value::Bool(req.context.get(n).is_some())),
        Expr::Attr(a, n) => match evaluate(a, req, store) {
            Ok(Value::Entity(u)) => match store.lookup(&u) {
                Some(en) => match en.attrs.get(n) {
                    Some(v) => Ok(v),
                    None => Err(EvalError::MissingAttribute),
                },
                None => Err(EvalError::MissingEntity),
            },
            Ok(Value::Record(fs)) => match fs.get(n) {
                Some(v) => Ok(v),
                None => Err(EvalError::MissingAttribute),
            },
            Ok(_) => Err(EvalError::TypeError),
            Err(x) => Err(x),
        },
        Expr::HasAttr(a, n) => match evaluate(a, req, store) {
            Ok(Value::Entity(u)) => Ok(Value::Bool(match store.lookup(&u) {
                Some(en) => en.attrs.get(n).is_some(),
                None => false,
            })),
            Ok(Value::Record(fs)) => Ok(Value::Bool(fs.get(n).is_some())),
            Ok(_) => Err(EvalError::TypeError),
            Err(x) => Err(x),
        },
        Expr::Not(a) => match evaluate(a, req, store) {
            Ok(Value::Bool(b)) => Ok(Value::Bool(!b)),
            Ok(_) => Err(EvalError::TypeError),
            Err(x) => Err(x),
        },
        Expr::And(a, b) => match evaluate(a, req, store) {
            Ok(Value::Bool(false)) => Ok(Value::Bool(false)),
            Ok(Value::Bool(true)) => match evaluate(b, req, store) {
                Ok(Value::Bool(y)) => Ok(Value::Bool(y)),
                Ok(_) => Err(EvalError::TypeError),
                Err(x) => Err(x),
            },
            Ok(_) => Err(EvalError::TypeError),
            Err(x) => Err(x),
        },
        Expr::Or(a, b) => match evaluate(a, req, store) {
            Ok(Value::Bool(true)) => Ok(Value::Bool(true)),
            Ok(Value::Bool(false)) => match evaluate(b, req, store) {
                Ok(Value::Bool(y)) => Ok(Value::Bool(y)),
                Ok(_) => Err(EvalError::TypeError),
                Err(x) => Err(x),
            },
            Ok(_) => Err(EvalError::TypeError),
            Err(x) => Err(x),
        },
        Expr::Eq(a, b) => match (evaluate(a, req, store), evaluate(b, req, store)) {
            (Err(x), _) => Err(x),
            (Ok(_), Err(x)) => Err(x),
            (Ok(x), Ok(y)) => Ok(Value::Bool(x.equals(&y))),
        },
        Expr::Less(a, b) => match (evaluate(a, req, store), evaluate(b, req, store)) {
            (Err(x), _) => Err(x),
            (Ok(_), Err(x)) => Err(x),
            (Ok(Value::Long(x)), Ok(Value::Long(y))) => Ok(Value::Bool(x < y)),
            _ => Err(EvalError::TypeError),
        },
        Expr::LessEq(a, b) => match (evaluate(a, req, store), evaluate(b, req, store)) {
            (Err(x), _) => Err(x),
            (Ok(_), Err(x)) => Err(x),
            (Ok(Value::Long(x)), Ok(Value::Long(y))) => Ok(Value::Bool(x <= y)),
            _ => Err(EvalError::TypeError),
        },
        Expr::Add(a, b) => match (evaluate(a, req, store), evaluate(b, req, store)) {
            (Err(x), _) => Err(x),
            (Ok(_), Err(x)) => Err(x),
            (Ok(Value::Long(x)), Ok(Value::Long(y))) => {
                if (y > 0 && x > i64::MAX - y) || (y < 0 && x < i64::MIN - y) {
                    Err(EvalError::Overflow)
                } else {
                    Ok(Value::Long(x + y))
                }
            },
            _ => Err(EvalError::TypeError),
        },
        Expr::Sub(a, b) => match (evaluate(a, req, store), evaluate(b, req, store)) {
            (Err(x), _) => Err(x),
            (Ok(_), Err(x)) => Err(x),
            (Ok(Value::Long(x)), Ok(Value::Long(y))) => {
                if (y < 0 && x > i64::MAX + y) || (y > 0 && x < i64::MIN + y) {
                    Err(EvalError::Overflow)
                } else {
                    Ok(Value::Long(x - y))
                }
            },
            _ => Err(EvalError::TypeError),
        },
        Expr::Mul(a, b) => match (evaluate(a, req, store), evaluate(b, req, store)) {
            (Err(x), _) => Err(x),
            (Ok(_), Err(x)) => Err(x),
            (Ok(Value::Long(x)), Ok(Value::Long(y))) => match x.checked_mul(y) {
                Some(z) => Ok(Value::Long(z)),
                None => Err(EvalError::Overflow),
            },
            _ => Err(EvalError::TypeError),
        },
        Expr::Neg(a) => match evaluate(a, req, store) {
            Ok(Value::Long(x)) => {
                if x == i64::MIN {
                    Err(EvalError::Overflow)
                } else {
                    Ok(Value::Long(-x))
                }
            },
            Ok(_) => Err(EvalError::TypeError),
            Err(x) => Err(x),
        },
        Expr::If(c, t, f) => match evaluate(c, req, store) {
            Ok(Value::Bool(true)) => evaluate(t, req, store),
            Ok(Value::Bool(false)) => evaluate(f, req, store),
            Ok(_) => Err(EvalError::TypeError),
            Err(x) => Err(x),
        },
        Expr::In(a, b) => match (evaluate(a, req, store), evaluate(b, req, store)) {
            (Err(x), _) => Err(x),
            (Ok(_), Err(x)) => Err(x),
            (Ok(Value::Entity(u)), Ok(Value::Entity(v))) => Ok(Value::Bool(store.is_descendant(&u, &v))),
            (Ok(Value::Entity(u)), Ok(Value::SetOf(xs))) => match in_set(store, &u, &xs) {
                Ok(found) => Ok(Value::Bool(found)),
                Err(x) => Err(x),
            },
            _ => Err(EvalError::TypeError),
        },
        Expr::Contains(a, b) => match (evaluate(a, req, store), evaluate(b, req, store)) {
            (Err(x), _) => Err(x),
            (Ok(_), Err(x)) => Err(x),
            (Ok(Value::SetOf(xs)), Ok(y)) => Ok(Value::Bool(set_has(&xs, &y))),
            _ => Err(EvalError::TypeError),
        },
    }
}

} // verus!
