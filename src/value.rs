use vstd::prelude::*;
use crate::uid::{EntityUid, UidV};

verus! {

/// The mathematical model of an attribute value.
pub enum Val {
    Bool(bool),
    Long(int),
    Str(Seq<char>),
    Entity(UidV),
    SetOf(Seq<Val>),
    Record(Seq<(Seq<char>, Val)>),
}

/// The model of a record: its fields in order, each a name and a value.
pub type Fields = Seq<(Seq<char>, Val)>;

/// An attribute value: a boolean, a 64-bit integer, a string, an entity
/// reference, a set of values, or a record.
#[derive(Debug)]
pub enum Value {
    Bool(bool),
    Long(i64),
    Str(String),
    Entity(EntityUid),
    SetOf(Vec<Value>),
    Record(Record),
}

/// A record: named values in order. Looking a name up finds its first field.
#[derive(Debug)]
pub struct Record {
    pub fields: Vec<(String, Value)>,
}

pub open spec fn value_view(v: Value) -> Val
    decreases v,
{
    match v {
        Value::Bool(b) => Val::Bool(b),
        Value::Long(n) => Val::Long(n as int),
        Value::Str(s) => Val::Str(s@),
        Value::Entity(u) => Val::Entity(u@),
        Value::SetOf(xs) => Val::SetOf(values_view(xs@)),
        Value::Record(r) => Val::Record(fields_view(r.fields@)),
    }
}

pub open spec fn values_view(xs: Seq<Value>) -> Seq<Val>
    decreases xs,
{
    if xs.len() == 0 {
        Seq::empty()
    } else {
        values_view(xs.drop_last()).push(value_view(xs.last()))
    }
}

pub open spec fn fields_view(fs: Seq<(String, Value)>) -> Fields
    decreases fs,
{
    if fs.len() == 0 {
        Seq::empty()
    } else {
        fields_view(fs.drop_last()).push((fs.last().0@, value_view(fs.last().1)))
    }
}

pub proof fn lemma_values_view(xs: Seq<Value>)
    ensures
        values_view(xs).len() == xs.len(),
        forall|i: int| 0 <= i < xs.len() ==> #[trigger] values_view(xs)[i] == value_view(xs[i]),
    decreases xs.len(),
{
    if xs.len() > 0 {
        lemma_values_view(xs.drop_last());
    }
}

pub proof fn lemma_fields_view(fs: Seq<(String, Value)>)
    ensures
        fields_view(fs).len() == fs.len(),
        forall|i: int| 0 <= i < fs.len() ==> #[trigger] fields_view(fs)[i] == (fs[i].0@, value_view(fs[i].1)),
    decreases fs.len(),
{
    if fs.len() > 0 {
        lemma_fields_view(fs.drop_last());
    }
}

impl View for Value {
    type V = Val;

    open spec fn view(&self) -> Val {
        value_view(*self)
    }
}

impl View for Record {
    type V = Fields;

    open spec fn view(&self) -> Fields {
        fields_view(self.fields@)
    }
}

/// Whether one of the first `k` members of `ys` equals `x`, looking `m`
/// levels deep (with `flip`, whether `x` equals one of them, compared with the
/// member on the left).
pub open spec fn member(x: Val, ys: Seq<Val>, m: nat, k: int, flip: bool) -> bool
    decreases m, 1int, k,
{
    if k <= 0 || k > ys.len() {
        false
    } else {
        (if flip { val_eq_n(ys[k - 1], x, m) } else { val_eq_n(x, ys[k - 1], m) })
            || member(x, ys, m, k - 1, flip)
    }
}

/// Whether each of the first `k` members of `xs` equals some member of `ys`.
pub open spec fn all_matched(xs: Seq<Val>, ys: Seq<Val>, m: nat, k: int, flip: bool) -> bool
    decreases m, 2int, k,
{
    if k <= 0 || k > xs.len() {
        true
    } else {
        member(xs[k - 1], ys, m, ys.len() as int, flip) && all_matched(xs, ys, m, k - 1, flip)
    }
}

/// Whether the name `k` is in both records or in neither, with values that
/// are equal looking `m` levels deep.
pub open spec fn name_agrees(fs: Fields, gs: Fields, k: Seq<char>, m: nat) -> bool {
    match (find_field(fs, k), find_field(gs, k)) {
        (Some(x), Some(y)) => val_eq_n(x, y, m),
        (None, None) => true,
        _ => false,
    }
}

/// How deeply sets and records nest in a value.
pub open spec fn depth(v: Val) -> nat
    decreases v,
{
    match v {
        Val::SetOf(xs) => 1 + depth_seq(xs),
        Val::Record(fs) => 1 + depth_fields(fs),
        _ => 0,
    }
}

pub open spec fn depth_seq(xs: Seq<Val>) -> nat
    decreases xs,
{
    if xs.len() == 0 {
        0
    } else {
        let a = depth_seq(xs.drop_last());
        let b = depth(xs.last());
        if a >= b { a } else { b }
    }
}

pub open spec fn depth_fields(fs: Fields) -> nat
    decreases fs,
{
    if fs.len() == 0 {
        0
    } else {
        let a = depth_fields(fs.drop_last());
        let b = depth(fs.last().1);
        if a >= b { a } else { b }
    }
}

/// Whether `xs` holds a value equal to `v`.
pub open spec fn seq_has(xs: Seq<Val>, v: Val) -> bool {
    exists|i: int| 0 <= i < xs.len() && val_eq(xs[i], v)
}

/// Equality of values, looking at most `n` levels of sets and records deep:
/// sets are equal when each member of one equals some member of the other,
/// records when they have the same field names and equal values under each.
pub open spec fn val_eq_n(a: Val, b: Val, n: nat) -> bool
    decreases n, 0int, 0int,
{
    match (a, b) {
        (Val::SetOf(xs), Val::SetOf(ys)) => n > 0
            && all_matched(xs, ys, (n - 1) as nat, xs.len() as int, false)
            && all_matched(ys, xs, (n - 1) as nat, ys.len() as int, true),
        (Val::Record(fs), Val::Record(gs)) => n > 0 && forall|k: Seq<char>|
            #![trigger find_field(fs, k)] #![trigger find_field(gs, k)]
            match (find_field(fs, k), find_field(gs, k)) {
                (Some(x), Some(y)) => val_eq_n(x, y, (n - 1) as nat),
                (None, None) => true,
                _ => false,
            },
        (Val::SetOf(_), _) => false,
        (Val::Record(_), _) => false,
        _ => a == b,
    }
}

/// Equality of values: sets compare as sets and records as mappings from
/// names to values; the order of members and fields plays no part.
pub open spec fn val_eq(a: Val, b: Val) -> bool {
    val_eq_n(a, b, depth(a))
}

proof fn lemma_all_matched_prefix(xs: Seq<Val>, ys: Seq<Val>, m: nat, k: int, j: int, flip: bool)
    requires
        0 <= j <= k <= xs.len(),
        all_matched(xs, ys, m, k, flip),
    ensures
        all_matched(xs, ys, m, j, flip),
    decreases k - j,
{
    if j < k {
        lemma_all_matched_prefix(xs, ys, m, k - 1, j, flip);
    }
}

proof fn lemma_record_eq_n(fs: Fields, gs: Fields, n: nat)
    requires
        n > 0,
    ensures
        val_eq_n(Val::Record(fs), Val::Record(gs), n) == forall|k: Seq<char>| #[trigger] name_agrees(fs, gs, k, (n - 1) as nat),
{
    assert(val_eq_n(Val::Record(fs), Val::Record(gs), n) ==> forall|k: Seq<char>| #[trigger] name_agrees(fs, gs, k, (n - 1) as nat)) by {
        if val_eq_n(Val::Record(fs), Val::Record(gs), n) {
            assert forall|k: Seq<char>| #[trigger] name_agrees(fs, gs, k, (n - 1) as nat) by {
                assert(find_field(fs, k) == find_field(fs, k));
            }
        }
    }
    assert((forall|k: Seq<char>| #[trigger] name_agrees(fs, gs, k, (n - 1) as nat)) ==> val_eq_n(Val::Record(fs), Val::Record(gs), n)) by {
        if forall|k: Seq<char>| #[trigger] name_agrees(fs, gs, k, (n - 1) as nat) {
            assert forall|k: Seq<char>| match (#[trigger] find_field(fs, k), find_field(gs, k)) {
                (Some(x), Some(y)) => val_eq_n(x, y, (n - 1) as nat),
                (None, None) => true,
                _ => false,
            } by {
                assert(name_agrees(fs, gs, k, (n - 1) as nat));
            }
        }
    }
}

proof fn lemma_depth_seq(xs: Seq<Val>)
    ensures
        forall|i: int| 0 <= i < xs.len() ==> #[trigger] depth(xs[i]) <= depth_seq(xs),
    decreases xs.len(),
{
    if xs.len() > 0 {
        lemma_depth_seq(xs.drop_last());
        assert forall|i: int| 0 <= i < xs.len() implies #[trigger] depth(xs[i]) <= depth_seq(xs) by {
            if i < xs.len() - 1 {
                assert(xs.drop_last()[i] == xs[i]);
            }
        }
    }
}

proof fn lemma_depth_fields(fs: Fields)
    ensures
        forall|i: int| 0 <= i < fs.len() ==> #[trigger] depth(fs[i].1) <= depth_fields(fs),
    decreases fs.len(),
{
    if fs.len() > 0 {
        lemma_depth_fields(fs.drop_last());
        assert forall|i: int| 0 <= i < fs.len() implies #[trigger] depth(fs[i].1) <= depth_fields(fs) by {
            if i < fs.len() - 1 {
                assert(fs.drop_last()[i] == fs[i]);
            }
        }
    }
}

/// A name that `find_field` finds is the name of some field, and the value
/// found is that field's.
proof fn lemma_find_field_index(fs: Fields, k: Seq<char>) -> (i: int)
    requires
        find_field(fs, k) is Some,
    ensures
        0 <= i < fs.len(),
        fs[i].0 == k,
        find_field(fs, k) == Some(fs[i].1),
    decreases fs.len(),
{
    if fs[0].0 == k {
        0
    } else {
        let i = lemma_find_field_index(fs.drop_first(), k);
        i + 1
    }
}

/// The name of any field is found.
proof fn lemma_find_field_some(fs: Fields, k: Seq<char>, i: int)
    requires
        0 <= i < fs.len(),
        fs[i].0 == k,
    ensures
        find_field(fs, k) is Some,
    decreases fs.len(),
{
    if fs[0].0 != k {
        lemma_find_field_some(fs.drop_first(), k, i - 1);
    }
}

impl Value {
    pub fn copy(&self) -> (r: Value)
        ensures
            r@ == self@,
        decreases self,
    {
        match self {
            Value::Bool(b) => Value::Bool(*b),
            Value::Long(n) => Value::Long(*n),
            Value::Str(s) => Value::Str(s.clone()),
            Value::Entity(u) => Value::Entity(u.copy()),
            Value::SetOf(xs) => {
                let mut out: Vec<Value> = Vec::new();
                let mut i: usize = 0;
                while i < xs.len()
                    invariant
                        i <= xs.len(),
                        out@.len() == i,
                        *self == Value::SetOf(*xs),
                        self@ == Val::SetOf(values_view(xs@)),
                        forall|k: int| 0 <= k < i ==> out@[k]@ == xs@[k]@,
                    decreases xs.len() - i,
                {
                    let c = xs[i].copy();
                    out.push(c);
                    i += 1;
                }
                proof {
                    lemma_values_view(out@);
                    lemma_values_view(xs@);
                }
                assert(values_view(out@) =~= values_view(xs@));
                Value::SetOf(out)
            },
            Value::Record(r) => {
                let mut out: Vec<(String, Value)> = Vec::new();
                let mut i: usize = 0;
                while i < r.fields.len()
                    invariant
                        i <= r.fields.len(),
                        out@.len() == i,
                        *self == Value::Record(*r),
                        self@ == Val::Record(fields_view(r.fields@)),
                        forall|k: int| 0 <= k < i ==> out@[k].0@ == r.fields@[k].0@ && out@[k].1@ == r.fields@[k].1@,
                    decreases r.fields.len() - i,
                {
                    let c = r.fields[i].1.copy();
                    out.push((r.fields[i].0.clone(), c));
                    i += 1;
                }
                proof {
                    lemma_fields_view(out@);
                    lemma_fields_view(r.fields@);
                }
                let c = Record { fields: out };
                assert(c@ =~= r@);
                Value::Record(c)
            },
        }
    }

    /// Whether two values are equal in the sense of `val_eq`.
    pub fn equals(&self, other: &Value) -> (r: bool)
        ensures
            r == val_eq(self@, other@),
    {
        self.equals_within(other, Ghost(depth(self@)))
    }

    fn equals_within(&self, other: &Value, Ghost(n): Ghost<nat>) -> (r: bool)
        requires
            depth(self@) <= n,
        ensures
            r == val_eq_n(self@, other@, n),
        decreases self,
    {
        match (self, other) {
            (Value::Bool(a), Value::Bool(b)) => *a == *b,
            (Value::Long(a), Value::Long(b)) => *a == *b,
            (Value::Str(a), Value::Str(b)) => *a == *b,
            (Value::Entity(a), Value::Entity(b)) => a.same(b),
            (Value::SetOf(a), Value::SetOf(b)) => {
                let ghost xs = values_view(a@);
                let ghost ys = values_view(b@);
                let ghost m = (n - 1) as nat;
                proof {
                    lemma_values_view(a@);
                    lemma_values_view(b@);
                    lemma_depth_seq(xs);
                }
                let mut i: usize = 0;
                while i < a.len()
                    invariant
                        i <= a.len(),
                        n > 0,
                        m == n - 1,
                        *self == Value::SetOf(*a),
                        self@ == Val::SetOf(xs),
                        other@ == Val::SetOf(ys),
                        xs.len() == a.len(),
                        ys.len() == b.len(),
                        forall|k: int| 0 <= k < a.len() ==> #[trigger] xs[k] == a@[k]@,
                        forall|k: int| 0 <= k < b.len() ==> #[trigger] ys[k] == b@[k]@,
                        forall|k: int| 0 <= k < xs.len() ==> #[trigger] depth(xs[k]) <= m,
                        all_matched(xs, ys, m, i as int, false),
                    decreases a.len() - i,
                {
                    let mut j: usize = 0;
                    let mut found = false;
                    while j < b.len()
                        invariant
                            i < a.len(),
                            j <= b.len(),
                            n > 0,
                            m == n - 1,
                            *self == Value::SetOf(*a),
                            self@ == Val::SetOf(xs),
                            xs.len() == a.len(),
                            ys.len() == b.len(),
                            forall|k: int| 0 <= k < a.len() ==> #[trigger] xs[k] == a@[k]@,
                            forall|k: int| 0 <= k < b.len() ==> #[trigger] ys[k] == b@[k]@,
                            forall|k: int| 0 <= k < xs.len() ==> #[trigger] depth(xs[k]) <= m,
                            found == member(xs[i as int], ys, m, j as int, false),
                        decreases b.len() - j,
                    {
                        assert(depth(xs[i as int]) <= m);
                        if !found {
                            if a[i].equals_within(&b[j], Ghost(m)) {
                                found = true;
                            }
                        }
                        j += 1;
                    }
                    if !found {
                        proof {
                            if all_matched(xs, ys, m, xs.len() as int, false) {
                                lemma_all_matched_prefix(xs, ys, m, xs.len() as int, i + 1, false);
                            }
                        }
                        return false;
                    }
                    i += 1;
                }
                let mut j: usize = 0;
                while j < b.len()
                    invariant
                        j <= b.len(),
                        n > 0,
                        m == n - 1,
                        *self == Value::SetOf(*a),
                        self@ == Val::SetOf(xs),
                        other@ == Val::SetOf(ys),
                        xs.len() == a.len(),
                        ys.len() == b.len(),
                        forall|k: int| 0 <= k < a.len() ==> #[trigger] xs[k] == a@[k]@,
                        forall|k: int| 0 <= k < b.len() ==> #[trigger] ys[k] == b@[k]@,
                        forall|k: int| 0 <= k < xs.len() ==> #[trigger] depth(xs[k]) <= m,
                        all_matched(xs, ys, m, xs.len() as int, false),
                        all_matched(ys, xs, m, j as int, true),
                    decreases b.len() - j,
                {
                    let mut i: usize = 0;
                    let mut found = false;
                    while i < a.len()
                        invariant
                            j < b.len(),
                            i <= a.len(),
                            n > 0,
                            m == n - 1,
                            *self == Value::SetOf(*a),
                            self@ == Val::SetOf(xs),
                            xs.len() == a.len(),
                            ys.len() == b.len(),
                            forall|k: int| 0 <= k < a.len() ==> #[trigger] xs[k] == a@[k]@,
                            forall|k: int| 0 <= k < b.len() ==> #[trigger] ys[k] == b@[k]@,
                            forall|k: int| 0 <= k < xs.len() ==> #[trigger] depth(xs[k]) <= m,
                            found == member(ys[j as int], xs, m, i as int, true),
                        decreases a.len() - i,
                    {
                        assert(depth(xs[i as int]) <= m);
                        if !found {
                            if a[i].equals_within(&b[j], Ghost(m)) {
                                found = true;
                            }
                        }
                        i += 1;
                    }
                    if !found {
                        proof {
                            if all_matched(ys, xs, m, ys.len() as int, true) {
                                lemma_all_matched_prefix(ys, xs, m, ys.len() as int, j + 1, true);
                            }
                        }
                        return false;
                    }
                    j += 1;
                }
                true
            },
            (Value::Record(a), Value::Record(b)) => {
                let ghost fs = a@;
                let ghost gs = b@;
                let ghost m = (n - 1) as nat;
                proof {
                    lemma_fields_view(a.fields@);
                    lemma_fields_view(b.fields@);
                    lemma_depth_fields(fs);
                    lemma_record_eq_n(fs, gs, n);
                }
                let mut i: usize = 0;
                while i < a.fields.len()
                    invariant
                        i <= a.fields.len(),
                        n > 0,
                        m == n - 1,
                        *self == Value::Record(*a),
                        self@ == Val::Record(fs),
                        other@ == Val::Record(gs),
                        fs == a@,
                        gs == b@,
                        fs.len() == a.fields.len(),
                        forall|k: int| 0 <= k < a.fields.len() ==> #[trigger] fs[k] == (a.fields@[k].0@, a.fields@[k].1@),
                        forall|k: int| 0 <= k < fs.len() ==> #[trigger] depth(fs[k].1) <= m,
                        forall|p: int| 0 <= p < i ==> name_agrees(fs, gs, #[trigger] fs[p].0, m),
                        val_eq_n(self@, other@, n) == forall|k: Seq<char>| #[trigger] name_agrees(fs, gs, k, m),
                    decreases a.fields.len() - i,
                {
                    let pa = a.position(&a.fields[i].0);
                    let pb = b.position(&a.fields[i].0);
                    let ghost k = fs[i as int].0;
                    proof {
                        lemma_find_field_some(fs, k, i as int);
                    }
                    match (pa, pb) {
                        (Some(x), Some(y)) => {
                            assert(depth(fs[x as int].1) <= m);
                            if !a.fields[x].1.equals_within(&b.fields[y].1, Ghost(m)) {
                                assert(!name_agrees(fs, gs, k, m));
                                return false;
                            }
                        },
                        _ => {
                            assert(!name_agrees(fs, gs, k, m));
                            return false;
                        },
                    }
                    i += 1;
                }
                let mut j: usize = 0;
                while j < b.fields.len()
                    invariant
                        j <= b.fields.len(),
                        n > 0,
                        m == n - 1,
                        *self == Value::Record(*a),
                        self@ == Val::Record(fs),
                        other@ == Val::Record(gs),
                        fs == a@,
                        gs == b@,
                        gs.len() == b.fields.len(),
                        forall|k: int| 0 <= k < b.fields.len() ==> #[trigger] gs[k] == (b.fields@[k].0@, b.fields@[k].1@),
                        forall|p: int| 0 <= p < fs.len() ==> name_agrees(fs, gs, #[trigger] fs[p].0, m),
                        forall|q: int| 0 <= q < j ==> find_field(fs, #[trigger] gs[q].0) is Some,
                        val_eq_n(self@, other@, n) == forall|k: Seq<char>| #[trigger] name_agrees(fs, gs, k, m),
                    decreases b.fields.len() - j,
                {
                    let ghost k = gs[j as int].0;
                    if a.position(&b.fields[j].0).is_none() {
                        proof {
                            lemma_find_field_some(gs, k, j as int);
                        }
                        assert(!name_agrees(fs, gs, k, m));
                        return false;
                    }
                    j += 1;
                }
                assert forall|k: Seq<char>| #[trigger] name_agrees(fs, gs, k, m) by {
                    if find_field(fs, k) is Some {
                        let p = lemma_find_field_index(fs, k);
                        assert(name_agrees(fs, gs, fs[p].0, m));
                    } else if find_field(gs, k) is Some {
                        let q = lemma_find_field_index(gs, k);
                        assert(find_field(fs, gs[q].0) is Some);
                    }
                }
                true
            },
            _ => false,
        }
    }
}

impl Record {
    pub fn empty() -> (r: Record)
        ensures
            r@.len() == 0,
    {
        Record { fields: Vec::new() }
    }

    pub fn new(fields: Vec<(String, Value)>) -> (r: Record)
        ensures
            r.fields@ == fields@,
    {
        Record { fields }
    }

    pub fn copy(&self) -> (r: Record)
        ensures
            r@ == self@,
    {
        let mut out: Vec<(String, Value)> = Vec::new();
        let mut i: usize = 0;
        while i < self.fields.len()
            invariant
                i <= self.fields.len(),
                out@.len() == i,
                forall|k: int| 0 <= k < i ==> out@[k].0@ == self.fields@[k].0@ && out@[k].1@ == self.fields@[k].1@,
            decreases self.fields.len() - i,
        {
            out.push((self.fields[i].0.clone(), self.fields[i].1.copy()));
            i += 1;
        }
        proof {
            lemma_fields_view(out@);
            lemma_fields_view(self.fields@);
        }
        let r = Record { fields: out };
        assert(r@ =~= self@);
        r
    }
}

/// The value of the first field named `name`, if any.
pub open spec fn find_field(fields: Fields, name: Seq<char>) -> Option<Val>
    decreases fields.len(),
{
    if fields.len() == 0 {
        None
    } else if fields[0].0 == name {
        Some(fields[0].1)
    } else {
        find_field(fields.drop_first(), name)
    }
}

impl Record {
    /// The position of the first field named `name`, if there is one.
    pub fn position(&self, name: &String) -> (r: Option<usize>)
        ensures
            match r {
                Some(k) => k < self.fields.len() && find_field(self@, name@) == Some(self.fields@[k as int].1@),
                None => find_field(self@, name@) is None,
            },
    {
        let mut i: usize = 0;
        let ghost all = self@;
        proof {
            lemma_fields_view(self.fields@);
        }
        assert(all.subrange(0, all.len() as int) =~= all);
        while i < self.fields.len()
            invariant
                i <= self.fields.len(),
                all == self@,
                all.len() == self.fields.len(),
                forall|k: int| 0 <= k < all.len() ==> #[trigger] all[k] == (self.fields@[k].0@, self.fields@[k].1@),
                find_field(all, name@) == find_field(all.subrange(i as int, all.len() as int), name@),
            decreases self.fields.len() - i,
        {
            let ghost rest = all.subrange(i as int, all.len() as int);
            assert(rest.drop_first() =~= all.subrange(i + 1, all.len() as int));
            assert(rest[0] == all[i as int]);
            if self.fields[i].0 == *name {
                return Some(i);
            }
            i += 1;
        }
        None
    }

    /// The value of the first field named `name`, if there is one.
    pub fn get(&self, name: &String) -> (r: Option<Value>)
        ensures
            match r {
                Some(v) => find_field(self@, name@) == Some(v@),
                None => find_field(self@, name@) is None,
            },
    {
        match self.position(name) {
            Some(k) => Some(self.fields[k].1.copy()),
            None => None,
        }
    }
}

} // verus!
