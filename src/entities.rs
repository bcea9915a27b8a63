use vstd::prelude::*;
use crate::uid::{EntityUid, UidV};
use crate::value::{Fields, Record};

verus! {

/// The model of an entity: its identifier, its attributes and its parents.
pub struct EntityV {
    pub uid: UidV,
    pub attrs: Fields,
    pub parents: Seq<UidV>,
}

/// An entity record: identifier, attributes and the identifiers of its parents.
#[derive(Debug)]
pub struct Entity {
    pub uid: EntityUid,
    pub attrs: Record,
    pub parents: Vec<EntityUid>,
}

impl View for Entity {
    type V = EntityV;

    open spec fn view(&self) -> EntityV {
        EntityV {
            uid: self.uid@,
            attrs: self.attrs@,
            parents: self.parents@.map_values(|p: EntityUid| p@),
        }
    }
}

/// Why a batch of entities was refused.
#[derive(Debug, Clone, Copy, PartialEq, Eq, Structural)]
pub enum EntitiesError {
    DuplicateUid,
}

/// Whether no two entities of the batch share an identifier.
pub open spec fn uids_unique(s: Seq<EntityV>) -> bool {
    forall|i: int, j: int| 0 <= i < j < s.len() ==> s[i].uid != s[j].uid
}

/// The entity with identifier `u`, if the store holds one.
pub open spec fn find_entity(s: Seq<EntityV>, u: UidV) -> Option<EntityV>
    decreases s.len(),
{
    if s.len() == 0 {
        None
    } else if s[0].uid == u {
        Some(s[0])
    } else {
        find_entity(s.drop_first(), u)
    }
}

/// Whether a chain of at most `fuel` parent edges leads from `a` to `b`.
pub open spec fn reaches(s: Seq<EntityV>, a: UidV, b: UidV, fuel: nat) -> bool
    decreases fuel,
{
    a == b || (fuel > 0 && match find_entity(s, a) {
        Some(e) => exists|i: int| #![trigger e.parents[i]] 0 <= i < e.parents.len() && reaches(s, e.parents[i], b, (fuel - 1) as nat),
        None => false,
    })
}

/// Whether `b` is `a`, or is reached from `a` by a chain of parent edges no
/// longer than the number of entities in the store.
pub open spec fn descends(s: Seq<EntityV>, a: UidV, b: UidV) -> bool {
    reaches(s, a, b, s.len())
}

proof fn lemma_reaches_step(s: Seq<EntityV>, a: UidV, b: UidV, fuel: nat, e: EntityV, i: int)
    requires
        fuel > 0,
        find_entity(s, a) == Some(e),
        0 <= i < e.parents.len(),
        reaches(s, e.parents[i], b, (fuel - 1) as nat),
    ensures
        reaches(s, a, b, fuel),
{
    assert(e.parents[i] == e.parents[i]);
    assert(find_entity(s, a)->Some_0 == e);
}

/// An immutable batch of entities with distinct identifiers.
#[derive(Debug)]
pub struct Entities {
    entities: Vec<Entity>,
}

impl View for Entities {
    type V = Seq<EntityV>;

    closed spec fn view(&self) -> Seq<EntityV> {
        self.entities@.map_values(|e: Entity| e@)
    }
}

impl Entities {
    pub open spec fn wf(&self) -> bool {
        uids_unique(self@)
    }

    /// The store with no entities.
    pub fn empty() -> (r: Entities)
        ensures
            r@.len() == 0,
            r.wf(),
    {
        let r = Entities { entities: Vec::new() };
        assert(r@ =~= Seq::<EntityV>::empty());
        r
    }

    /// Loads a batch of entities; two entities with one identifier are refused.
    pub fn new(list: Vec<Entity>) -> (r: Result<Entities, EntitiesError>)
        ensures
            r is Ok <==> uids_unique(list@.map_values(|e: Entity| e@)),
            r matches Ok(st) ==> st@ == list@.map_values(|e: Entity| e@) && st.wf(),
            r matches Err(e) ==> e == EntitiesError::DuplicateUid,
    {
        let ghost v = list@.map_values(|e: Entity| e@);
        let mut i: usize = 0;
        while i < list.len()
            invariant
                i <= list.len(),
                v == list@.map_values(|e: Entity| e@),
                forall|a: int, b: int| 0 <= a < b < i ==> v[a].uid != v[b].uid,
            decreases list.len() - i,
        {
            let mut j: usize = 0;
            while j < i
                invariant
                    j <= i < list.len(),
                    v == list@.map_values(|e: Entity| e@),
                    forall|a: int, b: int| 0 <= a < b < i ==> v[a].uid != v[b].uid,
                    forall|a: int| 0 <= a < j ==> v[a].uid != v[i as int].uid,
                decreases i - j,
            {
                if list[j].uid.same(&list[i].uid) {
                    assert(v[j as int].uid == v[i as int].uid);
                    return Err(EntitiesError::DuplicateUid);
                }
                j += 1;
            }
            i += 1;
        }
        Ok(Entities { entities: list })
    }

    /// The position of the entity with identifier `u`, if the store holds one.
    fn position(&self, u: &EntityUid) -> (r: Option<usize>)
        ensures
            match r {
                Some(k) => k < self@.len() && find_entity(self@, u@) == Some(self@[k as int])
                    && self@[k as int] == self.entities@[k as int]@,
                None => find_entity(self@, u@) is None,
            },
    {
        let ghost all = self@;
        assert(all.subrange(0, all.len() as int) =~= all);
        let mut i: usize = 0;
        while i < self.entities.len()
            invariant
                i <= self.entities.len(),
                all == self@,
                all.len() == self.entities.len(),
                find_entity(all, u@) == find_entity(all.subrange(i as int, all.len() as int), u@),
            decreases self.entities.len() - i,
        {
            let ghost rest = all.subrange(i as int, all.len() as int);
            assert(rest.drop_first() =~= all.subrange(i + 1, all.len() as int));
            assert(rest[0] == self.entities@[i as int]@);
            if self.entities[i].uid.same(u) {
                return Some(i);
            }
            i += 1;
        }
        None
    }

    /// The entity with identifier `u`, or `None` when the store holds none.
    pub fn lookup(&self, u: &EntityUid) -> (r: Option<&Entity>)
        ensures
            match r {
                Some(e) => find_entity(self@, u@) == Some(e@),
                None => find_entity(self@, u@) is None,
            },
    {
        match self.position(u) {
            Some(k) => Some(&self.entities[k]),
            None => None,
        }
    }

    /// Whether a chain of at most `m` edges leads from `p` to `b`, read off
    /// `table`, which holds that answer for each entity of the store.
    fn via(&self, p: &EntityUid, b: &EntityUid, table: &Vec<bool>, Ghost(m): Ghost<nat>) -> (r: bool)
        requires
            table@.len() == self@.len(),
            forall|j: int| 0 <= j < self@.len() ==> table@[j] == reaches(self@, self@[j].uid, b@, m),
        ensures
            r == reaches(self@, p@, b@, m),
    {
        if p.same(b) {
            return true;
        }
        match self.position(p) {
            Some(q) => {
                proof {
                    lemma_find_entity_uid(self@, p@);
                }
                table[q]
            },
            None => false,
        }
    }

    /// Whether a chain of at most `m + 1` edges leads from `a` to `b`.
    fn step(&self, a: &EntityUid, b: &EntityUid, table: &Vec<bool>, Ghost(m): Ghost<nat>) -> (r: bool)
        requires
            table@.len() == self@.len(),
            forall|j: int| 0 <= j < self@.len() ==> table@[j] == reaches(self@, self@[j].uid, b@, m),
        ensures
            r == reaches(self@, a@, b@, m + 1),
    {
        if a.same(b) {
            return true;
        }
        match self.position(a) {
            None => false,
            Some(k) => {
                let e = &self.entities[k];
                let ghost ev = e@;
                let mut j: usize = 0;
                while j < e.parents.len()
                    invariant
                        j <= e.parents.len(),
                        ev == e@,
                        table@.len() == self@.len(),
                        forall|q: int| 0 <= q < self@.len() ==> table@[q] == reaches(self@, self@[q].uid, b@, m),
                        find_entity(self@, a@) == Some(ev),
                        a@ != b@,
                        forall|q: int| 0 <= q < j ==> !reaches(self@, ev.parents[q], b@, m),
                    decreases e.parents.len() - j,
                {
                    if self.via(&e.parents[j], b, table, Ghost(m)) {
                        assert(ev.parents.len() == e.parents.len());
                        assert(ev.parents[j as int] == e.parents@[j as int]@);
                        proof {
                            lemma_reaches_step(self@, a@, b@, m + 1, ev, j as int);
                        }
                        return true;
                    }
                    j += 1;
                }
                false
            },
        }
    }

    /// Whether `b` is `a` itself or one of its ancestors. The answer is
    /// computed for every entity at once, one more edge per round, until a
    /// round changes nothing; cycles among parents are tolerated.
    pub fn is_descendant(&self, a: &EntityUid, b: &EntityUid) -> (r: bool)
        ensures
            r == descends(self@, a@, b@),
    {
        let n = self.entities.len();
        if n == 0 {
            return a.same(b);
        }
        let mut table: Vec<bool> = Vec::new();
        let mut j: usize = 0;
        while j < n
            invariant
                n == self@.len(),
                j <= n,
                table@.len() == j,
                forall|q: int| 0 <= q < j ==> table@[q] == reaches(self@, self@[q].uid, b@, 0),
            decreases n - j,
        {
            assert(self@[j as int] == self.entities@[j as int]@);
            table.push(self.entities[j].uid.same(b));
            j += 1;
        }
        let mut m: usize = 0;
        while m + 1 < n
            invariant
                n == self@.len(),
                m < n,
                table@.len() == n,
                forall|q: int| 0 <= q < n ==> table@[q] == reaches(self@, self@[q].uid, b@, m as nat),
            decreases n - m,
        {
            let mut next: Vec<bool> = Vec::new();
            let mut changed = false;
            let mut j: usize = 0;
            while j < n
                invariant
                    n == self@.len(),
                    m < n,
                    j <= n,
                    table@.len() == n,
                    forall|q: int| 0 <= q < n ==> table@[q] == reaches(self@, self@[q].uid, b@, m as nat),
                    next@.len() == j,
                    forall|q: int| 0 <= q < j ==> next@[q] == reaches(self@, self@[q].uid, b@, (m + 1) as nat),
                    !changed ==> forall|q: int| 0 <= q < j ==> next@[q] == table@[q],
                decreases n - j,
            {
                assert(self@[j as int] == self.entities@[j as int]@);
                let v = self.step(&self.entities[j].uid, b, &table, Ghost(m as nat));
                if v != table[j] {
                    changed = true;
                }
                next.push(v);
                j += 1;
            }
            if !changed {
                proof {
                    assert forall|q: int| 0 <= q < n implies reaches(self@, self@[q].uid, b@, m as nat)
                        == reaches(self@, self@[q].uid, b@, (m + 1) as nat) by {
                        assert(next@[q] == table@[q]);
                    }
                    lemma_stable(self@, b@, m as nat, (n - 1) as nat);
                    assert(reaches(self@, a@, b@, (m + 1) as nat) == reaches(self@, a@, b@, ((n - 1) + 1) as nat));
                }
                return self.step(a, b, &table, Ghost(m as nat));
            }
            table = next;
            m += 1;
        }
        self.step(a, b, &table, Ghost(m as nat))
    }
}

/// The entity that `find_entity` returns carries the identifier asked for.
proof fn lemma_find_entity_uid(s: Seq<EntityV>, u: UidV)
    ensures
        find_entity(s, u) matches Some(e) ==> e.uid == u,
    decreases s.len(),
{
    if s.len() > 0 {
        lemma_find_entity_uid(s.drop_first(), u);
    }
}

/// Once one more edge changes the answer for no entity of the store, it
/// changes the answer for no identifier at all.
proof fn lemma_stable_step(s: Seq<EntityV>, b: UidV, m: nat)
    requires
        forall|j: int| 0 <= j < s.len() ==> reaches(s, s[j].uid, b, m) == reaches(s, s[j].uid, b, m + 1),
    ensures
        forall|x: UidV| reaches(s, x, b, m + 1) == #[trigger] reaches(s, x, b, m + 2),
{
    assert forall|x: UidV| reaches(s, x, b, m + 1) == #[trigger] reaches(s, x, b, m + 2) by {
        if x != b {
            match find_entity(s, x) {
                Some(e) => {
                    assert forall|i: int| 0 <= i < e.parents.len() implies
                        reaches(s, e.parents[i], b, m) == reaches(s, e.parents[i], b, m + 1) by {
                        let p = e.parents[i];
                        lemma_find_entity_uid(s, p);
                        if p != b {
                            match find_entity(s, p) {
                                Some(f) => {
                                    let q = lemma_find_entity_index(s, p);
                                    assert(s[q].uid == p);
                                },
                                None => {},
                            }
                        }
                    }
                    if reaches(s, x, b, m + 1) {
                        let i = choose|i: int| #![trigger e.parents[i]] 0 <= i < e.parents.len() && reaches(s, e.parents[i], b, m);
                        lemma_reaches_step(s, x, b, m + 2, e, i);
                    }
                    if reaches(s, x, b, m + 2) {
                        let i = choose|i: int| #![trigger e.parents[i]] 0 <= i < e.parents.len() && reaches(s, e.parents[i], b, m + 1);
                        lemma_reaches_step(s, x, b, m + 1, e, i);
                    }
                },
                None => {},
            }
        }
    }
}

/// The position of the entity that `find_entity` returns.
proof fn lemma_find_entity_index(s: Seq<EntityV>, u: UidV) -> (q: int)
    requires
        find_entity(s, u) is Some,
    ensures
        0 <= q < s.len(),
        find_entity(s, u) == Some(s[q]),
    decreases s.len(),
{
    if s[0].uid == u {
        0
    } else {
        let q = lemma_find_entity_index(s.drop_first(), u);
        q + 1
    }
}

/// When one more edge changes the answer for no entity, chains longer than
/// `m + 1` edges reach nothing new.
proof fn lemma_stable(s: Seq<EntityV>, b: UidV, m: nat, t: nat)
    requires
        forall|j: int| 0 <= j < s.len() ==> reaches(s, s[j].uid, b, m) == reaches(s, s[j].uid, b, m + 1),
        m <= t,
    ensures
        forall|x: UidV| reaches(s, x, b, m + 1) == #[trigger] reaches(s, x, b, t + 1),
    decreases t - m,
{
    if m < t {
        lemma_stable_step(s, b, m);
        assert forall|j: int| 0 <= j < s.len() implies reaches(s, s[j].uid, b, m + 1) == reaches(s, s[j].uid, b, m + 2) by {
            assert(reaches(s, s[j].uid, b, m + 1) == reaches(s, s[j].uid, b, m + 2));
        }
        lemma_stable(s, b, m + 1, t);
        assert forall|x: UidV| reaches(s, x, b, m + 1) == #[trigger] reaches(s, x, b, t + 1) by {
            assert(reaches(s, x, b, m + 1) == reaches(s, x, b, m + 2));
            assert(reaches(s, x, b, m + 2) == reaches(s, x, b, t + 1));
        }
    }
}

} // verus!
