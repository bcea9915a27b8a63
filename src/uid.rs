use vstd::prelude::*;

verus! {

/// The mathematical model of an entity identifier: its type name and its id.
pub struct UidV {
    pub ty: Seq<char>,
    pub id: Seq<char>,
}

pub open spec fn ident_start(c: char) -> bool {
    c == '_' || ('a' as u32 <= c as u32 && c as u32 <= 'z' as u32) || ('A' as u32 <= c as u32 && c as u32 <= 'Z' as u32)
}

pub open spec fn ident_char(c: char) -> bool {
    ident_start(c) || ('0' as u32 <= c as u32 && c as u32 <= '9' as u32)
}

/// The words that the policy language reserves.
pub open spec fn reserved(s: Seq<char>) -> bool {
    s == seq!['i', 'f'] || s == seq!['t', 'r', 'u', 'e'] || s == seq!['f', 'a', 'l', 's', 'e']
        || s == seq!['t', 'h', 'e', 'n'] || s == seq!['e', 'l', 's', 'e'] || s == seq!['i', 'n']
        || s == seq!['h', 'a', 's'] || s == seq!['l', 'i', 'k', 'e']
}

/// An identifier: `[_a-zA-Z][_a-zA-Z0-9]*`, not a reserved word.
pub open spec fn valid_ident(s: Seq<char>) -> bool {
    &&& s.len() > 0
    &&& ident_start(s[0])
    &&& forall|i: int| 1 <= i < s.len() ==> ident_char(#[trigger] s[i])
    &&& !reserved(s)
}

/// An entity type name: identifiers joined by `::`, with no whitespace.
pub open spec fn valid_entity_type(s: Seq<char>) -> bool
    decreases s.len(),
{
    valid_ident(s) || exists|k: int|
        0 < k && k + 2 < s.len() && s[k] == ':' && s[k + 1] == ':' && valid_ident(#[trigger] s.take(k))
            && valid_entity_type(s.skip(k + 2))
}

/// Relies on `cedar_policy::EntityTypeName::from_str`, which parses the text
/// as a name and accepts it only in normal form: identifier segments joined
/// by `::`, no whitespace or comments, no reserved word.
#[verifier::external_body]
fn check_entity_type(s: &str) -> (r: bool)
    ensures
        r == valid_entity_type(s@),
{
    <cedar_policy::EntityTypeName as std::str::FromStr>::from_str(s).is_ok()
}

/// Why an entity identifier could not be built.
#[derive(Debug, Clone, Copy, PartialEq, Eq, Structural)]
pub enum UidError {
    InvalidTypeName,
}

/// An entity identifier: a type name and an opaque id. Two identifiers are
/// equal when both parts are.
#[derive(Debug, Clone)]
pub struct EntityUid {
    entity_type: String,
    id: String,
}

impl View for EntityUid {
    type V = UidV;

    closed spec fn view(&self) -> UidV {
        UidV { ty: self.entity_type@, id: self.id@ }
    }
}

impl EntityUid {
    /// Builds an identifier, rejecting a malformed type name. Any id is accepted.
    pub fn new(entity_type: &str, name: &str) -> (r: Result<EntityUid, UidError>)
        ensures
            r is Ok <==> valid_entity_type(entity_type@),
            r matches Ok(u) ==> u@ == (UidV { ty: entity_type@, id: name@ }),
            r matches Err(e) ==> e == UidError::InvalidTypeName,
    {
        let ok = check_entity_type(entity_type);
        EntityUid::from_checked(ok, entity_type, name)
    }

    /// Builds an identifier from a type name whose validity `type_ok` states.
    pub fn from_checked(type_ok: bool, entity_type: &str, name: &str) -> (r: Result<EntityUid, UidError>)
        ensures
            r is Ok <==> type_ok,
            r matches Ok(u) ==> u@ == (UidV { ty: entity_type@, id: name@ }),
            r matches Err(e) ==> e == UidError::InvalidTypeName,
    {
        if type_ok {
            Ok(EntityUid { entity_type: entity_type.to_owned(), id: name.to_owned() })
        } else {
            Err(UidError::InvalidTypeName)
        }
    }

    pub fn entity_type(&self) -> (r: &str)
        ensures
            r@ == self@.ty,
    {
        self.entity_type.as_str()
    }

    pub fn id(&self) -> (r: &str)
        ensures
            r@ == self@.id,
    {
        self.id.as_str()
    }

    /// Whether two identifiers are the same.
    pub fn same(&self, other: &EntityUid) -> (r: bool)
        ensures
            r == (self@ == other@),
    {
        self.entity_type == other.entity_type && self.id == other.id
    }

    /// A copy of this identifier.
    pub fn copy(&self) -> (r: EntityUid)
        ensures
            r@ == self@,
    {
        EntityUid { entity_type: self.entity_type.clone(), id: self.id.clone() }
    }
}

} // verus!
