use vstd::prelude::*;
use crate::uid::{EntityUid, UidV};
use crate::value::{Fields, Record};

verus! {

/// The model of a request.
pub struct RequestV {
    pub principal: Option<UidV>,
    pub action: Option<UidV>,
    pub resource: Option<UidV>,
    pub context: Fields,
}

pub open spec fn opt_uid(u: Option<EntityUid>) -> Option<UidV> {
    match u {
        Some(x) => Some(x@),
        None => None,
    }
}

/// The facts of a request that lie outside the entity graph: a record.
pub type Context = Record;

/// An authorization query: who (principal), what (action), on what
/// (resource), and the context. A missing component is left unconstrained.
#[derive(Debug)]
pub struct Request {
    pub principal: Option<EntityUid>,
    pub action: Option<EntityUid>,
    pub resource: Option<EntityUid>,
    pub context: Context,
}

impl View for Request {
    type V = RequestV;

    open spec fn view(&self) -> RequestV {
        RequestV {
            principal: opt_uid(self.principal),
            action: opt_uid(self.action),
            resource: opt_uid(self.resource),
            context: self.context@,
        }
    }
}

impl Request {
    /// Builds a request; a missing context is the empty record.
    pub fn new(
        principal: Option<EntityUid>,
        action: Option<EntityUid>,
        resource: Option<EntityUid>,
        context: Option<Context>,
    ) -> (r: Request)
        ensures
            r@.principal == opt_uid(principal),
            r@.action == opt_uid(action),
            r@.resource == opt_uid(resource),
            r@.context == match context {
                Some(c) => c@,
                None => Seq::empty(),
            },
    {
        let context = match context {
            Some(c) => c,
            None => {
                let e = Record::empty();
                assert(e@ =~= Seq::empty());
                e
            },
        };
        Request { principal, action, resource, context }
    }
}

} // verus!
