//! The typed accessor contract handlers use against the current
//! request's session.
//!
//! A reader resolves one typed value out of the session record and
//! treats its absence as a request-level failure, distinct from the
//! store being unreachable; a writer stores one typed value.  Values
//! handed to handlers are shared read-only references.

use vstd::prelude::*;

use std::sync::Arc;

use crate::errors::SessionErr;
use crate::errors::SessionErrKind;
use crate::table::SessionTable;

verus! {

/// A shared, read-only handle on one typed session value, as a handler
/// receives it.
pub struct Session<T> {
    ref_val: Arc<T>,
}

impl<T> Session<T> {
    /// The value this handle shares.
    pub closed spec fn value(self) -> T {
        *self.ref_val
    }

    /// Wraps a shared value for a handler.
    pub fn new(ref_val: Arc<T>) -> (r: Session<T>)
        ensures
            r.value() == *ref_val,
    {
        Session { ref_val }
    }

    /// Read-only access to the shared value.
    pub fn get(&self) -> (r: &T)
        ensures
            *r == self.value(),
    {
        &*self.ref_val
    }
}

/// Reads the one value of the given attribute kind out of the session
/// under `token`, treating absence as the attribute-missing failure and
/// an unknown token as the store-unavailable one.
pub fn read_required_attr<'a>(table: &'a SessionTable, token: u128, tag: u64) -> (r: Result<
    &'a String,
    SessionErr,
>)
    requires
        table.wf(),
    ensures
        r is Ok <==> (table@.dom().contains(token) && table@[token].attrs.dom().contains(tag)),
        r matches Ok(v) ==> v@ == table@[token].attrs[tag],
        r matches Err(e) ==> {
            &&& (e.kind == SessionErrKind::StoreUnavailable <==> !table@.dom().contains(token))
            &&& (e.kind == SessionErrKind::AttributeMissing <==> table@.dom().contains(token)
                && !table@[token].attrs.dom().contains(tag))
        },
{
    match table.get_session_data(token, tag) {
        Ok(Some(v)) => Ok(v),
        Ok(None) => Err(SessionErr { kind: SessionErrKind::AttributeMissing }),
        Err(e) => Err(e),
    }
}

} // verus!
