//! The per-request session access gateway.
//!
//! Before any handler logic runs, the gateway resolves the request's
//! incoming cookie to a live session record, or provisions a fresh one
//! and issues the cookie that names it.  Exactly one record is resolved
//! or created per request: the resolution is memoized in a per-request
//! scope, so repeated accessor calls within one request observe the same
//! session.

use vstd::prelude::*;

use crate::record::SessionData;
use crate::record::fresh_record;
use crate::record::touched;
use crate::table::SessionTable;
use crate::token::dec_rep;
use crate::token::new_token;
use crate::token::token_text;

verus! {

/// The bytes of the session cookie's name, "SESSIONID".
pub open spec fn spec_cookie_name() -> Seq<u8> {
    seq![83u8, 69u8, 83u8, 83u8, 73u8, 79u8, 78u8, 73u8, 68u8]
}

/// The session cookie's name as bytes.
pub fn cookie_name() -> (r: Vec<u8>)
    ensures
        r@ == spec_cookie_name(),
{
    let mut v: Vec<u8> = Vec::new();
    v.push(83);
    v.push(69);
    v.push(83);
    v.push(83);
    v.push(73);
    v.push(79);
    v.push(78);
    v.push(73);
    v.push(68);
    proof {
        assert(v@ =~= spec_cookie_name());
    }
    v
}

/// The same-site policy a cookie carries.
#[derive(Clone, Copy, Debug, PartialEq, Eq, Structural)]
pub enum SameSitePolicy {
    Strict,
    Lax,
}

/// A response cookie, as plain values; the transport layer turns it into
/// the framework's cookie and sends it over the tamper-protected channel.
pub struct CookieSpec {
    pub name: Vec<u8>,
    pub value: Vec<u8>,
    pub http_only: bool,
    pub secure: bool,
    pub same_site: SameSitePolicy,
}

/// What the session cookie for `token` must look like: named "SESSIONID",
/// valued with the token's text, HTTP-only, secure, same-site restricted.
pub open spec fn is_session_cookie(c: CookieSpec, token: u128) -> bool {
    &&& c.name@ == spec_cookie_name()
    &&& c.value@ == dec_rep(token as nat)
    &&& c.http_only
    &&& c.secure
    &&& c.same_site == SameSitePolicy::Lax
}

/// Builds the protected session cookie carrying `token`.
pub fn build_session_cookie(token: u128) -> (c: CookieSpec)
    ensures
        is_session_cookie(c, token),
{
    CookieSpec {
        name: cookie_name(),
        value: token_text(token),
        http_only: true,
        secure: true,
        same_site: SameSitePolicy::Lax,
    }
}

/// The per-request memo of which session this request is bound to.  One
/// scope lives exactly as long as one request's processing.
pub struct RequestScope {
    resolved: Option<u128>,
}

impl RequestScope {
    /// Which token this request has already been bound to, if any.
    pub closed spec fn resolved_token(self) -> Option<u128> {
        self.resolved
    }

    /// A scope for a request that has not resolved its session yet.
    pub fn new() -> (r: RequestScope)
        ensures
            r.resolved_token() is None,
    {
        RequestScope { resolved: None }
    }
}

/// The gateway's answer for one request.
pub enum Resolution {
    /// The request is bound to a session that already existed (or was
    /// already resolved earlier in this same request); no cookie is set.
    Existing { token: u128 },
    /// A fresh session was provisioned; the one cookie carrying its
    /// token must go out on the response.
    Created { token: u128, cookie: CookieSpec },
}

/// Requests bearing the same live token observe the same record: the
/// table maps each token to exactly one record, so whatever two
/// resolutions — concurrent or not — read under that token against the
/// same table state is one and the same record.  (That the shell hands
/// both requests one shared instance, not equal copies, is the shared
/// ownership the shell's locking provides around this model.)
pub proof fn lemma_same_token_same_record(
    m: Map<u128, crate::record::RecordModel>,
    token: u128,
    r1: crate::record::RecordModel,
    r2: crate::record::RecordModel,
)
    requires
        m.dom().contains(token),
        r1 == m[token],
        r2 == m[token],
    ensures
        r1 == r2,
{
}

/// Resolves one request to its session, given a fresh candidate token
/// for the case where one must be provisioned.  The candidate must be
/// unused — neither live in the table nor the very token the request
/// presented — which is what the generator's practical uniqueness
/// supplies: tokens are never reused, and a dead presented token is
/// never re-issued.
///
/// For every token presented that is not live in the table — and for
/// every request without a cookie — exactly one new record is created
/// and exactly one cookie is issued; a live presented token resolves to
/// its existing record, which is touched; and a request that has already
/// resolved its session is answered from the memo, changing nothing.
pub fn resolve_session(
    table: &mut SessionTable,
    scope: &mut RequestScope,
    presented: Option<u128>,
    fresh: u128,
    now: u64,
) -> (r: Resolution)
    requires
        old(table).wf(),
        !old(table)@.dom().contains(fresh),
        presented matches Some(p) ==> p != fresh,
    ensures
        final(table).wf(),
        final(scope).resolved_token() is Some,
        old(scope).resolved_token() matches Some(t) ==> (r == (Resolution::Existing { token: t })
            && final(table)@ == old(table)@ && *final(scope) == *old(scope)),
        (old(scope).resolved_token() is None && presented is Some
            && old(table)@.dom().contains(presented->0)) ==> (r == (Resolution::Existing {
            token: presented->0,
        }) && final(table)@ == old(table)@.insert(
            presented->0,
            touched(old(table)@[presented->0], now),
        ) && final(scope).resolved_token() == Some(presented->0)),
        (old(scope).resolved_token() is None && (presented is None || (presented is Some
            && !old(table)@.dom().contains(presented->0)))) ==> ((r matches Resolution::Created {
            token,
            cookie,
        } && token == fresh && is_session_cookie(cookie, fresh)) && final(table)@ == old(
            table,
        )@.insert(fresh, fresh_record(now)) && final(scope).resolved_token() == Some(fresh)),
{
    if let Some(t) = scope.resolved {
        return Resolution::Existing { token: t };
    }
    if let Some(p) = presented {
        if table.touch(p, now) {
            scope.resolved = Some(p);
            return Resolution::Existing { token: p };
        }
    }
    let rec = SessionData::new(now);
    table.insert(fresh, rec);
    let cookie = build_session_cookie(fresh);
    scope.resolved = Some(fresh);
    Resolution::Created { token: fresh, cookie }
}

/// Resolves one request to its session, drawing fresh tokens from the
/// random source when one must be provisioned.
///
/// A resolution is owed — and returned without consulting the random
/// source — whenever this request already resolved its session, and
/// whenever the presented token is live in the table.  Only the
/// provisioning path depends on the draw: it is retried a few times
/// against the (practically impossible) collision, and if every draw
/// collides, nothing is changed and no resolution is returned.
/// Whatever the random source produced, the returned resolution
/// satisfies the gateway contract, and a provisioned session never goes
/// out under the dead token the request presented.
pub fn resolve_request(
    table: &mut SessionTable,
    scope: &mut RequestScope,
    presented: Option<u128>,
    now: u64,
) -> (r: Option<Resolution>)
    requires
        old(table).wf(),
    ensures
        final(table).wf(),
        old(scope).resolved_token() is Some ==> r is Some,
        (old(scope).resolved_token() is None && presented is Some && old(table)@.dom().contains(
            presented->0,
        )) ==> r is Some,
        r is None ==> final(table)@ == old(table)@ && *final(scope) == *old(scope),
        r matches Some(res) ==> {
            &&& final(scope).resolved_token() is Some
            &&& old(scope).resolved_token() matches Some(t) ==> (res == (Resolution::Existing {
                token: t,
            }) && final(table)@ == old(table)@ && *final(scope) == *old(scope))
            &&& (old(scope).resolved_token() is None && presented is Some
                && old(table)@.dom().contains(presented->0)) ==> (res == (Resolution::Existing {
                token: presented->0,
            }) && final(table)@ == old(table)@.insert(
                presented->0,
                touched(old(table)@[presented->0], now),
            ) && final(scope).resolved_token() == Some(presented->0))
            &&& (old(scope).resolved_token() is None && (presented is None || (presented is Some
                && !old(table)@.dom().contains(presented->0)))) ==> ((
            res matches Resolution::Created { token, cookie } && !old(table)@.dom().contains(token)
                && presented != Some(token) && is_session_cookie(cookie, token)) && (
            res matches Resolution::Created {
                token,
                cookie,
            } ==> final(table)@ == old(table)@.insert(token, fresh_record(now))
                && final(scope).resolved_token() == Some(token)))
        },
{
    if let Some(t) = scope.resolved {
        return Some(Resolution::Existing { token: t });
    }
    if let Some(p) = presented {
        if table.touch(p, now) {
            scope.resolved = Some(p);
            return Some(Resolution::Existing { token: p });
        }
    }
    let mut attempts: usize = 8;
    while attempts > 0
        invariant
            table.wf(),
            table@ == old(table)@,
            scope == old(scope),
            scope.resolved_token() is None,
            presented matches Some(p) ==> !table@.dom().contains(p),
        decreases attempts,
    {
        let fresh = new_token();
        let echoes_presented = match presented {
            Some(p) => p == fresh,
            None => false,
        };
        if !echoes_presented && !table.contains_token(fresh) {
            let res = resolve_session(table, scope, presented, fresh, now);
            return Some(res);
        }
        attempts = attempts - 1;
    }
    None
}

} // verus!
