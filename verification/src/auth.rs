//! The decisions of the identity-provider login flow, as functions of
//! the session state.
//!
//! The protocol exchange itself is an external collaborator: the shell
//! redirects the visitor, performs the code-for-secret exchange, and
//! hands the outcomes back.  What the flow decides — which transient
//! values are parked in the session, whether a callback's anti-forgery
//! value matches the stored one, what each failure means — lives here,
//! against the session table's model.

use vstd::prelude::*;

use crate::errors::SessionErr;
use crate::errors::SessionErrKind;
use crate::record::ATTR_ACCESS_SECRET;
use crate::record::ATTR_CSRF_SECRET;
use crate::record::ATTR_PKCE_VERIFIER;
use crate::record::ATTR_RETURN_TO;
use crate::record::RecordModel;
use crate::table::SessionTable;

verus! {

/// The attribute map after login initiation parked its transient values:
/// the proof-key verifier, the anti-forgery secret, and the optional
/// return address.
pub open spec fn login_attrs(
    m: Map<u64, Seq<char>>,
    pkce: Seq<char>,
    csrf: Seq<char>,
    ret: Option<Seq<char>>,
) -> Map<u64, Seq<char>> {
    let base = m.insert(ATTR_PKCE_VERIFIER, pkce).insert(ATTR_CSRF_SECRET, csrf);
    if ret is Some {
        base.insert(ATTR_RETURN_TO, ret->0)
    } else {
        base
    }
}

/// Parks the login-initiation values in the request's session: the
/// proof-key verifier and anti-forgery secret the callback will need,
/// and the address to return to if the caller gave a well-formed one.
pub fn begin_login(
    table: &mut SessionTable,
    token: u128,
    pkce_verifier: String,
    csrf_secret: String,
    return_to: Option<String>,
) -> (r: Result<(), SessionErr>)
    requires
        old(table).wf(),
    ensures
        final(table).wf(),
        r is Ok <==> old(table)@.dom().contains(token),
        r is Ok ==> final(table)@ == old(table)@.insert(
            token,
            RecordModel {
                attrs: login_attrs(
                    old(table)@[token].attrs,
                    pkce_verifier@,
                    csrf_secret@,
                    match return_to {
                        Some(u) => Some(u@),
                        None => None,
                    },
                ),
                last_access: old(table)@[token].last_access,
            },
        ),
        r matches Err(e) ==> e.kind == SessionErrKind::StoreUnavailable && final(table)@ == old(
            table,
        )@,
{
    match table.insert_session_data(token, ATTR_PKCE_VERIFIER, pkce_verifier) {
        Ok(()) => {},
        Err(e) => {
            return Err(e);
        },
    }
    let r2 = table.insert_session_data(token, ATTR_CSRF_SECRET, csrf_secret);
    proof {
        assert(r2 is Ok);
    }
    if let Some(u) = return_to {
        let r3 = table.insert_session_data(token, ATTR_RETURN_TO, u);
        proof {
            assert(r3 is Ok);
        }
    }
    proof {
        assert(final(table)@ =~= old(table)@.insert(
            token,
            RecordModel {
                attrs: login_attrs(
                    old(table)@[token].attrs,
                    pkce_verifier@,
                    csrf_secret@,
                    match return_to {
                        Some(u) => Some(u@),
                        None => None,
                    },
                ),
                last_access: old(table)@[token].last_access,
            },
        ));
    }
    Ok(())
}

/// Judges a login callback's anti-forgery value against the one stored
/// in the session.  The callback may proceed to the code exchange only
/// when the two are equal; a differing value is the token-mismatch
/// rejection, which also spoils the stored secret; a missing stored
/// secret is the attribute-missing failure.
pub fn verify_callback(table: &mut SessionTable, token: u128, presented_state: &String) -> (r:
    Result<(), SessionErr>)
    requires
        old(table).wf(),
    ensures
        final(table).wf(),
        r is Ok <==> (old(table)@.dom().contains(token)
            && old(table)@[token].attrs.dom().contains(ATTR_CSRF_SECRET)
            && old(table)@[token].attrs[ATTR_CSRF_SECRET] == presented_state@),
        r is Ok ==> final(table)@ == old(table)@,
        r matches Err(e) ==> {
            &&& (e.kind == SessionErrKind::StoreUnavailable <==> !old(table)@.dom().contains(
                token,
            ))
            &&& (e.kind == SessionErrKind::AttributeMissing <==> old(table)@.dom().contains(token)
                && !old(table)@[token].attrs.dom().contains(ATTR_CSRF_SECRET))
            &&& (e.kind == SessionErrKind::TokenMismatch <==> old(table)@.dom().contains(token)
                && old(table)@[token].attrs.dom().contains(ATTR_CSRF_SECRET) && old(
                table,
            )@[token].attrs[ATTR_CSRF_SECRET] != presented_state@)
            &&& e.kind == SessionErrKind::TokenMismatch ==> final(table)@ == old(table)@.insert(
                token,
                RecordModel {
                    attrs: old(table)@[token].attrs.insert(ATTR_CSRF_SECRET, "invalid"@),
                    last_access: old(table)@[token].last_access,
                },
            )
            &&& e.kind != SessionErrKind::TokenMismatch ==> final(table)@ == old(table)@
        },
{
    let csrf_ok: bool;
    match table.get_session_data(token, ATTR_CSRF_SECRET) {
        Err(e) => {
            return Err(e);
        },
        Ok(None) => {
            return Err(SessionErr { kind: SessionErrKind::AttributeMissing });
        },
        Ok(Some(stored)) => {
            csrf_ok = stored.eq(presented_state);
        },
    }
    if csrf_ok {
        Ok(())
    } else {
        let spoiled = table.insert_session_data(token, ATTR_CSRF_SECRET, "invalid".to_owned());
        proof {
            assert(spoiled is Ok);
        }
        Err(SessionErr { kind: SessionErrKind::TokenMismatch })
    }
}

/// Where the visitor is sent after a completed login: the return
/// address parked at login initiation if one was given, else the site
/// root.
pub fn redirect_target(table: &SessionTable, token: u128) -> (r: String)
    requires
        table.wf(),
    ensures
        (table@.dom().contains(token) && table@[token].attrs.dom().contains(ATTR_RETURN_TO)) ==> r@
            == table@[token].attrs[ATTR_RETURN_TO],
        !(table@.dom().contains(token) && table@[token].attrs.dom().contains(ATTR_RETURN_TO)) ==> r@
            == "/"@,
{
    match table.get_session_data(token, ATTR_RETURN_TO) {
        Ok(Some(addr)) => addr.clone(),
        Ok(None) => "/".to_owned(),
        Err(_) => "/".to_owned(),
    }
}

/// Records the outcome of the code-for-secret exchange.  A secret from
/// the provider is stored in the session; a failed exchange is the
/// upstream failure, which leaves the session as it was.
pub fn complete_login(table: &mut SessionTable, token: u128, exchange: Option<String>) -> (r:
    Result<(), SessionErr>)
    requires
        old(table).wf(),
    ensures
        final(table).wf(),
        r is Ok <==> (exchange is Some && old(table)@.dom().contains(token)),
        r is Ok ==> final(table)@ == old(table)@.insert(
            token,
            RecordModel {
                attrs: old(table)@[token].attrs.insert(ATTR_ACCESS_SECRET, (exchange->0)@),
                last_access: old(table)@[token].last_access,
            },
        ),
        r matches Err(e) ==> {
            &&& final(table)@ == old(table)@
            &&& (e.kind == SessionErrKind::UpstreamFailure <==> exchange is None)
            &&& (e.kind == SessionErrKind::StoreUnavailable <==> exchange is Some && !old(
                table,
            )@.dom().contains(token))
        },
{
    match exchange {
        None => Err(SessionErr { kind: SessionErrKind::UpstreamFailure }),
        Some(secret) => {
            match table.insert_session_data(token, ATTR_ACCESS_SECRET, secret) {
                Ok(()) => Ok(()),
                Err(e) => Err(e),
            }
        },
    }
}

} // verus!
