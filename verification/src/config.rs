//! Configuration carried by the identity-provider client, as plain
//! values.  Loading them from files or the environment is the shell's
//! concern.

use vstd::prelude::*;

verus! {

/// The identity-provider section of the configuration.
pub struct OauthConfig {
    pub discord: OauthClientConfig,
}

/// One identity-provider client's endpoints and credentials.
pub struct OauthClientConfig {
    pub client_id: String,
    pub client_secret: String,
    pub auth_url: String,
    pub token_url: String,
    pub redirect_url: String,
    pub revocation_url: String,
    pub token_secret: String,
}

} // verus!
