//! Gateway configuration: what the process reads from its environment at
//! start. Reading the environment is the caller's business; the library
//! only holds the values.

use vstd::prelude::*;

verus! {

/// Settings of the gateway: the token secret and lifetime, and the
/// addresses of the four back-end services it forwards to.
#[derive(Debug)]
pub struct Config {
    pub jwt_secret: String,
    pub jwt_expires_in: String,
    pub jwt_maxage: i32,
    pub user_grpc_uri: String,
    pub account_grpc_uri: String,
    pub deposit_grpc_uri: String,
    pub withdrawal_grpc_uri: String,
}

impl Clone for Config {
    fn clone(&self) -> (r: Self)
        ensures
            r == *self,
    {
        Config {
            jwt_secret: self.jwt_secret.clone(),
            jwt_expires_in: self.jwt_expires_in.clone(),
            jwt_maxage: self.jwt_maxage,
            user_grpc_uri: self.user_grpc_uri.clone(),
            account_grpc_uri: self.account_grpc_uri.clone(),
            deposit_grpc_uri: self.deposit_grpc_uri.clone(),
            withdrawal_grpc_uri: self.withdrawal_grpc_uri.clone(),
        }
    }
}

} // verus!
