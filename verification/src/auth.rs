//! The authorization gate that fronts the money-movement and history
//! endpoints: bearer-token extraction, token verification, and the
//! authenticated-identity decision; plus the login decision that issues
//! claims.

use vstd::prelude::*;
use vstd::slice::slice_to_vec;
use vstd::string::StringSliceAdditionalSpecFns;

use crate::errors::ErrorCode;
use crate::model::User;
use crate::wrappers::{decode_token, uuid_accepted, uuid_valid};

verus! {

/// Claims carried in a bearer token; ephemeral, never persisted.
#[derive(Debug, PartialEq, Eq)]
pub struct TokenClaims {
    /// Stable uuid of the authenticated user.
    pub sub: String,
    /// Issue instant, Unix seconds.
    pub iat: u64,
    /// Expiry instant, Unix seconds.
    pub exp: u64,
}

impl Clone for TokenClaims {
    fn clone(&self) -> (r: Self)
        ensures
            r == *self,
    {
        TokenClaims { sub: self.sub.clone(), iat: self.iat, exp: self.exp }
    }
}

/// Whether the header opens with the bearer mark `Bearer `.
pub open spec fn bearer_prefix(h: Seq<u8>) -> bool {
    &&& h.len() >= 7
    &&& h[0] == 66
    &&& h[1] == 101
    &&& h[2] == 97
    &&& h[3] == 114
    &&& h[4] == 101
    &&& h[5] == 114
    &&& h[6] == 32
}

pub open spec fn opt_bytes(o: Option<&str>) -> Option<Seq<u8>> {
    match o {
        Some(s) => Some(s.spec_bytes()),
        None => None,
    }
}

/// The token a request carries: the `token` cookie when present (the
/// cookie wins over the header), else the rest of an `Authorization`
/// header opening with the bearer mark, else none.
pub open spec fn spec_extract_token(cookie: Option<Seq<u8>>, header: Option<Seq<u8>>) -> Option<
    Seq<u8>,
> {
    match cookie {
        Some(c) => Some(c),
        None => match header {
            Some(h) => if bearer_prefix(h) {
                Some(h.skip(7))
            } else {
                None
            },
            None => None,
        },
    }
}

/// Picks the bearer token out of the request's `token` cookie and
/// `Authorization` header; the cookie wins when both are present.
pub fn extract_token(cookie: Option<&str>, header: Option<&str>) -> (r: Option<Vec<u8>>)
    ensures
        r matches Some(v) ==> spec_extract_token(opt_bytes(cookie), opt_bytes(header)) == Some(
            v@,
        ),
        r is None ==> spec_extract_token(opt_bytes(cookie), opt_bytes(header)) is None,
{
    match cookie {
        Some(c) => Some(slice_to_vec(c.as_bytes())),
        None => match header {
            Some(h) => {
                let b = h.as_bytes();
                if b.len() >= 7 && b[0] == 66 && b[1] == 101 && b[2] == 97 && b[3] == 114 && b[4]
                    == 101 && b[5] == 114 && b[6] == 32 {
                    let rest = &b[7..b.len()];
                    proof {
                        assert(rest@ =~= h.spec_bytes().skip(7));
                    }
                    Some(slice_to_vec(rest))
                } else {
                    None
                }
            },
            None => None,
        },
    }
}

/// Turns the claims of a validated token, or their absence, into the
/// gate's authentication result.
pub fn claims_decision(claims: Option<TokenClaims>) -> (r: Result<String, ErrorCode>)
    ensures
        claims matches Some(c) ==> r == (if uuid_accepted(c.sub@) {
            Ok::<String, ErrorCode>(c.sub)
        } else {
            Err::<String, ErrorCode>(ErrorCode::Unauthenticated)
        }),
        claims is None ==> r == Err::<String, ErrorCode>(ErrorCode::Unauthenticated),
{
    match claims {
        Some(c) => {
            if uuid_valid(c.sub.as_str()) {
                Ok(c.sub)
            } else {
                Err(ErrorCode::Unauthenticated)
            }
        },
        None => Err(ErrorCode::Unauthenticated),
    }
}

/// The authorization gate: token extraction, verification, then
/// `claims_decision`. A request without a token is rejected whatever the
/// clock or the secret say; what verification hands back is judged by
/// `claims_decision`, whose contract pins the acceptance and the identity
/// for every outcome; and every rejection is `Unauthenticated`.
pub fn authorize(cookie: Option<&str>, header: Option<&str>, secret: &[u8]) -> (r: Result<
    String,
    ErrorCode,
>)
    ensures
        spec_extract_token(opt_bytes(cookie), opt_bytes(header)) is None ==> r == Err::<
            String,
            ErrorCode,
        >(ErrorCode::Unauthenticated),
        r matches Ok(sub) ==> spec_extract_token(opt_bytes(cookie), opt_bytes(header)) is Some
            && uuid_accepted(sub@),
        r matches Err(e) ==> e == ErrorCode::Unauthenticated,
{
    let token = match extract_token(cookie, header) {
        Some(t) => t,
        None => {
            return Err(ErrorCode::Unauthenticated);
        },
    };
    let claims = decode_token(token.as_slice(), secret);
    claims_decision(claims)
}

/// The login decision: matching credentials yield claims for the user's
/// stable uuid, valid for an hour from `now`; anything else yields
/// nothing. `now` is in Unix seconds.
pub fn login_decision(user: &User, password: &String, now: u64) -> (r: Option<TokenClaims>)
    requires
        now + 3600 <= u64::MAX,
    ensures
        r is Some <==> user.password@ == password@,
        r matches Some(c) ==> c.sub@ == user.uuid@ && c.iat == now && c.exp == now + 3600,
{
    if user.password == *password {
        Some(TokenClaims { sub: user.uuid.clone(), iat: now, exp: now + 3600 })
    } else {
        None
    }
}

} // verus!
