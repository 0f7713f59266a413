//! The cross-origin access policy: which calling origins, methods and
//! headers are permitted, and the preflight cache lifetime.
//!
//! The surrounding process wires these values into its CORS layer, which
//! rejects a request from a non-allow-listed origin before it reaches a
//! handler.

use vstd::prelude::*;

use crate::text::{chars_eq_str, str_to_chars};

verus! {

/// The first allow-listed origin.
pub open spec fn allowed_origin_frontend() -> Seq<char> {
    "https://paraphrasing-frontend.vercel.app"@
}

/// The second allow-listed origin.
pub open spec fn allowed_origin_local() -> Seq<char> {
    "http://localhost:3000"@
}

/// True exactly for the two allow-listed origins; every other origin is to
/// be rejected before its request reaches a handler.
pub fn origin_allowed(origin: &Vec<char>) -> (r: bool)
    ensures
        r <==> (origin@ == allowed_origin_frontend() || origin@ == allowed_origin_local()),
{
    chars_eq_str(origin, "https://paraphrasing-frontend.vercel.app") || chars_eq_str(
        origin,
        "http://localhost:3000",
    )
}

/// The allow-listed origins, in the order they are declared.
pub fn allowed_origins() -> (r: Vec<Vec<char>>)
    ensures
        r@.len() == 2,
        r@[0]@ == allowed_origin_frontend(),
        r@[1]@ == allowed_origin_local(),
{
    let mut r: Vec<Vec<char>> = Vec::new();
    r.push(str_to_chars("https://paraphrasing-frontend.vercel.app"));
    r.push(str_to_chars("http://localhost:3000"));
    r
}

/// The permitted methods.
pub fn allowed_methods() -> (r: Vec<Vec<char>>)
    ensures
        r@.len() == 3,
        r@[0]@ == "GET"@,
        r@[1]@ == "POST"@,
        r@[2]@ == "OPTIONS"@,
{
    let mut r: Vec<Vec<char>> = Vec::new();
    r.push(str_to_chars("GET"));
    r.push(str_to_chars("POST"));
    r.push(str_to_chars("OPTIONS"));
    r
}

/// The permitted request headers.
pub fn allowed_headers() -> (r: Vec<Vec<char>>)
    ensures
        r@.len() == 3,
        r@[0]@ == "Authorization"@,
        r@[1]@ == "Accept"@,
        r@[2]@ == "Content-Type"@,
{
    let mut r: Vec<Vec<char>> = Vec::new();
    r.push(str_to_chars("Authorization"));
    r.push(str_to_chars("Accept"));
    r.push(str_to_chars("Content-Type"));
    r
}

/// The preflight cache lifetime, in seconds.
pub fn preflight_max_age() -> (r: u32)
    ensures
        r == 3600,
{
    3600
}

/// Whether the policy allows credentialed requests.
pub fn supports_credentials() -> (r: bool)
    ensures
        r,
{
    true
}

} // verus!
