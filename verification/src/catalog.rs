//! The catalog client's fixed request values. The single HTTP POST itself is
//! transport and lives outside the library; the query it carries and the
//! endpoint it goes to are fixed and are defined here.

use vstd::prelude::*;

verus! {

/// The fixed request body: one query asking for every device's id and name.
pub open spec fn catalog_query() -> Seq<char> {
    "{\"query\":\"query { devices { id name } }\"}"@
}

/// The fixed endpoint the catalog is fetched from.
pub open spec fn catalog_endpoint() -> Seq<char> {
    "https://graphql.api.keil.arm.com/"@
}

/// The request body for the one catalog query.
pub fn catalog_query_body() -> (r: String)
    ensures
        r@ == catalog_query(),
{
    String::from_str("{\"query\":\"query { devices { id name } }\"}")
}

/// The URL the catalog query is posted to.
pub fn catalog_endpoint_url() -> (r: String)
    ensures
        r@ == catalog_endpoint(),
{
    String::from_str("https://graphql.api.keil.arm.com/")
}

} // verus!
