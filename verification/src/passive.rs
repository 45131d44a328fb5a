//! Passive gathering: the computed parts of the enrichment path.
//!
//! DNS resolution itself is a black-box capability of the program around
//! the library; the library only builds the query text that the
//! search-engine dorking path fetches.

use vstd::prelude::*;

verus! {

/// The search-engine query URL that dorks for sibling subdomains of a
/// host.
pub fn dork_query(host: &str) -> (r: String)
    ensures
        r@ == "https://duckduckgo.com/?q=site%3A*+"@ + host@,
{
    String::from_str("https://duckduckgo.com/?q=site%3A*+").concat(host)
}

} // verus!
