//! The verified surface of the historical-query client: building the
//! instant-query URL against the external time-series API. Issuing the
//! request and decoding the response body belong to the surrounding
//! runtime.

use vstd::prelude::*;

verus! {

/// What `urlencoding::encode` returns for a given input. The
/// percent-encoding of every byte would take pages to state, so the result
/// is only named; it is a function of the input characters alone.
pub uninterp spec fn url_encoded(s: Seq<char>) -> Seq<char>;

/// Relies on urlencoding::encode: percent-encodes every byte except ASCII
/// alphanumerics and `-`, `_`, `.`, `~`. The result depends on the input
/// alone, and an empty input stays empty.
#[verifier::external_body]
fn url_encode(s: &str) -> (r: String)
    ensures
        r@ == url_encoded(s@),
        s@.len() == 0 ==> r@.len() == 0,
{
    urlencoding::encode(s).into_owned()
}

/// A client of the external time-series query API, identified by the base
/// URL of that system.
#[derive(Debug)]
pub struct PrometheusClient {
    pub url: String,
}

impl Clone for PrometheusClient {
    fn clone(&self) -> (r: Self)
        ensures
            r == *self,
    {
        PrometheusClient { url: self.url.clone() }
    }
}

impl PrometheusClient {
    /// The URL of one instant query: the base URL, the query path, and the
    /// percent-encoded query expression.
    pub fn query_url(&self, query: &str) -> (r: String)
        ensures
            r@ == self.url@ + "/api/v1/query?query="@ + url_encoded(query@),
    {
        let mut r = self.url.clone();
        r.append("/api/v1/query?query=");
        let encoded = url_encode(query);
        r.append(encoded.as_str());
        r
    }
}

} // verus!
