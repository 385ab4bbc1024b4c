//! The pure parts of the REST client: URL and query-string building, the
//! endpoint table, and the data models of the exchange. The transport
//! itself (HTTP, serialization, retries) lives outside the library.

pub mod endpoints;
pub mod models;

use vstd::prelude::*;
use vstd::string::StringExecFns;
use crate::rest::endpoints::RestApiEndpoint;

verus! {

/// Which flavor of the checkout widget to generate.
#[derive(Debug, Clone, Copy, PartialEq, Eq, Structural)]
pub enum CheckoutWidgetType {
    Regular,
    Wrapped,
    Wallet,
}

/// The view of a list of query parameters.
pub open spec fn query_pairs_view(ps: Seq<(&str, &str)>) -> Seq<(Seq<char>, Seq<char>)> {
    Seq::new(ps.len(), |i: int| (ps[i].0@, ps[i].1@))
}

/// The query string of a parameter list: `k=v` pairs joined by `&`.
pub open spec fn spec_query_string(ps: Seq<(Seq<char>, Seq<char>)>) -> Seq<char>
    decreases ps.len(),
{
    if ps.len() == 0 {
        Seq::<char>::empty()
    } else if ps.len() == 1 {
        ps[0].0 + "="@ + ps[0].1
    } else {
        spec_query_string(ps.drop_last()) + "&"@ + ps.last().0 + "="@ + ps.last().1
    }
}

/// Joins query parameters into `k1=v1&k2=v2` form, with no trailing
/// separator.
pub fn build_query_string(params: Vec<(&str, &str)>) -> (r: String)
    ensures
        r@ == spec_query_string(query_pairs_view(params@)),
{
    let ghost ps = query_pairs_view(params@);
    let mut s = String::new();
    let mut i: usize = 0;
    proof {
        assert(ps.take(0) =~= Seq::<(Seq<char>, Seq<char>)>::empty());
    }
    while i < params.len()
        invariant
            ps == query_pairs_view(params@),
            params@.len() == ps.len(),
            i <= ps.len(),
            s@ == spec_query_string(ps.take(i as int)),
        decreases ps.len() - i,
    {
        if i > 0 {
            s.append("&");
        }
        let kv = params[i];
        s.append(kv.0);
        s.append("=");
        s.append(kv.1);
        proof {
            let t = ps.take(i as int + 1);
            assert(t.drop_last() =~= ps.take(i as int));
            assert(t.last() == ps[i as int]);
        }
        i = i + 1;
    }
    proof {
        assert(ps.take(ps.len() as int) =~= ps);
    }
    s
}

/// The full URL of an endpoint: base, path, and an optional query string
/// after `?`.
pub open spec fn spec_full_url(
    base_url: Seq<char>,
    endpoint: RestApiEndpoint,
    query_string: Option<Seq<char>>,
) -> Seq<char> {
    match query_string {
        Some(q) => base_url + endpoint.spec_path() + "?"@ + q,
        None => base_url + endpoint.spec_path(),
    }
}

/// Builds the full request URL for an endpoint.
pub fn build_full_url(base_url: &str, endpoint: &RestApiEndpoint, query_string: Option<String>) -> (r:
    String)
    ensures
        r@ == spec_full_url(
            base_url@,
            *endpoint,
            match query_string {
                Some(q) => Some(q@),
                None => None,
            },
        ),
{
    let mut s = String::from_str(base_url);
    s.append(endpoint.path());
    match &query_string {
        Some(q) => {
            s.append("?");
            s.append(q.as_str());
        },
        None => {},
    }
    s
}

} // verus!
