use vstd::prelude::*;
use vstd::string::StringExecFns;

use crate::metrics::Strategy;
use crate::naming::{dec_spec, u128_to_string};
use crate::PsiError;

verus! {

/// What the `url` crate produces when it appends the query parameter
/// `name=value` to the URL `u`: a name for the serialization returned by
/// [`add_query_param`]. The result is a function of the three arguments
/// alone.
pub uninterp spec fn url_with_param(u: Seq<char>, name: Seq<char>, value: Seq<char>) -> Seq<char>;

/// Whether the `url` crate accepts `u` as a URL: a name for
/// `url::Url::parse(u)` succeeding, which depends on the string alone.
pub uninterp spec fn url_parses(u: Seq<char>) -> bool;

/// Relies on `url::Url::parse`, `url::Url::query_pairs_mut` together with
/// `form_urlencoded::Serializer::append_pair`, and `String::from(Url)`:
/// parses `url_str`, appends the pair `name=value` to its query, and
/// returns the serialization; `None` exactly when `url_str` does not parse.
#[verifier::external_body]
fn add_query_param(url_str: &str, param_name: &str, param_value: &str) -> (r: Option<String>)
    ensures
        r is Some <==> url_parses(url_str@),
        match r {
            Some(s) => s@ == url_with_param(url_str@, param_name@, param_value@),
            None => true,
        },
{
    match url::Url::parse(url_str) {
        Ok(mut u) => {
            u.query_pairs_mut().append_pair(param_name, param_value);
            Some(u.into())
        },
        Err(_) => None,
    }
}

/// The measurement API request URL for one target URL and strategy.
pub open spec fn api_url(token: Seq<char>, target: Seq<char>, strategy: Strategy) -> Seq<char> {
    "https://www.googleapis.com/pagespeedonline/v5/runPagespeed?key="@ + token + "&url="@ + target
        + "&strategy="@ + strategy.label_spec() + "&category=performance"@
}

/// The request URL of one run: the page URL with the cache-busting query
/// parameter `__v=<cache_token>` attached, wrapped into the API call.
pub open spec fn run_url(
    page: Seq<char>,
    token: Seq<char>,
    strategy: Strategy,
    cache_token: nat,
) -> Seq<char> {
    api_url(token, url_with_param(page, "__v"@, dec_spec(cache_token)), strategy)
}

/// Concatenates the fixed API endpoint with the token, target and strategy
/// query parameters.
fn build_api_url(token: &str, target: &str, strategy: Strategy) -> (r: String)
    ensures
        r@ == api_url(token@, target@, strategy),
{
    let mut s = String::from_str(
        "https://www.googleapis.com/pagespeedonline/v5/runPagespeed?key=",
    );
    s.append(token);
    s.append("&url=");
    s.append(target);
    s.append("&strategy=");
    s.append(strategy.label());
    s.append("&category=performance");
    proof {
        assert(s@ =~= api_url(token@, target@, strategy));
    }
    s
}

/// Builds the request URLs of all runs of one (page, strategy) pair. Each
/// run gets its own monotonically distinct cache-busting token,
/// `cache_base + run index`, so no two requests of the batch can be served
/// from an intermediate cache. Building succeeds exactly when the page URL
/// parses (or no run is requested); a page URL that does not parse is an
/// [`PsiError::InvalidUrl`] error.
pub fn build_run_urls(
    page_url: &str,
    token: &str,
    strategy: Strategy,
    cache_base: u64,
    number_of_runs: usize,
) -> (r: Result<Vec<String>, PsiError>)
    requires
        cache_base + number_of_runs <= u64::MAX,
    ensures
        match r {
            Ok(v) => (number_of_runs > 0 ==> url_parses(page_url@)) && v@.len() == number_of_runs
                && forall|k: int|
                0 <= k < v@.len() ==> (#[trigger] v@[k])@ == run_url(
                    page_url@,
                    token@,
                    strategy,
                    (cache_base + k) as nat,
                ),
            Err(e) => e == PsiError::InvalidUrl && number_of_runs > 0 && !url_parses(page_url@),
        },
{
    let mut out: Vec<String> = Vec::new();
    let mut k: usize = 0;
    while k < number_of_runs
        invariant
            k <= number_of_runs,
            cache_base + number_of_runs <= u64::MAX,
            out@.len() == k,
            k > 0 ==> url_parses(page_url@),
            forall|j: int|
                0 <= j < k ==> (#[trigger] out@[j])@ == run_url(
                    page_url@,
                    token@,
                    strategy,
                    (cache_base + j) as nat,
                ),
        decreases number_of_runs - k,
    {
        let cache_token = cache_base + (k as u64);
        let ts = u128_to_string(cache_token as u128);
        let with_param = match add_query_param(page_url, "__v", ts.as_str()) {
            Some(s) => s,
            None => {
                return Err(PsiError::InvalidUrl);
            },
        };
        let full = build_api_url(token, with_param.as_str(), strategy);
        out.push(full);
        k += 1;
    }
    Ok(out)
}

} // verus!
