use psi_tests::metrics::Strategy;
use psi_tests::urls::build_run_urls;
use psi_tests::PsiError;

#[test]
fn run_urls_carry_distinct_cache_tokens() {
    let urls = build_run_urls("https://example.com/", "tok", Strategy::MOBILE, 100, 3).unwrap();
    assert_eq!(urls.len(), 3);
    assert_eq!(
        urls[0],
        "https://www.googleapis.com/pagespeedonline/v5/runPagespeed?key=tok&url=https://example.com/?__v=100&strategy=mobile&category=performance"
    );
    assert_eq!(
        urls[1],
        "https://www.googleapis.com/pagespeedonline/v5/runPagespeed?key=tok&url=https://example.com/?__v=101&strategy=mobile&category=performance"
    );
    assert_eq!(
        urls[2],
        "https://www.googleapis.com/pagespeedonline/v5/runPagespeed?key=tok&url=https://example.com/?__v=102&strategy=mobile&category=performance"
    );
    assert_ne!(urls[0], urls[1]);
    assert_ne!(urls[1], urls[2]);
}

#[test]
fn desktop_strategy_is_in_the_query() {
    let urls = build_run_urls("https://example.com/", "k", Strategy::DESKTOP, 1, 1).unwrap();
    assert!(urls[0].contains("&strategy=desktop&"));
}

#[test]
fn existing_query_parameters_are_kept() {
    let urls = build_run_urls("https://example.com/?a=b", "k", Strategy::MOBILE, 5, 1).unwrap();
    assert!(urls[0].contains("url=https://example.com/?a=b&__v=5"));
}

#[test]
fn unparseable_page_url_is_rejected() {
    assert_eq!(
        build_run_urls("not a url", "k", Strategy::MOBILE, 1, 1),
        Err(PsiError::InvalidUrl)
    );
}
