//! Tests of percent-encoding, path normalization, and the request
//! signing assembly.

use twilia::oauth::create_oauth_header;
use twilia::oauth::oauth_nonce;
use twilia::util::normalize_path;
use twilia::util::url_encode;

#[test]
fn url_encode_unreserved_passthrough() {
    assert_eq!(url_encode("AZaz09-._~"), "AZaz09-._~");
    assert_eq!(url_encode(""), "");
}

#[test]
fn url_encode_escapes_others() {
    assert_eq!(url_encode("Hello World!"), "Hello%20World%21");
    assert_eq!(url_encode("a+b/c=d"), "a%2Bb%2Fc%3Dd");
    assert_eq!(url_encode("100%"), "100%25");
    // A character above U+00FF keeps only the low byte of its code
    // point.
    assert_eq!(url_encode("é"), "%E9");
}

#[test]
fn normalize_path_cases() {
    assert_eq!(normalize_path("", "/root"), "/root");
    assert_eq!(normalize_path("   ", "/root"), "/root");
    assert_eq!(normalize_path("./x", "/root"), "/root/x");
    assert_eq!(normalize_path("/abs/file", "/root"), "/abs/file");
    assert_eq!(normalize_path("rel/p", "/root"), "/root/rel/p");
    assert_eq!(normalize_path("  rel  ", "/root"), "/root/rel");
    assert_eq!(normalize_path("./", "/root"), "/root/");
}

#[test]
fn oauth_header_known_vector() {
    let header = create_oauth_header(
        "POST",
        "https://api.twitter.com/2/tweets",
        "ck-key",
        "cs secret",
        "at+token",
        "ats/secret",
        1700000000,
        "abcdefghijklmnopqrstuvwxyzABCDEF",
    );
    let expected = "OAuth oauth_consumer_key=\"ck-key\", \
        oauth_nonce=\"abcdefghijklmnopqrstuvwxyzABCDEF\", \
        oauth_signature=\"Lv0p3ZAq%2B%2BqfS5vOkxxTMZFenX8%3D\", \
        oauth_signature_method=\"HMAC-SHA1\", oauth_timestamp=\"1700000000\", \
        oauth_token=\"at%2Btoken\", oauth_version=\"1.0\"";
    assert_eq!(header, expected);
}

#[test]
fn oauth_nonce_shape() {
    let n1 = oauth_nonce();
    assert_eq!(n1.chars().count(), 32);
    assert!(n1.chars().all(|c| c.is_ascii_alphanumeric()));
}
