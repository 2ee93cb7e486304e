//! Request signing for the posting endpoint: the OAuth parameter
//! string, signature base string, HMAC-SHA1 signature, and
//! authorization header. The digest and its base64 form come from
//! outside crates behind trusted wrappers; everything assembled
//! around them is verified. The timestamp and nonce are inputs, so
//! that the assembly is a function of its arguments.

use vstd::prelude::*;
use base64::Engine;
use base64::engine::general_purpose::STANDARD;
use hmac::Hmac;
use hmac::Mac;
use sha1::Sha1;

verus! {

use crate::digits::dec_digits;
use crate::digits::push_dec_digits;
use crate::util::url_encode;
use crate::util::url_encode_spec;

/// The HMAC-SHA1 digest of a message under a key; a function of the
/// two strings alone.
pub uninterp spec fn hmac_sha1_of(key: Seq<char>, msg: Seq<char>) -> Seq<u8>;

/// The standard base64 encoding of a byte string; a function of the
/// bytes alone.
pub uninterp spec fn base64_of(bytes: Seq<u8>) -> Seq<char>;

/// Relies on hmac's `Hmac<Sha1>`: `new_from_slice` accepts a key of
/// any length, and `update` then `finalize` produce the 20-byte
/// HMAC-SHA1 digest, which depends on the key and message alone.
#[verifier::external_body]
fn hmac_sha1(key: &str, msg: &str) -> (r: Vec<u8>)
    ensures
        r@ == hmac_sha1_of(key@, msg@),
        r@.len() == 20,
{
    let mut mac = <Hmac<Sha1> as Mac>::new_from_slice(key.as_bytes())
        .expect("HMAC accepts a key of any length");
    mac.update(msg.as_bytes());
    mac.finalize().into_bytes().to_vec()
}

/// Relies on base64's standard engine: `encode` is the padded,
/// standard-alphabet base64 form of the bytes alone.
#[verifier::external_body]
fn base64_encode(bytes: &Vec<u8>) -> (r: String)
    ensures
        r@ == base64_of(bytes@),
{
    STANDARD.encode(bytes)
}

/// Relies on rand's `random`: a draw from the thread-local generator;
/// nothing can be promised of the value.
pub assume_specification<T>[ rand::random::<T> ]() -> (r: T)
    where
        rand::distributions::Standard: rand::distributions::Distribution<T>,
;

/// The sorted, encoded OAuth parameter string signed by a request.
pub open spec fn oauth_param_string_spec(
    ck: Seq<char>,
    nonce: Seq<char>,
    ts: nat,
    token: Seq<char>,
) -> Seq<char> {
    "oauth_consumer_key="@ + url_encode_spec(ck) + "&oauth_nonce="@ + url_encode_spec(nonce)
        + "&oauth_signature_method=HMAC-SHA1&oauth_timestamp="@ + dec_digits(ts)
        + "&oauth_token="@ + url_encode_spec(token) + "&oauth_version=1.0"@
}

/// The signature base string: method, encoded endpoint, encoded
/// parameter string.
pub open spec fn oauth_base_string_spec(
    method: Seq<char>,
    url: Seq<char>,
    ck: Seq<char>,
    nonce: Seq<char>,
    ts: nat,
    token: Seq<char>,
) -> Seq<char> {
    method + "&"@ + url_encode_spec(url) + "&"@ + url_encode_spec(
        oauth_param_string_spec(ck, nonce, ts, token))
}

/// The signing key: the two encoded secrets joined by an ampersand.
pub open spec fn oauth_signing_key_spec(cs: Seq<char>, ats: Seq<char>) -> Seq<char> {
    url_encode_spec(cs) + "&"@ + url_encode_spec(ats)
}

/// The request signature: base64 of the HMAC-SHA1 of the base string
/// under the signing key.
pub open spec fn oauth_signature_spec(
    method: Seq<char>,
    url: Seq<char>,
    ck: Seq<char>,
    cs: Seq<char>,
    at: Seq<char>,
    ats: Seq<char>,
    ts: nat,
    nonce: Seq<char>,
) -> Seq<char> {
    base64_of(hmac_sha1_of(oauth_signing_key_spec(cs, ats),
        oauth_base_string_spec(method, url, ck, nonce, ts, at)))
}

/// The authorization header: every parameter quoted and encoded, in
/// sorted order, with the signature included.
pub open spec fn oauth_header_spec(
    method: Seq<char>,
    url: Seq<char>,
    ck: Seq<char>,
    cs: Seq<char>,
    at: Seq<char>,
    ats: Seq<char>,
    ts: nat,
    nonce: Seq<char>,
) -> Seq<char> {
    "OAuth oauth_consumer_key=\""@ + url_encode_spec(ck) + "\", oauth_nonce=\""@
        + url_encode_spec(nonce) + "\", oauth_signature=\""@ + url_encode_spec(
        oauth_signature_spec(method, url, ck, cs, at, ats, ts, nonce))
        + "\", oauth_signature_method=\"HMAC-SHA1\", oauth_timestamp=\""@ + dec_digits(ts)
        + "\", oauth_token=\""@ + url_encode_spec(at) + "\", oauth_version=\"1.0\""@
}

/// Builds the OAuth authorization header for one request.
pub fn create_oauth_header(
    method: &str,
    url: &str,
    consumer_key: &str,
    consumer_secret: &str,
    access_token: &str,
    access_token_secret: &str,
    timestamp: u64,
    nonce: &str,
) -> (r: String)
    ensures
        r@ == oauth_header_spec(method@, url@, consumer_key@, consumer_secret@,
            access_token@, access_token_secret@, timestamp as nat, nonce@),
{
    // The parameter string.
    let mut ps = String::new();
    ps.append("oauth_consumer_key=");
    let e_ck = url_encode(consumer_key);
    ps.append(e_ck.as_str());
    ps.append("&oauth_nonce=");
    let e_nonce = url_encode(nonce);
    ps.append(e_nonce.as_str());
    ps.append("&oauth_signature_method=HMAC-SHA1&oauth_timestamp=");
    push_dec_digits(&mut ps, timestamp);
    ps.append("&oauth_token=");
    let e_at = url_encode(access_token);
    ps.append(e_at.as_str());
    ps.append("&oauth_version=1.0");
    proof {
        assert(ps@ =~= oauth_param_string_spec(consumer_key@, nonce@, timestamp as nat,
            access_token@));
    }
    // The signature base string.
    let mut bs = String::new();
    bs.append(method);
    bs.append("&");
    let e_url = url_encode(url);
    bs.append(e_url.as_str());
    bs.append("&");
    let e_ps = url_encode(ps.as_str());
    bs.append(e_ps.as_str());
    proof {
        assert(bs@ =~= oauth_base_string_spec(method@, url@, consumer_key@, nonce@,
            timestamp as nat, access_token@));
    }
    // The signing key and the signature.
    let mut sk = String::new();
    let e_cs = url_encode(consumer_secret);
    sk.append(e_cs.as_str());
    sk.append("&");
    let e_ats = url_encode(access_token_secret);
    sk.append(e_ats.as_str());
    proof {
        assert(sk@ =~= oauth_signing_key_spec(consumer_secret@, access_token_secret@));
    }
    let digest = hmac_sha1(sk.as_str(), bs.as_str());
    let sig64 = base64_encode(&digest);
    let e_sig = url_encode(sig64.as_str());
    // The header.
    let mut hd = String::new();
    hd.append("OAuth oauth_consumer_key=\"");
    hd.append(e_ck.as_str());
    hd.append("\", oauth_nonce=\"");
    hd.append(e_nonce.as_str());
    hd.append("\", oauth_signature=\"");
    hd.append(e_sig.as_str());
    hd.append("\", oauth_signature_method=\"HMAC-SHA1\", oauth_timestamp=\"");
    push_dec_digits(&mut hd, timestamp);
    hd.append("\", oauth_token=\"");
    hd.append(e_at.as_str());
    hd.append("\", oauth_version=\"1.0\"");
    proof {
        assert(hd@ =~= oauth_header_spec(method@, url@, consumer_key@, consumer_secret@,
            access_token@, access_token_secret@, timestamp as nat, nonce@));
    }
    hd
}

/// A character the nonce may contain.
pub open spec fn nonce_char(c: char) -> bool {
    ||| 'a' <= c && c <= 'z'
    ||| 'A' <= c && c <= 'Z'
    ||| '0' <= c && c <= '9'
}

/// A fresh 32-character nonce drawn from letters and digits.
pub fn oauth_nonce() -> (r: String)
    ensures
        r@.len() == 32,
        forall|i: int| 0 <= i < 32 ==> nonce_char(#[trigger] r@[i]),
{
    let alphabet = "abcdefghijklmnopqrstuvwxyzABCDEFGHIJKLMNOPQRSTUVWXYZ0123456789";
    proof {
        reveal_strlit("abcdefghijklmnopqrstuvwxyzABCDEFGHIJKLMNOPQRSTUVWXYZ0123456789");
    }
    let mut out = String::new();
    let mut i: usize = 0;
    while i < 32
        invariant
            0 <= i <= 32,
            out@.len() == i,
            alphabet@.len() == 62,
            forall|k: int| 0 <= k < 62 ==> nonce_char(#[trigger] alphabet@[k]),
            forall|k: int| 0 <= k < i ==> nonce_char(#[trigger] out@[k]),
        decreases 32 - i,
    {
        let x: usize = rand::random();
        let idx = x % 62;
        let c = alphabet.get_char(idx);
        crate::trusted::push_char(&mut out, c);
        i = i + 1;
    }
    out
}

} // verus!
