//! The credential deriver: extracts the issuer identifier and signing
//! secret embedded at fixed trailing offsets of a composite API key, and
//! derives a signed, time-stamped bearer token from them.
//!
//! A key has the logical shape `<arbitrary-prefix>-<issuer>-<secret>`,
//! where the issuer occupies the 36 characters at `[len - 73, len - 37)`
//! and the secret the 36 characters at `[len - 36, len)`. Extraction is
//! purely positional; a key shorter than 73 characters is rejected with
//! [`NotifyError::InvalidApiKey`].

use crate::b64::{b64_of, base64url, is_b64url_char, is_b64url_code, lemma_b64_ascii, lemma_b64_len};
use crate::json::{
    escaped, int_bytes, json_of, member_bytes, members_bytes, push_members, JsonValue, Member,
};
use vstd::prelude::*;
use vstd::string::StrSliceExecFns;
use vstd::string::StringExecFns;
use vstd::utf8::encode_utf8;

verus! {

broadcast use vstd::seq::group_seq_axioms;

/// Why a call failed before anything was sent.
#[derive(Clone, Copy, Debug, PartialEq, Eq, Structural)]
pub enum NotifyError {
    /// The API key is shorter than the 73 characters that positional
    /// extraction needs.
    InvalidApiKey,
    /// The signing primitive reported a failure.
    SigningError,
}

/// The issuer identifier embedded in an API key: the 36 characters at
/// `[len - 73, len - 37)`.
pub open spec fn issuer_of(key: Seq<char>) -> Seq<char>
    recommends
        key.len() >= 73,
{
    key.subrange(key.len() - 73, key.len() - 37)
}

/// The signing secret embedded in an API key: the 36 characters at
/// `[len - 36, len)`.
pub open spec fn secret_of(key: Seq<char>) -> Seq<char>
    recommends
        key.len() >= 73,
{
    key.subrange(key.len() - 36, key.len() as int)
}

/// The issuer identifier of `api_key`, extracted positionally.
pub fn service_id(api_key: &str) -> (r: String)
    requires
        api_key@.len() >= 73,
    ensures
        r@ == issuer_of(api_key@),
{
    let len = api_key.unicode_len();
    let issuer = api_key.substring_char(len - 73, len - 37);
    issuer.to_owned()
}

/// The signing secret of `api_key`, extracted positionally.
pub fn secret_key(api_key: &str) -> (r: String)
    requires
        api_key@.len() >= 73,
    ensures
        r@ == secret_of(api_key@),
{
    let len = api_key.unicode_len();
    let secret = api_key.substring_char(len - 36, len);
    secret.to_owned()
}

/// The characters with the same code points as a sequence of ASCII bytes.
pub open spec fn ascii_chars(s: Seq<u8>) -> Seq<char> {
    Seq::new(s.len(), |i: int| s[i] as char)
}

/// The claims document of a token: `{"iss":"<issuer>","iat":<iat>}`.
pub open spec fn claims_bytes(iss: Seq<char>, iat: i64) -> Seq<u8> {
    seq![123u8, 34u8] + escaped("iss"@) + seq![34u8, 58u8, 34u8] + escaped(iss) + seq![
        34u8,
        44u8,
        34u8,
    ] + escaped("iat"@) + seq![34u8, 58u8] + int_bytes(iat as int) + seq![125u8]
}

/// The header document of a token: `{"typ":"JWT","alg":"HS256"}`.
pub open spec fn header_bytes() -> Seq<u8> {
    seq![123u8, 34u8] + escaped("typ"@) + seq![34u8, 58u8, 34u8] + escaped("JWT"@) + seq![
        34u8,
        44u8,
        34u8,
    ] + escaped("alg"@) + seq![34u8, 58u8, 34u8] + escaped("HS256"@) + seq![34u8, 125u8]
}

/// What is signed: the base64url header, a dot, the base64url claims.
pub open spec fn signing_input(iss: Seq<char>, iat: i64) -> Seq<u8> {
    b64_of(header_bytes()) + seq![46u8] + b64_of(claims_bytes(iss, iat))
}

/// What `jsonwebtoken::crypto::sign` returns for a message and an HMAC
/// secret under HMAC-SHA256: the base64url encoding of the tag, a value
/// the two arguments alone determine.
pub uninterp spec fn hmac_sha256_b64(msg: Seq<u8>, key: Seq<u8>) -> Seq<char>;

/// The complete signed token for a key and an issue time: the signing
/// input followed by a dot and the signature of that input under the
/// key's embedded secret.
pub open spec fn token_of(key: Seq<char>, iat: i64) -> Seq<char> {
    ascii_chars(signing_input(issuer_of(key), iat)) + seq!['.'] + hmac_sha256_b64(
        signing_input(issuer_of(key), iat),
        encode_utf8(secret_of(key)),
    )
}

/// The positions `i < j` are dots and every other character is in the
/// base64url alphabet.
pub open spec fn dots_at_only(t: Seq<char>, i: int, j: int) -> bool {
    &&& 0 < i
    &&& i + 1 < j
    &&& j + 1 < t.len()
    &&& t[i] == '.'
    &&& t[j] == '.'
    &&& forall|k: int| 0 <= k < t.len() && k != i && k != j ==> is_b64url_char(t[k])
}

/// A compact serialized token: three non-empty dot-separated base64url
/// segments (the alphabet holds no dot, so exactly two dots occur).
pub open spec fn three_b64url_segments(t: Seq<char>) -> bool {
    exists|i: int, j: int| dots_at_only(t, i, j)
}

/// A token assembled from a signing input and a 43-character base64url
/// signature has exactly three non-empty dot-separated base64url
/// segments.
proof fn lemma_token_shape(iss: Seq<char>, iat: i64, sig: Seq<char>)
    requires
        sig.len() == 43,
        forall|i: int| 0 <= i < sig.len() ==> is_b64url_char(sig[i]),
    ensures
        three_b64url_segments(ascii_chars(signing_input(iss, iat)) + seq!['.'] + sig),
{
    let h64 = b64_of(header_bytes());
    let c64 = b64_of(claims_bytes(iss, iat));
    let inp = signing_input(iss, iat);
    let t = ascii_chars(inp) + seq!['.'] + sig;
    let i = h64.len() as int;
    let j = inp.len() as int;
    lemma_b64_ascii(header_bytes());
    lemma_b64_ascii(claims_bytes(iss, iat));
    lemma_b64_len(header_bytes());
    lemma_b64_len(claims_bytes(iss, iat));
    assert(header_bytes().len() >= 2);
    assert(claims_bytes(iss, iat).len() >= 2);
    assert(h64.len() >= 2 && c64.len() >= 2);
    assert(inp[i] == 46u8);
    assert(t[i] == (46u8 as char));
    assert(t[i] == '.');
    assert(t[j] == '.');
    assert forall|k: int| 0 <= k < t.len() && k != i && k != j implies is_b64url_char(t[k]) by {
        if k < j {
            assert(t[k] == (inp[k] as char));
            if k < i {
                assert(inp[k] == h64[k]);
                assert(is_b64url_code(h64[k] as int));
            } else if k > i {
                assert(inp[k] == c64[k - i - 1]);
                assert(is_b64url_code(c64[k - i - 1] as int));
            }
        } else if k > j {
            assert(t[k] == sig[k - j - 1]);
        }
    }
    assert(dots_at_only(t, i, j));
}

/// Relies on `jsonwebtoken::crypto::sign` with `Algorithm::HS256` and a
/// key from `EncodingKey::from_secret`: for the HMAC family it returns
/// `Ok` of the base64url (no padding) encoding of the HMAC-SHA256 tag of
/// the message, which the message and secret alone determine. The tag is
/// 32 bytes, so the encoding is 43 characters, all from the URL-safe
/// alphabet (letters, digits, `-`, `_`).
#[verifier::external_body]
fn sign_hs256(message: &[u8], secret: &[u8]) -> (r: Result<String, jsonwebtoken::errors::Error>)
    ensures
        r is Ok,
        r matches Ok(s) ==> s@ == hmac_sha256_b64(message@, secret@),
        r matches Ok(s) ==> s@.len() == 43,
        r matches Ok(s) ==> (forall|i: int| 0 <= i < s@.len() ==> is_b64url_char(s@[i])),
{
    jsonwebtoken::crypto::sign(
        message,
        &jsonwebtoken::EncodingKey::from_secret(secret),
        jsonwebtoken::Algorithm::HS256,
    )
}

/// Declares `jsonwebtoken::errors::Error`, the error type of the signing
/// primitive, so that the wrapper above can return it; it is opaque here
/// and is mapped to [`NotifyError::SigningError`] by the caller.
#[verifier::external_type_specification]
#[verifier::external_body]
pub struct ExJwtError(jsonwebtoken::errors::Error);

/// Relies on `std::time::SystemTime::now` and `duration_since` to read
/// the clock as Unix seconds. Both error arms are absorbed (a pre-epoch
/// clock gives 0, a clock past the signed range saturates), so the read
/// never panics; nothing is promised of the value.
#[verifier::external_body]
fn unix_now() -> i64 {
    match std::time::SystemTime::now().duration_since(std::time::UNIX_EPOCH) {
        Ok(d) => i64::try_from(d.as_secs()).unwrap_or(i64::MAX),
        Err(_) => 0,
    }
}

/// Relies on `String::from_utf8`: bytes below 128 are valid UTF-8 and
/// decode to the characters with the same code points.
#[verifier::external_body]
fn ascii_to_string(bytes: Vec<u8>) -> (r: String)
    requires
        forall|i: int| 0 <= i < bytes@.len() ==> bytes@[i] < 128,
    ensures
        r@ == ascii_chars(bytes@),
{
    match String::from_utf8(bytes) {
        Ok(s) => s,
        Err(_) => String::new(),
    }
}

/// Serializes a two-member claims-style object and proves it equal to its
/// byte-level description.
fn two_member_object(k1: &str, v1: JsonValue, k2: &str, v2: JsonValue) -> (r: Vec<u8>)
    ensures
        r@ == seq![123u8, 34u8] + escaped(k1@) + seq![34u8, 58u8] + json_of(v1) + seq![44u8, 34u8]
            + escaped(k2@) + seq![34u8, 58u8] + json_of(v2) + seq![125u8],
{
    let ghost gv1 = v1;
    let ghost gv2 = v2;
    let mut ms: Vec<Member> = Vec::new();
    ms.push(Member { key: k1.to_owned(), value: v1 });
    ms.push(Member { key: k2.to_owned(), value: v2 });
    let ghost m1 = ms@[0];
    let ghost m2 = ms@[1];
    let mut out: Vec<u8> = Vec::new();
    out.push(123);
    push_members(&ms, &mut out);
    out.push(125);
    proof {
        assert(ms@.drop_last() =~= seq![m1]);
        assert(ms@.last() == m2);
        assert(members_bytes(seq![m1]) == member_bytes(m1));
        assert(members_bytes(ms@) == member_bytes(m1) + seq![44u8] + member_bytes(m2));
        assert(member_bytes(m1) == seq![34u8] + escaped(k1@) + seq![34u8, 58u8] + json_of(gv1));
        assert(member_bytes(m2) == seq![34u8] + escaped(k2@) + seq![34u8, 58u8] + json_of(gv2));
        assert(out@ =~= seq![123u8, 34u8] + escaped(k1@) + seq![34u8, 58u8] + json_of(gv1) + seq![
            44u8,
            34u8,
        ] + escaped(k2@) + seq![34u8, 58u8] + json_of(gv2) + seq![125u8]);
    }
    out
}

/// Derives the signed token for `api_key` with the given issue time.
///
/// Succeeds exactly on keys long enough for positional extraction, and
/// then returns precisely [`token_of`] of the key and the issue time.
#[verifier::rlimit(60)]
pub fn create_jwt_at(api_key: &String, iat: i64) -> (r: Result<String, NotifyError>)
    ensures
        api_key@.len() >= 73 ==> (r matches Ok(t) && t@ == token_of(api_key@, iat)
            && three_b64url_segments(t@)),
        api_key@.len() < 73 ==> (r matches Err(e) && e == NotifyError::InvalidApiKey),
{
    if api_key.as_str().unicode_len() < 73 {
        return Err(NotifyError::InvalidApiKey);
    }
    let iss = service_id(api_key.as_str());
    let secret = secret_key(api_key.as_str());
    let ghost iss_view = iss@;

    let payload = two_member_object("iss", JsonValue::Str(iss), "iat", JsonValue::Int(iat));
    proof {
        assert(payload@ =~= claims_bytes(iss_view, iat));
    }
    let header = two_member_object(
        "typ",
        JsonValue::Str("JWT".to_owned()),
        "alg",
        JsonValue::Str("HS256".to_owned()),
    );
    proof {
        assert(header@ =~= header_bytes());
    }

    let mut input: Vec<u8> = base64url(header.as_slice());
    input.push(46);
    let mut p64 = base64url(payload.as_slice());
    input.append(&mut p64);
    proof {
        assert(input@ =~= signing_input(issuer_of(api_key@), iat));
    }

    let sig = match sign_hs256(input.as_slice(), secret.as_str().as_bytes()) {
        Ok(s) => s,
        Err(_) => {
            return Err(NotifyError::SigningError);
        },
    };
    proof {
        lemma_b64_ascii(header_bytes());
        lemma_b64_ascii(claims_bytes(issuer_of(api_key@), iat));
        assert(forall|i: int| 0 <= i < input@.len() ==> input@[i] < 128);
    }
    let mut token = ascii_to_string(input);
    token.append(".");
    token.append(sig.as_str());
    proof {
        reveal_strlit(".");
        assert(token@ =~= token_of(api_key@, iat));
        lemma_token_shape(issuer_of(api_key@), iat, sig@);
        assert(token@ =~= ascii_chars(signing_input(issuer_of(api_key@), iat)) + seq!['.']
            + sig@);
    }
    Ok(token)
}

/// Tokens issued at distinct times are never mere reuses of one another:
/// two distinct non-negative issue times give distinct claims documents,
/// so the signed payloads of the two tokens differ.
pub proof fn lemma_distinct_iat_distinct_claims(iss: Seq<char>, iat1: i64, iat2: i64)
    requires
        0 <= iat1,
        0 <= iat2,
        iat1 != iat2,
    ensures
        claims_bytes(iss, iat1) != claims_bytes(iss, iat2),
{
    let p = seq![123u8, 34u8] + escaped("iss"@) + seq![34u8, 58u8, 34u8] + escaped(iss) + seq![
        34u8,
        44u8,
        34u8,
    ] + escaped("iat"@) + seq![34u8, 58u8];
    let d1 = crate::json::dec_of(iat1 as nat);
    let d2 = crate::json::dec_of(iat2 as nat);
    if claims_bytes(iss, iat1) == claims_bytes(iss, iat2) {
        assert(claims_bytes(iss, iat1) =~= p + (d1 + seq![125u8]));
        assert(claims_bytes(iss, iat2) =~= p + (d2 + seq![125u8]));
        assert((p + (d1 + seq![125u8])).skip(p.len() as int) =~= d1 + seq![125u8]);
        assert((p + (d2 + seq![125u8])).skip(p.len() as int) =~= d2 + seq![125u8]);
        assert(d1 + seq![125u8] == d2 + seq![125u8]);
        assert(d1 =~= (d1 + seq![125u8]).drop_last());
        assert(d2 =~= (d2 + seq![125u8]).drop_last());
        crate::json::lemma_dec_of_injective(iat1 as nat, iat2 as nat);
        assert(false);
    }
}

/// Tokens issued at distinct times differ before any signature is even
/// attached: two distinct non-negative issue times give distinct signing
/// inputs, since base64url encoding is injective.
pub proof fn lemma_distinct_iat_distinct_signing_input(iss: Seq<char>, iat1: i64, iat2: i64)
    requires
        0 <= iat1,
        0 <= iat2,
        iat1 != iat2,
    ensures
        signing_input(iss, iat1) != signing_input(iss, iat2),
{
    lemma_distinct_iat_distinct_claims(iss, iat1, iat2);
    if signing_input(iss, iat1) == signing_input(iss, iat2) {
        let h = b64_of(header_bytes()) + seq![46u8];
        let c1 = b64_of(claims_bytes(iss, iat1));
        let c2 = b64_of(claims_bytes(iss, iat2));
        assert(signing_input(iss, iat1) =~= h + c1);
        assert(signing_input(iss, iat2) =~= h + c2);
        assert((h + c1).skip(h.len() as int) =~= c1);
        assert((h + c2).skip(h.len() as int) =~= c2);
        assert(c1 == c2);
        crate::b64::lemma_b64_injective(claims_bytes(iss, iat1), claims_bytes(iss, iat2));
        assert(false);
    }
}

/// Derives a fresh signed token for `api_key`, stamped with the current
/// Unix time (clamped below at zero, so the issue time is never negative).
pub fn create_jwt(api_key: &String) -> (r: Result<String, NotifyError>)
    ensures
        api_key@.len() >= 73 ==> (r matches Ok(t) && three_b64url_segments(t@) && exists|
            iat: i64,
        | 0 <= iat && t@ == token_of(api_key@, iat)),
        api_key@.len() < 73 ==> (r matches Err(e) && e == NotifyError::InvalidApiKey),
{
    let now = unix_now();
    let iat: i64 = if now < 0 {
        0
    } else {
        now
    };
    let r = create_jwt_at(api_key, iat);
    proof {
        if api_key@.len() >= 73 {
            assert(r matches Ok(t) && t@ == token_of(api_key@, iat));
        }
    }
    r
}

} // verus!
