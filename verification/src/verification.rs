//! Webhook signature verification: GitHub-style HMAC headers,
//! Standard-Webhooks signatures, and custom header equality.

use vstd::prelude::*;
use vstd::string::StrSliceExecFns;
use vstd::utf8::encode_utf8;
use crate::hashing::{
    hex_of,
    hmac_sha256_of,
    base64_of,
    base64_decode_of,
    hmac_sha256,
    hex_encode,
    base64_encode,
    base64_decode,
};
use crate::text::str_eq;

verus! {

/// What `String::from_utf8_lossy` yields for a byte sequence, left
/// uninterpreted except on ASCII input.
pub uninterp spec fn utf8_lossy_of(bytes: Seq<u8>) -> Seq<char>;

/// Relies on `String::from_utf8_lossy`: a character sequence determined by
/// the bytes alone; ASCII bytes (all below 128) are valid UTF-8 and decode
/// to themselves.
#[verifier::external_body]
pub(crate) fn utf8_lossy(bytes: &[u8]) -> (r: String)
    ensures
        r@ == utf8_lossy_of(bytes@),
        (forall|i: int| 0 <= i < bytes@.len() ==> bytes@[i] < 128) ==> r@ == Seq::new(
            bytes@.len(),
            |i: int| bytes@[i] as char,
        ),
{
    String::from_utf8_lossy(bytes).into_owned()
}

/// The full header value a GitHub-style signed request must carry for a
/// secret and a body: `"sha256="` followed by the lowercase hex HMAC-SHA256
/// tag of the body under the secret.
pub open spec fn github_expected_header(secret: Seq<char>, body: Seq<u8>) -> Seq<char> {
    "sha256="@ + hex_of(hmac_sha256_of(encode_utf8(secret), body))
}

/// Verify a GitHub-style HMAC signature header.
///
/// Accepts exactly when the header is `"sha256=<hex>"` with `<hex>` the
/// lowercase hex HMAC-SHA256 of the body under the secret.
pub fn verify_github_hmac(secret: &str, body: &[u8], signature_header: &str) -> (r: bool)
    ensures
        r == (signature_header@ == github_expected_header(secret@, body@)),
{
    let tag = hmac_sha256(secret.as_bytes(), body);
    let tag_hex = hex_encode(&tag);
    let mut expected = String::new();
    expected.append("sha256=");
    expected.append(tag_hex.as_str());
    str_eq(signature_header, expected.as_str())
}

/// One of the ASCII whitespace characters that separate signature tokens.
pub open spec fn is_wspace(c: char) -> bool {
    c == ' ' || c == '\t' || c == '\n' || c == '\r' || c == '\u{b}' || c == '\u{c}'
}

/// Positions `i..j` delimit a whitespace-separated token of `h`: a maximal
/// nonempty run of non-whitespace characters.
pub open spec fn token_at(h: Seq<char>, i: int, j: int) -> bool {
    0 <= i < j <= h.len() && (i == 0 || is_wspace(h[i - 1])) && (j == h.len() || is_wspace(
        h[j],
    )) && (forall|k: int| i <= k < j ==> !is_wspace(#[trigger] h[k]))
}

/// Whether some whitespace-separated token of `h` equals `t`.
pub open spec fn has_token(h: Seq<char>, t: Seq<char>) -> bool {
    exists|i: int, j: int| #[trigger] token_at(h, i, j) && h.subrange(i, j) == t
}

/// The key bytes a Standard-Webhooks secret denotes: its base64 decoding
/// where it is valid base64, else its raw UTF-8 bytes.
pub open spec fn sw_secret_bytes(secret: Seq<char>) -> Seq<u8> {
    match base64_decode_of(secret) {
        Some(b) => b,
        None => encode_utf8(secret),
    }
}

/// The characters signed by a Standard-Webhooks signature:
/// `<msg-id>.<timestamp>.<body>`, the body decoded leniently from UTF-8.
pub open spec fn sw_signed_payload(msg_id: Seq<char>, timestamp: Seq<char>, body: Seq<u8>)
    -> Seq<char> {
    msg_id + "."@ + timestamp + "."@ + utf8_lossy_of(body)
}

/// The signature token a Standard-Webhooks header must contain:
/// `"v1,"` followed by the base64 HMAC-SHA256 tag of the signed payload.
pub open spec fn sw_expected_token(
    secret: Seq<char>,
    body: Seq<u8>,
    msg_id: Seq<char>,
    timestamp: Seq<char>,
) -> Seq<char> {
    "v1,"@ + base64_of(
        hmac_sha256_of(
            sw_secret_bytes(secret),
            encode_utf8(sw_signed_payload(msg_id, timestamp, body)),
        ),
    )
}

/// Verify a Standard-Webhooks signature header.
///
/// Accepts exactly when some whitespace-separated token of the header
/// equals `"v1,"` + base64 of the HMAC-SHA256 tag of
/// `<msg-id>.<timestamp>.<body>` under the (base64-decoded if possible,
/// else raw) secret.
pub fn verify_standard_webhooks(
    secret: &str,
    body: &[u8],
    msg_id: &str,
    timestamp: &str,
    signature_header: &str,
) -> (r: bool)
    ensures
        r == has_token(
            signature_header@,
            sw_expected_token(secret@, body@, msg_id@, timestamp@),
        ),
{
    let secret_bytes: Vec<u8> = match base64_decode(secret) {
        Some(b) => b,
        None => {
            let v = secret.as_bytes_vec();
            proof {
                assert(v@ == sw_secret_bytes(secret@));
            }
            v
        },
    };
    let mut payload = msg_id.to_owned();
    payload.append(".");
    payload.append(timestamp);
    payload.append(".");
    let body_chars = utf8_lossy(body);
    payload.append(body_chars.as_str());
    proof {
        assert(payload@ =~= sw_signed_payload(msg_id@, timestamp@, body@));
    }
    let tag = hmac_sha256(secret_bytes.as_slice(), payload.as_str().as_bytes());
    let tag_b64 = base64_encode(tag.as_slice());
    let mut expected = String::new();
    expected.append("v1,");
    expected.append(tag_b64.as_str());
    proof {
        assert(expected@ =~= sw_expected_token(secret@, body@, msg_id@, timestamp@));
    }
    header_has_token(signature_header, expected.as_str())
}

/// Whether `c` is one of the ASCII whitespace separators.
fn is_wspace_exec(c: char) -> (r: bool)
    ensures
        r == is_wspace(c),
{
    c == ' ' || c == '\t' || c == '\n' || c == '\r' || c == '\u{b}' || c == '\u{c}'
}

/// Whether some whitespace-separated token of `header` equals `token`.
pub fn header_has_token(header: &str, token: &str) -> (r: bool)
    ensures
        r == has_token(header@, token@),
{
    let ghost h = header@;
    let n = header.unicode_len();
    let mut found = false;
    let mut in_run = false;
    let mut start: usize = 0;
    let mut pos: usize = 0;
    while pos < n
        invariant
            0 <= pos <= n == h.len(),
            h == header@,
            in_run ==> start < pos && (start == 0 || is_wspace(h[start as int - 1])) && (forall|
                k: int|
                start <= k < pos ==> !is_wspace(#[trigger] h[k])),
            !in_run ==> (pos == 0 || is_wspace(h[pos as int - 1])),
            found == exists|i: int, j: int|
                #[trigger] token_at(h, i, j) && j <= (if in_run {
                    start as int
                } else {
                    pos as int
                }) && h.subrange(i, j) == token@,
        decreases n - pos,
    {
        let c = header.get_char(pos);
        if is_wspace_exec(c) {
            if in_run {
                let piece = header.substring_char(start, pos);
                let eq = str_eq(piece, token);
                proof {
                    let s0 = start as int;
                    let p0 = pos as int;
                    assert(token_at(h, s0, p0));
                    assert forall|i: int, j: int|
                        token_at(h, i, j) && j <= p0 + 1 && h.subrange(i, j) == token@ implies (j
                        <= s0 || (i == s0 && j == p0)) by {
                        if j > s0 && !(i == s0 && j == p0) {
                            if j == p0 + 1 {
                                assert(!is_wspace(h[j - 1]));
                                assert(false);
                            } else if j == p0 {
                                if i < s0 {
                                    assert(s0 > 0 && is_wspace(h[s0 - 1]));
                                    assert(i <= s0 - 1 < j && !is_wspace(h[s0 - 1]));
                                    assert(false);
                                } else {
                                    assert(i > s0 >= 0);
                                    assert(is_wspace(h[i - 1]));
                                    assert(s0 <= i - 1 < p0 && !is_wspace(h[i - 1]));
                                    assert(false);
                                }
                            } else {
                                assert(s0 < j < p0);
                                assert(j < h.len() && is_wspace(h[j]));
                                assert(s0 <= j < p0 && !is_wspace(h[j]));
                                assert(false);
                            }
                        }
                    }
                }
                found = found || eq;
                in_run = false;
            } else {
                proof {
                    let p0 = pos as int;
                    assert forall|i: int, j: int|
                        token_at(h, i, j) && j <= p0 + 1 && h.subrange(i, j) == token@ implies j
                        <= p0 by {
                        if j == p0 + 1 {
                            assert(!is_wspace(h[j - 1]));
                            assert(false);
                        }
                    }
                }
            }
        } else {
            if !in_run {
                start = pos;
                in_run = true;
            }
        }
        pos = pos + 1;
    }
    if in_run {
        let piece = header.substring_char(start, n);
        let eq = str_eq(piece, token);
        proof {
            let s0 = start as int;
            let n0 = n as int;
            assert(token_at(h, s0, n0));
            assert forall|i: int, j: int|
                token_at(h, i, j) && h.subrange(i, j) == token@ implies (j <= s0 || (i == s0 && j
                == n0)) by {
                if j > s0 && !(i == s0 && j == n0) {
                    if j < n0 {
                        assert(is_wspace(h[j]));
                        assert(s0 <= j < n0 && !is_wspace(h[j]));
                        assert(false);
                    } else {
                        if i < s0 {
                            assert(s0 > 0 && is_wspace(h[s0 - 1]));
                            assert(i <= s0 - 1 < j && !is_wspace(h[s0 - 1]));
                            assert(false);
                        } else {
                            assert(i > s0 >= 0);
                            assert(is_wspace(h[i - 1]));
                            assert(s0 <= i - 1 < n0 && !is_wspace(h[i - 1]));
                            assert(false);
                        }
                    }
                }
            }
        }
        found = found || eq;
    }
    found
}

/// Verify a custom-header secret: the header value must equal the expected
/// value exactly.
pub fn verify_custom_header(secret: &str, header_value: &str) -> (r: bool)
    ensures
        r == (header_value@ == secret@),
{
    str_eq(header_value, secret)
}

} // verus!
