//! Hashing and encoding primitives: SHA-256 and HMAC-SHA256 behind trusted
//! wrappers, base64 behind trusted wrappers, and a verified lowercase-hex
//! encoder.

use vstd::prelude::*;
use vstd::string::StrSliceExecFns;
use sha2::Digest;
use hmac::Mac;
use base64::Engine;

verus! {

/// The SHA-256 digest of a byte sequence. The digest itself is left
/// uninterpreted: nothing in this crate restates the algorithm, only that
/// the same input always yields the same 32-byte output.
pub uninterp spec fn sha256_of(bytes: Seq<u8>) -> Seq<u8>;

/// The HMAC-SHA256 tag for a key and a message, left uninterpreted.
pub uninterp spec fn hmac_sha256_of(key: Seq<u8>, msg: Seq<u8>) -> Seq<u8>;

/// The standard base64 encoding (with padding) of a byte sequence.
pub uninterp spec fn base64_of(bytes: Seq<u8>) -> Seq<char>;

/// What standard base64 decoding yields for a character sequence:
/// `None` where the input is not valid base64.
pub uninterp spec fn base64_decode_of(s: Seq<char>) -> Option<Seq<u8>>;

/// Relies on sha2's `Sha256` (`Digest::update` then `Digest::finalize`):
/// a 32-byte digest determined by the input bytes alone.
#[verifier::external_body]
pub(crate) fn sha256(bytes: &[u8]) -> (r: Vec<u8>)
    ensures
        r@ == sha256_of(bytes@),
        r@.len() == 32,
{
    let mut hasher = sha2::Sha256::new();
    hasher.update(bytes);
    hasher.finalize().to_vec()
}

/// Relies on hmac's `Hmac::<Sha256>::new_from_slice` (which accepts keys of
/// any length), `Mac::update` and `Mac::finalize`: a 32-byte tag determined
/// by the key and the message alone.
#[verifier::external_body]
pub(crate) fn hmac_sha256(key: &[u8], msg: &[u8]) -> (r: Vec<u8>)
    ensures
        r@ == hmac_sha256_of(key@, msg@),
        r@.len() == 32,
{
    let mut mac = <hmac::Hmac<sha2::Sha256> as hmac::KeyInit>::new_from_slice(key)
        .expect("HMAC accepts keys of any length");
    mac.update(msg);
    mac.finalize().into_bytes().to_vec()
}

/// Relies on base64's `Engine::encode` with the `STANDARD` engine: the
/// padded standard-alphabet encoding, determined by the input alone.
#[verifier::external_body]
pub(crate) fn base64_encode(bytes: &[u8]) -> (r: String)
    ensures
        r@ == base64_of(bytes@),
{
    base64::engine::general_purpose::STANDARD.encode(bytes)
}

/// Relies on base64's `Engine::decode` with the `STANDARD` engine: the
/// decoding of valid padded standard-alphabet input, `None` otherwise.
#[verifier::external_body]
pub(crate) fn base64_decode(s: &str) -> (r: Option<Vec<u8>>)
    ensures
        match r {
            Some(v) => base64_decode_of(s@) == Some(v@),
            None => base64_decode_of(s@) is None,
        },
{
    match base64::engine::general_purpose::STANDARD.decode(s) {
        Ok(v) => Some(v),
        Err(_) => None,
    }
}

/// The lowercase hex character for a value below 16.
pub open spec fn hex_digit_char(v: u8) -> char
    recommends
        v < 16,
{
    if v < 10 {
        (('0' as u8) + v) as char
    } else {
        (('a' as u8) + (v - 10)) as char
    }
}

/// Lowercase hex encoding of a byte sequence: two digits per byte,
/// high nibble first.
pub open spec fn hex_of(bytes: Seq<u8>) -> Seq<char>
    decreases bytes.len(),
{
    if bytes.len() == 0 {
        Seq::<char>::empty()
    } else {
        seq![
            hex_digit_char(bytes[0] / 16),
            hex_digit_char(bytes[0] % 16),
        ] + hex_of(bytes.skip(1))
    }
}

proof fn lemma_hex_of_snoc(bytes: Seq<u8>, b: u8)
    ensures
        hex_of(bytes.push(b)) == hex_of(bytes) + seq![
            hex_digit_char(b / 16),
            hex_digit_char(b % 16),
        ],
    decreases bytes.len(),
{
    if bytes.len() == 0 {
        assert(bytes.push(b).skip(1) =~= Seq::<u8>::empty());
        assert(bytes.push(b)[0] == b);
        assert(hex_of(Seq::<u8>::empty()) == Seq::<char>::empty());
        assert(hex_of(bytes.push(b)) =~= hex_of(bytes) + seq![
            hex_digit_char(b / 16),
            hex_digit_char(b % 16),
        ]);
    } else {
        assert(bytes.push(b).skip(1) =~= bytes.skip(1).push(b));
        assert(bytes.push(b)[0] == bytes[0]);
        lemma_hex_of_snoc(bytes.skip(1), b);
        assert(hex_of(bytes.push(b)) =~= hex_of(bytes) + seq![
            hex_digit_char(b / 16),
            hex_digit_char(b % 16),
        ]);
    }
}

/// Encode a byte vector as lowercase hex.
pub fn hex_encode(bytes: &Vec<u8>) -> (r: String)
    ensures
        r@ == hex_of(bytes@),
        r@.len() == 2 * bytes@.len(),
{
    let digits: &str = "0123456789abcdef";
    proof {
        reveal_strlit("0123456789abcdef");
    }
    assert(forall|v: u8| v < 16 ==> digits@[v as int] == hex_digit_char(v)) by {
        reveal_strlit("0123456789abcdef");
    };
    let mut out = String::new();
    let mut i: usize = 0;
    proof {
        assert(bytes@.take(0int) =~= Seq::<u8>::empty());
    }
    while i < bytes.len()
        invariant
            i <= bytes@.len(),
            out@ == hex_of(bytes@.take(i as int)),
            out@.len() == 2 * i,
            forall|v: u8| v < 16 ==> digits@[v as int] == hex_digit_char(v),
            digits@.len() == 16,
            digits.is_ascii(),
        decreases bytes@.len() - i,
    {
        let b = bytes[i];
        let hi = b / 16;
        let lo = b % 16;
        out.append(digits.substring_ascii(hi as usize, hi as usize + 1));
        out.append(digits.substring_ascii(lo as usize, lo as usize + 1));
        proof {
            assert(bytes@.take(i + 1int) =~= bytes@.take(i as int).push(bytes@[i as int]));
            lemma_hex_of_snoc(bytes@.take(i as int), bytes@[i as int]);
            assert(digits@.subrange(hi as int, hi + 1int) =~= seq![hex_digit_char(hi)]);
            assert(digits@.subrange(lo as int, lo + 1int) =~= seq![hex_digit_char(lo)]);
        }
        i = i + 1;
    }
    proof {
        assert(bytes@.take(bytes@.len() as int) =~= bytes@);
    }
    out
}

} // verus!
