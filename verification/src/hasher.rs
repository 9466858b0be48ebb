//! Salted password hashing, verification and secure random token generation.
//!
//! The digest is derived with PBKDF2-HMAC-SHA512 at a fixed iteration count,
//! and salts, digests and tokens travel as padded base64 text. The outside
//! primitives are reached through the trusted wrappers below; everything
//! around them is verified.

use vstd::prelude::*;
use crate::dto::HashResult;
use crate::resources::ErrorResource;

verus! {

/// Iteration count of the derivation, fixed for the lifetime of stored rows.
pub const SALT_ROUNDS: u32 = 1000;

/// Byte length of a generated salt, of a derived digest and of a raw token:
/// the output length of SHA-512.
pub const CREDENTIAL_LEN: usize = 64;

/// Character length of the padded base64 encoding of `CREDENTIAL_LEN` bytes.
pub const ENCODED_CREDENTIAL_LEN: usize = 88;

/// The padded base64 encoding of `bytes`, as `data_encoding::BASE64` computes
/// it: a pure function of the bytes alone.
pub uninterp spec fn b64_of(bytes: Seq<u8>) -> Seq<char>;

/// What `data_encoding::BASE64` decodes `text` to: `None` exactly on the
/// inputs it rejects. A pure function of the text alone.
pub uninterp spec fn b64_dec_of(text: Seq<char>) -> Option<Seq<u8>>;

/// The 64-byte PBKDF2-HMAC-SHA512 digest of `password` under `salt` at
/// `SALT_ROUNDS` iterations: a pure function of its two arguments.
pub uninterp spec fn pbkdf2_of(password: Seq<char>, salt: Seq<u8>) -> Seq<u8>;

/// Relies on data_encoding::BASE64.encode: deterministic, conforms to RFC
/// 4648 padded base64 (so the output spends 4 characters on every 3-byte
/// group), and BASE64.decode returns the input bytes on its output.
#[verifier::external_body]
fn base64_encode(bytes: &[u8]) -> (r: String)
    requires
        bytes@.len() <= usize::MAX / 512,
    ensures
        r@ == b64_of(bytes@),
        b64_dec_of(r@) == Some(bytes@),
        r@.len() == ((bytes@.len() + 2) / 3) * 4,
{
    data_encoding::BASE64.encode(bytes)
}

/// Relies on data_encoding::BASE64.decode: deterministic, and returns an
/// error exactly on the inputs that are not decodable base64.
#[verifier::external_body]
fn base64_decode(text: &str) -> (r: Option<Vec<u8>>)
    ensures
        match r {
            Some(v) => b64_dec_of(text@) == Some(v@),
            None => b64_dec_of(text@) is None,
        },
{
    match data_encoding::BASE64.decode(text.as_bytes()) {
        Ok(v) => Some(v),
        Err(_) => None,
    }
}

/// Relies on ring::pbkdf2::derive with PBKDF2_HMAC_SHA512: fills the 64-byte
/// output buffer with a deterministic function of the password and the salt.
#[verifier::external_body]
fn pbkdf2_derive(password: &str, salt: &[u8]) -> (r: Vec<u8>)
    ensures
        r@ == pbkdf2_of(password@, salt@),
        r@.len() == CREDENTIAL_LEN,
{
    let n_iter = core::num::NonZeroU32::new(SALT_ROUNDS).unwrap();
    let mut out = [0u8; ring::digest::SHA512_OUTPUT_LEN];
    ring::pbkdf2::derive(ring::pbkdf2::PBKDF2_HMAC_SHA512, n_iter, salt, password.as_bytes(), &mut out);
    out.to_vec()
}

/// Relies on ring::rand::SystemRandom: an independent draw of 64 bytes from a
/// cryptographically secure source. Nothing is promised of the bytes beyond
/// their count; `None` reports a failed draw.
#[verifier::external_body]
fn secure_random_bytes() -> (r: Option<Vec<u8>>)
    ensures
        r matches Some(v) ==> v@.len() == CREDENTIAL_LEN,
{
    let rng = ring::rand::SystemRandom::new();
    let mut bytes = [0u8; ring::digest::SHA512_OUTPUT_LEN];
    match ring::rand::SecureRandom::fill(&rng, &mut bytes) {
        Ok(()) => Some(bytes.to_vec()),
        Err(_) => None,
    }
}

/// Whether two byte strings are equal, examining every position of equally
/// long inputs regardless of where they first differ, so that the comparison
/// leaks no timing information beyond the lengths.
pub fn constant_time_eq(a: &[u8], b: &[u8]) -> (r: bool)
    ensures
        r == (a@ == b@),
{
    if a.len() != b.len() {
        return false;
    }
    let n = a.len();
    let mut diff: u8 = 0;
    let mut i: usize = 0;
    while i < n
        invariant
            i <= n,
            n == a@.len() == b@.len(),
            (diff == 0) <==> (forall|j: int| 0 <= j < i ==> a@[j] == b@[j]),
        decreases n - i,
    {
        let x = a[i];
        let y = b[i];
        let d = x ^ y;
        proof {
            assert((x ^ y == 0) == (x == y)) by (bit_vector);
            assert((diff | d == 0) == (diff == 0 && d == 0)) by (bit_vector);
        }
        diff = diff | d;
        i = i + 1;
    }
    if diff == 0 {
        proof {
            assert(a@ =~= b@);
        }
        true
    } else {
        false
    }
}

/// Whether `t` is the base64 text of some 64 raw token bytes.
pub open spec fn spec_is_encoded_token(t: Seq<char>) -> bool {
    &&& t.len() == ENCODED_CREDENTIAL_LEN
    &&& exists|bytes: Seq<u8>| bytes.len() == CREDENTIAL_LEN && t == b64_of(bytes)
}

/// The digest text that re-deriving with a known salt yields.
pub open spec fn spec_hash_with_salt_bytes(password: Seq<char>, salt_bytes: Seq<u8>) -> Seq<char> {
    b64_of(pbkdf2_of(password, salt_bytes))
}

/// What a freshly produced `HashResult` looks like: the salt is the encoding
/// of the 64 bytes actually drawn, and the hash is the encoded digest of the
/// password under that salt.
pub open spec fn spec_hash_result_wf(password: Seq<char>, salt_bytes: Seq<u8>, h: HashResult) -> bool {
    &&& salt_bytes.len() == CREDENTIAL_LEN
    &&& h.salt@ == b64_of(salt_bytes)
    &&& h.salt@.len() == ENCODED_CREDENTIAL_LEN
    &&& b64_dec_of(h.salt@) == Some(salt_bytes)
    &&& h.hash@ == spec_hash_with_salt_bytes(password, salt_bytes)
    &&& h.hash@.len() == ENCODED_CREDENTIAL_LEN
    &&& b64_dec_of(h.hash@) == Some(pbkdf2_of(password, salt_bytes))
}

/// Whether `h` could have come from hashing `password` under some freshly
/// drawn salt.
pub open spec fn spec_fresh_hash_result(password: Seq<char>, h: HashResult) -> bool {
    exists|salt_bytes: Seq<u8>| spec_hash_result_wf(password, salt_bytes, h)
}

/// The outcome of re-deriving a digest from a password and stored salt text:
/// nothing when the salt text does not decode.
pub open spec fn spec_rehash(password: Seq<char>, salt_text: Seq<char>) -> Option<Seq<char>> {
    match b64_dec_of(salt_text) {
        Some(sb) => Some(spec_hash_with_salt_bytes(password, sb)),
        None => None,
    }
}

/// The verification predicate of a stored row: the stored digest text and
/// salt text both decode, and the digest of the candidate password under the
/// stored salt equals the stored digest.
pub open spec fn spec_password_matches(
    stored_hash: Seq<char>,
    stored_salt: Seq<char>,
    password: Seq<char>,
) -> bool {
    match (b64_dec_of(stored_salt), b64_dec_of(stored_hash)) {
        (Some(salt_bytes), Some(hash_bytes)) => hash_bytes == pbkdf2_of(password, salt_bytes),
        _ => false,
    }
}

/// Whether `password` verifies against a stored digest and salt. The
/// comparison of the derived digest with the stored one is constant-time.
pub fn verify_password(stored_hash: &String, stored_salt: &String, password: &String) -> (r: bool)
    ensures
        r == spec_password_matches(stored_hash@, stored_salt@, password@),
{
    let salt_bytes = match base64_decode(stored_salt.as_str()) {
        Some(b) => b,
        None => {
            return false;
        },
    };
    let hash_bytes = match base64_decode(stored_hash.as_str()) {
        Some(b) => b,
        None => {
            return false;
        },
    };
    let derived = pbkdf2_derive(password.as_str(), salt_bytes.as_slice());
    constant_time_eq(hash_bytes.as_slice(), derived.as_slice())
}

/// Generate a fresh random salt and derive the password's digest under it,
/// returning both as printable text. Fails only when the secure random
/// source fails.
pub fn hash_password(password: &String) -> (r: Result<HashResult, ErrorResource>)
    ensures
        match r {
            Ok(h) => spec_fresh_hash_result(password@, h),
            Err(e) => e == ErrorResource::CreatingToken,
        },
{
    let salt_bytes = match secure_random_bytes() {
        Some(b) => b,
        None => {
            return Err(ErrorResource::CreatingToken);
        },
    };
    let hash_bytes = pbkdf2_derive(password.as_str(), salt_bytes.as_slice());
    let salt_text = base64_encode(salt_bytes.as_slice());
    let hash_text = base64_encode(hash_bytes.as_slice());
    let h = HashResult::new(salt_text, hash_text);
    proof {
        assert(spec_hash_result_wf(password@, salt_bytes@, h));
        assert(spec_fresh_hash_result(password@, h));
    }
    Ok(h)
}

/// Re-run the derivation with a caller-supplied salt, used to verify a
/// candidate password against a stored digest. Returns nothing exactly when
/// the salt text does not decode.
pub fn hash_password_with_existing_salt(password: &String, input_salt: &String) -> (r: Option<
    HashResult,
>)
    ensures
        match r {
            Some(h) => {
                &&& spec_rehash(password@, input_salt@) == Some(h.hash@)
                &&& h.salt == *input_salt
            },
            None => spec_rehash(password@, input_salt@) is None,
        },
{
    let salt_bytes = match base64_decode(input_salt.as_str()) {
        Some(b) => b,
        None => {
            return None;
        },
    };
    let hash_bytes = pbkdf2_derive(password.as_str(), salt_bytes.as_slice());
    let hash_text = base64_encode(hash_bytes.as_slice());
    Some(HashResult::new(input_salt.clone(), hash_text))
}

/// Generate `amount` independent secure-random tokens, each the base64 text
/// of 64 fresh bytes. If any single draw fails, the whole call fails and
/// partial results are discarded.
pub fn generate_multiple_random_token_with_rng(amount: u8) -> (r: Result<
    Vec<String>,
    ErrorResource,
>)
    ensures
        match r {
            Ok(tokens) => {
                &&& tokens@.len() == amount as int
                &&& forall|i: int|
                    0 <= i < amount as int ==> spec_is_encoded_token((#[trigger] tokens@[i])@)
            },
            Err(e) => e == ErrorResource::CreatingToken,
        },
{
    let mut tokens: Vec<String> = Vec::new();
    let mut k: u8 = 0;
    while k < amount
        invariant
            k <= amount,
            tokens@.len() == k as int,
            forall|i: int| 0 <= i < k as int ==> spec_is_encoded_token((#[trigger] tokens@[i])@),
        decreases amount - k,
    {
        let bytes = match secure_random_bytes() {
            Some(b) => b,
            None => {
                return Err(ErrorResource::CreatingToken);
            },
        };
        let token = base64_encode(bytes.as_slice());
        proof {
            assert(bytes@.len() == CREDENTIAL_LEN && token@ == b64_of(bytes@));
            assert(spec_is_encoded_token(token@));
        }
        tokens.push(token);
        k = k + 1;
    }
    Ok(tokens)
}

/// For any password, re-deriving with the salt that `hash_password` returned
/// yields exactly the hash it returned: verification of the original password
/// always succeeds against its own stored row.
pub proof fn lemma_rehash_recovers_hash(password: Seq<char>, salt_bytes: Seq<u8>, h: HashResult)
    requires
        spec_hash_result_wf(password, salt_bytes, h),
    ensures
        spec_rehash(password, h.salt@) == Some(h.hash@),
{
}

} // verus!
