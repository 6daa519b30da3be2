use rand::seq::SliceRandom;
use rand::RngCore;
use sha3::Digest;
use vstd::prelude::*;

verus! {

/// The three underscore-separated parts of an API key.
pub struct ApiKeyParts {
    pub prefix: String,
    pub short_token: String,
    pub long_token: String,
}

/// The lowercase hexadecimal digit for a value below sixteen.
pub open spec fn hex_digit(n: u8) -> char {
    if n < 10 {
        (('0' as u8) + n) as char
    } else {
        (('a' as u8) + n - 10) as char
    }
}

/// Two lowercase hex digits per byte, high nibble first.
pub open spec fn hex_of(b: Seq<u8>) -> Seq<char>
    decreases b.len(),
{
    if b.len() == 0 {
        Seq::empty()
    } else {
        hex_of(b.drop_last()) + seq![hex_digit(b.last() / 16), hex_digit(b.last() % 16)]
    }
}

/// Hex text is twice as long as its bytes.
pub proof fn lemma_hex_len(b: Seq<u8>)
    ensures
        hex_of(b).len() == 2 * b.len(),
    decreases b.len(),
{
    if b.len() > 0 {
        lemma_hex_len(b.drop_last());
    }
}

/// How many times `c` occurs in `s`.
pub open spec fn count_char(s: Seq<char>, c: char) -> nat
    decreases s.len(),
{
    if s.len() == 0 {
        0
    } else {
        count_char(s.drop_last(), c) + if s.last() == c { 1nat } else { 0nat }
    }
}

/// How many underscores `s` holds.
pub open spec fn underscores(s: Seq<char>) -> nat {
    count_char(s, '_')
}

/// Whether `needle` occurs in `hay` as a contiguous run.
pub open spec fn contains_sub(hay: Seq<char>, needle: Seq<char>) -> bool {
    exists|i: int| 0 <= i && i + needle.len() <= hay.len() && #[trigger] hay.subrange(i, i + needle.len()) == needle
}

/// `prefix_short_long`, the text form of an API key.
pub open spec fn key_text(prefix: Seq<char>, short: Seq<char>, long: Seq<char>) -> Seq<char> {
    prefix + seq!['_'] + short + seq!['_'] + long
}

/// The SHA3-256 digest of the UTF-8 bytes of a text.
pub uninterp spec fn sha3_256_of(s: Seq<char>) -> Seq<u8>;

/// Relies on uuid's `Uuid::new_v4`: a random version-4 id, as its 128-bit value.
#[verifier::external_body]
pub(crate) fn fresh_id() -> (r: u128) {
    uuid::Uuid::new_v4().as_u128()
}

/// Relies on rand's `SliceRandom::choose_multiple` (0.8): `min(amount, len)`
/// elements drawn from distinct positions of the slice.
#[verifier::external_body]
pub(crate) fn sample(v: &Vec<u64>, amount: usize) -> (r: Vec<u64>)
    ensures
        r@.len() == if amount < v@.len() { amount as int } else { v@.len() as int },
        forall|i: int| 0 <= i < r@.len() ==> v@.contains(#[trigger] r@[i]),
        v@.no_duplicates() ==> r@.no_duplicates(),
{
    v.choose_multiple(&mut rand::thread_rng(), amount).copied().collect()
}

/// Relies on rand's `RngCore::fill_bytes` on the thread generator: 32 random bytes.
#[verifier::external_body]
pub(crate) fn random_bytes_32() -> (r: Vec<u8>)
    ensures
        r@.len() == 32,
{
    let mut bytes = [0u8; 32];
    rand::thread_rng().fill_bytes(&mut bytes);
    bytes.to_vec()
}

/// Relies on `hex::encode`: two lowercase digits per byte.
#[verifier::external_body]
pub(crate) fn hex_encode(b: &Vec<u8>) -> (r: String)
    ensures
        r@ == hex_of(b@),
{
    hex::encode(b)
}

/// Relies on sha3's `Sha3_256::digest` over the text's bytes: a 32-byte digest.
#[verifier::external_body]
pub(crate) fn sha3_256(s: &String) -> (r: Vec<u8>)
    ensures
        r@ == sha3_256_of(s@),
        r@.len() == 32,
{
    sha3::Sha3_256::digest(s.as_bytes()).to_vec()
}

/// Relies on prefixed_api_key's `PrefixedApiKey::from_string`: it splits on
/// `_` and accepts exactly three parts.
#[verifier::external_body]
pub(crate) fn parse_api_key(s: &String) -> (r: Option<ApiKeyParts>)
    ensures
        r is Some <==> underscores(s@) == 2,
        r matches Some(k) ==> s@ == key_text(k.prefix@, k.short_token@, k.long_token@)
            && underscores(k.prefix@) == 0 && underscores(k.short_token@) == 0
            && underscores(k.long_token@) == 0,
{
    match prefixed_api_key::PrefixedApiKey::from_string(s) {
        Ok(k) => Some(ApiKeyParts {
            prefix: k.prefix().to_owned(),
            short_token: k.short_token().to_owned(),
            long_token: k.long_token().to_owned(),
        }),
        Err(_) => None,
    }
}

/// Relies on prefixed_api_key's `PrefixedApiKeyController::generate_key`
/// (thread generator, 8 and 24 random bytes, each token base58-encoded and
/// so free of `_`): random tokens under the configured prefix, and
/// `to_string` joining the parts with `_`.
#[verifier::external_body]
pub(crate) fn generate_api_key(prefix: &str) -> (r: (ApiKeyParts, String))
    ensures
        r.0.prefix@ == prefix@,
        r.1@ == key_text(r.0.prefix@, r.0.short_token@, r.0.long_token@),
        underscores(r.0.short_token@) == 0,
        underscores(r.0.long_token@) == 0,
{
    let controller = prefixed_api_key::PrefixedApiKeyController::<rand::rngs::ThreadRng, sha3::Sha3_256>::new(
        prefix.to_owned(), rand::rngs::ThreadRng::default(), None, 8, 24);
    let key = controller.generate_key();
    let text = key.to_string();
    (ApiKeyParts {
        prefix: key.prefix().to_owned(),
        short_token: key.short_token().to_owned(),
        long_token: key.long_token().to_owned(),
    }, text)
}

/// Relies on chrono's `Utc::now`: the current time in whole seconds since the epoch.
#[verifier::external_body]
pub(crate) fn now_seconds() -> (r: i64) {
    chrono::Utc::now().timestamp()
}

/// Relies on `str::contains` with a `&str` pattern.
#[verifier::external_body]
pub(crate) fn text_contains(hay: &String, needle: &String) -> (r: bool)
    ensures
        r == contains_sub(hay@, needle@),
{
    hay.contains(needle.as_str())
}

} // verus!
