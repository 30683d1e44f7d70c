//! API keys: roles, the key format `rgk_<prefix>_<secret>`, hashing, and daily quotas.
use vstd::prelude::*;

use argon2::password_hash::rand_core::OsRng;
use argon2::password_hash::{PasswordHash, PasswordHasher, PasswordVerifier, SaltString};
use argon2::Argon2;
use subtle::ConstantTimeEq;

use crate::clock::unix_seconds;
use crate::text::{chars_of, str_eq_chars, string_from_chars};

verus! {

/// What a key may be used for.
#[derive(Debug, Clone, Copy, PartialEq, Eq, Structural)]
pub enum KeyRole {
    Admin,
    Inference,
    Observability,
}

pub open spec fn key_role_name(r: KeyRole) -> Seq<char> {
    match r {
        KeyRole::Admin => "admin"@,
        KeyRole::Inference => "inference"@,
        KeyRole::Observability => "observability"@,
    }
}

/// Why a key could not be used or stored.
#[derive(Debug, Clone)]
pub enum AuthError {
    InvalidRole(String),
    InvalidKeyFormat,
    Hash,
}

impl KeyRole {
    /// Stable lowercase name of the role.
    pub fn as_str(self) -> (s: &'static str)
        ensures
            s@ == key_role_name(self),
    {
        match self {
            KeyRole::Admin => "admin",
            KeyRole::Inference => "inference",
            KeyRole::Observability => "observability",
        }
    }

    /// Admin and inference keys may call the model endpoints.
    pub fn allows_inference(self) -> (b: bool)
        ensures
            b == (self == KeyRole::Admin || self == KeyRole::Inference),
    {
        match self {
            KeyRole::Admin | KeyRole::Inference => true,
            KeyRole::Observability => false,
        }
    }

    /// Admin and observability keys may read metrics and stats.
    pub fn allows_observability(self) -> (b: bool)
        ensures
            b == (self == KeyRole::Admin || self == KeyRole::Observability),
    {
        match self {
            KeyRole::Admin | KeyRole::Observability => true,
            KeyRole::Inference => false,
        }
    }

    /// The role with the given name.
    pub fn parse(value: &str) -> (r: Result<KeyRole, AuthError>)
        ensures
            match r {
                Ok(role) => key_role_name(role) == value@,
                Err(e) => (e matches AuthError::InvalidRole(v) && v@ == value@) && value@ != "admin"@ && value@ != "inference"@
                    && value@ != "observability"@,
            },
    {
        if str_eq_chars(value, "admin") {
            Ok(KeyRole::Admin)
        } else if str_eq_chars(value, "inference") {
            Ok(KeyRole::Inference)
        } else if str_eq_chars(value, "observability") {
            Ok(KeyRole::Observability)
        } else {
            Err(AuthError::InvalidRole(value.to_string()))
        }
    }
}

impl std::str::FromStr for KeyRole {
    type Err = AuthError;

    fn from_str(value: &str) -> (r: Result<Self, Self::Err>)
        ensures
            match r {
                Ok(role) => key_role_name(role) == value@,
                Err(e) => (e matches AuthError::InvalidRole(v) && v@ == value@) && value@ != "admin"@ && value@ != "inference"@
                    && value@ != "observability"@,
            },
    {
        KeyRole::parse(value)
    }
}

/// A newly created key: its id, its public prefix, and the raw key shown once.
#[derive(Debug, Clone)]
pub struct GeneratedApiKey {
    pub id: String,
    pub prefix: String,
    pub raw_key: String,
}

/// A request turned away by a daily quota, with when to retry.
#[derive(Debug, Clone, Copy, PartialEq, Eq, Structural)]
pub struct QuotaRejection {
    pub retry_after_seconds: u64,
}

/// Position of the first `_` in `s`.
pub open spec fn first_underscore(s: Seq<char>) -> Option<int>
    decreases s.len(),
{
    if s.len() == 0 {
        None
    } else if s[0] == '_' {
        Some(0)
    } else {
        match first_underscore(s.drop_first()) {
            Some(k) => Some(k + 1),
            None => None,
        }
    }
}

proof fn lemma_first_underscore(s: Seq<char>, k: int)
    requires
        0 <= k <= s.len(),
        forall|j: int| 0 <= j < k ==> s[j] != '_',
        k < s.len() ==> s[k] == '_',
    ensures
        first_underscore(s) == if k < s.len() { Some(k) } else { None::<int> },
    decreases k,
{
    if k > 0 {
        assert forall|j: int| 0 <= j < k - 1 implies s.drop_first()[j] != '_' by {
            assert(s.drop_first()[j] == s[j + 1]);
        }
        if k < s.len() {
            assert(s.drop_first()[k - 1] == s[k]);
        }
        lemma_first_underscore(s.drop_first(), k - 1);
    }
}

/// The prefix of a well-formed key `rgk_<prefix>_<secret>`: the key splits at its
/// first two underscores into `rgk`, a non-empty prefix and a non-empty secret.
pub open spec fn key_prefix_of(s: Seq<char>) -> Option<Seq<char>> {
    match first_underscore(s) {
        None => None,
        Some(i) => {
            let rest = s.skip(i + 1);
            match first_underscore(rest) {
                None => None,
                Some(j) => {
                    let prefix = rest.take(j);
                    let secret = rest.skip(j + 1);
                    if s.take(i) == "rgk"@ && prefix.len() > 0 && secret.len() > 0 {
                        Some(prefix)
                    } else {
                        None
                    }
                },
            }
        },
    }
}

/// Position of the first `_` at or after `start`.
fn find_underscore(v: &Vec<char>, start: usize) -> (r: Option<usize>)
    requires
        start <= v@.len(),
    ensures
        match r {
            Some(k) => start <= k < v@.len() && first_underscore(v@.skip(start as int)) == Some(k - start),
            None => first_underscore(v@.skip(start as int)) is None,
        },
{
    let n = v.len();
    let mut k = start;
    while k < n
        invariant
            n == v@.len(),
            start <= k <= n,
            forall|j: int| start <= j < k ==> v@[j] != '_',
        decreases n - k,
    {
        if v[k] == '_' {
            proof {
                let s = v@.skip(start as int);
                assert forall|j: int| 0 <= j < k - start implies s[j] != '_' by {
                    assert(s[j] == v@[j + start]);
                }
                lemma_first_underscore(s, k - start);
            }
            return Some(k);
        }
        k = k + 1;
    }
    proof {
        let s = v@.skip(start as int);
        assert forall|j: int| 0 <= j < n - start implies s[j] != '_' by {
            assert(s[j] == v@[j + start]);
        }
        lemma_first_underscore(s, n - start);
    }
    None
}

/// The characters `v[a..b]`.
fn chars_between(v: &Vec<char>, a: usize, b: usize) -> (r: Vec<char>)
    requires
        a <= b <= v@.len(),
    ensures
        r@ == v@.subrange(a as int, b as int),
{
    let mut r: Vec<char> = Vec::new();
    let mut k = a;
    while k < b
        invariant
            a <= k <= b,
            b <= v@.len(),
            r@ == v@.subrange(a as int, k as int),
        decreases b - k,
    {
        r.push(v[k]);
        proof {
            assert(v@.subrange(a as int, k + 1) =~= v@.subrange(a as int, k as int).push(v@[k as int]));
        }
        k = k + 1;
    }
    r
}

/// The public prefix of a raw key, or `InvalidKeyFormat`.
pub fn parse_key_prefix(raw_key: &str) -> (r: Result<String, AuthError>)
    ensures
        match r {
            Ok(p) => key_prefix_of(raw_key@) == Some(p@),
            Err(e) => key_prefix_of(raw_key@) is None && e is InvalidKeyFormat,
        },
{
    let v = chars_of(raw_key);
    let n = v.len();
    let i = match find_underscore(&v, 0) {
        Some(i) => i,
        None => {
            proof {
                assert(v@.skip(0) =~= v@);
            }
            return Err(AuthError::InvalidKeyFormat);
        },
    };
    proof {
        assert(v@.skip(0) =~= v@);
    }
    let k = match find_underscore(&v, i + 1) {
        Some(k) => k,
        None => return Err(AuthError::InvalidKeyFormat),
    };
    let ghost s = v@;
    let ghost rest = s.skip(i + 1);
    proof {
        assert(rest.take(k - (i + 1)) =~= s.subrange(i + 1, k as int));
        assert(rest.skip(k - (i + 1) + 1) =~= s.subrange(k + 1, n as int));
        assert(s.take(i as int) =~= s.subrange(0, i as int));
    }
    let head = chars_between(&v, 0, i);
    let prefix = chars_between(&v, i + 1, k);
    proof {
        reveal_strlit("rgk");
    }
    let head_is_rgk = head.len() == 3 && head[0] == 'r' && head[1] == 'g' && head[2] == 'k';
    proof {
        if head_is_rgk {
            assert(head@ =~= "rgk"@);
        } else if head@.len() == 3 {
            assert(head@ != "rgk"@) by {
                if head@ == "rgk"@ {
                    assert(head@[0] == 'r' && head@[1] == 'g' && head@[2] == 'k');
                }
            }
        }
    }
    if head_is_rgk && prefix.len() > 0 && n - (k + 1) > 0 {
        Ok(string_from_chars(prefix.as_slice()))
    } else {
        Err(AuthError::InvalidKeyFormat)
    }
}

/// The raw key `rgk_<prefix>_<secret>`.
pub open spec fn raw_key_text(prefix: Seq<char>, secret: Seq<char>) -> Seq<char> {
    "rgk_"@ + prefix + "_"@ + secret
}

proof fn lemma_first_underscore_found(s: Seq<char>)
    ensures
        first_underscore(s) matches Some(k) ==> 0 <= k < s.len() && s[k] == '_' && forall|j: int| 0 <= j < k ==> s[j] != '_',
    decreases s.len(),
{
    if s.len() > 0 && s[0] != '_' {
        lemma_first_underscore_found(s.drop_first());
        if let Some(k) = first_underscore(s) {
            assert forall|j: int| 0 <= j < k implies s[j] != '_' by {
                if j > 0 {
                    assert(s[j] == s.drop_first()[j - 1]);
                }
            }
        }
    }
}

/// A key parses to a prefix exactly when it is `rgk_`, that non-empty prefix
/// without underscores, `_` and a non-empty secret (which may hold underscores).
pub proof fn law_parsed_key_has_the_key_format(s: Seq<char>)
    ensures
        key_prefix_of(s) matches Some(p) ==> {
            &&& p.len() > 0
            &&& forall|i: int| 0 <= i < p.len() ==> p[i] != '_'
            &&& exists|secret: Seq<char>| secret.len() > 0 && #[trigger] raw_key_text(p, secret) == s
        },
{
    if let Some(p) = key_prefix_of(s) {
        reveal_strlit("rgk_");
        reveal_strlit("_");
        reveal_strlit("rgk");
        lemma_first_underscore_found(s);
        let i = first_underscore(s)->0;
        let rest = s.skip(i + 1);
        lemma_first_underscore_found(rest);
        let j = first_underscore(rest)->0;
        let secret = rest.skip(j + 1);
        assert(s.take(i) == "rgk"@);
        assert(i == 3);
        assert(p =~= rest.take(j));
        assert forall|k: int| 0 <= k < p.len() implies p[k] != '_' by {
            assert(p[k] == rest[k]);
        }
        assert(raw_key_text(p, secret) =~= s) by {
            assert(s =~= s.take(i) + seq![s[i]] + rest);
            assert(rest =~= rest.take(j) + seq![rest[j]] + secret);
        }
    }
}

/// Formats a raw key from its prefix and secret.
pub fn format_raw_key(prefix: &str, secret: &str) -> (k: String)
    ensures
        k@ == raw_key_text(prefix@, secret@),
{
    let mut k = String::new();
    crate::text::push_str(&mut k, "rgk_");
    crate::text::push_str(&mut k, prefix);
    crate::text::push_str(&mut k, "_");
    crate::text::push_str(&mut k, secret);
    proof {
        assert(k@ =~= raw_key_text(prefix@, secret@));
    }
    k
}

/// A key formatted from a non-empty prefix without underscores and a non-empty
/// secret parses back to that prefix.
pub proof fn law_formatted_key_parses_to_its_prefix(prefix: Seq<char>, secret: Seq<char>)
    requires
        prefix.len() > 0,
        secret.len() > 0,
        forall|i: int| 0 <= i < prefix.len() ==> prefix[i] != '_',
    ensures
        key_prefix_of(raw_key_text(prefix, secret)) == Some(prefix),
{
    reveal_strlit("rgk_");
    reveal_strlit("_");
    reveal_strlit("rgk");
    let s = raw_key_text(prefix, secret);
    assert(s[0] == 'r' && s[1] == 'g' && s[2] == 'k' && s[3] == '_');
    lemma_first_underscore(s, 3);
    let rest = s.skip(4);
    assert(rest =~= prefix + "_"@ + secret);
    assert forall|j: int| 0 <= j < prefix.len() implies rest[j] != '_' by {
        assert(rest[j] == prefix[j]);
    }
    assert(rest[prefix.len() as int] == '_');
    lemma_first_underscore(rest, prefix.len() as int);
    assert(rest.take(prefix.len() as int) =~= prefix);
    assert(rest.skip(prefix.len() as int + 1) =~= secret);
    assert(s.take(3) =~= "rgk"@);
}

/// Lowercase hexadecimal digits only.
pub open spec fn is_lower_hex(s: Seq<char>) -> bool {
    forall|i: int| 0 <= i < s.len() ==> ('0' <= #[trigger] s[i] <= '9' || 'a' <= s[i] <= 'f')
}

/// Calls `uuid::Uuid::new_v4` and formats it with `simple()`. Trusted: the result
/// is 32 lowercase hexadecimal digits (the documented simple format); the value is random.
#[verifier::external_body]
fn random_uuid_simple() -> (s: String)
    ensures
        s@.len() == 32,
        is_lower_hex(s@),
{
    uuid::Uuid::new_v4().simple().to_string()
}

/// Calls `uuid::Uuid::new_v4` and formats it hyphenated. The value is random.
#[verifier::external_body]
fn random_uuid_string() -> (s: String) {
    uuid::Uuid::new_v4().to_string()
}

/// A new random API key: an id, an 8-digit hexadecimal prefix, and the raw key
/// `rgk_<prefix>_<secret>` with a 64-digit hexadecimal secret.
pub fn generate_api_key() -> (k: GeneratedApiKey)
    ensures
        k.prefix@.len() == 8,
        is_lower_hex(k.prefix@),
        exists|secret: Seq<char>| secret.len() == 64 && is_lower_hex(secret) && #[trigger] raw_key_text(k.prefix@, secret) == k.raw_key@,
        key_prefix_of(k.raw_key@) == Some(k.prefix@),
{
    let id = random_uuid_string();
    let a = random_uuid_simple();
    let b = random_uuid_simple();
    let c = random_uuid_simple();
    let av = chars_of(a.as_str());
    let pv = chars_between(&av, 0, 8);
    let prefix = string_from_chars(pv.as_slice());
    let secret = crate::text::concat_str(b.as_str(), c.as_str());
    let raw_key = format_raw_key(prefix.as_str(), secret.as_str());
    proof {
        assert(is_lower_hex(prefix@)) by {
            assert forall|i: int| 0 <= i < prefix@.len() implies ('0' <= #[trigger] prefix@[i] <= '9' || 'a' <= prefix@[i] <= 'f') by {
                assert(prefix@[i] == a@[i]);
            }
        }
        assert(is_lower_hex(secret@)) by {
            assert forall|i: int| 0 <= i < secret@.len() implies ('0' <= #[trigger] secret@[i] <= '9' || 'a' <= secret@[i] <= 'f') by {
                if i < 32 {
                    assert(secret@[i] == b@[i]);
                } else {
                    assert(secret@[i] == c@[i - 32]);
                }
            }
        }
        law_formatted_key_parses_to_its_prefix(prefix@, secret@);
        assert(raw_key_text(prefix@, secret@) == raw_key@);
    }
    GeneratedApiKey { id, prefix, raw_key }
}

/// A key store holding one key, compared in constant time.
#[derive(Debug)]
pub struct StaticKeyStore {
    raw_key: String,
}

/// Calls `subtle::ConstantTimeEq::ct_eq` on byte slices. Trusted: the answer is
/// whether the slices are equal (different lengths compare unequal).
#[verifier::external_body]
fn ct_eq_bytes(a: &[u8], b: &[u8]) -> (r: bool)
    ensures
        r == (a@ == b@),
{
    a.ct_eq(b).into()
}

impl StaticKeyStore {
    /// The configured key.
    pub closed spec fn key(&self) -> Seq<char> {
        self.raw_key@
    }

    /// A store accepting exactly `raw_key`.
    pub fn new(raw_key: String) -> (s: Self)
        ensures
            s.key() == raw_key@,
    {
        StaticKeyStore { raw_key }
    }

    /// Whether `raw_key` is the configured key (compared in constant time).
    pub fn matches(&self, raw_key: &str) -> (b: bool)
        ensures
            b == (raw_key@ == self.key()),
    {
        let r = ct_eq_bytes(raw_key.as_bytes(), self.raw_key.as_str().as_bytes());
        proof {
            broadcast use vstd::utf8::encode_utf8_decode_utf8;
            if vstd::utf8::encode_utf8(raw_key@) == vstd::utf8::encode_utf8(self.raw_key@) {
                assert(vstd::utf8::decode_utf8(vstd::utf8::encode_utf8(raw_key@)) == raw_key@);
            }
        }
        r
    }
}

/// Argon2 accepts `hash` as an encoded password hash.
pub uninterp spec fn argon2_hash_parses(hash: Seq<char>) -> bool;

/// Argon2 verification of `password` against the encoded `hash`.
pub uninterp spec fn argon2_password_matches(password: Seq<char>, hash: Seq<char>) -> bool;

/// What verifying `password` against `hash` gives: `None` for a malformed hash.
pub open spec fn verify_outcome(password: Seq<char>, hash: Seq<char>) -> Option<bool> {
    if argon2_hash_parses(hash) {
        Some(argon2_password_matches(password, hash))
    } else {
        None
    }
}

/// Calls `SaltString::generate` with the OS random source and
/// `Argon2::hash_password`. Trusted: on success the encoded hash parses and
/// verifies the password, as the password-hash traits promise; the salt is random.
#[verifier::external_body]
fn argon2_hash(raw_key: &str) -> (r: Option<String>)
    ensures
        r matches Some(h) ==> argon2_hash_parses(h@) && argon2_password_matches(raw_key@, h@),
{
    let salt = SaltString::generate(&mut OsRng);
    match Argon2::default().hash_password(raw_key.as_bytes(), &salt) {
        Ok(hash) => Some(hash.to_string()),
        Err(_) => None,
    }
}

/// Calls `PasswordHash::new` and `Argon2::verify_password`. Trusted: `None` when the
/// hash does not parse, else whether the password verifies.
#[verifier::external_body]
fn argon2_verify(raw_key: &str, hash: &str) -> (r: Option<bool>)
    ensures
        r == verify_outcome(raw_key@, hash@),
{
    match PasswordHash::new(hash) {
        Ok(parsed) => Some(Argon2::default().verify_password(raw_key.as_bytes(), &parsed).is_ok()),
        Err(_) => None,
    }
}

/// Hashes a raw key for storage.
pub fn hash_key(raw_key: &str) -> (r: Result<String, AuthError>)
    ensures
        match r {
            Ok(h) => argon2_hash_parses(h@) && argon2_password_matches(raw_key@, h@),
            Err(e) => e is Hash,
        },
{
    match argon2_hash(raw_key) {
        Some(h) => Ok(h),
        None => Err(AuthError::Hash),
    }
}

/// Whether `raw_key` matches a stored hash; `Hash` when the hash is malformed.
pub fn verify_key(raw_key: &str, hash: &str) -> (r: Result<bool, AuthError>)
    ensures
        match r {
            Ok(b) => verify_outcome(raw_key@, hash@) == Some(b),
            Err(e) => verify_outcome(raw_key@, hash@) is None && e is Hash,
        },
{
    match argon2_verify(raw_key, hash) {
        Some(b) => Ok(b),
        None => Err(AuthError::Hash),
    }
}

/// A key verifies against a hash that `hash_key` produced for it.
pub proof fn law_hashed_key_verifies(raw_key: Seq<char>, hash: Seq<char>)
    requires
        argon2_hash_parses(hash) && argon2_password_matches(raw_key, hash),
    ensures
        verify_outcome(raw_key, hash) == Some(true),
{
}

/// Seconds in a day.
pub const SECONDS_PER_DAY: u64 = 86_400;

/// The day number of a Unix time.
pub fn day_of(unix_seconds_now: u64) -> (d: u64)
    ensures
        d == unix_seconds_now / SECONDS_PER_DAY,
{
    unix_seconds_now / SECONDS_PER_DAY
}

/// Seconds from a Unix time to the next midnight (UTC).
pub fn seconds_until_next_day_at(unix_seconds_now: u64) -> (s: u64)
    ensures
        s == SECONDS_PER_DAY - unix_seconds_now % SECONDS_PER_DAY,
        1 <= s <= SECONDS_PER_DAY,
{
    SECONDS_PER_DAY - unix_seconds_now % SECONDS_PER_DAY
}

/// The day number of Unix time `t`.
pub open spec fn day_number(t: u64) -> u64 {
    t / SECONDS_PER_DAY
}

/// Today's day number: the day number of the wall clock's current reading.
pub fn current_day_unix() -> (d: u64)
    ensures
        exists|t: u64| #[trigger] day_number(t) == d,
{
    let t = unix_seconds();
    let d = day_of(t);
    assert(day_number(t) == d);
    d
}

/// Seconds until the next day starts.
pub fn seconds_until_next_day() -> (s: u64)
    ensures
        1 <= s <= SECONDS_PER_DAY,
{
    seconds_until_next_day_at(unix_seconds())
}

/// Today's usage of a key as read from storage.
#[derive(Debug, Clone, Copy)]
pub struct QuotaUsage {
    pub total_tokens: u64,
    /// Whether today's cost has reached the daily cost quota.
    pub cost_quota_reached: bool,
}

/// The quota decision for a key: with no daily quota the request passes; when
/// usage could not be read (`None`), or a quota is reached, it is rejected until
/// the next day.
pub fn quota_decision(daily_token_quota: Option<u64>, has_cost_quota: bool, usage: Option<QuotaUsage>, now_unix: u64) -> (r: Result<(), QuotaRejection>)
    ensures
        daily_token_quota is None && !has_cost_quota ==> r is Ok,
        !(daily_token_quota is None && !has_cost_quota) ==> match usage {
            None => r == Err::<(), QuotaRejection>(QuotaRejection { retry_after_seconds: (SECONDS_PER_DAY - now_unix % SECONDS_PER_DAY) as u64 }),
            Some(u) => if (daily_token_quota matches Some(q) && u.total_tokens >= q) || (has_cost_quota && u.cost_quota_reached) {
                r == Err::<(), QuotaRejection>(QuotaRejection { retry_after_seconds: (SECONDS_PER_DAY - now_unix % SECONDS_PER_DAY) as u64 })
            } else {
                r is Ok
            },
        },
{
    if daily_token_quota.is_none() && !has_cost_quota {
        return Ok(());
    }
    let rejection = QuotaRejection { retry_after_seconds: seconds_until_next_day_at(now_unix) };
    match usage {
        None => Err(rejection),
        Some(u) => {
            let tokens_reached = match daily_token_quota {
                Some(q) => u.total_tokens >= q,
                None => false,
            };
            if tokens_reached || (has_cost_quota && u.cost_quota_reached) {
                Err(rejection)
            } else {
                Ok(())
            }
        },
    }
}

} // verus!
