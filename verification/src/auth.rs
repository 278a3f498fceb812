//! Bearer tokens, token claims and password checks.

use vstd::prelude::*;
use vstd::utf8::encode_utf8;
use crate::text::{
    all_ascii, ascii_chars, ascii_string, has_prefix, header_is_text, is_header_text, push_all,
};

verus! {

/// What a session token carries: the user's id and when the token expires
/// (seconds since the Unix epoch).
pub struct Claims {
    pub sub: u32,
    pub exp: usize,
}

/// `Bearer `
pub open spec fn bearer_prefix() -> Seq<u8> {
    seq![66u8, 101u8, 97u8, 114u8, 101u8, 114u8, 32u8]
}

/// The text of a header value, or the empty text when it holds bytes that
/// are not visible ASCII.
pub open spec fn header_text(v: Seq<u8>) -> Seq<u8> {
    if header_is_text(v) {
        v
    } else {
        Seq::empty()
    }
}

/// `s` with every leading `Bearer ` removed, one after another.
pub open spec fn strip_bearers(s: Seq<u8>) -> Seq<u8>
    decreases s.len(),
{
    if has_prefix(s, bearer_prefix()) {
        strip_bearers(s.subrange(7, s.len() as int))
    } else {
        s
    }
}

/// The token of an `Authorization` header: present when the header reads as
/// text that starts with `Bearer `, and then that text without its leading
/// `Bearer `s.
pub open spec fn spec_get_token(authorization: Option<Seq<u8>>) -> Option<Seq<char>> {
    match authorization {
        None => None,
        Some(v) => {
            let t = header_text(v);
            if has_prefix(t, bearer_prefix()) {
                Some(ascii_chars(strip_bearers(t)))
            } else {
                None
            }
        },
    }
}

/// Every leading `Bearer ` is removed: what is left does not start with one.
pub proof fn law_stripped_token_has_no_bearer(s: Seq<u8>)
    ensures
        !has_prefix(strip_bearers(s), bearer_prefix()),
    decreases s.len(),
{
    if has_prefix(s, bearer_prefix()) {
        law_stripped_token_has_no_bearer(s.subrange(7, s.len() as int));
    }
}

/// What is left after the leading `Bearer `s is the end of the text, and whole
/// prefixes of seven bytes were removed to reach it.
pub proof fn lemma_strip_bearers_suffix(s: Seq<u8>)
    ensures
        strip_bearers(s).len() <= s.len(),
        (s.len() - strip_bearers(s).len()) % 7 == 0,
        strip_bearers(s) == s.subrange(s.len() - strip_bearers(s).len(), s.len() as int),
    decreases s.len(),
{
    if has_prefix(s, bearer_prefix()) {
        let r = s.subrange(7, s.len() as int);
        lemma_strip_bearers_suffix(r);
        let k = strip_bearers(r).len();
        assert(r.subrange(r.len() - k, r.len() as int) =~= s.subrange(s.len() - k, s.len() as int));
    } else {
        assert(s.subrange(0, s.len() as int) =~= s);
    }
}

/// A text header `Bearer <rest>`, where `rest` does not itself start with
/// `Bearer `, gives exactly `rest` as its token.
pub proof fn law_token_is_rest_of_header(rest: Seq<u8>)
    requires
        header_is_text(bearer_prefix() + rest),
        !has_prefix(rest, bearer_prefix()),
    ensures
        spec_get_token(Some(bearer_prefix() + rest)) == Some(ascii_chars(rest)),
{
    let v = bearer_prefix() + rest;
    assert(v.subrange(0, 7) =~= bearer_prefix());
    assert(v.subrange(7, v.len() as int) =~= rest);
    assert(has_prefix(v, bearer_prefix()));
    assert(header_text(v) == v);
    assert(strip_bearers(rest) == rest);
    assert(strip_bearers(v) == strip_bearers(v.subrange(7, v.len() as int)));
}

/// A token is always the whole end of the header text: the header minus a
/// whole number (at least one) of seven-byte `Bearer ` prefixes, nothing cut
/// from its end.
pub proof fn law_token_is_header_tail(v: Seq<u8>)
    ensures
        spec_get_token(Some(v)) matches Some(t) ==> {
            &&& header_is_text(v)
            &&& has_prefix(v, bearer_prefix())
            &&& t.len() + 7 <= v.len()
            &&& (v.len() - t.len()) % 7 == 0
            &&& t == ascii_chars(v.subrange(v.len() - t.len(), v.len() as int))
        },
{
    if header_is_text(v) && has_prefix(v, bearer_prefix()) {
        lemma_strip_bearers_suffix(v);
        let r = v.subrange(7, v.len() as int);
        lemma_strip_bearers_suffix(r);
        assert(strip_bearers(v) == strip_bearers(r));
    } else if !header_is_text(v) {
        assert(!has_prefix(Seq::<u8>::empty(), bearer_prefix()));
    }
}

/// Whether `Bearer ` stands in `v` at `at`.
fn bearer_at(v: &[u8], at: usize) -> (res: bool)
    requires
        at <= v@.len(),
    ensures
        res == has_prefix(v@.subrange(at as int, v@.len() as int), bearer_prefix()),
{
    let n = v.len();
    if n - at < 7 {
        return false;
    }
    let r = v[at] == 66 && v[at + 1] == 101 && v[at + 2] == 97 && v[at + 3] == 114 && v[at + 4]
        == 101 && v[at + 5] == 114 && v[at + 6] == 32;
    assert(r == (v@.subrange(at as int, n as int).subrange(0, 7) =~= bearer_prefix()));
    r
}

/// The bearer token of an `Authorization` header, given the header's raw bytes.
pub fn get_token(authorization: Option<&[u8]>) -> (res: Option<String>)
    ensures
        (match res {
            Some(t) => Some(t@),
            None => None,
        }) == spec_get_token(
            match authorization {
                Some(v) => Some(v@),
                None => None,
            },
        ),
{
    let v = match authorization {
        None => {
            return None;
        },
        Some(v) => v,
    };
    if !is_header_text(v) {
        assert(!has_prefix(header_text(v@), bearer_prefix()));
        return None;
    }
    let n = v.len();
    if !bearer_at(v, 0) {
        assert(v@.subrange(0, n as int) =~= v@);
        return None;
    }
    assert(v@.subrange(0, n as int) =~= v@);
    let mut at: usize = 0;
    while bearer_at(v, at)
        invariant
            n == v@.len(),
            at <= n,
            strip_bearers(v@) == strip_bearers(v@.subrange(at as int, n as int)),
        decreases n - at,
    {
        let ghost cur = v@.subrange(at as int, n as int);
        assert(cur.subrange(7, cur.len() as int) =~= v@.subrange(at + 7, n as int));
        at = at + 7;
    }
    let mut out: Vec<u8> = Vec::new();
    push_all(&mut out, &v[at..n]);
    proof {
        let rest = v@.subrange(at as int, n as int);
        assert(strip_bearers(rest) == rest);
        assert(out@ == rest);
        assert(all_ascii(out@)) by {
            assert forall|i: int| 0 <= i < out@.len() implies #[trigger] out@[i] < 128 by {
                assert(out@[i] == v@[at + i]);
            }
        }
    }
    Some(ascii_string(out))
}

/// The verdict of `bcrypt::verify` on a password and a stored hash: whether
/// they match, or `None` where bcrypt reports an error.
pub uninterp spec fn bcrypt_verdict(password: Seq<char>, hash: Seq<char>) -> Option<bool>;

/// A password matches a stored hash.
pub open spec fn password_matches(password: Seq<char>, hash: Seq<char>) -> bool {
    bcrypt_verdict(password, hash) == Some(true)
}

/// Calls `bcrypt::verify`, which recomputes the hash of `password` with the
/// cost and salt read from `hash` and compares. Its result is named
/// `bcrypt_verdict`; bcrypt refuses every hash that is not 60 bytes long.
#[verifier::external_body]
fn bcrypt_verify(password: &str, hash: &str) -> (res: Option<bool>)
    ensures
        res == bcrypt_verdict(password@, hash@),
        encode_utf8(hash@).len() != 60 ==> res is None,
{
    bcrypt::verify(password, hash).ok()
}

/// The bcrypt cost with which passwords are stored (bcrypt's `DEFAULT_COST`).
pub const PASSWORD_COST: u32 = 12;

/// The first seven bytes of a bcrypt hash of the given cost, as `bcrypt::hash`
/// writes them: `$2b$`, the cost in two digits, `$`.
pub open spec fn bcrypt_prefix(cost: u32) -> Seq<u8> {
    seq![36u8, 50u8, 98u8, 36u8, (48 + cost / 10) as u8, (48 + cost % 10) as u8, 36u8]
}

/// Why bcrypt could not hash a password.
#[derive(Debug, PartialEq, Eq, Structural)]
pub enum HashFailure {
    /// The cost lies outside 4..=31.
    CostNotAllowed,
    /// The operating system's random source gave no salt.
    RandomSource,
}

/// Calls `bcrypt::hash` with the given cost. bcrypt first draws a random salt
/// from the operating system, then refuses a cost outside 4..=31; so a refused
/// cost always fails, and a failure at an allowed cost is the random draw.
/// On success it writes 60 bytes: `$2b$`, the cost in two digits, `$`, then the
/// salt and hash in base64; `bcrypt::verify` accepts the password against them
/// (both hash the same bytes with the same cost and salt). Which hash comes
/// back, and whether the draw succeeds, is left open.
#[verifier::external_body]
fn bcrypt_hash(password: &str, cost: u32) -> (res: Result<String, HashFailure>)
    ensures
        !(4 <= cost <= 31) ==> res is Err,
        res matches Err(e) ==> (e is CostNotAllowed ==> !(4 <= cost <= 31)),
        res matches Err(e) ==> (4 <= cost <= 31 ==> e is RandomSource),
        res matches Ok(h) ==> encode_utf8(h@).len() == 60 && encode_utf8(h@).subrange(0, 7)
            == bcrypt_prefix(cost) && bcrypt_verdict(password@, h@) == Some(true),
{
    match bcrypt::hash(password, cost) {
        Ok(h) => Ok(h),
        Err(bcrypt::BcryptError::CostNotAllowed(_)) => Err(HashFailure::CostNotAllowed),
        Err(_) => Err(HashFailure::RandomSource),
    }
}

/// Whether `password` matches the stored `hash`; a hash that bcrypt cannot
/// read matches nothing.
pub fn check_password(password: &str, hash: &str) -> (res: bool)
    ensures
        res == password_matches(password@, hash@),
        encode_utf8(hash@).len() != 60 ==> !res,
{
    match bcrypt_verify(password, hash) {
        Some(ok) => ok,
        None => false,
    }
}

/// Hashes a password for storage at cost [`PASSWORD_COST`]. At this cost
/// bcrypt can only fail to draw its random salt.
pub fn hash_password(password: &str) -> (res: Result<String, HashFailure>)
    ensures
        res matches Err(e) ==> e is RandomSource,
        res matches Ok(h) ==> password_matches(password@, h@),
        res matches Ok(h) ==> encode_utf8(h@).len() == 60,
        res matches Ok(h) ==> encode_utf8(h@).subrange(0, 7) == bcrypt_prefix(PASSWORD_COST),
{
    bcrypt_hash(password, PASSWORD_COST)
}

/// How far a sign-up got before it ended.
pub enum SignupOutcome {
    /// The password could not be hashed.
    HashFailed,
    /// The account could not be stored (it exists already).
    InsertFailed,
    /// The account was stored but the verification e-mail was not sent.
    EmailFailed,
    /// The account was stored and the e-mail sent.
    Done,
}

/// The HTTP status that answers a sign-up.
pub open spec fn signup_status(outcome: SignupOutcome) -> u16 {
    match outcome {
        SignupOutcome::HashFailed => 500,
        SignupOutcome::InsertFailed => 409,
        SignupOutcome::EmailFailed => 500,
        SignupOutcome::Done => 201,
    }
}

/// The text that answers a sign-up.
pub open spec fn signup_message(outcome: SignupOutcome) -> Seq<char> {
    match outcome {
        SignupOutcome::HashFailed => "Failed to hash password"@,
        SignupOutcome::InsertFailed => "User already exists"@,
        SignupOutcome::EmailFailed => "Could not send verification email."@,
        SignupOutcome::Done => "Signup successful! Please check your email to verify your account."@,
    }
}

/// The status and text that answer a sign-up that ended as `outcome`.
pub fn signup_response(outcome: SignupOutcome) -> (res: (u16, String))
    ensures
        res.0 == signup_status(outcome),
        res.1@ == signup_message(outcome),
{
    match outcome {
        SignupOutcome::HashFailed => (500, String::from_str("Failed to hash password")),
        SignupOutcome::InsertFailed => (409, String::from_str("User already exists")),
        SignupOutcome::EmailFailed => (500, String::from_str("Could not send verification email.")),
        SignupOutcome::Done => (
            201,
            String::from_str("Signup successful! Please check your email to verify your account."),
        ),
    }
}

/// The claims `(sub, exp)` that `token` carries, read as unsigned integers,
/// when `jsonwebtoken` accepts it under `secret` with HS256 in every respect
/// but its expiry: a well-formed token, an HS256 header, a valid signature,
/// an `exp` claim, no `aud` claim. `None` otherwise.
pub uninterp spec fn jwt_claims(token: Seq<char>, secret: Seq<u8>) -> Option<(u64, u64)>;

/// Calls `jsonwebtoken::decode` with `DecodingKey::from_secret(secret)` and
/// `Validation::new(Algorithm::HS256)`, decoding the claims into a JSON object,
/// and hands back its `sub` and `exp` when both are unsigned integers. The
/// validation also compares `exp` (with 60 seconds of leeway) against the
/// clock, so a token is refused once expired: whatever comes back, a value
/// that does is the token's claims, named `jwt_claims`.
#[verifier::external_body]
fn jwt_decode(token: &str, secret: &[u8]) -> (res: Option<(u64, u64)>)
    ensures
        res matches Some(c) ==> jwt_claims(token@, secret@) == Some(c),
{
    let data = jsonwebtoken::decode::<serde_json::Map<String, serde_json::Value>>(
        token,
        &jsonwebtoken::DecodingKey::from_secret(secret),
        &jsonwebtoken::Validation::new(jsonwebtoken::Algorithm::HS256),
    ).ok()?;
    let sub = data.claims.get("sub")?.as_u64()?;
    let exp = data.claims.get("exp")?.as_u64()?;
    Some((sub, exp))
}

/// The claims that decoded token claims `(sub, exp)` give: the claims
/// themselves when `sub` fits a `u32` and `exp` a `usize`, none otherwise.
pub open spec fn accepted_claims(decoded: Option<(u64, u64)>) -> Option<Claims> {
    match decoded {
        Some((sub, exp)) => if sub <= u32::MAX && exp <= usize::MAX {
            Some(Claims { sub: sub as u32, exp: exp as usize })
        } else {
            None
        },
        None => None,
    }
}

/// Turns decoded token claims into the session's [`Claims`], refusing a user id
/// that does not fit a `u32` or an expiry that does not fit a `usize`.
pub fn accept_claims(decoded: Option<(u64, u64)>) -> (res: Option<Claims>)
    ensures
        res == accepted_claims(decoded),
{
    match decoded {
        None => None,
        Some((sub, exp)) => {
            if sub > u32::MAX as u64 || exp > usize::MAX as u64 {
                None
            } else {
                Some(Claims { sub: sub as u32, exp: exp as usize })
            }
        },
    }
}

/// Decoded claims in range are accepted as they are; out of range, or absent,
/// nothing is accepted.
pub proof fn law_in_range_claims_are_accepted(sub: u64, exp: u64)
    ensures
        sub <= u32::MAX && exp <= usize::MAX ==> (accepted_claims(Some((sub, exp))) matches Some(
            c,
        ) && c.sub == sub && c.exp == exp),
        sub > u32::MAX || exp > usize::MAX ==> accepted_claims(Some((sub, exp))) is None,
        accepted_claims(None) is None,
{
}

/// The claims of a session token signed with `secret`, when its signature is
/// valid, it has not expired, and its user id fits a `u32` and its expiry a
/// `usize`.
pub fn verify_jwt(token: &str, secret: &[u8]) -> (res: Option<Claims>)
    ensures
        res matches Some(c) ==> jwt_claims(token@, secret@) == Some((c.sub as u64, c.exp as u64)),
        (jwt_claims(token@, secret@) matches Some(c) && (c.0 > u32::MAX || c.1 > usize::MAX))
            ==> res is None,
{
    accept_claims(jwt_decode(token, secret))
}

/// The character that a random byte stands for in a verification token: the
/// byte modulo 62, read in `A`..=`Z`, `a`..=`z`, `0`..=`9`.
pub open spec fn token_char(b: u8) -> u8 {
    let i = b % 62;
    if i < 26 {
        (65 + i) as u8
    } else if i < 52 {
        (97 + i - 26) as u8
    } else {
        (48 + i - 52) as u8
    }
}

/// The token characters that random bytes give, in order: each byte below 248
/// (four times 62, so that every character is equally likely) gives one; the
/// others are passed over.
pub open spec fn token_chars(s: Seq<u8>) -> Seq<u8>
    decreases s.len(),
{
    if s.len() == 0 {
        Seq::empty()
    } else if s.last() < 248 {
        token_chars(s.drop_last()).push(token_char(s.last()))
    } else {
        token_chars(s.drop_last())
    }
}

/// A verification token of `len` characters made from random bytes: the first
/// `len` characters that the bytes give, when they give that many.
pub fn verification_token(random: &[u8], len: usize) -> (res: Option<String>)
    ensures
        res is Some <==> token_chars(random@).len() >= len,
        res matches Some(t) ==> t@ == ascii_chars(token_chars(random@).take(len as int)),
{
    let n = random.len();
    let mut out: Vec<u8> = Vec::new();
    let mut i: usize = 0;
    assert(random@.take(0) =~= Seq::<u8>::empty());
    while i < n
        invariant
            n == random@.len(),
            i <= n,
            out@.len() <= len,
            out@ == (if token_chars(random@.take(i as int)).len() <= len {
                token_chars(random@.take(i as int))
            } else {
                token_chars(random@.take(i as int)).take(len as int)
            }),
            forall|j: int| 0 <= j < out@.len() ==> #[trigger] out@[j] < 128,
        decreases n - i,
    {
        let b = random[i];
        let ghost before = token_chars(random@.take(i as int));
        assert(random@.take(i + 1).drop_last() =~= random@.take(i as int));
        assert(random@.take(i + 1).last() == b);
        if b < 248 {
            let r: u8 = b % 62;
            let c: u8 = if r < 26 {
                65 + r
            } else if r < 52 {
                97 + r - 26
            } else {
                48 + r - 52
            };
            assert(c == token_char(b));
            if out.len() < len {
                out.push(c);
                assert(out@ =~= before.push(c));
            } else {
                assert(before.push(c).take(len as int) =~= before.take(len as int));
            }
        }
        i = i + 1;
    }
    assert(random@.take(n as int) =~= random@);
    if out.len() < len {
        None
    } else {
        Some(ascii_string(out))
    }
}

/// The earliest instant chrono represents, -262143-01-01T00:00:00Z, as a
/// Unix timestamp.
pub open spec fn chrono_first_timestamp() -> int {
    -8334601228800
}

/// The latest whole second chrono represents, 262142-12-31T23:59:59Z, as a
/// Unix timestamp.
pub open spec fn chrono_last_timestamp() -> int {
    8210266876799
}

/// An instant that chrono can represent, in whole seconds.
pub open spec fn chrono_in_range(t: int) -> bool {
    chrono_first_timestamp() <= t <= chrono_last_timestamp()
}

/// `chrono::DateTime::checked_add_signed` of `secs` seconds (a
/// `TimeDelta::try_seconds`) on the instant `now` (a Unix timestamp read with
/// `DateTime::from_timestamp_secs`), given back as a timestamp. chrono gives a
/// value exactly when both instants lie in its range (its dates run from
/// -262143-01-01 to 262142-12-31), and then it is `now + secs`.
#[verifier::external_body]
fn chrono_add_secs(now: i64, secs: i64) -> (res: Option<i64>)
    ensures
        res is Some <==> (chrono_in_range(now as int) && chrono_in_range(now + secs)),
        res matches Some(t) ==> t == now + secs,
{
    match chrono::DateTime::from_timestamp_secs(now) {
        Some(d) => match chrono::TimeDelta::try_seconds(secs) {
            Some(delta) => match d.checked_add_signed(delta) {
                Some(later) => Some(later.timestamp()),
                None => None,
            },
            None => None,
        },
        None => None,
    }
}

/// How long a session token lasts: 24 hours, in seconds.
pub const TOKEN_LIFETIME_SECS: i64 = 86400;

/// The claims of a session token issued at `now` (seconds since the epoch)
/// for `user_id`: it expires [`TOKEN_LIFETIME_SECS`] later. `None` exactly where
/// chrono cannot represent the issue or the expiry instant.
pub fn token_claims(user_id: u32, now: i64) -> (res: Option<Claims>)
    ensures
        res is Some <==> chrono_in_range(now as int) && chrono_in_range(now + TOKEN_LIFETIME_SECS),
        res matches Some(c) ==> c.sub == user_id && c.exp == (now + TOKEN_LIFETIME_SECS) as usize,
{
    match chrono_add_secs(now, TOKEN_LIFETIME_SECS) {
        Some(t) => Some(Claims { sub: user_id, exp: t as usize }),
        None => None,
    }
}

} // verus!
