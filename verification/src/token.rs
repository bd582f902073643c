//! The token service: claims, their compact payload encoding, and issuing
//! and validating signed tokens.
//!
//! A payload is `num(|subject|) subject num(|role|) role num(exp)` where
//! `num` is the twenty-digit fixed-width numeral of `codec`. Every field
//! therefore sits at an offset computable from the numerals alone, and a
//! character sequence is the payload of at most one claims record. A token
//! is the payload, a `'.'`, and the signature of the payload; the signature
//! alphabet holds no `'.'`, so the last dot splits a token unambiguously.

use vstd::prelude::*;
use crate::codec::{
    num_chars, num_to_fixed, parse_fixed, lemma_num_chars_len, lemma_num_chars_inj,
    lemma_u64_below_pow10_20,
};

verus! {

/// The decoded, validated payload of a token.
#[derive(PartialEq, Eq, Debug)]
pub struct Claims {
    pub subject: String,
    pub role: String,
    pub exp: u64,
}

/// The mathematical content of a claims record.
#[verifier::ext_equal]
pub struct ClaimsView {
    pub subject: Seq<char>,
    pub role: Seq<char>,
    pub exp: u64,
}

impl View for Claims {
    type V = ClaimsView;

    open spec fn view(&self) -> ClaimsView {
        ClaimsView { subject: self.subject@, role: self.role@, exp: self.exp }
    }
}

impl ClaimsView {
    /// Field lengths small enough for the fixed-width numerals to be exact.
    /// Every claims record held in real strings satisfies this.
    pub open spec fn bounded(self) -> bool {
        self.subject.len() <= u64::MAX && self.role.len() <= u64::MAX
    }
}

/// The payload encoding of a claims record.
pub open spec fn encode_claims(c: ClaimsView) -> Seq<char> {
    num_chars(c.subject.len() as int, 20) + c.subject + num_chars(c.role.len() as int, 20)
        + c.role + num_chars(c.exp as int, 20)
}

pub proof fn lemma_encode_len(c: ClaimsView)
    ensures
        encode_claims(c).len() == 60 + c.subject.len() + c.role.len(),
{
    lemma_num_chars_len(c.subject.len() as int, 20);
    lemma_num_chars_len(c.role.len() as int, 20);
    lemma_num_chars_len(c.exp as int, 20);
}

/// Where each part of an encoded claims record sits.
pub proof fn lemma_encode_parts(c: ClaimsView)
    ensures
        encode_claims(c).subrange(0, 20) == num_chars(c.subject.len() as int, 20),
        encode_claims(c).subrange(20, 20 + c.subject.len() as int) == c.subject,
        encode_claims(c).subrange(
            20 + c.subject.len() as int,
            40 + c.subject.len() as int,
        ) == num_chars(c.role.len() as int, 20),
        encode_claims(c).subrange(
            40 + c.subject.len() as int,
            40 + c.subject.len() as int + c.role.len() as int,
        ) == c.role,
        encode_claims(c).subrange(
            40 + c.subject.len() as int + c.role.len() as int,
            60 + c.subject.len() as int + c.role.len() as int,
        ) == num_chars(c.exp as int, 20),
{
    let a = c.subject.len() as int;
    let b = c.role.len() as int;
    lemma_encode_len(c);
    lemma_num_chars_len(a, 20);
    lemma_num_chars_len(b, 20);
    lemma_num_chars_len(c.exp as int, 20);
    assert(encode_claims(c).subrange(0, 20) =~= num_chars(a, 20));
    assert(encode_claims(c).subrange(20, 20 + a) =~= c.subject);
    assert(encode_claims(c).subrange(20 + a, 40 + a) =~= num_chars(b, 20));
    assert(encode_claims(c).subrange(40 + a, 40 + a + b) =~= c.role);
    assert(encode_claims(c).subrange(40 + a + b, 60 + a + b) =~= num_chars(c.exp as int, 20));
}

/// A character sequence encodes at most one bounded claims record.
pub proof fn lemma_encode_claims_inj(c1: ClaimsView, c2: ClaimsView)
    requires
        c1.bounded(),
        c2.bounded(),
        encode_claims(c1) == encode_claims(c2),
    ensures
        c1 == c2,
{
    lemma_encode_len(c1);
    lemma_encode_len(c2);
    lemma_encode_parts(c1);
    lemma_encode_parts(c2);
    lemma_u64_below_pow10_20();
    lemma_num_chars_inj(c1.subject.len() as int, c2.subject.len() as int, 20);
    lemma_num_chars_inj(c1.role.len() as int, c2.role.len() as int, 20);
    lemma_num_chars_inj(c1.exp as int, c2.exp as int, 20);
    assert(c1 =~= c2);
}

/// Write a claims record in the payload format.
pub fn claims_payload(c: &Claims) -> (s: String)
    ensures
        s@ == encode_claims(c@),
        c@.bounded(),
{
    let a = c.subject.as_str().unicode_len();
    let b = c.role.as_str().unicode_len();
    let mut s = num_to_fixed(a as u64, 20);
    s.append(c.subject.as_str());
    let n2 = num_to_fixed(b as u64, 20);
    s.append(n2.as_str());
    s.append(c.role.as_str());
    let n3 = num_to_fixed(c.exp, 20);
    s.append(n3.as_str());
    proof {
        assert(a as u64 as int == c@.subject.len() as int);
        assert(b as u64 as int == c@.role.len() as int);
        assert(s@ =~= encode_claims(c@));
    }
    s
}

/// Read a payload back into the claims record it encodes. Returns a record
/// exactly when `s` is the encoding of one; every other string is refused.
pub fn parse_claims(s: &str) -> (r: Option<Claims>)
    ensures
        match r {
            Some(c) => s@ == encode_claims(c@) && c@.bounded(),
            None => forall|c: ClaimsView| s@ != encode_claims(c),
        },
{
    let total = s.unicode_len();
    if total < 60 {
        proof {
            assert forall|c: ClaimsView| s@ != encode_claims(c) by {
                if s@ == encode_claims(c) {
                    lemma_encode_len(c);
                }
            }
        }
        return None;
    }
    // the subject's length
    let len_sub = match parse_fixed(s, 0) {
        Some(v) => v,
        None => {
            proof {
                assert forall|c: ClaimsView| s@ != encode_claims(c) by {
                    if s@ == encode_claims(c) {
                        lemma_claims_len_bound(s@, c, total as int);
                        lemma_encode_parts(c);
                        let v = c.subject.len() as u64;
                        assert(s@.subrange(0, 20) == num_chars(v as int, 20));
                    }
                }
            }
            return None;
        },
    };
    if len_sub > (total - 60) as u64 {
        proof {
            assert forall|c: ClaimsView| s@ != encode_claims(c) by {
                if s@ == encode_claims(c) {
                    lemma_claims_len_bound(s@, c, total as int);
                    lemma_encode_parts(c);
                    lemma_u64_below_pow10_20();
                    lemma_num_chars_inj(len_sub as int, c.subject.len() as int, 20);
                }
            }
        }
        return None;
    }
    let sub_end: usize = 20 + len_sub as usize;
    let subject = s.substring_char(20, sub_end).to_owned();
    // the role's length
    let len_role = match parse_fixed(s, sub_end) {
        Some(v) => v,
        None => {
            proof {
                assert forall|c: ClaimsView| s@ != encode_claims(c) by {
                    if s@ == encode_claims(c) {
                        lemma_claims_len_bound(s@, c, total as int);
                        lemma_encode_parts(c);
                        lemma_u64_below_pow10_20();
                        lemma_num_chars_inj(len_sub as int, c.subject.len() as int, 20);
                        let v = c.role.len() as u64;
                        assert(s@.subrange(sub_end as int, sub_end + 20) == num_chars(
                            v as int,
                            20,
                        ));
                    }
                }
            }
            return None;
        },
    };
    if len_role > (total - 60 - (len_sub as usize)) as u64 {
        proof {
            assert forall|c: ClaimsView| s@ != encode_claims(c) by {
                if s@ == encode_claims(c) {
                    lemma_claims_len_bound(s@, c, total as int);
                    lemma_encode_parts(c);
                    lemma_u64_below_pow10_20();
                    lemma_num_chars_inj(len_sub as int, c.subject.len() as int, 20);
                    lemma_num_chars_inj(len_role as int, c.role.len() as int, 20);
                }
            }
        }
        return None;
    }
    let role_start: usize = sub_end + 20;
    let role_end: usize = role_start + len_role as usize;
    let role = s.substring_char(role_start, role_end).to_owned();
    // the expiry
    let exp = match parse_fixed(s, role_end) {
        Some(v) => v,
        None => {
            proof {
                assert forall|c: ClaimsView| s@ != encode_claims(c) by {
                    if s@ == encode_claims(c) {
                        lemma_claims_len_bound(s@, c, total as int);
                        lemma_encode_parts(c);
                        lemma_u64_below_pow10_20();
                        lemma_num_chars_inj(len_sub as int, c.subject.len() as int, 20);
                        lemma_num_chars_inj(len_role as int, c.role.len() as int, 20);
                        assert(s@.subrange(role_end as int, role_end + 20) == num_chars(
                            c.exp as int,
                            20,
                        ));
                    }
                }
            }
            return None;
        },
    };
    if role_end + 20 != total {
        proof {
            assert forall|c: ClaimsView| s@ != encode_claims(c) by {
                if s@ == encode_claims(c) {
                    lemma_claims_len_bound(s@, c, total as int);
                    lemma_encode_parts(c);
                    lemma_u64_below_pow10_20();
                    lemma_num_chars_inj(len_sub as int, c.subject.len() as int, 20);
                    lemma_num_chars_inj(len_role as int, c.role.len() as int, 20);
                }
            }
        }
        return None;
    }
    let claims = Claims { subject, role, exp };
    proof {
        assert(s@ =~= s@.subrange(0, 20) + s@.subrange(20, sub_end as int) + s@.subrange(
            sub_end as int,
            role_start as int,
        ) + s@.subrange(role_start as int, role_end as int) + s@.subrange(
            role_end as int,
            total as int,
        ));
        assert(claims@.subject.len() == len_sub);
        assert(claims@.role.len() == len_role);
        assert(s@ =~= encode_claims(claims@));
    }
    Some(claims)
}

/// In any string that encodes a claims record, the record's field lengths
/// fit below the string's own length, hence in a `u64`.
proof fn lemma_claims_len_bound(s: Seq<char>, c: ClaimsView, total: int)
    requires
        s == encode_claims(c),
        s.len() == total,
        total <= usize::MAX,
    ensures
        c.subject.len() <= total - 60,
        c.role.len() <= total - 60,
        c.subject.len() + c.role.len() == total - 60,
        c.bounded(),
{
    lemma_encode_len(c);
}

} // verus!

verus! {

/// An authorization failure: why a credential was refused.
#[derive(Clone, Copy, PartialEq, Eq, Structural, Debug)]
pub enum AuthError {
    NoCredential,
    Malformed,
    Expired,
    AccessDenied,
}

/// An opaque signed serialization of a claims record.
pub struct Token {
    pub raw: String,
}

impl View for Token {
    type V = Seq<char>;

    open spec fn view(&self) -> Seq<char> {
        self.raw@
    }
}

/// The signature that the signing backend computes for a message under a
/// key. A function of message and key alone.
pub uninterp spec fn hmac_sig(msg: Seq<char>, key: Seq<u8>) -> Seq<char>;

/// No character of `s` is a dot.
pub open spec fn dot_free(s: Seq<char>) -> bool {
    forall|i: int| 0 <= i < s.len() ==> s[i] != '.'
}

/// `t` is the token carrying the claims record `c` with signature `sig`:
/// the encoded payload, a dot, and a dot-free signature.
pub open spec fn is_token_of(t: Seq<char>, c: ClaimsView, sig: Seq<char>) -> bool {
    &&& c.bounded()
    &&& dot_free(sig)
    &&& t == encode_claims(c) + seq!['.'] + sig
}

/// Indexing into a token's three parts.
pub proof fn lemma_token_index(c: ClaimsView, sig: Seq<char>, j: int)
    requires
        0 <= j < (encode_claims(c) + seq!['.'] + sig).len(),
    ensures
        (encode_claims(c) + seq!['.'] + sig).len() == encode_claims(c).len() + 1 + sig.len(),
        j < encode_claims(c).len() ==> (encode_claims(c) + seq!['.'] + sig)[j]
            == encode_claims(c)[j],
        j == encode_claims(c).len() ==> (encode_claims(c) + seq!['.'] + sig)[j] == '.',
        j > encode_claims(c).len() ==> (encode_claims(c) + seq!['.'] + sig)[j]
            == sig[j - encode_claims(c).len() - 1],
{
}

/// A token determines its claims record and signature: the dot after the
/// payload is the last dot of the token, so the decomposition is unique.
pub proof fn lemma_token_decomposition_unique(
    t: Seq<char>,
    c1: ClaimsView,
    sig1: Seq<char>,
    c2: ClaimsView,
    sig2: Seq<char>,
)
    requires
        is_token_of(t, c1, sig1),
        is_token_of(t, c2, sig2),
    ensures
        c1 == c2,
        sig1 == sig2,
{
    lemma_encode_len(c1);
    lemma_encode_len(c2);
    let p1 = encode_claims(c1).len() as int;
    let p2 = encode_claims(c2).len() as int;
    lemma_token_index(c1, sig1, p1);
    lemma_token_index(c2, sig2, p2);
    assert(t[p1] == '.');
    assert(t[p2] == '.');
    assert(p1 == p2) by {
        if p1 < p2 {
            lemma_token_index(c1, sig1, p2);
            assert(t[p2] == sig1[p2 - p1 - 1]);
        }
        if p2 < p1 {
            lemma_token_index(c2, sig2, p1);
            assert(t[p1] == sig2[p1 - p2 - 1]);
        }
    }
    assert(encode_claims(c1) =~= t.subrange(0, p1));
    assert(encode_claims(c2) =~= t.subrange(0, p2));
    lemma_encode_claims_inj(c1, c2);
    assert(sig1 =~= t.subrange(p1 + 1, t.len() as int));
    assert(sig2 =~= t.subrange(p2 + 1, t.len() as int));
}

/// Relies on `jsonwebtoken::crypto::sign` with `Algorithm::HS256` and an
/// `EncodingKey::from_secret` key: the result is the base64url (URL_SAFE,
/// no padding) form of the HMAC-SHA256 of the message under the key — a
/// function of message and key alone, over an alphabet without `'.'`.
/// HMAC signing accepts keys of any length and cannot fail.
///
/// This holds of the build's RustCrypto provider, the only crypto backend
/// this crate links. `jsonwebtoken` resolves its backend through a
/// process-global `CryptoProvider` registry; an embedding application
/// that installs another provider before first use would void this
/// contract, and must not.
#[verifier::external_body]
fn sign_payload(msg: &str, key: &Vec<u8>) -> (r: String)
    ensures
        r@ == hmac_sig(msg@, key@),
        dot_free(r@),
{
    let ek = jsonwebtoken::EncodingKey::from_secret(key.as_slice());
    jsonwebtoken::crypto::sign(msg.as_bytes(), &ek, jsonwebtoken::Algorithm::HS256).unwrap()
}

/// Relies on `jsonwebtoken::crypto::verify` with `Algorithm::HS256`: for an
/// HMAC algorithm it recomputes the signature of the message under the key
/// and compares, answering true exactly when `sig` is the base64url form of
/// that digest — the string `sign` returns. A `sig` that is not base64url
/// at all is reported as an error; either way it is not the signature.
/// Base64url decoding here is canonical: no padding and no trailing bits
/// are accepted, so exactly one string names each digest.
///
/// As with signing, this holds of the build's sole RustCrypto provider;
/// installing another process-global provider would void the contract.
#[verifier::external_body]
fn verify_sig(sig: &str, msg: &str, key: &Vec<u8>) -> (r: bool)
    ensures
        r == (sig@ == hmac_sig(msg@, key@)),
{
    let dk = jsonwebtoken::DecodingKey::from_secret(key.as_slice());
    match jsonwebtoken::crypto::verify(sig, msg.as_bytes(), &dk, jsonwebtoken::Algorithm::HS256) {
        Ok(b) => b,
        Err(_) => false,
    }
}

/// Index of the last dot of `s`, if any.
fn find_last_dot(s: &str) -> (r: Option<usize>)
    ensures
        s@.len() <= usize::MAX,
        match r {
            Some(i) => i < s@.len() && s@[i as int] == '.' && (forall|j: int|
                i < j < s@.len() ==> s@[j] != '.'),
            None => dot_free(s@),
        },
{
    let len = s.unicode_len();
    let mut k = len;
    while k > 0
        invariant
            k <= len,
            len == s@.len(),
            forall|j: int| k <= j < s@.len() ==> s@[j] != '.',
        decreases k,
    {
        k = k - 1;
        if s.get_char(k) == '.' {
            return Some(k);
        }
    }
    None
}

/// A validation result, seen mathematically.
pub open spec fn claims_result_view(r: Result<Claims, AuthError>) -> Result<
    ClaimsView,
    AuthError,
> {
    match r {
        Ok(c) => Ok(c@),
        Err(e) => Err(e),
    }
}

/// Issues and validates signed tokens under one immutable signing key,
/// supplied at construction. The signature algorithm is fixed to
/// HMAC-SHA256 by the trusted wrappers above; only the key is
/// configurable.
pub struct TokenService {
    key: Vec<u8>,
}

impl View for TokenService {
    type V = Seq<u8>;

    closed spec fn view(&self) -> Seq<u8> {
        self.key@
    }
}

impl TokenService {
    pub fn new(key: Vec<u8>) -> (s: Self)
        ensures
            s@ == key@,
    {
        TokenService { key }
    }

    /// The claims record that `issue` signs.
    pub open spec fn issued_claims(subject: Seq<char>, role: crate::roles::Role, exp: u64)
        -> ClaimsView {
        ClaimsView { subject, role: role.spec_name(), exp }
    }

    /// Build a claims record expiring `ttl` after `now`, serialize and sign
    /// it. Never fails: the HMAC backend signs any payload.
    pub fn issue(&self, subject: &str, role: crate::roles::Role, ttl: u64, now: u64) -> (t: Token)
        requires
            now + ttl <= u64::MAX,
        ensures
            ({
                let c = Self::issued_claims(subject@, role, (now + ttl) as u64);
                is_token_of(t@, c, hmac_sig(encode_claims(c), self@))
            }),
    {
        let claims = Claims {
            subject: subject.to_owned(),
            role: role.as_str().to_owned(),
            exp: now + ttl,
        };
        let payload = claims_payload(&claims);
        let sig = sign_payload(payload.as_str(), &self.key);
        let mut raw = payload;
        raw.append(".");
        raw.append(sig.as_str());
        proof {
            reveal_strlit(".");
            assert("."@ =~= seq!['.']);
            let c = Self::issued_claims(subject@, role, (now + ttl) as u64);
            assert(claims@ =~= c);
            assert(raw@ == encode_claims(c) + seq!['.'] + hmac_sig(encode_claims(c), self@));
        }
        Token { raw }
    }

    /// Check a token: structure first, then expiry, then the signature.
    /// Returns the claims exactly when the token is a well-formed payload
    /// carrying its own signature and the expiry is still in the future;
    /// an expired well-formed payload is `Expired` no matter its signature;
    /// everything else is `Malformed`.
    pub fn validate(&self, token: &Token, now: u64) -> (r: Result<Claims, AuthError>)
        ensures
            (match r {
                Ok(c) => is_token_of(token@, c@, hmac_sig(encode_claims(c@), self@))
                    && c@.exp > now,
                Err(e) => e == AuthError::Malformed || e == AuthError::Expired,
            }),
            (r is Ok) <==> (exists|c: ClaimsView|
                is_token_of(token@, c, hmac_sig(encode_claims(c), self@)) && c.exp > now),
            (r == Err::<Claims, AuthError>(AuthError::Expired)) <==> (exists|
                c: ClaimsView,
                sig: Seq<char>,
            | is_token_of(token@, c, sig) && c.exp <= now),
            claims_result_view(r) == spec_validate(token@, self@, now),
    {
        let ghost t = token@;
        let i = match find_last_dot(token.raw.as_str()) {
            Some(i) => i,
            None => {
                proof {
                    assert forall|c: ClaimsView, sig: Seq<char>|
                        !is_token_of(t, c, sig) by {
                        if is_token_of(t, c, sig) {
                            lemma_encode_len(c);
                            assert(t[encode_claims(c).len() as int] == '.');
                        }
                    }
                }
                return Err(AuthError::Malformed);
            },
        };
        let len = token.raw.as_str().unicode_len();
        let payload = token.raw.as_str().substring_char(0, i);
        let sig = token.raw.as_str().substring_char(i + 1, len);
        proof {
            // any decomposition must put its dot exactly at `i`
            assert forall|c: ClaimsView, sg: Seq<char>|
                is_token_of(t, c, sg) implies encode_claims(c).len() == i && sg == sig@ by {
                lemma_encode_len(c);
                let p = encode_claims(c).len() as int;
                assert(t[p] == '.');
                if p > i {
                    assert(t[p] != '.');
                }
                if p < i {
                    assert(t[i as int] == sg[i - p - 1]);
                }
                assert(sg =~= t.subrange(p + 1, t.len() as int));
                assert(sig@ =~= t.subrange(i + 1, t.len() as int));
            }
        }
        match parse_claims(payload) {
            None => {
                proof {
                    assert forall|c: ClaimsView, sg: Seq<char>|
                        !is_token_of(t, c, sg) by {
                        if is_token_of(t, c, sg) {
                            assert(payload@ =~= t.subrange(0, i as int));
                            assert(encode_claims(c) =~= t.subrange(0, i as int));
                        }
                    }
                }
                Err(AuthError::Malformed)
            },
            Some(claims) => {
                proof {
                    assert(t =~= encode_claims(claims@) + seq!['.'] + sig@) by {
                        assert(payload@ =~= t.subrange(0, i as int));
                        assert(sig@ =~= t.subrange(i + 1, t.len() as int));
                        assert(t[i as int] == '.');
                    }
                    assert(is_token_of(t, claims@, sig@));
                }
                if claims.exp <= now {
                    proof {
                        assert forall|c: ClaimsView, sg: Seq<char>|
                            is_token_of(t, c, sg) implies c == claims@ by {
                            lemma_token_decomposition_unique(t, c, sg, claims@, sig@);
                        }
                        lemma_spec_validate_of(t, claims@, sig@, self@, now);
                    }
                    Err(AuthError::Expired)
                } else {
                    let ok = verify_sig(sig, payload, &self.key);
                    proof {
                        assert forall|c: ClaimsView, sg: Seq<char>|
                            is_token_of(t, c, sg) implies c == claims@ && sg == sig@ by {
                            lemma_token_decomposition_unique(t, c, sg, claims@, sig@);
                        }
                        lemma_spec_validate_of(t, claims@, sig@, self@, now);
                    }
                    if ok {
                        proof {
                            assert(is_token_of(t, claims@, hmac_sig(encode_claims(claims@),
                                self@)));
                        }
                        Ok(claims)
                    } else {
                        proof {
                            assert forall|c: ClaimsView|
                                !(is_token_of(t, c, hmac_sig(encode_claims(c), self@))
                                    && c.exp > now) by {
                                if is_token_of(t, c, hmac_sig(encode_claims(c), self@)) {
                                    lemma_token_decomposition_unique(
                                        t, c, hmac_sig(encode_claims(c), self@), claims@, sig@);
                                }
                            }
                        }
                        Err(AuthError::Malformed)
                    }
                }
            },
        }
    }
}


/// The outcome of validating token text `t` under `key` at time `now`:
/// the functional mirror of `TokenService::validate`.
pub open spec fn spec_validate(t: Seq<char>, key: Seq<u8>, now: u64) -> Result<
    ClaimsView,
    AuthError,
> {
    if exists|c: ClaimsView, sig: Seq<char>| is_token_of(t, c, sig) {
        let (c, sig) = choose|c: ClaimsView, sig: Seq<char>| is_token_of(t, c, sig);
        if c.exp <= now {
            Err(AuthError::Expired)
        } else if sig == hmac_sig(encode_claims(c), key) {
            Ok(c)
        } else {
            Err(AuthError::Malformed)
        }
    } else {
        Err(AuthError::Malformed)
    }
}

/// What `spec_validate` gives on a token with a known decomposition.
pub proof fn lemma_spec_validate_of(
    t: Seq<char>,
    c: ClaimsView,
    sig: Seq<char>,
    key: Seq<u8>,
    now: u64,
)
    requires
        is_token_of(t, c, sig),
    ensures
        spec_validate(t, key, now) == (if c.exp <= now {
            Err::<ClaimsView, AuthError>(AuthError::Expired)
        } else if sig == hmac_sig(encode_claims(c), key) {
            Ok::<ClaimsView, AuthError>(c)
        } else {
            Err::<ClaimsView, AuthError>(AuthError::Malformed)
        }),
{
    let (cc, ss) = choose|cc: ClaimsView, ss: Seq<char>| is_token_of(t, cc, ss);
    assert(is_token_of(t, cc, ss));
    lemma_token_decomposition_unique(t, cc, ss, c, sig);
}

/// The round trip of the token service: a token issued for a subject, role
/// and expiry validates, before that expiry, back to exactly that subject,
/// role spelling and expiry, under the same key.
pub proof fn lemma_issue_validate_round_trip(
    t: Seq<char>,
    subject: Seq<char>,
    role: crate::roles::Role,
    exp: u64,
    key: Seq<u8>,
    now: u64,
)
    requires
        // what `issue` ensures of the token it returns
        is_token_of(
            t,
            TokenService::issued_claims(subject, role, exp),
            hmac_sig(encode_claims(TokenService::issued_claims(subject, role, exp)), key),
        ),
        now < exp,
    ensures
        spec_validate(t, key, now) == Ok::<ClaimsView, AuthError>(
            TokenService::issued_claims(subject, role, exp),
        ),
{
    let c = TokenService::issued_claims(subject, role, exp);
    lemma_spec_validate_of(t, c, hmac_sig(encode_claims(c), key), key, now);
}

} // verus!
