//! Token codec: mints and checks signed, expiring bearer tokens.
//!
//! A token is the ASCII string `<subject>.<issued_at>.<expires_at>.<signature>`,
//! where the three numeric claims are decimal Unix epoch seconds / identifiers
//! and the signature is the base64url HMAC-SHA256 tag of everything before the
//! third dot, keyed by the server-held secret.

use vstd::prelude::*;
use vstd::string::*;
use crate::error::Error;

verus! {

/// The decoded payload of a token: subject identity and the two timestamps.
#[derive(Clone, Copy, Debug, PartialEq, Eq, Structural)]
pub struct Claims {
    pub sub: u64,
    pub iat: u64,
    pub exp: u64,
}

pub open spec fn digit_char(d: nat) -> char {
    if d == 0 { '0' }
    else if d == 1 { '1' }
    else if d == 2 { '2' }
    else if d == 3 { '3' }
    else if d == 4 { '4' }
    else if d == 5 { '5' }
    else if d == 6 { '6' }
    else if d == 7 { '7' }
    else if d == 8 { '8' }
    else { '9' }
}

/// The value of a decimal digit, or 10 for any other character.
pub open spec fn digit_val(c: char) -> nat {
    if c == '0' { 0 }
    else if c == '1' { 1 }
    else if c == '2' { 2 }
    else if c == '3' { 3 }
    else if c == '4' { 4 }
    else if c == '5' { 5 }
    else if c == '6' { 6 }
    else if c == '7' { 7 }
    else if c == '8' { 8 }
    else if c == '9' { 9 }
    else { 10 }
}

pub open spec fn is_digit(c: char) -> bool {
    digit_val(c) < 10
}

/// The decimal rendering of `n`, most significant digit first.
pub open spec fn dec_seq(n: nat) -> Seq<char>
    decreases n,
{
    if n < 10 { seq![digit_char(n)] } else { dec_seq(n / 10).push(digit_char(n % 10)) }
}

/// The number a digit string denotes (most significant digit first).
pub open spec fn num_of(ds: Seq<char>) -> nat
    decreases ds.len(),
{
    if ds.len() == 0 { 0 } else { num_of(ds.drop_last()) * 10 + digit_val(ds.last()) }
}

/// Length of the longest all-digit prefix of `s`.
pub open spec fn digit_prefix_len(s: Seq<char>) -> nat
    decreases s.len(),
{
    if s.len() == 0 || !is_digit(s[0]) { 0 } else { 1 + digit_prefix_len(s.drop_first()) }
}

pub proof fn lemma_num_of_dec_seq(n: nat)
    ensures
        num_of(dec_seq(n)) == n,
    decreases n,
{
    assert(digit_val(digit_char(n % 10)) == n % 10);
    if n < 10 {
        assert(dec_seq(n).drop_last() =~= Seq::<char>::empty());
        assert(num_of(Seq::<char>::empty()) == 0);
        assert(digit_val(digit_char(n)) == n);
        assert(num_of(dec_seq(n)) == num_of(dec_seq(n).drop_last()) * 10 + digit_val(
            dec_seq(n).last(),
        ));
    } else {
        lemma_num_of_dec_seq(n / 10);
        assert(dec_seq(n).drop_last() =~= dec_seq(n / 10));
        assert(num_of(dec_seq(n)) == num_of(dec_seq(n).drop_last()) * 10 + digit_val(
            dec_seq(n).last(),
        ));
    }
}

pub proof fn lemma_dec_seq_digits(n: nat)
    ensures
        dec_seq(n).len() >= 1,
        forall|i: int| 0 <= i < dec_seq(n).len() ==> is_digit(#[trigger] dec_seq(n)[i]),
    decreases n,
{
    if n >= 10 {
        lemma_dec_seq_digits(n / 10);
    }
}

/// `digit_prefix_len` is pinned down by its defining properties.
pub proof fn lemma_digit_prefix_len_is(t: Seq<char>, k: int)
    requires
        0 <= k <= t.len(),
        forall|i: int| 0 <= i < k ==> is_digit(#[trigger] t[i]),
        k == t.len() || !is_digit(t[k]),
    ensures
        digit_prefix_len(t) == k,
    decreases t.len(),
{
    if k == 0 {
    } else {
        assert(is_digit(t[0]));
        assert forall|i: int| 0 <= i < k - 1 implies is_digit(#[trigger] t.drop_first()[i]) by {
            assert(t.drop_first()[i] == t[i + 1]);
        }
        if k - 1 < t.drop_first().len() {
            assert(t.drop_first()[k - 1] == t[k]);
        }
        lemma_digit_prefix_len_is(t.drop_first(), k - 1);
    }
}

pub proof fn lemma_num_of_monotone(t: Seq<char>, j: int, k: int)
    requires
        0 <= j <= k <= t.len(),
    ensures
        num_of(t.take(j)) <= num_of(t.take(k)),
    decreases k - j,
{
    if j < k {
        lemma_num_of_monotone(t, j, k - 1);
        assert(t.take(k).drop_last() =~= t.take(k - 1));
        assert(num_of(t.take(k)) == num_of(t.take(k - 1)) * 10 + digit_val(t.take(k).last()));
    }
}

/// The signed part of a token: `<sub>.<iat>.<exp>` in decimal.
pub open spec fn payload_seq(sub: nat, iat: nat, exp: nat) -> Seq<char> {
    dec_seq(sub) + seq!['.'] + dec_seq(iat) + seq!['.'] + dec_seq(exp)
}

/// Result of the HMAC-SHA256 signing call: the base64url tag of `msg` under
/// `key`, a function of the two arguments alone. The two wrappers below go
/// through jsonwebtoken's process-global crypto provider; nothing in this
/// crate installs a provider other than the one its feature selection wires.
pub uninterp spec fn hmac_b64_of(msg: Seq<char>, key: Seq<u8>) -> Seq<char>;

/// The full token for the given claims under `key`.
pub open spec fn token_seq(sub: nat, iat: nat, exp: nat, key: Seq<u8>) -> Seq<char> {
    payload_seq(sub, iat, exp) + seq!['.'] + hmac_b64_of(payload_seq(sub, iat, exp), key)
}

/// Splitting a token string: the three decimal claims before the first three
/// dots (each nonempty and fitting in `u64`), and the offset of the third dot;
/// the signature is everything after it.
pub open spec fn spec_parse(s: Seq<char>) -> Option<(nat, nat, nat, int)> {
    let k1 = digit_prefix_len(s) as int;
    if k1 == 0 || k1 + 1 > s.len() || s[k1] != '.' {
        None
    } else {
        let s2 = s.skip(k1 + 1);
        let k2 = digit_prefix_len(s2) as int;
        if k2 == 0 || k2 + 1 > s2.len() || s2[k2] != '.' {
            None
        } else {
            let s3 = s2.skip(k2 + 1);
            let k3 = digit_prefix_len(s3) as int;
            if k3 == 0 || k3 + 1 > s3.len() || s3[k3] != '.' {
                None
            } else {
                let sub = num_of(s.take(k1));
                let iat = num_of(s2.take(k2));
                let exp = num_of(s3.take(k3));
                if sub > u64::MAX || iat > u64::MAX || exp > u64::MAX {
                    None
                } else {
                    Some((sub, iat, exp, k1 + 1 + k2 + 1 + k3))
                }
            }
        }
    }
}

/// A token splits into claims and signature, and the signature is the HMAC tag
/// of the part before the third dot.
pub open spec fn well_signed(s: Seq<char>, key: Seq<u8>) -> bool {
    match spec_parse(s) {
        Some(p) => s.skip(p.3 + 1) == hmac_b64_of(s.take(p.3), key),
        None => false,
    }
}

/// A token is live at `now` iff it is well signed and not yet expired.
pub open spec fn spec_token_live(s: Seq<char>, key: Seq<u8>, now: u64) -> bool {
    match spec_parse(s) {
        Some(p) => well_signed(s, key) && (now as nat) < p.2,
        None => false,
    }
}

/// Expiry of a token minted at `now` with time-to-live `ttl`, saturating at the
/// largest representable time.
pub open spec fn exp_at(now: nat, ttl: nat) -> nat {
    if now + ttl <= u64::MAX { now + ttl } else { u64::MAX as nat }
}

fn digit_str(d: u64) -> (r: &'static str)
    requires
        d < 10,
    ensures
        r@ == seq![digit_char(d as nat)],
{
    if d == 0 { proof { reveal_strlit("0"); assert("0"@ =~= seq![digit_char(0)]); } "0" }
    else if d == 1 { proof { reveal_strlit("1"); assert("1"@ =~= seq![digit_char(1)]); } "1" }
    else if d == 2 { proof { reveal_strlit("2"); assert("2"@ =~= seq![digit_char(2)]); } "2" }
    else if d == 3 { proof { reveal_strlit("3"); assert("3"@ =~= seq![digit_char(3)]); } "3" }
    else if d == 4 { proof { reveal_strlit("4"); assert("4"@ =~= seq![digit_char(4)]); } "4" }
    else if d == 5 { proof { reveal_strlit("5"); assert("5"@ =~= seq![digit_char(5)]); } "5" }
    else if d == 6 { proof { reveal_strlit("6"); assert("6"@ =~= seq![digit_char(6)]); } "6" }
    else if d == 7 { proof { reveal_strlit("7"); assert("7"@ =~= seq![digit_char(7)]); } "7" }
    else if d == 8 { proof { reveal_strlit("8"); assert("8"@ =~= seq![digit_char(8)]); } "8" }
    else { proof { reveal_strlit("9"); assert("9"@ =~= seq![digit_char(9)]); } "9" }
}

fn char_digit_val(c: char) -> (r: u64)
    ensures
        r as nat == digit_val(c),
{
    if c == '0' { 0 }
    else if c == '1' { 1 }
    else if c == '2' { 2 }
    else if c == '3' { 3 }
    else if c == '4' { 4 }
    else if c == '5' { 5 }
    else if c == '6' { 6 }
    else if c == '7' { 7 }
    else if c == '8' { 8 }
    else if c == '9' { 9 }
    else { 10 }
}

/// Renders `n` in decimal.
pub fn u64_to_dec(n: u64) -> (r: String)
    ensures
        r@ == dec_seq(n as nat),
    decreases n,
{
    if n < 10 {
        String::from_str(digit_str(n))
    } else {
        let mut s = u64_to_dec(n / 10);
        s.append(digit_str(n % 10));
        proof {
            assert(s@ =~= dec_seq((n / 10) as nat).push(digit_char((n % 10) as nat)));
        }
        s
    }
}

/// Relies on `jsonwebtoken::crypto::sign` with HS256: the base64url-encoded
/// HMAC-SHA256 tag of the message under the secret, a deterministic function of
/// message and key alone; with a key built by `EncodingKey::from_secret` the
/// call never fails.
#[verifier::external_body]
pub(crate) fn hmac_sign(msg: &str, key: &[u8]) -> (r: String)
    ensures
        r@ == hmac_b64_of(msg@, key@),
{
    let k = jsonwebtoken::EncodingKey::from_secret(key);
    match jsonwebtoken::crypto::sign(msg.as_bytes(), &k, jsonwebtoken::Algorithm::HS256) {
        Ok(s) => s,
        // unreachable: with a from_secret key and HS256 the HMAC signer
        // accepts any key length and signing cannot fail
        Err(_) => String::new(),
    }
}

/// Relies on `jsonwebtoken::crypto::verify` with HS256: it recomputes the
/// HMAC-SHA256 tag of the message and compares in constant time, and its
/// base64url decoding accepts exactly the canonical encoding of the tag, so the
/// result is true exactly when `sig` equals the tag's base64url encoding.
#[verifier::external_body]
pub(crate) fn hmac_verify(sig: &str, msg: &str, key: &[u8]) -> (r: bool)
    ensures
        r == (sig@ == hmac_b64_of(msg@, key@)),
{
    let k = jsonwebtoken::DecodingKey::from_secret(key);
    match jsonwebtoken::crypto::verify(sig, msg.as_bytes(), &k, jsonwebtoken::Algorithm::HS256) {
        Ok(b) => b,
        Err(_) => false,
    }
}

/// Parses the decimal run of `s` that starts at `start`; returns its value and
/// the index just past it.
fn parse_u64_at(s: &str, start: usize, len: usize) -> (r: Option<(u64, usize)>)
    requires
        len == s@.len(),
        start <= len,
    ensures
        (match r {
            Some(v) => {
                let k = digit_prefix_len(s@.skip(start as int)) as int;
                &&& k >= 1
                &&& v.1 == start + k
                &&& v.0 as nat == num_of(s@.skip(start as int).take(k))
            },
            None => {
                let k = digit_prefix_len(s@.skip(start as int)) as int;
                k == 0 || num_of(s@.skip(start as int).take(k)) > u64::MAX
            },
        }),
{
    let ghost t = s@.skip(start as int);
    let mut i: usize = start;
    let mut val: u64 = 0;
    let mut stop = false;
    while i < len && !stop
        invariant
            len == s@.len(),
            start <= i <= len,
            t == s@.skip(start as int),
            forall|j: int| start <= j < i ==> is_digit(#[trigger] s@[j]),
            val as nat == num_of(t.take(i - start)),
            stop ==> (i < len && !is_digit(s@[i as int])),
        decreases len - i + (if stop { 0int } else { 1int }),
    {
        let c = s.get_char(i);
        let d = char_digit_val(c);
        if d >= 10 {
            stop = true;
        } else {
            proof {
                assert(t.take(i + 1 - start).drop_last() =~= t.take(i - start));
                assert(t.take(i + 1 - start).last() == s@[i as int]);
            }
            match val.checked_mul(10) {
                Some(m) => {
                    match m.checked_add(d) {
                        Some(nv) => {
                            val = nv;
                            i = i + 1;
                        },
                        None => {
                            proof {
                                lemma_parse_overflow(t, i - start, s@, start as int);
                            }
                            return None;
                        },
                    }
                },
                None => {
                    proof {
                        lemma_parse_overflow(t, i - start, s@, start as int);
                    }
                    return None;
                },
            }
        }
    }
    proof {
        lemma_digit_prefix_len_is(t, i - start);
    }
    if i == start {
        None
    } else {
        Some((val, i))
    }
}

/// Helper for `parse_u64_at`: once a digit prefix overflows `u64`, the whole
/// digit run does.
proof fn lemma_parse_overflow(t: Seq<char>, j: int, s: Seq<char>, start: int)
    requires
        0 <= start,
        start + t.len() == s.len(),
        t == s.skip(start),
        0 <= j < t.len(),
        forall|x: int| start <= x < start + j ==> is_digit(#[trigger] s[x]),
        is_digit(s[start + j]),
        num_of(t.take(j)) * 10 + digit_val(s[start + j]) > u64::MAX,
    ensures
        digit_prefix_len(t) == 0 || num_of(t.take(digit_prefix_len(t) as int)) > u64::MAX,
{
    let k = digit_prefix_len(t) as int;
    assert forall|x: int| 0 <= x < j + 1 implies is_digit(#[trigger] t[x]) by {
        assert(t[x] == s[start + x]);
    }
    lemma_digit_prefix_len_lower(t, j + 1);
    lemma_digit_prefix_len_le(t);
    assert(t.take(j + 1).drop_last() =~= t.take(j));
    assert(t.take(j + 1).last() == t[j]);
    assert(num_of(t.take(j + 1)) > u64::MAX);
    lemma_num_of_monotone(t, j + 1, k);
}

pub proof fn lemma_digit_prefix_len_le(t: Seq<char>)
    ensures
        digit_prefix_len(t) <= t.len(),
    decreases t.len(),
{
    if t.len() > 0 && is_digit(t[0]) {
        lemma_digit_prefix_len_le(t.drop_first());
    }
}

pub proof fn lemma_digit_prefix_len_lower(t: Seq<char>, m: int)
    requires
        0 <= m <= t.len(),
        forall|i: int| 0 <= i < m ==> is_digit(#[trigger] t[i]),
    ensures
        digit_prefix_len(t) >= m,
    decreases t.len(),
{
    if m > 0 {
        assert forall|i: int| 0 <= i < m - 1 implies is_digit(#[trigger] t.drop_first()[i]) by {
            assert(t.drop_first()[i] == t[i + 1]);
        }
        lemma_digit_prefix_len_lower(t.drop_first(), m - 1);
    }
}

/// Splits a token string into its claims and the offset of the third dot.
pub fn parse_token(s: &str) -> (r: Option<(Claims, usize)>)
    ensures
        (match spec_parse(s@) {
            Some(p) => {
                &&& r matches Some(q)
                &&& q.0.sub as nat == p.0
                &&& q.0.iat as nat == p.1
                &&& q.0.exp as nat == p.2
                &&& q.1 as int == p.3
            },
            None => r is None,
        }),
{
    let len = s.unicode_len();
    proof {
        assert(s@.skip(0) =~= s@);
    }
    let r1 = parse_u64_at(s, 0, len);
    match r1 {
        None => None,
        Some((sub, i1)) => {
            if i1 >= len || s.get_char(i1) != '.' {
                return None;
            }
            let ghost s2 = s@.skip(i1 + 1);
            let r2 = parse_u64_at(s, i1 + 1, len);
            match r2 {
                None => None,
                Some((iat, i2)) => {
                    if i2 >= len || s.get_char(i2) != '.' {
                        return None;
                    }
                    proof {
                        assert(s2[i2 - (i1 + 1)] == s@[i2 as int]);
                    }
                    let ghost s3 = s@.skip(i2 + 1);
                    let r3 = parse_u64_at(s, i2 + 1, len);
                    proof {
                        assert(s2.skip((i2 + 1) - (i1 + 1)) =~= s@.skip(i2 + 1));
                    }
                    match r3 {
                        None => None,
                        Some((exp, i3)) => {
                            if i3 >= len || s.get_char(i3) != '.' {
                                return None;
                            }
                            proof {
                                assert(s3[i3 - (i2 + 1)] == s@[i3 as int]);
                                lemma_take_of_skip(s@, 0, digit_prefix_len(s@) as int);
                                lemma_take_of_skip(s@, i1 + 1, digit_prefix_len(s2) as int);
                                lemma_take_of_skip(s@, i2 + 1, digit_prefix_len(s3) as int);
                            }
                            Some((Claims { sub, iat, exp }, i3))
                        },
                    }
                },
            }
        },
    }
}

/// `take` after `skip` reads the same window of the base sequence.
proof fn lemma_take_of_skip(s: Seq<char>, a: int, k: int)
    requires
        0 <= a,
        0 <= k,
        a + k <= s.len(),
    ensures
        s.skip(a).take(k) =~= s.subrange(a, a + k),
{
}

/// Mints and checks tokens under one signing secret.
pub struct TokenCodec {
    key: Vec<u8>,
}

impl View for TokenCodec {
    type V = Seq<u8>;

    closed spec fn view(&self) -> Seq<u8> {
        self.key@
    }
}

impl TokenCodec {
    /// The signing secret is injected here; there is no default.
    pub fn new(key: Vec<u8>) -> (r: Self)
        ensures
            r@ == key@,
    {
        TokenCodec { key }
    }

    /// Mints the token asserting `subject` from `now` until `now + ttl`
    /// (saturating), signed under this codec's secret.
    pub fn mint(&self, subject: u64, now: u64, ttl: u64) -> (r: String)
        ensures
            r@ == token_seq(subject as nat, now as nat, exp_at(now as nat, ttl as nat), self@),
    {
        let exp: u64 = if ttl <= u64::MAX - now { now + ttl } else { u64::MAX };
        let mut payload = u64_to_dec(subject);
        payload.append(".");
        payload.append(u64_to_dec(now).as_str());
        payload.append(".");
        payload.append(u64_to_dec(exp).as_str());
        proof {
            reveal_strlit(".");
            assert("."@ =~= seq!['.']);
            assert(payload@ =~= payload_seq(subject as nat, now as nat, exp_at(now as nat, ttl as nat)));
        }
        let sig = hmac_sign(payload.as_str(), self.key.as_slice());
        let mut token = payload;
        token.append(".");
        token.append(sig.as_str());
        proof {
            assert(token@ =~= token_seq(subject as nat, now as nat, exp_at(now as nat, ttl as nat), self@));
        }
        token
    }

    /// Checks signature and expiry of `token` at time `now` and returns its
    /// claims; revocation is the authenticator's concern, not the codec's.
    pub fn decode(&self, token: &str, now: u64) -> (r: Result<Claims, Error>)
        ensures
            (match spec_parse(token@) {
                Some(p) => {
                    &&& (well_signed(token@, self@) && (now as nat) < p.2) ==> (r matches Ok(c)
                        && c.sub as nat == p.0 && c.iat as nat == p.1 && c.exp as nat == p.2)
                    &&& (well_signed(token@, self@) && (now as nat) >= p.2) ==> r == Err::<
                        Claims,
                        Error,
                    >(Error::TokenExpired)
                    &&& !well_signed(token@, self@) ==> r == Err::<Claims, Error>(
                        Error::TokenInvalid,
                    )
                },
                None => r == Err::<Claims, Error>(Error::TokenInvalid),
            }),
            r matches Ok(c) ==> spec_token_live(token@, self@, now),
    {
        let len = token.unicode_len();
        match parse_token(token) {
            None => Err(Error::TokenInvalid),
            Some((claims, pl)) => {
                let payload = token.substring_char(0, pl);
                let sig = token.substring_char(pl + 1, len);
                proof {
                    assert(payload@ =~= token@.take(pl as int));
                    assert(sig@ =~= token@.skip(pl + 1));
                }
                if hmac_verify(sig, payload, self.key.as_slice()) {
                    if now < claims.exp {
                        Ok(claims)
                    } else {
                        Err(Error::TokenExpired)
                    }
                } else {
                    Err(Error::TokenInvalid)
                }
            },
        }
    }
}

/// Round trip: a token minted for given claims under `key` parses back to
/// exactly those claims and is well signed under the same `key`.
pub proof fn lemma_token_roundtrip(sub: nat, iat: nat, exp: nat, key: Seq<u8>)
    requires
        sub <= u64::MAX,
        iat <= u64::MAX,
        exp <= u64::MAX,
    ensures
        (match spec_parse(token_seq(sub, iat, exp, key)) {
            Some(p) => p.0 == sub && p.1 == iat && p.2 == exp && p.3 == payload_seq(
                sub,
                iat,
                exp,
            ).len(),
            None => false,
        }),
        well_signed(token_seq(sub, iat, exp, key), key),
{
    let d1 = dec_seq(sub);
    let d2 = dec_seq(iat);
    let d3 = dec_seq(exp);
    let pay = payload_seq(sub, iat, exp);
    let sig = hmac_b64_of(pay, key);
    let s = token_seq(sub, iat, exp, key);
    let l1 = d1.len() as int;
    let l2 = d2.len() as int;
    let l3 = d3.len() as int;
    lemma_dec_seq_digits(sub);
    lemma_dec_seq_digits(iat);
    lemma_dec_seq_digits(exp);
    assert forall|i: int| 0 <= i < l1 implies is_digit(#[trigger] s[i]) by {
        assert(s[i] == d1[i]);
    }
    assert(s[l1] == '.');
    lemma_digit_prefix_len_is(s, l1);
    let s2 = s.skip(l1 + 1);
    assert(s2 =~= d2 + seq!['.'] + d3 + seq!['.'] + sig);
    assert forall|i: int| 0 <= i < l2 implies is_digit(#[trigger] s2[i]) by {
        assert(s2[i] == d2[i]);
    }
    assert(s2[l2] == '.');
    lemma_digit_prefix_len_is(s2, l2);
    let s3 = s2.skip(l2 + 1);
    assert(s3 =~= d3 + seq!['.'] + sig);
    assert forall|i: int| 0 <= i < l3 implies is_digit(#[trigger] s3[i]) by {
        assert(s3[i] == d3[i]);
    }
    assert(s3[l3] == '.');
    lemma_digit_prefix_len_is(s3, l3);
    assert(s.take(l1) =~= d1);
    assert(s2.take(l2) =~= d2);
    assert(s3.take(l3) =~= d3);
    lemma_num_of_dec_seq(sub);
    lemma_num_of_dec_seq(iat);
    lemma_num_of_dec_seq(exp);
    assert(l1 + 1 + l2 + 1 + l3 == pay.len());
    assert(s.take(pay.len() as int) =~= pay);
    assert(s.skip(pay.len() as int + 1) =~= sig);
}

} // verus!
