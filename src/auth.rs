//! Request integrity: a signature header (hex HMAC-SHA256 over the body and
//! the timestamp), a timestamp window, and one-time nonces.

use vstd::prelude::*;
use vstd::utf8::encode_utf8;
use hmac::{Hmac, Mac};
use sha2::Sha256;
use crate::nonce::{nonce_step, NonceKey, NonceStore, MAX_NONCES};
use crate::text::{chars_of, int_in};

verus! {

/// Why a request was refused.
#[derive(Clone, Copy, Debug, PartialEq, Eq, Structural)]
pub enum AuthError {
    /// The signature or the timestamp header is absent.
    MissingHeader,
    /// The timestamp header is no decimal `i64`.
    BadTimestamp,
    /// The timestamp lies outside the window around the current time.
    Expired,
    /// The (timestamp, signature) pair was seen before.
    ReplayDetected,
    /// The signature is not the HMAC of the body and the timestamp.
    InvalidSignature,
}

/// The HMAC-SHA256 tag of `msg` under `key`.
pub uninterp spec fn hmac_sha256_of(key: Seq<u8>, msg: Seq<u8>) -> Seq<u8>;

/// A hexadecimal digit in lower case, for `n` below 16.
pub open spec fn hex_digit(n: int) -> char {
    seq!['0', '1', '2', '3', '4', '5', '6', '7', '8', '9', 'a', 'b', 'c', 'd', 'e', 'f'][n]
}

/// `b` in lower-case hexadecimal, two digits per byte, high nibble first.
pub open spec fn hex_of(b: Seq<u8>) -> Seq<char> {
    Seq::new(
        2 * b.len(),
        |i: int|
            if i % 2 == 0 {
                hex_digit(b[i / 2] as int / 16)
            } else {
                hex_digit(b[i / 2] as int % 16)
            },
    )
}

/// The bytes that a request's signature covers: the body, then the
/// timestamp header's own bytes.
pub open spec fn signed_bytes(body: Seq<u8>, time: Seq<char>) -> Seq<u8> {
    body + encode_utf8(time)
}

/// The signature header that a request with this body and timestamp header
/// must carry.
pub open spec fn signature_for(secret: Seq<u8>, body: Seq<u8>, time: Seq<char>) -> Seq<char> {
    hex_of(hmac_sha256_of(secret, signed_bytes(body, time)))
}

/// Whether `ts` lies more than `window` whole seconds from `now` (both in milliseconds).
pub open spec fn expired(ts: int, now: int, window: int) -> bool {
    (if now >= ts { now - ts } else { ts - now }) / 1000 > window
}

/// The view of an optional header.
pub open spec fn header_of(h: Option<&str>) -> Option<Seq<char>> {
    match h {
        Some(s) => Some(s@),
        None => None,
    }
}

/// The verdict on a request, and the nonces remembered afterwards, for a
/// service with key `secret`, window `window` (seconds) and nonces `seen`,
/// at time `now` (milliseconds since the epoch).
pub open spec fn auth_check(
    secret: Seq<u8>,
    window: i64,
    seen: Seq<NonceKey>,
    auth: Option<Seq<char>>,
    time: Option<Seq<char>>,
    body: Seq<u8>,
    now: int,
) -> (Result<(), AuthError>, Seq<NonceKey>) {
    match (auth, time) {
        (Some(a), Some(t)) => match int_in(t, i64::MIN as int, i64::MAX as int) {
            None => (Err(AuthError::BadTimestamp), seen),
            Some(ts) => if expired(ts, now, window as int) {
                (Err(AuthError::Expired), seen)
            } else {
                let (fresh, after) = nonce_step(seen, (ts as i64, a));
                if !fresh {
                    (Err(AuthError::ReplayDetected), seen)
                } else if signature_for(secret, body, t) == a {
                    (Ok(()), after)
                } else {
                    (Err(AuthError::InvalidSignature), after)
                }
            },
        },
        _ => (Err(AuthError::MissingHeader), seen),
    }
}

/// A request whose signature header is the hex HMAC, under the shared
/// secret, of its body followed by its timestamp header is accepted, where
/// the timestamp is within the window and the nonce is fresh.
pub proof fn law_signed_request_accepted(
    secret: Seq<u8>,
    window: i64,
    seen: Seq<NonceKey>,
    t: Seq<char>,
    body: Seq<u8>,
    now: int,
)
    requires
        int_in(t, i64::MIN as int, i64::MAX as int) is Some,
        !expired(int_in(t, i64::MIN as int, i64::MAX as int)->0, now, window as int),
        !seen.contains((int_in(t, i64::MIN as int, i64::MAX as int)->0 as i64, signature_for(secret, body, t))),
    ensures
        auth_check(secret, window, seen, Some(signature_for(secret, body, t)), Some(t), body, now).0
            is Ok,
{
}

/// A request is accepted only if its signature header is the hex HMAC of
/// its own body and timestamp: a request whose body or timestamp was altered
/// keeps its old signature and is accepted only if the HMAC of the altered
/// bytes is that same signature.
pub proof fn law_accepted_only_if_signed(
    secret: Seq<u8>,
    window: i64,
    seen: Seq<NonceKey>,
    a: Seq<char>,
    t: Seq<char>,
    body: Seq<u8>,
    now: int,
)
    ensures
        auth_check(secret, window, seen, Some(a), Some(t), body, now).0 is Ok ==> a
            == signature_for(secret, body, t),
{
}

/// Replay: once a request got past the nonce check (accepted, or refused for
/// its signature), the same (timestamp, signature) pair sent again within the
/// window is refused as a replay, unless recording it overflowed the store.
pub proof fn law_replay_refused(
    secret: Seq<u8>,
    window: i64,
    seen: Seq<NonceKey>,
    a: Seq<char>,
    t: Seq<char>,
    body: Seq<u8>,
    body2: Seq<u8>,
    now: int,
    now2: int,
)
    requires
        seen.len() < MAX_NONCES,
        auth_check(secret, window, seen, Some(a), Some(t), body, now).0 is Ok
            || auth_check(secret, window, seen, Some(a), Some(t), body, now).0 == Err::<
            (),
            AuthError,
        >(AuthError::InvalidSignature),
        int_in(t, i64::MIN as int, i64::MAX as int) is Some,
        !expired(int_in(t, i64::MIN as int, i64::MAX as int)->0, now2, window as int),
    ensures
        auth_check(
            secret,
            window,
            auth_check(secret, window, seen, Some(a), Some(t), body, now).1,
            Some(a),
            Some(t),
            body2,
            now2,
        ).0 == Err::<(), AuthError>(AuthError::ReplayDetected),
{
    let ts = int_in(t, i64::MIN as int, i64::MAX as int)->0;
    let k = (ts as i64, a);
    let after = auth_check(secret, window, seen, Some(a), Some(t), body, now).1;
    assert(after == seen.push(k));
    assert(after[seen.len() as int] == k);
}

/// Expiry: a timestamp more than `window + 1` seconds before `now` is refused
/// as expired, and no nonce is recorded.
pub proof fn law_expired(
    secret: Seq<u8>,
    window: i64,
    seen: Seq<NonceKey>,
    a: Seq<char>,
    t: Seq<char>,
    body: Seq<u8>,
    now: int,
)
    requires
        int_in(t, i64::MIN as int, i64::MAX as int) is Some,
        now - int_in(t, i64::MIN as int, i64::MAX as int)->0 > (window + 1) * 1000,
    ensures
        auth_check(secret, window, seen, Some(a), Some(t), body, now) == (
            Err::<(), AuthError>(AuthError::Expired),
            seen,
        ),
{
    let ts = int_in(t, i64::MIN as int, i64::MAX as int)->0;
    let w = window as int;
    if now >= ts {
        assert((now - ts) / 1000 > w) by (nonlinear_arith)
            requires
                now - ts > (w + 1) * 1000,
                now - ts >= 0,
        ;
    } else {
        assert(w + 1 < 0) by (nonlinear_arith)
            requires
                now - ts > (w + 1) * 1000,
                now - ts < 0,
        ;
        assert((ts - now) / 1000 >= 0);
    }
}

/// The verdict on a request's headers before its signature is looked at,
/// and the nonces remembered afterwards: `auth_check` up to the signature.
pub open spec fn admission(
    window: i64,
    seen: Seq<NonceKey>,
    auth: Option<Seq<char>>,
    time: Option<Seq<char>>,
    now: int,
) -> (Result<(), AuthError>, Seq<NonceKey>) {
    match (auth, time) {
        (Some(a), Some(t)) => match int_in(t, i64::MIN as int, i64::MAX as int) {
            None => (Err(AuthError::BadTimestamp), seen),
            Some(ts) => if expired(ts, now, window as int) {
                (Err(AuthError::Expired), seen)
            } else {
                let (fresh, after) = nonce_step(seen, (ts as i64, a));
                if !fresh {
                    (Err(AuthError::ReplayDetected), seen)
                } else {
                    (Ok(()), after)
                }
            },
        },
        _ => (Err(AuthError::MissingHeader), seen),
    }
}

/// Bounded memory, one request at a time: no request leaves more than
/// `MAX_NONCES` nonces remembered, and a request that passes the freshness
/// checks while `MAX_NONCES` are remembered leaves none (the whole set is
/// cleared at once, whatever its signature).
pub proof fn law_nonce_bound(
    secret: Seq<u8>,
    window: i64,
    seen: Seq<NonceKey>,
    auth: Option<Seq<char>>,
    time: Option<Seq<char>>,
    body: Seq<u8>,
    now: int,
)
    requires
        seen.len() <= MAX_NONCES,
    ensures
        auth_check(secret, window, seen, auth, time, body, now).1.len() <= MAX_NONCES,
        seen.len() == MAX_NONCES && admission(window, seen, auth, time, now).0 is Ok ==> auth_check(
            secret,
            window,
            seen,
            auth,
            time,
            body,
            now,
        ).1.len() == 0,
{
}

/// Relies on hmac's `Mac::new_from_slice`, `update` and `finalize` over
/// SHA-256: the tag depends on the key and message alone. `new_from_slice`
/// accepts keys of every length for HMAC, so a tag always comes back.
#[verifier::external_body]
fn hmac_sha256(key: &[u8], msg: &[u8]) -> (r: Option<Vec<u8>>)
    ensures
        r is Some,
        r->0@ == hmac_sha256_of(key@, msg@),
{
    match <Hmac<Sha256> as Mac>::new_from_slice(key) {
        Ok(mut mac) => {
            mac.update(msg);
            Some(mac.finalize().into_bytes().to_vec())
        },
        Err(_) => None,
    }
}

/// Relies on `hex::encode`: two lower-case hex digits per byte, high nibble first.
#[verifier::external_body]
fn to_hex(bytes: &[u8]) -> (r: String)
    ensures
        r@ == hex_of(bytes@),
{
    hex::encode(bytes)
}

/// Whether `a` and `b` are equal. Every position of `a` is compared,
/// whatever was found before, so the time taken does not reveal where the
/// first difference lies.
fn same_in_full(a: &Vec<char>, b: &Vec<char>) -> (r: bool)
    ensures
        r == (a@ == b@),
{
    let len_differs = a.len() != b.len();
    let mut mismatches: usize = 0;
    let mut i: usize = 0;
    while i < a.len()
        invariant
            i <= a.len(),
            mismatches <= i,
            len_differs == (a.len() != b.len()),
            len_differs ==> a@ != b@,
            mismatches == 0 ==> forall|j: int| 0 <= j < i && j < b.len() ==> a@[j] == b@[j],
            mismatches > 0 ==> a@ != b@,
        decreases a.len() - i,
    {
        let other = if i < b.len() { b[i] } else { a[i] };
        let differs = a[i] != other;
        if differs {
            assert(a@[i as int] != b@[i as int]);
        }
        mismatches = mismatches + differs as usize;
        i = i + 1;
    }
    if !len_differs && mismatches == 0 {
        assert(a@ =~= b@);
    }
    !len_differs && mismatches == 0
}

/// Whether `supplied` is the lower-case hex form of `tag`, compared in
/// full whatever the first difference.
pub fn signature_matches(tag: &[u8], supplied: &str) -> (r: bool)
    ensures
        r == (hex_of(tag@) == supplied@),
{
    let expected = to_hex(tag);
    same_in_full(&chars_of(expected.as_str()), &chars_of(supplied))
}

/// A copy of `b`.
fn bytes_to_vec(b: &[u8]) -> (r: Vec<u8>)
    ensures
        r@ == b@,
{
    let mut r: Vec<u8> = Vec::new();
    let mut i: usize = 0;
    while i < b.len()
        invariant
            i <= b.len(),
            r@ == b@.subrange(0, i as int),
        decreases b.len() - i,
    {
        r.push(b[i]);
        i = i + 1;
        assert(r@ =~= b@.subrange(0, i as int));
    }
    assert(b@.subrange(0, b.len() as int) =~= b@);
    r
}

/// The bytes that a request's signature covers.
pub fn signed_message(body: &[u8], time_header: &str) -> (r: Vec<u8>)
    ensures
        r@ == signed_bytes(body@, time_header@),
{
    let mut r = bytes_to_vec(body);
    let t = time_header.as_bytes();
    let mut i: usize = 0;
    while i < t.len()
        invariant
            i <= t.len(),
            t@ == encode_utf8(time_header@),
            r@ == body@ + t@.subrange(0, i as int),
        decreases t.len() - i,
    {
        r.push(t[i]);
        i = i + 1;
        assert(r@ =~= body@ + t@.subrange(0, i as int));
    }
    assert(t@.subrange(0, t.len() as int) =~= t@);
    r
}

/// Whether `ts` lies more than `window` seconds from `now`.
pub fn is_expired(ts: i64, now: i64, window: i64) -> (r: bool)
    ensures
        r == expired(ts as int, now as int, window as int),
{
    let d: i128 = now as i128 - ts as i128;
    let dist: i128 = if d < 0 { -d } else { d };
    dist / 1000 > window as i128
}

/// The authentication service: the shared secret, the timestamp window in
/// seconds, and the nonces seen so far.
pub struct AuthService {
    secret: Vec<u8>,
    timestamp_window: i64,
    used_nonces: NonceStore,
}

impl AuthService {
    /// The shared secret, as bytes.
    pub closed spec fn secret_key(&self) -> Seq<u8> {
        self.secret@
    }

    /// The timestamp window, in seconds.
    pub closed spec fn window(&self) -> i64 {
        self.timestamp_window
    }

    /// The nonces remembered.
    pub closed spec fn seen(&self) -> Seq<NonceKey> {
        self.used_nonces@
    }

    /// The nonce store is well formed.
    pub closed spec fn wf(&self) -> bool {
        self.used_nonces.wf()
    }

    /// A service with the given secret and window that has seen no nonce.
    pub fn new(secret: String, timestamp_window: i64) -> (r: AuthService)
        ensures
            r.wf(),
            r.secret_key() == encode_utf8(secret@),
            r.window() == timestamp_window,
            r.seen() == Seq::<NonceKey>::empty(),
    {
        AuthService {
            secret: bytes_to_vec(secret.as_str().as_bytes()),
            timestamp_window,
            used_nonces: NonceStore::new(),
        }
    }

    /// The number of nonces remembered.
    pub fn nonce_count(&self) -> (r: usize)
        requires
            self.wf(),
        ensures
            r == self.seen().len(),
            r <= MAX_NONCES,
    {
        self.used_nonces.len()
    }

    /// A copy of the shared secret's bytes.
    pub fn secret_bytes(&self) -> (r: Vec<u8>)
        ensures
            r@ == self.secret_key(),
    {
        bytes_to_vec(self.secret.as_slice())
    }

    /// The checks of a request that come before its signature, in this
    /// order: both headers present, the timestamp an integer, within the
    /// window, and a fresh nonce, which is recorded from here on whatever the
    /// signature turns out to be. This is the only step that changes the
    /// service.
    pub fn check_freshness(&mut self, auth_header: Option<&str>, time_header: Option<&str>, now_ms: i64) -> (r:
        Result<(), AuthError>)
        requires
            old(self).wf(),
        ensures
            final(self).wf(),
            final(self).secret_key() == old(self).secret_key(),
            final(self).window() == old(self).window(),
            (r, final(self).seen()) == admission(
                old(self).window(),
                old(self).seen(),
                header_of(auth_header),
                header_of(time_header),
                now_ms as int,
            ),
    {
        let a = match auth_header {
            Some(a) => a,
            None => {
                return Err(AuthError::MissingHeader);
            },
        };
        let t = match time_header {
            Some(t) => t,
            None => {
                return Err(AuthError::MissingHeader);
            },
        };
        let ts = match crate::text::parse_int(&chars_of(t), i64::MIN, i64::MAX) {
            Some(v) => v,
            None => {
                return Err(AuthError::BadTimestamp);
            },
        };
        if is_expired(ts, now_ms, self.timestamp_window) {
            return Err(AuthError::Expired);
        }
        if !self.used_nonces.check_and_insert(ts, chars_of(a)) {
            return Err(AuthError::ReplayDetected);
        }
        Ok(())
    }

    /// Checks a request's signature header `auth_header`, timestamp header
    /// `time_header` (milliseconds since the epoch) and raw body at time
    /// `now_ms`: first `check_freshness`, then the signature.
    pub fn verify_request(
        &mut self,
        auth_header: Option<&str>,
        time_header: Option<&str>,
        body: &[u8],
        now_ms: i64,
    ) -> (r: Result<(), AuthError>)
        requires
            old(self).wf(),
        ensures
            final(self).wf(),
            final(self).secret_key() == old(self).secret_key(),
            final(self).window() == old(self).window(),
            (r, final(self).seen()) == auth_check(
                old(self).secret_key(),
                old(self).window(),
                old(self).seen(),
                header_of(auth_header),
                header_of(time_header),
                body@,
                now_ms as int,
            ),
    {
        match self.check_freshness(auth_header, time_header, now_ms) {
            Err(e) => Err(e),
            Ok(()) => match (auth_header, time_header) {
                (Some(a), Some(t)) => if signature_valid(self.secret.as_slice(), a, t, body) {
                    Ok(())
                } else {
                    Err(AuthError::InvalidSignature)
                },
                _ => Err(AuthError::MissingHeader),
            },
        }
    }
}

/// Whether `auth_header` is the signature that a request with this body and
/// timestamp header must carry under `secret`. This needs no state, so it can
/// run after `check_freshness` without holding the service.
pub fn signature_valid(secret: &[u8], auth_header: &str, time_header: &str, body: &[u8]) -> (r:
    bool)
    ensures
        r == (signature_for(secret@, body@, time_header@) == auth_header@),
{
    let message = signed_message(body, time_header);
    match hmac_sha256(secret, message.as_slice()) {
        Some(tag) => signature_matches(tag.as_slice(), auth_header),
        None => false,
    }
}

} // verus!
