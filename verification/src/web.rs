//! The local server's gatekeeping: who may call it, with what session, and with what CSRF proof.
//!
//! Binding to `127.0.0.1` protects nothing by itself: a site in another tab can resolve its own
//! name to `127.0.0.1` and the victim's browser sends the request here, cookies included. What
//! gives the attack away is the `Host` header carrying the attacker's name instead of ours, so
//! the `Host`/`Origin` guard comes before anything looks at a cookie.
//!
//! The session token lives for one boot only: 256 bits from the system's random source, kept in
//! memory and never written to disk.
use vstd::prelude::*;
use crate::text::{
    append, chars_of, dec, dec_exec, eq, split, split_exec, split_once, split_once_exec,
    starts_with, string_of, strip_prefix, strip_prefix_exec, trim, trim_exec, views, rsplit_once,
    rsplit_once_exec,
};
use vstd::utf8::{encode_utf8, encode_utf8_decode_utf8};
use subtle::ConstantTimeEq;

verus! {

broadcast use vstd::seq_lib::group_seq_properties;

// ---------------------------------------------------------------------------------------------
// Host and Origin
// ---------------------------------------------------------------------------------------------
/// The only names the server answers to.
pub open spec fn allowed_hostname(name: Seq<char>) -> bool {
    name == "127.0.0.1"@ || name == "localhost"@
}

/// `host:port`, with the literal name **and** the port we serve on. No port would mean port
/// 80, which is never ours.
pub open spec fn authority_ok(authority: Seq<char>, port: u16) -> bool {
    match rsplit_once(authority, ':') {
        Some((name, p)) => allowed_hostname(name) && p == dec(port as nat),
        None => false,
    }
}

/// Only `http://`: the app's origin is served in the clear on loopback, and `https://` with the
/// same host would be another origin, from outside.
pub open spec fn origin_ok(origin: Seq<char>, port: u16) -> bool {
    match strip_prefix(origin, "http://"@) {
        Some(a) => authority_ok(a, port),
        None => false,
    }
}

pub fn is_allowed_authority(authority: &str, port: u16) -> (b: bool)
    ensures
        b == authority_ok(authority@, port),
{
    match rsplit_once_exec(&chars_of(authority), ':') {
        Some((name, p)) => (eq(&name, &chars_of("127.0.0.1")) || eq(&name, &chars_of("localhost")))
            && eq(&p, &dec_exec(port as u64)),
        None => false,
    }
}

pub fn is_allowed_origin(origin: &str, port: u16) -> (b: bool)
    ensures
        b == origin_ok(origin@, port),
{
    match strip_prefix_exec(&chars_of(origin), &chars_of("http://")) {
        Some(a) => is_allowed_authority(string_of(&a).as_str(), port),
        None => false,
    }
}

/// A request header as the server received it: absent, present but not text, or text.
#[derive(Debug, Clone, PartialEq, Eq)]
pub enum Header {
    Absent,
    Unreadable,
    Text(String),
}

/// What the `Host`/`Origin` guard decides.
#[derive(Debug, Clone, Copy, PartialEq, Eq)]
pub enum Gate {
    Pass,
    /// 403: `Host` is not ours.
    BadHost,
    /// 403: an `Origin` came and is not ours (`Origin: null` never is).
    BadOrigin,
}

pub open spec fn gate_of(host: Header, origin: Header, port: u16) -> Gate {
    if !(host matches Header::Text(h) && authority_ok(h@, port)) {
        Gate::BadHost
    } else {
        match origin {
            // `Origin` is optional (curl and direct navigation send none), but if it came it
            // has to match
            Header::Absent => Gate::Pass,
            Header::Unreadable => Gate::BadOrigin,
            Header::Text(o) => if origin_ok(o@, port) {
                Gate::Pass
            } else {
                Gate::BadOrigin
            },
        }
    }
}

pub fn guard(host: &Header, origin: &Header, port: u16) -> (g: Gate)
    ensures
        g == gate_of(*host, *origin, port),
{
    let host_ok = match host {
        Header::Text(h) => is_allowed_authority(h.as_str(), port),
        _ => false,
    };
    if !host_ok {
        return Gate::BadHost;
    }
    match origin {
        Header::Absent => Gate::Pass,
        Header::Unreadable => Gate::BadOrigin,
        Header::Text(o) => if is_allowed_origin(o.as_str(), port) {
            Gate::Pass
        } else {
            Gate::BadOrigin
        },
    }
}

// ---------------------------------------------------------------------------------------------
// cookies
// ---------------------------------------------------------------------------------------------
/// The session cookie. `HttpOnly`: no script needs to read it, so none can.
pub const SESSION_COOKIE: &'static str = "porc_sess";

/// The CSRF cookie. **Not** `HttpOnly`, on purpose: the frontend reads it to send it back in
/// the `X-CSRF-Token` header. So it is a secret distinct from the session's.
pub const CSRF_COOKIE: &'static str = "porc_csrf";

/// The value of the first `name=value` pair whose trimmed name is `name`, trimmed.
pub open spec fn cookie_in(pairs: Seq<Seq<char>>, name: Seq<char>) -> Option<Seq<char>>
    decreases pairs.len(),
{
    if pairs.len() == 0 {
        None
    } else {
        match split_once(pairs[0], '=') {
            Some((k, v)) => if trim(k) == name {
                Some(trim(v))
            } else {
                cookie_in(pairs.drop_first(), name)
            },
            None => cookie_in(pairs.drop_first(), name),
        }
    }
}

/// Reads a cookie from the raw `Cookie` header. There are only two, both written by us and
/// with no exotic attribute.
pub fn cookie_value(header: &str, name: &str) -> (r: Option<String>)
    ensures
        match r {
            Some(v) => cookie_in(split(header@, ';'), name@) == Some(v@),
            None => cookie_in(split(header@, ';'), name@) is None,
        },
{
    let pairs = split_exec(&chars_of(header), ';');
    let ghost ps = views(pairs@);
    let n = chars_of(name);
    let mut i: usize = 0;
    while i < pairs.len()
        invariant
            i <= pairs.len(),
            ps == views(pairs@),
            ps == split(header@, ';'),
            n@ == name@,
            cookie_in(ps, name@) == cookie_in(ps.skip(i as int), name@),
        decreases pairs.len() - i,
    {
        assert(ps.skip(i as int)[0] == pairs@[i as int]@);
        assert(ps.skip(i as int).drop_first() =~= ps.skip(i + 1));
        match split_once_exec(&pairs[i], '=') {
            Some((k, v)) => {
                let key = trim_exec(&k);
                if eq(&key, &n) {
                    let value = trim_exec(&v);
                    assert(split_once(ps.skip(i as int)[0], '=') == Some((k@, v@)));
                    assert(cookie_in(ps.skip(i as int), name@) == Some(value@));
                    return Some(string_of(&value));
                }
            },
            None => {},
        }
        i += 1;
    }
    None
}

// ---------------------------------------------------------------------------------------------
// the secret
// ---------------------------------------------------------------------------------------------
pub open spec fn hex_digit(n: int) -> char {
    if n < 10 {
        (n + '0' as u32) as char
    } else {
        (n - 10 + 'a' as u32) as char
    }
}

/// Bytes as lowercase hex, two digits each (`{byte:02x}`).
pub open spec fn hex(bytes: Seq<u8>) -> Seq<char>
    decreases bytes.len(),
{
    if bytes.len() == 0 {
        seq![]
    } else {
        hex(bytes.drop_last()) + seq![hex_digit(bytes.last() as int / 16), hex_digit(bytes.last() as int % 16)]
    }
}

fn hex_digit_exec(n: u8) -> (c: char)
    requires
        n < 16,
    ensures
        c == hex_digit(n as int),
{
    if n < 10 {
        ((n + 48) as char)
    } else {
        ((n - 10 + 97) as char)
    }
}

pub fn hex_exec(bytes: &[u8]) -> (s: Vec<char>)
    ensures
        s@ == hex(bytes@),
{
    let mut out: Vec<char> = Vec::new();
    let mut i: usize = 0;
    while i < bytes.len()
        invariant
            i <= bytes.len(),
            out@ == hex(bytes@.take(i as int)),
        decreases bytes.len() - i,
    {
        let b = bytes[i];
        out.push(hex_digit_exec(b / 16));
        out.push(hex_digit_exec(b % 16));
        assert(bytes@.take(i + 1).drop_last() =~= bytes@.take(i as int));
        i += 1;
    }
    assert(bytes@.take(bytes.len() as int) =~= bytes@);
    out
}

#[verifier::external_type_specification]
#[verifier::external_body]
pub struct ExRandomError(getrandom::Error);

/// The random source failed: there is no session token to make.
#[derive(Debug)]
pub struct TokenError(pub getrandom::Error);

/// `getrandom::fill`: fills the buffer from the system's random source, or says why it could
/// not. Only the length is claimed: the bytes are chance.
#[verifier::external_body]
pub(crate) fn fill_random(buffer: &mut Vec<u8>) -> (r: Result<(), getrandom::Error>)
    ensures
        final(buffer)@.len() == old(buffer)@.len(),
{
    getrandom::fill(buffer.as_mut_slice())
}

/// `subtle::ConstantTimeEq::ct_eq` on byte slices: equal lengths and equal bytes, compared in a
/// time that does not depend on the contents.
#[verifier::external_body]
fn constant_time_eq(a: &[u8], b: &[u8]) -> (r: bool)
    ensures
        r == (a@ == b@),
{
    a.ct_eq(b).into()
}

/// A secret of this boot, in hex: the session's and the CSRF's are two of these, never the same
/// value in two places.
#[derive(Clone)]
pub struct Secret(String);

impl View for Secret {
    type V = Seq<char>;

    closed spec fn view(&self) -> Seq<char> {
        self.0@
    }
}

impl Secret {
    /// A secret made of 32 bytes.
    pub fn from_bytes(bytes: &[u8]) -> (s: Secret)
        requires
            bytes@.len() == 32,
        ensures
            s@ == hex(bytes@),
            s@.len() == 64,
    {
        let h = hex_exec(bytes);
        proof {
            lemma_hex_len(bytes@);
        }
        Secret(string_of(&h))
    }

    /// 256 bits from the system's random source, in hex. Whether the source answers is the
    /// system's to say; what it gives is made a secret by [`Secret::from_bytes`].
    pub fn generate() -> (r: Result<Secret, TokenError>)
        ensures
            r matches Ok(s) ==> s@.len() == 64 && exists|b: Seq<u8>| b.len() == 32 && s@ == #[trigger] hex(b),
    {
        let mut bytes: Vec<u8> = vec![0u8; 32];
        match fill_random(&mut bytes) {
            Ok(()) => {
                let s = Secret::from_bytes(bytes.as_slice());
                assert(bytes@.len() == 32 && s@ == hex(bytes@));
                Ok(s)
            },
            Err(e) => Err(TokenError(e)),
        }
    }

    pub fn as_str(&self) -> (s: &str)
        ensures
            s@ == self@,
    {
        self.0.as_str()
    }

    /// Compares in constant time. The token's length is public (64 hex digits), so leaving
    /// early on a different length gives nothing away.
    pub fn matches(&self, candidate: &str) -> (b: bool)
        ensures
            b == (self@ == candidate@),
    {
        let expected = self.0.as_str().as_bytes();
        let given = candidate.as_bytes();
        proof {
            encode_utf8_decode_utf8(self@);
            encode_utf8_decode_utf8(candidate@);
        }
        if expected.len() != given.len() {
            return false;
        }
        constant_time_eq(expected, given)
    }
}

pub proof fn lemma_hex_len(bytes: Seq<u8>)
    ensures
        hex(bytes).len() == 2 * bytes.len(),
    decreases bytes.len(),
{
    if bytes.len() > 0 {
        lemma_hex_len(bytes.drop_last());
    }
}

/// The `Set-Cookie` of the session: `SameSite=Strict` is what stops the cross-site request.
/// No `Secure`: the origin is `http://127.0.0.1`, where `Secure` would keep the cookie from being
/// stored at all.
pub fn session_cookie(session: &Secret) -> (c: String)
    ensures
        c@ == "porc_sess="@ + session@ + "; HttpOnly; SameSite=Strict; Path=/"@,
{
    let mut c = chars_of("porc_sess=");
    append(&mut c, &chars_of(session.as_str()));
    append(&mut c, &chars_of("; HttpOnly; SameSite=Strict; Path=/"));
    string_of(&c)
}

pub fn csrf_cookie(csrf: &Secret) -> (c: String)
    ensures
        c@ == "porc_csrf="@ + csrf@ + "; SameSite=Strict; Path=/"@,
{
    let mut c = chars_of("porc_csrf=");
    append(&mut c, &chars_of(csrf.as_str()));
    append(&mut c, &chars_of("; SameSite=Strict; Path=/"));
    string_of(&c)
}

// ---------------------------------------------------------------------------------------------
// session and CSRF
// ---------------------------------------------------------------------------------------------
/// The line is `/api/`: data needs a session, the app's shell does not (the handshake happens
/// inside it). `/api/v1/session` is the handshake itself.
pub open spec fn public_path(path: Seq<char>) -> bool {
    !"/api/"@.is_prefix_of(path) || path == "/api/v1/session"@
}

pub fn is_public(path: &str) -> (b: bool)
    ensures
        b == public_path(path@),
{
    let p = chars_of(path);
    !starts_with(&p, &chars_of("/api/")) || eq(&p, &chars_of("/api/v1/session"))
}

/// The handshake creates the CSRF cookie, so it cannot require it.
pub fn is_exempt(path: &str) -> (b: bool)
    ensures
        b == (path@ == "/api/v1/session"@),
{
    eq(&chars_of(path), &chars_of("/api/v1/session"))
}

pub open spec fn header_cookie(cookies: Header, name: Seq<char>) -> Option<Seq<char>> {
    match cookies {
        Header::Text(h) => cookie_in(split(h@, ';'), name),
        _ => None,
    }
}

/// Whether a request may go on past the session guard.
pub open spec fn session_allows(path: Seq<char>, cookies: Header, session: Seq<char>) -> bool {
    public_path(path) || header_cookie(cookies, "porc_sess"@) == Some(session)
}

fn cookie_from(cookies: &Header, name: &str) -> (r: Option<String>)
    ensures
        match r {
            Some(v) => header_cookie(*cookies, name@) == Some(v@),
            None => header_cookie(*cookies, name@) is None,
        },
{
    match cookies {
        Header::Text(h) => cookie_value(h.as_str(), name),
        _ => None,
    }
}

pub fn session_ok(path: &str, cookies: &Header, session: &Secret) -> (b: bool)
    ensures
        b == session_allows(path@, *cookies, session@),
{
    if is_public(path) {
        return true;
    }
    match cookie_from(cookies, SESSION_COOKIE) {
        Some(v) => session.matches(v.as_str()),
        None => false,
    }
}

/// Double submit: the secret has to come at once in the `porc_csrf` cookie and in the
/// `X-CSRF-Token` header, each checked against the server's secret (not one against the other,
/// so a forged identical pair fails too). `GET` and `HEAD` change nothing and need neither.
pub open spec fn csrf_allows(
    reads_only: bool,
    path: Seq<char>,
    cookies: Header,
    token: Header,
    csrf: Seq<char>,
) -> bool {
    reads_only || path == "/api/v1/session"@ || (header_cookie(cookies, "porc_csrf"@) == Some(csrf)
        && (token matches Header::Text(t) && t@ == csrf))
}

pub fn csrf_ok(reads_only: bool, path: &str, cookies: &Header, token: &Header, csrf: &Secret) -> (b: bool)
    ensures
        b == csrf_allows(reads_only, path@, *cookies, *token, csrf@),
{
    if reads_only || is_exempt(path) {
        return true;
    }
    let from_cookie = match cookie_from(cookies, CSRF_COOKIE) {
        Some(v) => csrf.matches(v.as_str()),
        None => false,
    };
    let from_header = match token {
        Header::Text(t) => csrf.matches(t.as_str()),
        _ => false,
    };
    from_cookie && from_header
}

/// The boot handshake: the token from the URL, traded for the cookies.
#[derive(Debug, Clone)]
pub struct SessionRequest {
    pub token: String,
}

#[derive(Debug, Clone, Copy)]
pub struct SessionResponse {
    pub ok: bool,
}

} // verus!
