//! The server's own facts: where it listens, the URLs the command line prints and opens, and
//! how it recognises another instance of itself already answering on the port.
use vstd::prelude::*;
use crate::text::{append, chars_of, dec, dec_exec, eq, slice_of, string_of};

verus! {

broadcast use vstd::seq_lib::group_seq_properties;

/// The port tried first. Taken, the server falls back to one the system picks.
pub const PREFERRED_PORT: u16 = 7867;

/// The name `/health` answers with: how a `porc` tells another `porc` from any program that
/// happens to listen on the port.
pub const APP_NAME: &'static str = "porcelain";

/// How many characters of a fresh secret name this instance in the lock file.
pub const INSTANCE_ID_LEN: usize = 16;

/// The content security policy of the served interface: nothing but our own origin, no
/// frames, no forms posted elsewhere.
pub const CSP: &'static str = "default-src 'self'; base-uri 'none'; object-src 'none'; frame-ancestors 'none'; form-action 'none'";

pub open spec fn origin_url_of(port: u16) -> Seq<char> {
    "http://127.0.0.1:"@ + dec(port as nat)
}

/// The app's origin: always the literal `127.0.0.1`, the host the `Host`/`Origin` guard demands.
pub fn origin_url(port: u16) -> (u: String)
    ensures
        u@ == origin_url_of(port),
{
    let mut v = chars_of("http://127.0.0.1:");
    append(&mut v, &dec_exec(port as u64));
    string_of(&v)
}

/// The URL the browser opens at boot. The `?t=` is traded for a cookie on the first request
/// and leaves the address bar: it stays in no history and no `Referer`.
pub fn handshake_url(port: u16, token: &str) -> (u: String)
    ensures
        u@ == origin_url_of(port) + "/?t="@ + token@,
{
    let mut v = chars_of(origin_url(port).as_str());
    append(&mut v, &chars_of("/?t="));
    append(&mut v, &chars_of(token));
    string_of(&v)
}

/// This instance's name in the lock file: the first characters of a fresh secret.
pub fn instance_id(secret: &str) -> (id: String)
    requires
        secret@.len() >= INSTANCE_ID_LEN,
    ensures
        id@ == secret@.take(INSTANCE_ID_LEN as int),
{
    let v = chars_of(secret);
    string_of(&slice_of(&v, 0, INSTANCE_ID_LEN))
}

/// The request that asks whoever listens on `port` who they are. `Connection: close` spares
/// reading `Content-Length` or chunks: the body is what follows the headers.
pub fn health_request(port: u16) -> (r: String)
    ensures
        r@ == "GET /health HTTP/1.1\r\nHost: 127.0.0.1:"@ + dec(port as nat) + "\r\nConnection: close\r\n\r\n"@,
{
    let mut v = chars_of("GET /health HTTP/1.1\r\nHost: 127.0.0.1:");
    append(&mut v, &dec_exec(port as u64));
    append(&mut v, &chars_of("\r\nConnection: close\r\n\r\n"));
    string_of(&v)
}

/// The blank line that closes an HTTP response's headers.
pub open spec fn blank_line() -> Seq<u8> {
    seq![13u8, 10u8, 13u8, 10u8]
}

pub open spec fn blank_at(b: Seq<u8>, i: int) -> bool {
    0 <= i && i + 4 <= b.len() && b.subrange(i, i + 4) == blank_line()
}

/// What follows the first blank line, or `None` where there is none.
pub open spec fn body_of(b: Seq<u8>) -> Option<Seq<u8>> {
    if exists|i: int| blank_at(b, i) {
        let i = choose|i: int| blank_at(b, i) && forall|j: int| 0 <= j < i ==> !blank_at(b, j);
        Some(b.skip(i + 4))
    } else {
        None
    }
}

/// The body of a raw HTTP response.
pub fn response_body(response: &[u8]) -> (r: Option<Vec<u8>>)
    ensures
        match r {
            Some(body) => body_of(response@) == Some(body@),
            None => body_of(response@) is None,
        },
{
    let n = response.len();
    let mut i: usize = 0;
    while n >= 4 && i <= n - 4
        invariant
            i <= n,
            n == response@.len(),
            forall|j: int| 0 <= j < i ==> !blank_at(response@, j),
        decreases n - i,
    {
        if response[i] == 13u8 && response[i + 1] == 10u8 && response[i + 2] == 13u8 && response[i + 3] == 10u8 {
            assert(response@.subrange(i as int, i + 4) =~= blank_line());
            let mut body: Vec<u8> = Vec::new();
            let mut k: usize = i + 4;
            while k < n
                invariant
                    i + 4 <= k <= n,
                    n == response@.len(),
                    body@ == response@.subrange(i + 4, k as int),
                decreases n - k,
            {
                body.push(response[k]);
                k += 1;
            }
            proof {
                let w = choose|w: int| blank_at(response@, w) && forall|j: int| 0 <= j < w ==> !blank_at(response@, j);
                assert(blank_at(response@, i as int) && forall|j: int| 0 <= j < i ==> !blank_at(response@, j));
                assert(w == i);
                assert(body@ =~= response@.skip(i + 4));
            }
            return Some(body);
        }
        proof {
            if blank_at(response@, i as int) {
                assert(response@.subrange(i as int, i + 4)[0] == response@[i as int]);
                assert(response@.subrange(i as int, i + 4)[1] == response@[i + 1]);
                assert(response@.subrange(i as int, i + 4)[2] == response@[i + 2]);
                assert(response@.subrange(i as int, i + 4)[3] == response@[i + 3]);
            }
        }
        i += 1;
    }
    None
}

/// The name `/health` gave is ours.
pub fn is_porcelain(name: &str) -> (b: bool)
    ensures
        b == (name@ == APP_NAME@),
{
    eq(&chars_of(name), &chars_of(APP_NAME))
}

/// What `/health` answers: enough for the command line to know the process behind the lock
/// file is this `porc`, and not another process that inherited the port. The instance id is
/// **not** drawn from the session token, so the public route leaks no bit of the secret.
#[derive(Debug, Clone, PartialEq, Eq)]
pub struct Health {
    pub name: String,
    pub version: String,
    pub pid: u32,
    pub instance_id: String,
}

/// The lock file: which process serves, on which port, as which instance.
#[derive(Debug, Clone, PartialEq, Eq)]
pub struct Lock {
    pub pid: u32,
    pub port: u16,
    pub instance_id: String,
}

/// The instance the lock file names is the one answering on its port: the same process and
/// the same instance id. Anything else means the port changed hands.
pub fn is_same_instance(lock: &Lock, health: &Health) -> (b: bool)
    ensures
        b == (health.pid == lock.pid && health.instance_id@ == lock.instance_id@),
{
    health.pid == lock.pid && eq(&chars_of(health.instance_id.as_str()), &chars_of(lock.instance_id.as_str()))
}

/// The address printed and opened when an instance already runs.
pub fn running_url(port: u16) -> (u: String)
    ensures
        u@ == origin_url_of(port) + "/"@,
{
    let mut v = chars_of(origin_url(port).as_str());
    v.push('/');
    proof {
        reveal_strlit("/");
    }
    assert(v@ =~= origin_url_of(port) + "/"@);
    string_of(&v)
}

} // verus!
