//! Serving the interface's built files: which file a path gets, and how long a browser may
//! keep it.
//!
//! The interface is a single-page app: a path that is no file belongs to it, and gets
//! `index.html`. Under `assets/` the bundler puts a content hash in every name, so a missing
//! file there is a real 404 (answering with the app would feed HTML to a `<script>`), and a
//! present one never changes: it is cached for a year. Everything else is revalidated by its
//! ETag on every load, or a new version would never reach an open tab.
use vstd::prelude::*;
use crate::text::{chars_of, eq, starts_with, string_of};
use crate::registry::{sha256, sha256_of};
use crate::web::{hex, hex_exec};

verus! {

broadcast use vstd::seq_lib::group_seq_properties;

/// The app's entry point, and the answer for every path that is no file.
pub const INDEX: &'static str = "index.html";

/// The folder whose names carry a content hash.
pub const HASHED: &'static str = "assets/";

pub const CACHE_IMMUTABLE: &'static str = "public, max-age=31536000, immutable";

pub const CACHE_REVALIDATE: &'static str = "no-cache";

/// `s.trim_start_matches('/')`.
pub open spec fn trim_slashes(s: Seq<char>) -> Seq<char>
    decreases s.len(),
{
    if s.len() > 0 && s[0] == '/' {
        trim_slashes(s.drop_first())
    } else {
        s
    }
}

pub open spec fn requested_of(uri_path: Seq<char>) -> Seq<char> {
    let p = trim_slashes(uri_path);
    if p.len() == 0 {
        INDEX@
    } else {
        p
    }
}

/// The file a URI path asks for: without its leading slashes, and the index for the root.
pub fn requested_asset(uri_path: &str) -> (r: String)
    ensures
        r@ == requested_of(uri_path@),
{
    let v = chars_of(uri_path);
    let mut i: usize = 0;
    while i < v.len() && v[i] == '/'
        invariant
            i <= v@.len(),
            trim_slashes(v@) == trim_slashes(v@.skip(i as int)),
        decreases v@.len() - i,
    {
        assert(v@.skip(i as int).drop_first() =~= v@.skip(i + 1));
        i += 1;
    }
    if i == v.len() {
        INDEX.to_string()
    } else {
        let mut out: Vec<char> = Vec::new();
        let mut k: usize = i;
        while k < v.len()
            invariant
                i <= k <= v@.len(),
                out@ == v@.subrange(i as int, k as int),
            decreases v@.len() - k,
        {
            out.push(v[k]);
            k += 1;
        }
        assert(out@ =~= v@.skip(i as int));
        string_of(&out)
    }
}

pub open spec fn served_of(requested: Seq<char>, found: bool) -> Option<Seq<char>> {
    if found {
        Some(requested)
    } else if HASHED@.is_prefix_of(requested) {
        None
    } else {
        Some(INDEX@)
    }
}

/// The file served for `requested`, given whether the build has it: itself; else a 404
/// (`None`) under `assets/`; else the index, for the app's own router.
pub fn served_asset(requested: &str, found: bool) -> (r: Option<String>)
    ensures
        match r {
            Some(p) => served_of(requested@, found) == Some(p@),
            None => served_of(requested@, found) is None,
        },
{
    if found {
        Some(requested.to_string())
    } else if starts_with(&chars_of(requested), &chars_of(HASHED)) {
        None
    } else {
        Some(INDEX.to_string())
    }
}

pub open spec fn cache_of(path: Seq<char>) -> Seq<char> {
    if HASHED@.is_prefix_of(path) {
        CACHE_IMMUTABLE@
    } else {
        CACHE_REVALIDATE@
    }
}

/// How long a browser keeps a served file.
pub fn cache_control(path: &str) -> (c: &'static str)
    ensures
        c@ == cache_of(path@),
{
    if starts_with(&chars_of(path), &chars_of(HASHED)) {
        CACHE_IMMUTABLE
    } else {
        CACHE_REVALIDATE
    }
}

pub open spec fn etag_of(hash: Seq<u8>) -> Seq<char> {
    seq!['"'] + hex(hash.take(8)) + seq!['"']
}

/// The ETag of a file: its content hash's first eight bytes in hex, quoted. Short, and enough:
/// it only has to tell versions of one file apart.
pub fn etag(hash: &[u8]) -> (e: String)
    requires
        hash@.len() >= 8,
    ensures
        e@ == etag_of(hash@),
{
    let mut head: Vec<u8> = Vec::new();
    let mut i: usize = 0;
    while i < 8
        invariant
            i <= 8,
            hash@.len() >= 8,
            head@ == hash@.take(i as int),
        decreases 8 - i,
    {
        head.push(hash[i]);
        assert(hash@.take(i + 1) =~= hash@.take(i as int).push(hash@[i as int]));
        i += 1;
    }
    let mut out: Vec<char> = Vec::new();
    out.push('"');
    let digits = hex_exec(head.as_slice());
    let mut k: usize = 0;
    while k < digits.len()
        invariant
            k <= digits@.len(),
            out@ == seq!['"'] + digits@.take(k as int),
        decreases digits@.len() - k,
    {
        out.push(digits[k]);
        assert(digits@.take(k + 1) =~= digits@.take(k as int).push(digits@[k as int]));
        k += 1;
    }
    out.push('"');
    assert(digits@.take(k as int) =~= digits@);
    assert(out@ =~= etag_of(hash@));
    string_of(&out)
}

/// The browser's copy is current: it sent back exactly this ETag.
pub fn not_modified(if_none_match: Option<&str>, etag: &str) -> (b: bool)
    ensures
        b == match if_none_match {
            Some(v) => v@ == etag@,
            None => false,
        },
{
    match if_none_match {
        Some(v) => eq(&chars_of(v), &chars_of(etag)),
        None => false,
    }
}

/// The media type `mime_guess` gives a path.
pub uninterp spec fn media_type_of(path: Seq<char>) -> Seq<char>;

/// `mime_guess::from_path(path).first_or_octet_stream()`, as text. The guess reads the path's
/// extension in a fixed table, without touching the disk, so the contract names the result as
/// a function of the path; the table itself is left unsaid.
#[verifier::external_body]
fn media_type(path: &str) -> (m: String)
    ensures
        m@ == media_type_of(path@),
{
    mime_guess::from_path(path).first_or_octet_stream().as_ref().to_owned()
}

/// What a request for a served file is answered.
pub enum AssetReply {
    /// The browser's copy is current: a 304, with the cache rule and the ETag.
    NotModified { cache: &'static str, etag: String },
    /// The file itself, with its media type, the cache rule and the ETag.
    Full { content_type: String, cache: &'static str, etag: String },
}

/// The ETag of a file's contents.
pub open spec fn etag_of_data(data: Seq<u8>) -> Seq<char> {
    etag_of(sha256_of(data))
}

/// The browser sent back the ETag these contents have.
pub open spec fn is_current(if_none_match: Option<&str>, data: Seq<u8>) -> bool {
    match if_none_match {
        Some(v) => v@ == etag_of_data(data),
        None => false,
    }
}

/// How the file at `path`, holding `data`, is answered to a request that sent `if_none_match`:
/// a 304 where that is the file's ETag, else the file; both with the path's cache rule and the
/// ETag of the contents' SHA-256, and the file with the media type of its name.
pub fn asset_reply(path: &str, data: &[u8], if_none_match: Option<&str>) -> (r: AssetReply)
    ensures
        match r {
            AssetReply::NotModified { cache, etag } => {
                &&& is_current(if_none_match, data@)
                &&& cache@ == cache_of(path@)
                &&& etag@ == etag_of_data(data@)
            },
            AssetReply::Full { content_type, cache, etag } => {
                &&& !is_current(if_none_match, data@)
                &&& content_type@ == media_type_of(path@)
                &&& cache@ == cache_of(path@)
                &&& etag@ == etag_of_data(data@)
            },
        },
{
    let hash = sha256(data);
    let etag = etag(hash.as_slice());
    let cache = cache_control(path);
    if not_modified(if_none_match, etag.as_str()) {
        AssetReply::NotModified { cache, etag }
    } else {
        AssetReply::Full { content_type: media_type(path), cache, etag }
    }
}

/// Where the development server of the interface listens, when the server proxies to it.
pub const VITE: &'static str = "127.0.0.1:5173";

/// The address a request is proxied to in development: the same path and query, on the
/// development server (the root where the request has none).
pub fn vite_url(path_and_query: Option<&str>) -> (u: String)
    ensures
        u@ == "http://"@ + VITE@ + match path_and_query {
            Some(p) => p@,
            None => "/"@,
        },
{
    let mut v = chars_of("http://");
    crate::text::append(&mut v, &chars_of(VITE));
    match path_and_query {
        Some(p) => crate::text::append(&mut v, &chars_of(p)),
        None => crate::text::append(&mut v, &chars_of("/")),
    }
    string_of(&v)
}

} // verus!
