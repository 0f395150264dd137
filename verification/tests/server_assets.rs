use porcelain::assets::{
    asset_reply, AssetReply, cache_control, etag, not_modified, requested_asset, served_asset, vite_url, CACHE_IMMUTABLE,
    CACHE_REVALIDATE,
};
use porcelain::indexing::{indexed_note, needs_indexing, progress_note};
use porcelain::jobs::{JobBook, JobState};
use porcelain::server::{
    handshake_url, health_request, instance_id, is_porcelain, is_same_instance, origin_url,
    response_body, running_url, Health, Lock,
};

#[test]
fn urls_always_name_the_loopback_literally() {
    assert_eq!(origin_url(7867), "http://127.0.0.1:7867");
    assert_eq!(handshake_url(7867, "abc"), "http://127.0.0.1:7867/?t=abc");
    assert_eq!(running_url(51000), "http://127.0.0.1:51000/");
    assert_eq!(instance_id("0123456789abcdef0123"), "0123456789abcdef");
}

#[test]
fn a_health_probe_reads_the_body_after_the_headers() {
    assert_eq!(
        health_request(7867),
        "GET /health HTTP/1.1\r\nHost: 127.0.0.1:7867\r\nConnection: close\r\n\r\n"
    );
    let response = b"HTTP/1.1 200 OK\r\nContent-Type: application/json\r\n\r\n{\"name\":\"porcelain\"}";
    assert_eq!(response_body(response), Some(b"{\"name\":\"porcelain\"}".to_vec()));
    assert_eq!(response_body(b"HTTP/1.1 200 OK\r\n"), None);
    assert_eq!(response_body(b"\r\n\r\n"), Some(vec![]));
    assert!(is_porcelain("porcelain"));
    assert!(!is_porcelain("nginx"));
}

#[test]
fn the_lock_file_instance_must_be_the_one_answering() {
    let lock = Lock { pid: 42, port: 7867, instance_id: "abcd".to_owned() };
    let health = |pid: u32, id: &str| Health {
        name: "porcelain".to_owned(),
        version: "0.1.0".to_owned(),
        pid,
        instance_id: id.to_owned(),
    };
    assert!(is_same_instance(&lock, &health(42, "abcd")));
    assert!(!is_same_instance(&lock, &health(43, "abcd")));
    assert!(!is_same_instance(&lock, &health(42, "dcba")));
}

#[test]
fn the_app_answers_every_path_but_hashed_assets() {
    assert_eq!(requested_asset("/"), "index.html");
    assert_eq!(requested_asset("//assets/app.js"), "assets/app.js");
    assert_eq!(served_asset("favicon.svg", true).as_deref(), Some("favicon.svg"));
    assert_eq!(served_asset("repos/abc", false).as_deref(), Some("index.html"));
    assert_eq!(served_asset("assets/old-1234.js", false), None);
    assert_eq!(cache_control("assets/app-1234.js"), CACHE_IMMUTABLE);
    assert_eq!(cache_control("index.html"), CACHE_REVALIDATE);
}

#[test]
fn etags_quote_the_first_eight_bytes_of_the_hash() {
    let hash: Vec<u8> = (0u8..32).collect();
    let tag = etag(&hash);
    assert_eq!(tag, "\"0001020304050607\"");
    assert!(not_modified(Some("\"0001020304050607\""), &tag));
    assert!(!not_modified(Some("\"ffff\""), &tag));
    assert!(!not_modified(None, &tag));
    assert_eq!(vite_url(Some("/src/main.ts?x=1")), "http://127.0.0.1:5173/src/main.ts?x=1");
    assert_eq!(vite_url(None), "http://127.0.0.1:5173/");
}

#[test]
fn indexing_runs_only_when_there_is_new_work() {
    assert!(!needs_indexing(None, None));
    assert!(needs_indexing(Some("abc"), None));
    assert!(!needs_indexing(Some("abc"), Some("abc")));
    assert!(needs_indexing(Some("abc"), Some("old")));
    assert_eq!(progress_note(1000).as_deref(), Some("1000 commits"));
    assert_eq!(progress_note(999), None);
    assert_eq!(indexed_note(3), "3 commits indexados");
}

#[test]
fn shutting_down_waits_for_the_unfinished() {
    let mut book: JobBook<String, u32> = JobBook::new();
    book.create("clone", "a".to_owned(), 1).unwrap();
    book.create("index", "b".to_owned(), 2).unwrap();
    book.finish("a", JobState::Done, None, None, None, 3);
    let waiting = book.unfinished();
    assert_eq!(waiting, ["b"]);
    assert!(!book.settled(&waiting));
    book.finish("b", JobState::Cancelled, None, None, None, 4);
    assert!(book.settled(&waiting));
    assert!(book.settled(&vec!["gone".to_owned()]));
}

#[test]
fn a_file_is_answered_with_its_type_its_cache_rule_and_the_etag_of_its_contents() {
    // SHA-256("abc") begins ba7816bf8f01cfea.
    match asset_reply("assets/index-abc.js", b"abc", None) {
        AssetReply::Full { content_type, cache, etag } => {
            assert_eq!(content_type, "text/javascript");
            assert_eq!(cache, CACHE_IMMUTABLE);
            assert_eq!(etag, "\"ba7816bf8f01cfea\"");
        }
        AssetReply::NotModified { .. } => panic!("nothing was cached"),
    }
    // SHA-256("") begins e3b0c44298fc1c14.
    match asset_reply("index.html", b"", Some("\"0000000000000000\"")) {
        AssetReply::Full { content_type, cache, etag } => {
            assert_eq!(content_type, "text/html");
            assert_eq!(cache, CACHE_REVALIDATE);
            assert_eq!(etag, "\"e3b0c44298fc1c14\"");
        }
        AssetReply::NotModified { .. } => panic!("another version was cached"),
    }
    match asset_reply("fonts/inter.unknownext", b"", None) {
        AssetReply::Full { content_type, .. } => assert_eq!(content_type, "application/octet-stream"),
        AssetReply::NotModified { .. } => panic!("nothing was cached"),
    }
}

#[test]
fn the_current_copy_is_answered_not_modified() {
    match asset_reply("index.html", b"abc", Some("\"ba7816bf8f01cfea\"")) {
        AssetReply::NotModified { cache, etag } => {
            assert_eq!(cache, CACHE_REVALIDATE);
            assert_eq!(etag, "\"ba7816bf8f01cfea\"");
        }
        AssetReply::Full { .. } => panic!("the browser already has this version"),
    }
}
