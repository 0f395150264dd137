use porcelain::web::{
    cookie_value, csrf_cookie, csrf_ok, guard, is_allowed_authority, is_allowed_origin, is_exempt,
    is_public, session_cookie, session_ok, Gate, Header, Secret,
};

const PORT: u16 = 7867;

#[test]
fn aceita_os_dois_nomes_de_loopback() {
    assert!(is_allowed_authority("127.0.0.1:7867", PORT));
    assert!(is_allowed_authority("localhost:7867", PORT));
    assert!(is_allowed_origin("http://127.0.0.1:7867", PORT));
    assert!(is_allowed_origin("http://localhost:7867", PORT));
}

#[test]
fn recusa_dns_rebinding_e_variantes() {
    assert!(!is_allowed_authority("evil.com", PORT));
    assert!(!is_allowed_authority("evil.com:7867", PORT));
    assert!(!is_allowed_authority("notlocalhost:7867", PORT));
    assert!(!is_allowed_authority("localhost.evil.com:7867", PORT));
    assert!(!is_allowed_authority("127.0.0.1:9999", PORT));
    assert!(!is_allowed_authority("127.0.0.1", PORT));
}

#[test]
fn recusa_origin_null_e_esquema_errado() {
    assert!(!is_allowed_origin("null", PORT));
    assert!(!is_allowed_origin("https://127.0.0.1:7867", PORT));
    assert!(!is_allowed_origin("file://", PORT));
}

fn text(s: &str) -> Header {
    Header::Text(s.to_owned())
}

#[test]
fn the_guard_checks_host_then_origin() {
    assert_eq!(guard(&text("127.0.0.1:7867"), &Header::Absent, PORT), Gate::Pass);
    assert_eq!(guard(&text("127.0.0.1:7867"), &text("http://localhost:7867"), PORT), Gate::Pass);
    assert_eq!(guard(&Header::Absent, &Header::Absent, PORT), Gate::BadHost);
    assert_eq!(guard(&Header::Unreadable, &Header::Absent, PORT), Gate::BadHost);
    assert_eq!(guard(&text("evil.com:7867"), &Header::Absent, PORT), Gate::BadHost);
    assert_eq!(guard(&text("localhost:7867"), &text("null"), PORT), Gate::BadOrigin);
    assert_eq!(guard(&text("localhost:7867"), &Header::Unreadable, PORT), Gate::BadOrigin);
}

#[test]
fn cookies_are_read_by_name() {
    let header = "tema=escuro; porc_sess = abc ; porc_csrf=def";
    assert_eq!(cookie_value(header, "porc_sess").as_deref(), Some("abc"));
    assert_eq!(cookie_value(header, "porc_csrf").as_deref(), Some("def"));
    assert_eq!(cookie_value(header, "outro"), None);
    assert_eq!(cookie_value("semigual; x=1", "semigual"), None);
}

#[test]
fn secrets_are_hex_and_compare_exactly() {
    let bytes: Vec<u8> = (0..32).collect();
    let secret = Secret::from_bytes(&bytes);
    assert_eq!(
        secret.as_str(),
        "000102030405060708090a0b0c0d0e0f101112131415161718191a1b1c1d1e1f"
    );
    assert!(secret.matches(secret.as_str()));
    assert!(!secret.matches("000102"));
    assert!(!secret.matches(&secret.as_str().replace('f', "e")));
    let random = Secret::generate().unwrap();
    assert_eq!(random.as_str().len(), 64);
    assert!(random.as_str().chars().all(|c| c.is_ascii_hexdigit()));
    assert!(!random.matches(secret.as_str()));
}

#[test]
fn session_and_csrf_gates() {
    let session = Secret::from_bytes(&[1u8; 32]);
    let csrf = Secret::from_bytes(&[2u8; 32]);
    let cookies = text(&format!("porc_sess={}; porc_csrf={}", session.as_str(), csrf.as_str()));

    assert!(is_public("/"));
    assert!(is_public("/assets/app.js"));
    assert!(is_public("/api/v1/session"));
    assert!(!is_public("/api/v1/repos"));
    assert!(is_exempt("/api/v1/session"));

    assert!(session_ok("/api/v1/repos", &cookies, &session));
    assert!(!session_ok("/api/v1/repos", &Header::Absent, &session));
    assert!(session_ok("/index.html", &Header::Absent, &session));

    assert!(csrf_ok(false, "/api/v1/repos", &cookies, &text(csrf.as_str()), &csrf));
    assert!(!csrf_ok(false, "/api/v1/repos", &cookies, &Header::Absent, &csrf));
    assert!(!csrf_ok(false, "/api/v1/repos", &Header::Absent, &text(csrf.as_str()), &csrf));
    // A forged identical pair does not pass: both are checked against the server's secret.
    let forged = text("porc_csrf=zzz");
    assert!(!csrf_ok(false, "/api/v1/repos", &forged, &text("zzz"), &csrf));
    assert!(csrf_ok(true, "/api/v1/repos", &Header::Absent, &Header::Absent, &csrf));
    assert!(csrf_ok(false, "/api/v1/session", &Header::Absent, &Header::Absent, &csrf));

    assert_eq!(
        session_cookie(&session),
        format!("porc_sess={}; HttpOnly; SameSite=Strict; Path=/", session.as_str())
    );
    assert_eq!(
        csrf_cookie(&csrf),
        format!("porc_csrf={}; SameSite=Strict; Path=/", csrf.as_str())
    );
}
