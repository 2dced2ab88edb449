use snipdesk::auth::{
    account_allowed, bearer_token, generate_jwt_secret, has_claims_once, hash_password, issue_token, issue_token_at, password_matches,
    session_of_claims, session_of_text, verify_password_constant_time, verify_token, AuthUser, Claims,
};
use snipdesk::config::{
    fx_refresh_seconds, fx_url, key_file_mode_ok, master_key_source, CryptoConfig, FxConfig, KeySource, MasterKey,
};
use snipdesk::crypto::{associated_data, decrypt_payload, encrypt_payload, SnippetPayload};
use snipdesk::dashboard::session::{
    auth_redirect, build_cookie, clear_cookie, let_in, nav_user, safe_next, Admission, AuthRedirect, CookieLife,
    DashboardSession,
};
use snipdesk::error::ApiError;
use snipdesk::json::Json;

fn bytes_of(p: &SnippetPayload) -> Vec<u8> {
    let mut m = serde_json::Map::new();
    m.insert("title".to_string(), serde_json::Value::from(p.title.clone()));
    m.insert("body".to_string(), serde_json::Value::from(p.body.clone()));
    m.insert("tags".to_string(), serde_json::Value::from(p.tags.clone()));
    m.insert("folder_path".to_string(), serde_json::Value::from(p.folder_path.clone()));
    serde_json::to_vec(&serde_json::Value::Object(m)).unwrap()
}

fn sample() -> Vec<u8> {
    bytes_of(&SnippetPayload {
        title: "Refund follow-up".into(),
        body: "Hi {customer_name}, your refund\u{2026}".into(),
        tags: vec!["billing".into(), "refund".into()],
        folder_path: Some("Billing/Refunds".into()),
    })
}

fn claims(role: &str) -> Claims {
    Claims { sub: "u1".into(), role: role.into(), exp: 10, iat: 5 }
}

#[test]
fn jwt_round_trip() {
    let secret = "test-secret-not-for-production";
    let token = issue_token("u1", "member", secret).unwrap();
    let claims = verify_token(&token, secret).unwrap();
    assert_eq!(claims.sub, "u1");
    assert_eq!(claims.role, "member");
}

#[test]
fn jwt_rejects_wrong_secret() {
    let token = issue_token("u1", "member", "secret-A").unwrap();
    assert!(verify_token(&token, "secret-B").is_err());
}

#[test]
fn password_verify_paths() {
    let hash = hash_password("hunter2").unwrap();
    assert!(verify_password_constant_time("hunter2", Some(&hash)));
    assert!(!verify_password_constant_time("wrong", Some(&hash)));
    assert!(!verify_password_constant_time("anything", None));
}

#[test]
fn encrypt_decrypt_round_trip() {
    let key = MasterKey::generate();
    let original = sample();
    let blob = encrypt_payload(&key, &original, "snip-1", "owner-1", 1).unwrap();
    let recovered = decrypt_payload(&key, &blob, "snip-1", "owner-1", 1).unwrap();
    assert_eq!(original, recovered);
}

#[test]
fn fresh_nonce_per_encryption() {
    let key = MasterKey::generate();
    let p = sample();
    let a = encrypt_payload(&key, &p, "id", "owner", 1).unwrap();
    let b = encrypt_payload(&key, &p, "id", "owner", 1).unwrap();
    assert_ne!(a.nonce, b.nonce);
    assert_ne!(a.ciphertext, b.ciphertext);
}

#[test]
fn mismatched_context_fails_decrypt() {
    let key = MasterKey::generate();
    let blob = encrypt_payload(&key, &sample(), "snip-A", "owner-1", 1).unwrap();
    assert!(decrypt_payload(&key, &blob, "snip-B", "owner-1", 1).is_err());
    assert!(decrypt_payload(&key, &blob, "snip-A", "owner-2", 1).is_err());
    assert!(decrypt_payload(&key, &blob, "snip-A", "owner-1", 2).is_err());
}

#[test]
fn wrong_key_fails_decrypt() {
    let key_a = MasterKey::generate();
    let key_b = MasterKey::generate();
    let blob = encrypt_payload(&key_a, &sample(), "id", "owner", 1).unwrap();
    assert!(decrypt_payload(&key_b, &blob, "id", "owner", 1).is_err());
}

#[test]
fn associated_data_tells_rows_apart() {
    assert_eq!(associated_data("a", "b", 1), associated_data("a", "b", 1));
    assert_ne!(associated_data("a", "b", 1), associated_data("a", "b", 2));
    assert_ne!(associated_data("s", "o", 1), associated_data("s", "p", 1));
    assert_ne!(associated_data("a|b", "c", 1), associated_data("a", "b|c", 1));
    assert_ne!(associated_data("a\\", "b", 1), associated_data("a", "\\|b", 1));
}

#[test]
fn tokens_expire_a_day_after_they_are_issued() {
    let past = issue_token_at("u1", "admin", "s", 1_000_000_000).unwrap();
    let e = issue_token("u1", "admin", "").unwrap_err();
    assert_eq!((e.status, e.message.as_str()), (500, "JWT secret not configured (set jwt_secret in config)"));
    assert!(verify_token(&past, "s").is_err());
    let e = session_of_claims(None, true).unwrap_err();
    assert_eq!(e.status, 401);
    let j = Json::Object(
        vec![
            ("exp".into(), Json::Number("7".into(), Some(7))),
            ("iat".into(), Json::Number("3".into(), Some(3))),
            ("role".into(), Json::Text("admin".into())),
            ("sub".into(), Json::Text("u9".into())),
        ],
        String::new(),
    );
    assert_eq!(session_of_claims(Some(&j), false).unwrap_err().status, 401);
    let c = session_of_claims(Some(&j), true).unwrap();
    assert_eq!((c.sub.as_str(), c.role.as_str(), c.exp, c.iat), ("u9", "admin", 7, 3));
}

#[test]
fn a_claim_that_stands_twice_is_refused() {
    let signed = |text: &str| {
        let raw = serde_json::value::RawValue::from_string(text.to_string()).unwrap();
        let key = jsonwebtoken::EncodingKey::from_secret(b"s");
        jsonwebtoken::encode(&jsonwebtoken::Header::default(), &raw, &key).unwrap()
    };
    let fine = "{\"sub\":\"u\",\"role\":\"admin\",\"exp\":4102444800,\"iat\":1,\"x\":{\"role\":2},\"x\":3}";
    let c = verify_token(&signed(fine), "s").unwrap();
    assert_eq!((c.sub.as_str(), c.role.as_str(), c.exp, c.iat), ("u", "admin", 4102444800, 1));
    for more in ["\"sub\":\"u\"", "\"r\\u006fle\":\"admin\"", "\"exp\":4102444801", "\"iat\":1"] {
        let twice = format!("{{{more},{}", &fine[1..]);
        let e = verify_token(&signed(&twice), "s").unwrap_err();
        assert_eq!((e.status, e.code), (401, "invalid_token"));
    }
    assert!(has_claims_once(fine) && !has_claims_once("{\"sub\":\"u\"}"));
    assert_eq!(session_of_text(fine).unwrap().iat, 1);
    assert_eq!(session_of_text("[]").unwrap_err().status, 401);
}

#[test]
fn a_stored_hash_is_needed_for_a_match() {
    assert!(password_matches(true, Some(true)));
    assert!(!password_matches(false, Some(true)));
    assert!(!password_matches(true, Some(false)));
    assert!(!password_matches(true, None));
}

#[test]
fn admins_only() {
    assert!(AuthUser(claims("admin")).require_admin().is_ok());
    assert_eq!(AuthUser(claims("member")).require_admin().unwrap_err().status, 403);
}

#[test]
fn bearer_headers() {
    assert_eq!(bearer_token(Some("Bearer abc")).unwrap(), "abc");
    assert_eq!(bearer_token(None).unwrap_err().status, 401);
    assert_eq!(bearer_token(Some("Basic abc")).unwrap_err().status, 401);
}

#[test]
fn disabled_accounts_are_refused() {
    assert!(account_allowed(Some(0)).is_ok());
    assert!(account_allowed(Some(1)).is_err());
    assert!(account_allowed(None).is_err());
}

#[test]
fn master_key_reads_back() {
    let key = MasterKey::generate();
    let text = key.to_base64();
    let again = MasterKey::from_base64(&format!("  {text}\n")).unwrap();
    assert_eq!(key.as_bytes(), again.as_bytes());
    assert_ne!(MasterKey::generate().as_bytes(), MasterKey::generate().as_bytes());
}

#[test]
fn master_key_faults() {
    assert_eq!(MasterKey::from_base64("not base64!").err().unwrap(), "master key is not valid base64");
    assert_eq!(
        MasterKey::from_base64("AAAA").err().unwrap(),
        "master key must decode to 32 bytes; got 3"
    );
}

#[test]
fn key_sources_by_priority() {
    let cfg = CryptoConfig { master_key: Some("inline".into()), master_key_file: Some("file".into()) };
    assert!(matches!(master_key_source(Some("env".into()), &cfg), KeySource::Environment(t) if t == "env"));
    assert!(matches!(master_key_source(Some("  ".into()), &cfg), KeySource::File(p) if p == "file"));
    let inline = CryptoConfig { master_key: Some("inline".into()), master_key_file: None };
    assert!(matches!(master_key_source(None, &inline), KeySource::Inline(t) if t == "inline"));
    assert!(matches!(master_key_source(None, &CryptoConfig::default()), KeySource::Missing));
}

#[test]
fn key_files_are_private() {
    assert!(key_file_mode_ok(0o600));
    assert!(!key_file_mode_ok(0o640));
    assert!(!key_file_mode_ok(0o604));
}

#[test]
fn rate_feeds() {
    assert_eq!(fx_url(&FxConfig::default()).unwrap(), "https://open.er-api.com/v6/latest/USD");
    let custom = FxConfig { provider: "https://x.test/r".into(), cache_ttl_hours: 0 };
    assert_eq!(fx_url(&custom).unwrap(), "https://x.test/r");
    assert_eq!(fx_refresh_seconds(&custom), 3600);
    assert_eq!(fx_refresh_seconds(&FxConfig::default()), 86400);
    let bad = FxConfig { provider: "ecb".into(), cache_ttl_hours: 1 };
    assert_eq!(fx_url(&bad).unwrap_err(), "unknown fx provider 'ecb'");
}

#[test]
fn secrets_differ() {
    assert_ne!(generate_jwt_secret(), generate_jwt_secret());
}

#[test]
fn cookies() {
    let c = build_cookie("tok".into(), true);
    assert_eq!(c.value, "tok");
    assert!(c.http_only && c.same_site_lax && c.secure);
    assert!(matches!(c.life, CookieLife::BrowserSession));
    assert!(matches!(clear_cookie().life, CookieLife::Removed));
    assert_eq!(clear_cookie().value, "");
}

#[test]
fn sign_in_stays_on_host() {
    assert_eq!(safe_next(Some("/dashboard/stats")), "/dashboard/stats");
    for bad in ["https://evil.test", "//evil.test", " //evil.test", "dashboard", ""] {
        let next = safe_next(Some(bad));
        assert!(next.starts_with('/') && !next.starts_with("//"), "{bad} -> {next}");
    }
    assert_eq!(safe_next(None), "/dashboard/users");
    assert_eq!(safe_next(Some("//evil.test")), "/dashboard/users");
    assert_eq!(safe_next(Some("  /x ")), "/x");
}

#[test]
fn members_are_kept_out() {
    assert!(matches!(let_in(DashboardSession { claims: claims("admin") }), Admission::Admin(_)));
    assert!(matches!(let_in(DashboardSession { claims: claims("member") }), Admission::MemberBlocked));
    assert!(matches!(auth_redirect(Some("true")), AuthRedirect::HtmxHeader));
    assert!(matches!(auth_redirect(None), AuthRedirect::Redirect));
}

#[test]
fn nav_shows_the_stored_user() {
    let c = claims("admin");
    let (name, role) = nav_user(Some(("Ada".into(), "admin".into())), &c);
    assert_eq!((name.as_str(), role.as_str()), ("Ada", "admin"));
    let (_, fallback) = nav_user(None, &c);
    assert_eq!(fallback, "admin");
}

#[test]
fn server_faults_tell_nothing() {
    let a = ApiError::internal("secret cause");
    assert_eq!(a.status, 500);
    assert!(!a.public_message().contains("secret"));
    assert_eq!(ApiError::bad_request("c", "m").status, 400);
    assert_eq!(ApiError::not_found("c", "m").public_message(), "m");
    assert_eq!(ApiError::unauthorized("c", "m").status, 401);
    assert_eq!(ApiError::forbidden("c", "m").status, 403);
    assert_eq!(ApiError::conflict("c", "m").status, 409);
}
