use fileshare_lib::config::{default_disk_min_free_mb, AppConfig, DEFAULT_PORT};
use fileshare_lib::server::auth::{
    hash_password, issue_token, issue_token_at, random_secret, verify_password, verify_token,
    verify_token_at, TOKEN_TTL_SECS,
};
use fileshare_lib::server::files::{audit_prune_due, audit_window, FileItem, Registry, TextItem};
use fileshare_lib::server::routes::{
    delete_file, delete_text, finish_upload, login, login_at, open_session, plan_upload,
    post_text, share_file, LoginOutcome, TextRejection,
};
use fileshare_lib::server::state::{
    compute_password_hash, new_file_id, new_owner_token, now_secs, secs_to_stamp, AppState,
};
use std::collections::HashMap;

fn file(id: &str, name: &str) -> FileItem {
    FileItem {
        id: id.to_string(),
        name: name.to_string(),
        size: 3,
        mime: "text/plain".to_string(),
        uploader_ip: "ip".to_string(),
        created_at: 1,
        path: format!("/d/{id}/{name}"),
    }
}

fn text(id: &str, content: &str) -> TextItem {
    TextItem {
        id: id.to_string(),
        content: content.to_string(),
        uploader_ip: "ip".to_string(),
        created_at: 1,
    }
}

fn config(enabled: bool, password: &str) -> AppConfig {
    let mut c = AppConfig::default();
    c.password_enabled = enabled;
    c.password = password.to_string();
    c.upload_dir = "/tmp/up".to_string();
    c
}

#[test]
fn default_config() {
    let c = AppConfig::default();
    assert_eq!(c.port, DEFAULT_PORT);
    assert_eq!(c.port, 18888);
    assert_eq!(c.disk_min_free_mb, 500);
    assert_eq!(default_disk_min_free_mb(), 500);
    assert!(!c.password_enabled && !c.auto_start && !c.https_enabled && !c.bind_ipv6);
    assert!(c.upload_dir.is_empty() && c.password.is_empty());
}

#[test]
fn registry_keeps_insertion_order() {
    let mut r = Registry::memory_only();
    r.add_file(file("a", "1.txt"));
    r.add_file(file("b", "2.txt"));
    r.add_file(file("a", "renamed.txt"));
    let names: Vec<String> = r.list_files().iter().map(|f| f.name.clone()).collect();
    assert_eq!(names, vec!["renamed.txt", "2.txt"]);
    assert_eq!(r.get_file("b").unwrap().name, "2.txt");
    assert!(r.get_file("c").is_none());
    assert_eq!(r.known_file_paths(), vec!["/d/a/renamed.txt".to_string(), "/d/b/2.txt".to_string()]);
}

#[test]
fn sharing_then_deleting_restores_the_list() {
    let mut r = Registry::memory_only();
    r.add_file(file("a", "1.txt"));
    r.add_file(file("b", "2.txt"));
    r.add_file(file("n", "new.txt"));
    r.remove_file("n");
    let ids: Vec<String> = r.list_files().iter().map(|f| f.id.clone()).collect();
    assert_eq!(ids, vec!["a", "b"]);
}

#[test]
fn registry_removes_and_clears() {
    let mut r = Registry::memory_only();
    r.add_file(file("a", "1.txt"));
    r.add_file(file("b", "2.txt"));
    r.add_file(file("c", "3.txt"));
    assert_eq!(r.remove_file("b").unwrap().name, "2.txt");
    assert!(r.remove_file("b").is_none());
    let ids: Vec<String> = r.list_files().iter().map(|f| f.id.clone()).collect();
    assert_eq!(ids, vec!["a", "c"]);
    r.add_text(text("t1", "hello"));
    r.add_text(text("t2", "world"));
    assert_eq!(r.remove_text("t1").unwrap().content, "hello");
    assert_eq!(r.list_texts().len(), 1);
    r.clear_all();
    assert!(r.list_files().is_empty() && r.list_texts().is_empty());
}

#[test]
fn registry_load_and_reconcile() {
    let mut r = Registry::load(
        vec![file("a", "1"), file("b", "2"), file("c", "3"), file("d", "4")],
        vec![text("t", "x")],
    );
    assert_eq!(r.list_files().len(), 4);
    assert_eq!(r.list_texts().len(), 1);
    let removed = r.reconcile(&vec![true, false, true, false]);
    assert_eq!(removed, vec!["b".to_string(), "d".to_string()]);
    let ids: Vec<String> = r.list_files().iter().map(|f| f.id.clone()).collect();
    assert_eq!(ids, vec!["a", "c"]);
    assert_eq!(r.list_texts().len(), 1);
}

#[test]
fn password_hash_round_trip() {
    let h = hash_password("s3cret").unwrap();
    assert!(h.starts_with("$argon2"));
    assert!(verify_password("s3cret", &h));
    assert!(!verify_password("other", &h));
    assert!(!verify_password("s3cret", "not a hash"));
}

#[test]
fn password_hash_follows_settings() {
    assert!(compute_password_hash(&config(false, "pw")).is_none());
    assert!(compute_password_hash(&config(true, "   ")).is_none());
    let h = compute_password_hash(&config(true, "pw")).unwrap();
    assert!(verify_password("pw", &h));
}

#[test]
fn tokens_are_deterministic_for_a_time() {
    let a = issue_token_at("key", "guest", 1000).unwrap();
    let b = issue_token_at("key", "guest", 1000).unwrap();
    let c = issue_token_at("key", "guest", 1001).unwrap();
    assert_eq!(a, b);
    assert_ne!(a, c);
    assert_eq!(a.split('.').count(), 3);
    let key = jsonwebtoken::DecodingKey::from_secret(b"key");
    let mut v = jsonwebtoken::Validation::default();
    v.validate_exp = false;
    let d = jsonwebtoken::decode::<HashMap<String, serde_json::Value>>(&a, &key, &v).unwrap();
    assert_eq!(d.claims["sub"], "guest");
    assert_eq!(d.claims["iat"], 1000);
    assert_eq!(d.claims["exp"], 1000 + TOKEN_TTL_SECS);
    assert!(issue_token("key", "guest").is_ok());
}

#[test]
fn claims_are_in_issue_order() {
    let t = issue_token_at("key", "guest", 1000).unwrap();
    let payload = t.split('.').nth(1).unwrap();
    // {"sub":"guest","exp":605800,"iat":1000} in unpadded base64url
    assert_eq!(payload, "eyJzdWIiOiJndWVzdCIsImV4cCI6NjA1ODAwLCJpYXQiOjEwMDB9");
}

#[test]
fn verifying_tokens() {
    let t = issue_token_at("key", "guest", 1000).unwrap();
    let c = verify_token_at("key", &t, 1000).unwrap();
    assert_eq!((c.sub.as_str(), c.exp, c.iat), ("guest", 1000 + TOKEN_TTL_SECS, 1000));
    assert!(verify_token_at("key", &t, 1000 + TOKEN_TTL_SECS + 10).is_ok());
    assert!(verify_token_at("key", &t, 1000 + TOKEN_TTL_SECS + 11).is_err());
    assert!(verify_token_at("other", &t, 1000).is_err());
    assert!(verify_token_at("key", "not.a.token", 1000).is_err());
    let fresh = issue_token("key", "guest").unwrap();
    assert_eq!(verify_token("key", &fresh).unwrap().sub, "guest");
    assert!(verify_token("key", &t).is_err());
}

#[test]
fn configured_password_logs_in() {
    let st = AppState::new(config(true, "secret pw"), "owner".into(), Registry::memory_only());
    assert!(st.password_hash.is_some());
    assert!(matches!(login_at(&st, "secret pw", 1000), LoginOutcome::Granted { password_checked: true, .. }));
}

#[test]
fn login_token_round_trip() {
    let st = AppState::new(config(true, "pw"), "owner".into(), Registry::memory_only());
    let token = match login_at(&st, "pw", 1000) {
        LoginOutcome::Granted { token, .. } => token,
        _ => panic!("the configured password must log in"),
    };
    let c = verify_token_at(&st.jwt_secret, &token, 1000 + TOKEN_TTL_SECS + 10).unwrap();
    assert_eq!(c.sub, "guest");
    assert_eq!((c.iat, c.exp - c.iat), (1000, 604800));
    assert!(verify_token_at(&st.jwt_secret, &token, 1000 + TOKEN_TTL_SECS + 11).is_err());
    assert!(verify_token_at("another key", &token, 1000).is_err());
}

#[test]
fn secrets_and_ids() {
    let s = random_secret();
    assert_eq!(s.len(), 64);
    assert!(s.chars().all(|c| c.is_ascii_hexdigit() && !c.is_ascii_uppercase()));
    assert_ne!(s, random_secret());
    let id = new_file_id();
    assert_eq!(id.chars().count(), 16);
    assert!(id.chars().all(|c| c.is_ascii_alphanumeric() || c == '_' || c == '-'));
    assert_eq!(new_owner_token().len(), 32);
    assert!(now_secs() > 1_600_000_000);
    assert_eq!(secs_to_stamp(None), 0);
    assert_eq!(secs_to_stamp(Some(1_700_000_000)), 1_700_000_000);
    assert_eq!(secs_to_stamp(Some(u64::MAX)), -1);
}

#[test]
fn state_starts_consistent() {
    let st = AppState::new(config(false, ""), "owner".into(), Registry::memory_only());
    assert!(!st.password_required());
    assert!(st.password_hash.is_none());
    assert_eq!(st.auth_epoch(), 0);
    assert_eq!(st.jwt_secret_snapshot().len(), 64);
    assert_eq!(st.owner_token, "owner");
}

#[test]
fn reload_rotates_only_on_change() {
    let mut st = AppState::new(config(false, ""), "owner".into(), Registry::memory_only());
    let key0 = st.jwt_secret_snapshot();
    assert!(!st.reload_auth());
    st.update_config(config(true, "pw"));
    assert!(st.reload_auth());
    assert_eq!(st.auth_epoch(), 1);
    assert!(st.password_required());
    assert!(verify_password("pw", st.password_hash.as_ref().unwrap()));
    assert_ne!(st.jwt_secret_snapshot(), key0);
    assert!(!st.reload_auth());
    assert_eq!(st.auth_epoch(), 1);
    st.update_config(config(true, "pw2"));
    assert!(st.reload_auth());
    assert_eq!(st.auth_epoch(), 2);
}

#[test]
fn login_without_password() {
    let st = AppState::new(config(false, ""), "owner".into(), Registry::memory_only());
    match login(&st, "anything") {
        LoginOutcome::Granted { token, password_checked } => {
            assert!(!password_checked);
            assert!(!token.is_empty());
        }
        _ => panic!("expected a token"),
    }
}

#[test]
fn login_with_password() {
    let st = AppState::new(config(true, "pw"), "owner".into(), Registry::memory_only());
    assert!(matches!(login(&st, "wrong"), LoginOutcome::WrongPassword));
    assert!(matches!(login_at(&st, "pw", 5), LoginOutcome::Granted { password_checked: true, .. }));
    let mut st2 = AppState::new(config(true, "pw"), "owner".into(), Registry::memory_only());
    st2.password_hash = None;
    assert!(matches!(login(&st2, "pw"), LoginOutcome::PasswordUnset));
}

#[test]
fn posting_texts() {
    let mut st = AppState::new(config(false, ""), "owner".into(), Registry::memory_only());
    assert!(matches!(post_text(&mut st, String::new(), "ip".into()), Err(TextRejection::Empty)));
    let big = "a".repeat(1024 * 1024 + 1);
    assert!(matches!(post_text(&mut st, big, "ip".into()), Err(TextRejection::TooLarge)));
    let t = post_text(&mut st, "hello".into(), "1.2.3.4".into()).ok().unwrap();
    assert_eq!(t.content, "hello");
    assert_eq!(t.uploader_ip, "1.2.3.4");
    assert_eq!(t.id.chars().count(), 12);
    assert_eq!(st.registry.list_texts().len(), 1);
}

#[test]
fn deleting_needs_the_owner() {
    let mut st = AppState::new(config(false, ""), "owner".into(), Registry::memory_only());
    share_file(&mut st, "f1".into(), "a.txt".into(), 3, "text/plain".into(), "ip".into(), "/p".into());
    assert_eq!(delete_file(&mut st, Some("Bearer guest"), "f1").err(), Some(403));
    assert_eq!(delete_file(&mut st, Some("Bearer owner"), "nope").err(), Some(404));
    assert_eq!(delete_file(&mut st, Some("Bearer owner"), "f1").unwrap().name, "a.txt");
    assert!(st.registry.list_files().is_empty());
    let t = post_text(&mut st, "x".into(), "ip".into()).ok().unwrap();
    assert_eq!(delete_text(&mut st, None, &t.id).err(), Some(403));
    assert!(delete_text(&mut st, Some("Bearer owner"), &t.id).is_ok());
    assert_eq!(delete_text(&mut st, Some("Bearer owner"), &t.id).err(), Some(404));
}

#[test]
fn finishing_an_upload_shares_the_file() {
    let mut st = AppState::new(config(false, ""), "owner".into(), Registry::memory_only());
    let p = plan_upload("movie.mp4", 100, None, None, "ip").ok().unwrap();
    open_session(
        &mut st.uploads,
        p,
        "up".into(),
        "fid".into(),
        "ip".into(),
        "/d/fid/movie.mp4.partial".into(),
        "/d/fid/movie.mp4".into(),
        3,
    );
    let f = finish_upload(&mut st, "up").unwrap();
    assert_eq!((f.id.as_str(), f.name.as_str(), f.size), ("fid", "movie.mp4", 100));
    assert_eq!(f.path, "/d/fid/movie.mp4");
    assert!(st.uploads.get("up").is_none());
    assert_eq!(st.registry.get_file("fid").unwrap().mime, "video/mp4");
    assert!(finish_upload(&mut st, "up").is_none());
}

#[test]
fn audit_paging() {
    assert_eq!(audit_window(None, None), (200, 0));
    assert_eq!(audit_window(Some(0), Some(-5)), (1, 0));
    assert_eq!(audit_window(Some(10_000), Some(7)), (500, 7));
    assert!(audit_prune_due(400));
    assert!(!audit_prune_due(401));
}
