use fileshare_lib::commands::{
    clipboard_png, plan_clipboard_image, share_clipboard_image,
    autostart_needs_refresh, clipboard_choice, collect_orphans, has_autostart_flag, local_skip_reason, refresh_auth,
    share_clipboard_text, share_local_file, upload_dir_name, ClipboardChoice, LocalSkip,
    OrphanCandidate,
};
use fileshare_lib::config::AppConfig;
use fileshare_lib::server::files::Registry;
use fileshare_lib::server::state::AppState;
use fileshare_lib::tray::{tray_texts, truncate_mid};

fn state() -> AppState {
    AppState::new(AppConfig::default(), "owner".into(), Registry::memory_only())
}

#[test]
fn autostart_flag() {
    let args = vec!["app".to_string(), "--flag-from-autostart".to_string()];
    assert!(has_autostart_flag(&args));
    assert!(!has_autostart_flag(&vec!["app".to_string(), "--flag".to_string()]));
}

#[test]
fn autostart_registration_refresh() {
    let plain = vec!["app".to_string()];
    let flagged = vec!["app".to_string(), "--flag-from-autostart".to_string()];
    assert!(autostart_needs_refresh(true, &plain));
    assert!(!autostart_needs_refresh(true, &flagged));
    assert!(!autostart_needs_refresh(false, &plain));
    assert!(!autostart_needs_refresh(false, &flagged));
}

#[test]
fn refreshing_settings() {
    let mut st = state();
    let mut c = AppConfig::default();
    c.password_enabled = true;
    c.password = "pw".into();
    let r = refresh_auth(&mut st, c);
    assert!(r.rotated && r.password_required);
    let mut c2 = AppConfig::default();
    c2.password_enabled = true;
    c2.password = "pw".into();
    c2.port = 9000;
    let r2 = refresh_auth(&mut st, c2);
    assert!(!r2.rotated && r2.password_required);
    assert_eq!(st.config.port, 9000);
}

#[test]
fn clipboard_choices() {
    assert!(matches!(clipboard_choice(Some((2, 2, 16)), Some("t")), ClipboardChoice::Image));
    assert!(matches!(clipboard_choice(Some((0, 2, 16)), Some("t")), ClipboardChoice::Text));
    assert!(matches!(clipboard_choice(None, Some("  \n")), ClipboardChoice::Nothing));
    assert!(matches!(clipboard_choice(None, None), ClipboardChoice::Nothing));
}

#[test]
fn clipboard_text() {
    let mut st = state();
    let long: String = std::iter::repeat('é').take(100).collect();
    let (t, res) = share_clipboard_text(&mut st, long.clone()).ok().unwrap();
    assert_eq!(res.kind, "text");
    assert_eq!(res.id, t.id);
    assert_eq!(res.name.chars().count(), 80);
    assert_eq!(res.size, 200);
    assert_eq!(t.uploader_ip, "host");
    assert!(share_clipboard_text(&mut st, "a".repeat(1024 * 1024 + 1)).is_err());
    assert_eq!(st.registry.list_texts().len(), 1);
}

#[test]
fn local_files() {
    assert!(matches!(local_skip_reason(None), Some(LocalSkip::Missing)));
    assert!(matches!(local_skip_reason(Some((true, false))), Some(LocalSkip::Directory)));
    assert!(matches!(local_skip_reason(Some((false, false))), Some(LocalSkip::NotRegularFile)));
    assert!(local_skip_reason(Some((false, true))).is_none());
    let mut st = state();
    let (f, shown) = share_local_file(&mut st, "/home/u/notes.txt".into(), "notes.txt".into(), 42);
    assert_eq!(f.mime, "text/plain");
    assert_eq!(f.uploader_ip, "host");
    assert_eq!(shown.id, f.id);
    assert_eq!(shown.size, 42);
    assert_eq!(st.registry.get_file(&f.id).unwrap().path, "/home/u/notes.txt");
}

#[test]
fn orphan_scan() {
    assert!(upload_dir_name("abcdefgh_-123456"));
    assert!(!upload_dir_name("abcdefgh_-12345"));
    assert!(!upload_dir_name("abcdefgh.-123456"));
    let c = |p: &str, s: u64| OrphanCandidate { path: p.into(), canonical: p.into(), size: s };
    let r = collect_orphans(
        vec![c("/u/a", 1), c("/u/b", 2), c("/u/c", u64::MAX)],
        &vec!["/u/b".to_string()],
        &vec![],
        true,
    );
    assert_eq!(r.items.len(), 2);
    assert_eq!(r.items[0].path, "/u/a");
    assert_eq!(r.total_size, u64::MAX);
    assert!(!r.removed);
    let r2 = collect_orphans(vec![c("/u/a", 1)], &vec![], &vec!["/u/a".to_string()], false);
    assert!(r2.items.is_empty() && r2.removed && r2.total_size == 0);
}

#[test]
fn tray_labels() {
    let t = tray_texts(true, "http://192.168.1.20:18888/s");
    assert_eq!(t.status, "● 正在分享");
    assert_eq!(t.open_label, "打开分享页 (http://192.168.1.20:18888/s)");
    assert!(t.open_enabled);
    assert_eq!(t.tooltip, "FileShare - 正在分享");
    let e = tray_texts(true, "");
    assert_eq!(e.open_label, "打开分享页");
    assert!(!e.open_enabled);
    let s = tray_texts(false, "http://x");
    assert_eq!(s.status, "○ 服务已停止");
    assert!(!s.open_enabled);
    assert_eq!(s.tooltip, "FileShare - 未开启");
}

#[test]
fn truncating_in_the_middle() {
    assert_eq!(truncate_mid("short", 40), "short");
    let long = "http://192.168.100.200:18888/s?token=abcdefghijklmnop";
    let t = truncate_mid(long, 40);
    assert_eq!(t, "http://192.168.100.2...ken=abcdefghijklmnop");
    assert_eq!(t.chars().count(), 43);
    assert_eq!(truncate_mid("abcdef", 3), "a...f");
}

#[test]
fn clipboard_images() {
    let png = clipboard_png(1, 1, &[255, 0, 0, 255]).unwrap();
    assert_eq!(&png[..8], &[0x89, b'P', b'N', b'G', 0x0d, 0x0a, 0x1a, 0x0a]);
    assert_eq!(clipboard_png(2, 2, &[0; 15]).unwrap_err(), "剪贴板图片尺寸与数据不匹配");
    assert_eq!(plan_clipboard_image("", 5).err().unwrap(), "uploadDir 未配置");
    let plan = plan_clipboard_image("/d", 1234).unwrap();
    assert_eq!(plan.name, "clipboard-1234.png");
    assert_eq!(plan.id.len(), 16);
    let id = plan.id.clone();
    let mut st = state();
    let (f, r) = share_clipboard_image(&mut st, plan, "/d/x/clipboard-1234.png".into(), 70);
    assert_eq!((f.mime.as_str(), f.uploader_ip.as_str(), f.size), ("image/png", "host", 70));
    assert_eq!((r.kind.as_str(), r.id.as_str(), r.name.as_str(), r.size), ("file", id.as_str(), "clipboard-1234.png", 70));
    assert_eq!(st.registry.list_files().len(), 1);
}
