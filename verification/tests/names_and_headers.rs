use fileshare_lib::server::firewall::{
    add_rule_script, delete_rule_script, ensure_rule, firewall_rule_name, first_probe, remove_rule,
    try_add_rule_elevated,
};
use fileshare_lib::server::routes::{
    check_disk_soft_limit, check_upload_target, content_disposition, content_range, extract_token, grow_upload_total,
    parse_range_header, plan_download, require_owner, sanitize_filename, sync_step, token_valid,
    DownloadPlan, SyncAction, SyncInput, TargetRefusal, MAX_UPLOAD_SIZE,
};
use fileshare_lib::text::{decimal_string, hex_string};

#[test]
fn sanitize_replaces_forbidden_characters() {
    assert_eq!(sanitize_filename("a/b\\c:d*e?f\"g<h>i|j"), "a_b_c_d_e_f_g_h_i_j");
    assert_eq!(sanitize_filename("../../etc/passwd"), "_.._etc_passwd");
}

#[test]
fn sanitize_trims_space_and_dots() {
    assert_eq!(sanitize_filename("  ..hidden..  "), "hidden");
    assert_eq!(sanitize_filename(" . .x. "), ".x");
    assert_eq!(sanitize_filename("report.pdf"), "report.pdf");
}

#[test]
fn sanitize_empty_becomes_file() {
    assert_eq!(sanitize_filename(""), "file");
    assert_eq!(sanitize_filename("..."), "file");
    assert_eq!(sanitize_filename("   "), "file");
    assert_eq!(sanitize_filename(". .. ."), "file");
    assert_eq!(sanitize_filename(". . ."), "file");
    assert_eq!(sanitize_filename(" .. "), "file");
}

#[test]
fn sanitize_prefixes_device_names() {
    assert_eq!(sanitize_filename("con.txt"), "_con.txt");
    assert_eq!(sanitize_filename("COM1"), "_COM1");
    assert_eq!(sanitize_filename("Lpt9.log"), "_Lpt9.log");
    assert_eq!(sanitize_filename("com10.txt"), "com10.txt");
    assert_eq!(sanitize_filename("nul.tar.gz"), "_nul.tar.gz");
    assert_eq!(sanitize_filename("CON.a.b"), "_CON.a.b");
    assert_eq!(sanitize_filename("console.txt"), "console.txt");
}

#[test]
fn sanitize_keeps_at_most_200_characters() {
    let long: String = std::iter::repeat('字').take(300).collect();
    let r = sanitize_filename(&long);
    assert_eq!(r.chars().count(), 200);
}

#[test]
fn range_forms() {
    assert_eq!(parse_range_header(Some("bytes=0-99"), 1000), Some((0, 99)));
    assert_eq!(parse_range_header(Some("bytes=500-"), 1000), Some((500, 999)));
    assert_eq!(parse_range_header(Some("bytes=-100"), 1000), Some((900, 999)));
    assert_eq!(parse_range_header(Some("bytes=5-2000"), 1000), Some((5, 999)));
    assert_eq!(parse_range_header(Some("bytes= 10-20 , 30-40"), 1000), Some((10, 20)));
    assert_eq!(parse_range_header(Some("bytes=+5-6"), 1000), Some((5, 6)));
}

#[test]
fn range_suffix_edge_cases() {
    assert_eq!(parse_range_header(Some("bytes=-0"), 1000), Some((0, 999)));
    assert_eq!(parse_range_header(Some("bytes=-2000"), 1000), Some((0, 999)));
    assert_eq!(parse_range_header(Some("bytes=-5"), 0), Some((0, 0)));
}

#[test]
fn range_rejections() {
    assert_eq!(parse_range_header(None, 1000), None);
    assert_eq!(parse_range_header(Some("bytes=1000-"), 1000), None);
    assert_eq!(parse_range_header(Some("items=0-1"), 1000), None);
    assert_eq!(parse_range_header(Some("bytes=a-5"), 1000), None);
    assert_eq!(parse_range_header(Some("bytes=5"), 1000), None);
    assert_eq!(parse_range_header(Some("bytes=5-x"), 1000), None);
    assert_eq!(parse_range_header(Some("bytes=99999999999999999999-"), 1000), None);
}

#[test]
fn download_plans() {
    assert!(matches!(
        plan_download(Some("bytes=10-19"), 100),
        DownloadPlan::Partial { start: 10, end: 19, length: 10 }
    ));
    assert!(matches!(plan_download(Some("bytes=20-10"), 100), DownloadPlan::Full));
    assert!(matches!(plan_download(None, 100), DownloadPlan::Full));
    assert!(matches!(plan_download(Some("bytes=-5"), 0), DownloadPlan::Full));
}

#[test]
fn download_headers() {
    assert_eq!(content_range(10, 19, 100), "bytes 10-19/100");
    assert_eq!(
        content_disposition("a b\"c.txt"),
        "attachment; filename=\"a bc.txt\"; filename*=UTF-8''a%20b%22c.txt"
    );
    assert_eq!(
        content_disposition("文件.txt"),
        "attachment; filename=\"文件.txt\"; filename*=UTF-8''%E6%96%87%E4%BB%B6.txt"
    );
}

#[test]
fn token_from_header_or_query() {
    assert_eq!(extract_token(Some("Bearer  abc "), Some("token=zzz")), "abc");
    assert_eq!(extract_token(None, Some("x=1&token=a%20b")), "a b");
    assert_eq!(extract_token(Some("Basic abc"), Some("token=q")), "q");
    assert_eq!(extract_token(None, Some("token=%FF")), "");
    assert_eq!(extract_token(None, Some("tok=1&x=2")), "");
    assert_eq!(extract_token(None, None), "");
    assert_eq!(extract_token(None, Some("a=1&token=")), "");
}

#[test]
fn token_acceptance() {
    assert!(!token_valid("", "", true));
    assert!(token_valid("owner", "owner", false));
    assert!(token_valid("jwt", "owner", true));
    assert!(!token_valid("jwt", "owner", false));
}

#[test]
fn owner_check() {
    assert_eq!(require_owner(Some("Bearer tok"), "tok"), Ok(()));
    assert_eq!(require_owner(Some("Bearer  tok"), "tok"), Err(403));
    assert_eq!(require_owner(None, "tok"), Err(403));
    assert_eq!(require_owner(Some("Bearer "), ""), Err(403));
}

#[test]
fn disk_soft_limit() {
    let mb = 1024 * 1024;
    assert!(check_disk_soft_limit(10 * mb, 0, Some(1)).is_ok());
    assert!(check_disk_soft_limit(10 * mb, 500, None).is_ok());
    assert!(check_disk_soft_limit(50 * mb, 500, Some(600 * mb)).is_ok());
    let e = check_disk_soft_limit(1, 500, Some(500 * mb)).unwrap_err();
    assert_eq!((e.free, e.need, e.min_free_mb), (500 * mb, 1, 500));
    assert!(check_disk_soft_limit(u64::MAX, u64::MAX, Some(u64::MAX - 1)).is_err());
}

#[test]
fn upload_target_checks_in_order() {
    let mb = 1024 * 1024;
    assert!(matches!(check_upload_target("", 1, 500, Some(0)), Err(TargetRefusal::NoUploadDir)));
    assert!(matches!(check_upload_target("/d", 1, 500, Some(500 * mb)), Err(TargetRefusal::Disk(_))));
    assert!(check_upload_target("/d", 1, 500, Some(501 * mb)).is_ok());
    assert!(check_upload_target("/d", 1, 500, None).is_ok());
}

#[test]
fn multipart_size_cap() {
    assert_eq!(grow_upload_total(0, 10), Some(10));
    assert_eq!(grow_upload_total(MAX_UPLOAD_SIZE as u64 - 1, 1), Some(MAX_UPLOAD_SIZE as u64));
    assert_eq!(grow_upload_total(MAX_UPLOAD_SIZE as u64, 1), None);
}

#[test]
fn sync_reactions() {
    assert!(matches!(sync_step(3, SyncInput::Event(Some("x".to_string()))), SyncAction::Send(t) if t == "x"));
    assert!(matches!(sync_step(3, SyncInput::Event(None)), SyncAction::Idle));
    assert!(matches!(sync_step(3, SyncInput::Lagged), SyncAction::SendResync));
    assert!(matches!(sync_step(3, SyncInput::Closed), SyncAction::Close));
    assert!(matches!(sync_step(3, SyncInput::PingTick), SyncAction::SendPing));
    assert!(matches!(sync_step(3, SyncInput::AuthTick(3)), SyncAction::Idle));
    assert!(matches!(sync_step(3, SyncInput::AuthTick(4)), SyncAction::SendAuthInvalidAndClose));
}

#[test]
fn firewall_outside_windows() {
    ensure_rule(18888);
    assert!(try_add_rule_elevated(18888).is_ok());
    remove_rule(18888);
    assert_eq!(firewall_rule_name(), "FileShare-HTTP");
    assert_eq!(
        add_rule_script(18888),
        "Start-Process netsh -ArgumentList 'advfirewall firewall add rule name=\"FileShare-HTTP\" dir=in action=allow protocol=TCP localport=18888 profile=any' -Verb RunAs -WindowStyle Hidden"
    );
    assert_eq!(
        delete_rule_script(),
        "Start-Process netsh -ArgumentList 'advfirewall firewall delete rule name=\"FileShare-HTTP\"' -Verb RunAs -WindowStyle Hidden"
    );
    let mut probed = Vec::new();
    assert!(first_probe(&mut probed, 18888));
    assert!(!first_probe(&mut probed, 18888));
    assert!(first_probe(&mut probed, 8080));
    assert_eq!(probed, vec![18888, 8080]);
}

#[test]
fn number_formats() {
    assert_eq!(decimal_string(0), "0");
    assert_eq!(decimal_string(1234567890123), "1234567890123");
    assert_eq!(decimal_string(u64::MAX), "18446744073709551615");
    assert_eq!(hex_string(&[0x00, 0x0f, 0xab, 0xff]), "000fabff");
}
