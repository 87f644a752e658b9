use serial_monitor::update::{
    ascii_bytes, check_for_updates, download_failure_message, find_release, get_local_version,
    is_version_newer, parse_version, program_download_urls, raw_download_url, release_matches_tag,
    releases_url, restart_script, select_version_tags, tags_url, AssetInfo, TagInfo,
};

fn pairs(tags: &[&str]) -> Vec<(String, String)> {
    tags.iter().map(|t| (t.to_string(), String::new())).collect()
}

#[test]
fn parse_version_reads_three_numbers() {
    assert_eq!(parse_version("1.2.6"), Some((1, 2, 6)));
    assert_eq!(parse_version("10.0.42"), Some((10, 0, 42)));
    assert_eq!(parse_version("0.0.0"), Some((0, 0, 0)));
    assert_eq!(parse_version("1.+2.3"), Some((1, 2, 3)));
}

#[test]
fn parse_version_refusals() {
    assert_eq!(parse_version("1.2"), None);
    assert_eq!(parse_version("1.2.3.4"), None);
    assert_eq!(parse_version("1.x.3"), None);
    assert_eq!(parse_version("v1.2.3"), None);
    assert_eq!(parse_version(""), None);
    assert_eq!(parse_version("1..3"), None);
    assert_eq!(parse_version("4294967296.0.0"), None);
    assert_eq!(parse_version("4294967295.0.0"), Some((4294967295, 0, 0)));
}

#[test]
fn newer_versions() {
    assert!(is_version_newer("1.2.6", "1.2.7"));
    assert!(is_version_newer("1.2.6", "1.3.0"));
    assert!(is_version_newer("1.2.6", "2.0.0"));
    assert!(is_version_newer("1.9.9", "1.10.0"));
}

#[test]
fn not_newer_versions() {
    assert!(!is_version_newer("1.2.6", "1.2.6"));
    assert!(!is_version_newer("1.2.6", "1.2.5"));
    assert!(!is_version_newer("2.0.0", "1.9.9"));
    assert!(!is_version_newer("1.2.6", "garbage"));
    assert!(!is_version_newer("garbage", "9.9.9"));
}

#[test]
fn newer_is_strict_and_transitive_on_examples() {
    let a = "1.0.0";
    let b = "1.1.0";
    let c = "2.0.0";
    assert!(is_version_newer(a, b) && is_version_newer(b, c) && is_version_newer(a, c));
    assert!(!(is_version_newer(a, b) && is_version_newer(b, a)));
}

#[test]
fn local_version_is_package_version() {
    assert_eq!(get_local_version(), "1.2.6");
}

#[test]
fn updates_found_in_newest_tag() {
    let tags = pairs(&["v1.2.5", "v1.3.0", "v1.2.9"]);
    assert_eq!(check_for_updates(&tags), (true, "v1.3.0".to_string()));
}

#[test]
fn no_update_when_current() {
    let tags = pairs(&["v1.0.0", "v1.2.6"]);
    assert_eq!(check_for_updates(&tags), (false, "v1.2.6".to_string()));
}

#[test]
fn no_tags_no_update() {
    assert_eq!(check_for_updates(&Vec::new()), (false, String::new()));
    assert_eq!(check_for_updates(&pairs(&["1.9.9", "latest"])), (false, String::new()));
}

#[test]
fn select_version_tags_keeps_release_tags() {
    let tags = vec![
        TagInfo { name: Some("v1.2.3".to_string()), message: Some("fixes".to_string()) },
        TagInfo { name: Some("nightly".to_string()), message: Some("x".to_string()) },
        TagInfo { name: Some("v1.2".to_string()), message: None },
        TagInfo { name: None, message: Some("y".to_string()) },
        TagInfo { name: Some("v2.0.0".to_string()), message: None },
        TagInfo { name: Some("v2.0.a".to_string()), message: None },
    ];
    assert_eq!(
        select_version_tags(&tags),
        vec![
            ("v1.2.3".to_string(), "fixes".to_string()),
            ("v2.0.0".to_string(), String::new())
        ]
    );
}

#[test]
fn release_tag_matching() {
    assert!(release_matches_tag("v1.2.3", "v1.2.3"));
    assert!(release_matches_tag("v1.2.6", "Serial-Port-Debugger.1.2.6"));
    assert!(release_matches_tag("Serial-Port-Debugger.1.2.6", "v1.2.6"));
    assert!(release_matches_tag("1.2.6", "v1.2.6"));
    assert!(!release_matches_tag("v1.2.3", "Serial-Port-Debugger.2.3"));
    assert!(!release_matches_tag("v1.2.3", "v1.2.4"));
    assert!(!release_matches_tag("v1.2.3", "other"));
}

#[test]
fn repository_urls() {
    assert_eq!(tags_url(), "https://gitee.com/api/v5/repos/tangshuier/serial-port-debugger/tags");
    assert_eq!(
        releases_url(),
        "https://gitee.com/api/v5/repos/tangshuier/serial-port-debugger/releases"
    );
    assert_eq!(
        raw_download_url("v1.3.0"),
        "https://gitee.com/tangshuier/serial-port-debugger/raw/v1.3.0/target/release/串口调试器.exe"
    );
    assert_eq!(
        raw_download_url("x{file}"),
        "https://gitee.com/tangshuier/serial-port-debugger/raw/xtarget/release/串口调试器.exe/target/release/串口调试器.exe"
    );
}

#[test]
fn program_assets_in_order() {
    let asset = |n: Option<&str>, u: Option<&str>| AssetInfo {
        name: n.map(|s| s.to_string()),
        browser_download_url: u.map(|s| s.to_string()),
    };
    let assets = vec![
        asset(Some("readme.txt"), Some("u1")),
        asset(Some("串口调试器.exe"), Some("u2")),
        asset(Some("串口调试器.exe"), None),
        asset(None, Some("u3")),
        asset(Some("串口调试器.exe"), Some("u4")),
    ];
    assert_eq!(program_download_urls(&assets), vec!["u2".to_string(), "u4".to_string()]);
}

#[test]
fn release_lookup_by_tag() {
    let tags = vec![None, Some("v1.0.0".to_string()), Some("Serial-Port-Debugger.1.2.6".to_string())];
    assert_eq!(find_release(&tags, "v1.2.6"), Some(2));
    assert_eq!(find_release(&tags, "v1.0.0"), Some(1));
    assert_eq!(find_release(&tags, "v9.9.9"), None);
}

#[test]
fn download_failure_messages() {
    assert_eq!(
        download_failure_message("403", "error: large file require login"),
        "大文件下载需要登录，请手动从Gitee仓库下载对应版本的文件"
    );
    assert_eq!(
        download_failure_message("404 Not Found", "missing"),
        "HTTP 请求失败: 404 Not Found, 响应: missing"
    );
}

#[test]
fn restart_script_and_ascii_bytes() {
    let script = restart_script("C:\\apps");
    assert!(script.starts_with("\n@echo off\n"));
    assert!(script.contains("cd /d \"C:\\apps\"\n"));
    assert!(script.ends_with("del \"%~f0\" /f /q\n"));
    assert_eq!(ascii_bytes("a串b"), vec![b'a', b'?', b'b']);
    assert_eq!(ascii_bytes(""), Vec::<u8>::new());
}

#[test]
fn update_reported_when_any_release_is_newer() {
    assert_eq!(check_for_updates(&pairs(&["v1.2.7", "v1.2.6", "v0.9.0"])), (true, "v1.2.7".to_string()));
    assert_eq!(check_for_updates(&pairs(&["v1.2.6", "v1.2.5"])), (false, "v1.2.6".to_string()));
}

#[test]
fn version_tags_need_digits_in_every_part() {
    let tag = |n: &str| TagInfo { name: Some(n.to_string()), message: None };
    let tags = vec![tag("v.."), tag("v1..2"), tag("v.2.3"), tag("v1.2."), tag("v0.1.0")];
    assert_eq!(select_version_tags(&tags), vec![("v0.1.0".to_string(), String::new())]);
}
