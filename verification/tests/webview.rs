use bnu_core::webview::is_app_origin;

#[test]
fn only_app_origin_allowed() {
    assert!(is_app_origin("http://tauri.localhost/"));
    assert!(is_app_origin("http://tauri.localhost/index.html?a=1"));
    assert!(is_app_origin("https://tauri.localhost/"));
    assert!(is_app_origin("tauri://localhost/"));
    assert!(is_app_origin("http://localhost:1420/"));
    assert!(is_app_origin("http://127.0.0.1:1420/"));
    assert!(!is_app_origin("https://example.com/"));
    assert!(!is_app_origin("http://localhost.evil.com/"));
    assert!(!is_app_origin("http://127.0.0.1.evil.com/"));
    assert!(!is_app_origin("http://tauri.localhost.evil.com/"));
    assert!(!is_app_origin("file:///tmp/index.html"));
    assert!(!is_app_origin(""));
}

#[test]
fn tauri_scheme_needs_exact_host() {
    assert!(is_app_origin("tauri://localhost"));
    assert!(!is_app_origin("tauri://localhost:1/"));
    assert!(!is_app_origin("ftp://localhost/"));
}
