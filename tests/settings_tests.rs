use rustxl::settings::Settings;
use rustxl::types::{RowColumnSelectMode, TextAlignment, VerticalAlignment};
use rustxl::update::{
    get_platform_asset_name, is_newer_version, update_from_release, update_message, GithubAsset,
    GithubRelease, UpdateMessage,
};

#[test]
fn test_default_settings() {
    let settings = Settings::default();
    assert!(!settings.dark_mode);
    assert!(!settings.hide_update_prompt);
}

#[test]
fn settings_setters() {
    let mut s = Settings::default();
    s.set_dark_mode(true);
    s.set_hide_update_prompt(true);
    assert!(s.dark_mode && s.hide_update_prompt);
    s.set_dark_mode(false);
    assert!(!s.dark_mode && s.hide_update_prompt);
}

#[test]
fn config_text_round_trip() {
    let s = Settings { dark_mode: true, hide_update_prompt: false };
    let text = s.to_config_text();
    assert_eq!(text, "# xl spreadsheet settings\ndark_mode=true\nhide_update_prompt=false\n");
    assert_eq!(Settings::parse_config(&text), s);
}

#[test]
fn config_parsing_rules() {
    let s = Settings::parse_config("# comment\r\n  dark_mode = 1 \r\n\nunknown=true\nhide_update_prompt=yes\n");
    assert!(s.dark_mode);
    assert!(!s.hide_update_prompt);
    let s = Settings::parse_config("hide_update_prompt=true\n#dark_mode=true\ndark_mode");
    assert!(s.hide_update_prompt);
    assert!(!s.dark_mode);
}

#[test]
fn test_version_comparison() {
    assert!(is_newer_version("0.1.0", "0.1.1"));
    assert!(is_newer_version("0.1.0", "0.2.0"));
    assert!(is_newer_version("0.1.0", "1.0.0"));
    assert!(is_newer_version("v0.1.0", "v0.1.1"));
    assert!(!is_newer_version("0.1.1", "0.1.0"));
    assert!(!is_newer_version("0.1.0", "0.1.0"));
}

#[test]
fn version_fallback_compares_text() {
    assert!(is_newer_version("nightly", "beta"));
    assert!(!is_newer_version("vvbeta", "beta"));
    assert!(is_newer_version("1.0.0-rc.1", "1.0.0"));
}

#[test]
fn test_platform_asset_name() {
    assert_eq!(get_platform_asset_name("linux", "x86_64"), Some("xl-linux-x86_64.tar.gz".to_string()));
    assert_eq!(get_platform_asset_name("macos", "aarch64"), Some("xl-darwin-arm64.tar.gz".to_string()));
    assert_eq!(get_platform_asset_name("windows", "x86_64"), None);
}

fn release(tag: &str, names: &[&str]) -> GithubRelease {
    GithubRelease {
        tag_name: tag.to_string(),
        assets: names
            .iter()
            .map(|n| GithubAsset { name: n.to_string(), browser_download_url: format!("https://example.invalid/{}", n) })
            .collect(),
    }
}

#[test]
fn update_decisions() {
    let r = release("v0.2.0", &["xl-darwin-arm64.tar.gz", "xl-linux-x86_64.tar.gz"]);
    let info = update_from_release("0.1.0", &r, Some("xl-linux-x86_64.tar.gz".to_string())).unwrap().unwrap();
    assert_eq!(info.latest_version, "v0.2.0");
    assert_eq!(info.current_version, "0.1.0");
    assert_eq!(info.asset_name, "xl-linux-x86_64.tar.gz");
    assert_eq!(info.download_url, "https://example.invalid/xl-linux-x86_64.tar.gz");
    assert!(update_from_release("0.2.0", &r, None).unwrap().is_none());
    assert_eq!(
        update_from_release("0.1.0", &r, None).err(),
        Some("No compatible binary available for this platform".to_string())
    );
    assert_eq!(
        update_from_release("0.1.0", &r, Some("xl-linux-arm64.tar.gz".to_string())).err(),
        Some("No asset found for platform: xl-linux-arm64.tar.gz".to_string())
    );
}

#[test]
fn state_enums() {
    assert_eq!(TextAlignment::default(), TextAlignment::Left);
    assert_eq!(VerticalAlignment::default(), VerticalAlignment::Top);
    assert_ne!(RowColumnSelectMode::Off, RowColumnSelectMode::RowSelect);
}

#[test]
fn update_messages() {
    assert!(matches!(update_message(Ok(None)), UpdateMessage::NotAvailable));
    assert!(matches!(update_message(Err("down".to_string())), UpdateMessage::Error(e) if e == "down"));
    let r = release("v9.0.0", &["xl-linux-x86_64.tar.gz"]);
    let outcome = update_from_release("0.1.0", &r, Some("xl-linux-x86_64.tar.gz".to_string()));
    match update_message(outcome) {
        UpdateMessage::Available(info) => assert_eq!(info.latest_version, "v9.0.0"),
        _ => panic!("expected an update"),
    }
}
