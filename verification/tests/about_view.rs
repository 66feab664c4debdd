use mecalin::about_view::{should_open_uri, version_text};

#[test]
fn only_web_links_open() {
    assert!(should_open_uri("https://flathub.org/apps/io.github.nacho.mecalin"));
    assert!(should_open_uri("http://example.org"));
    assert!(!should_open_uri("mailto:someone@example.org"));
    assert!(!should_open_uri("http:/broken"));
    assert!(!should_open_uri(""));
}

#[test]
fn version_line() {
    assert_eq!(version_text("1.2.0"), "Version 1.2.0");
    assert_eq!(version_text(""), "Version ");
}
