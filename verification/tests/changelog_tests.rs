use font_browser::changelog::changelog_fallback;
use font_browser::changelog::get_changelog_text;

#[test]
fn local_content_is_served_verbatim() {
    let content = "## v9.9.9\n\n- everything".to_string();
    let served = get_changelog_text(Some(content.clone())).unwrap();
    assert_eq!(served, content);
}

#[test]
fn fallback_contains_the_given_date() {
    let text = changelog_fallback("2024-05-17");
    assert!(text.contains("2024-05-17"));
    assert!(text.starts_with("\n## v1.0.2 (2024-05-17)"));
}

#[test]
fn fallback_mentions_the_current_version() {
    let text = changelog_fallback("2024-05-17");
    assert!(text.contains("v1.0.2"));
    assert!(text.contains("v1.0.1"));
    assert!(text.contains("v1.0.0"));
}

#[test]
fn missing_local_file_yields_fallback_with_today() {
    let today = chrono::Local::now().format("%Y-%m-%d").to_string();
    let served = get_changelog_text(None).unwrap();
    assert!(served.contains(&today));
    assert!(served.contains("## v1.0.2"));
    assert_eq!(served, changelog_fallback(&today));
}
