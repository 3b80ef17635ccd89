use font_browser::font::extract_font;

fn extracted(file_name: &str) -> (String, String, String, String) {
    let f = extract_font(file_name, file_name).expect("should qualify");
    (f.name, f.family, f.style, f.path)
}

#[test]
fn dashed_name_each_extension() {
    for ext in ["ttf", "otf", "ttc", "woff", "woff2"] {
        let file = format!("Family-Style.{}", ext);
        let f = extract_font(&file, &file).expect("allowed extension should qualify");
        assert_eq!(f.name, "Family-Style");
        assert_eq!(f.family, "Family");
        assert_eq!(f.style, "Style");
        assert_eq!(f.path, file);
    }
}

#[test]
fn undashed_name_each_extension() {
    for ext in ["ttf", "otf", "ttc", "woff", "woff2"] {
        let file = format!("Family.{}", ext);
        let f = extract_font(&file, &file).expect("allowed extension should qualify");
        assert_eq!(f.name, "Family");
        assert_eq!(f.family, "Family");
        assert_eq!(f.style, "Regular");
    }
}

#[test]
fn style_is_everything_after_first_dash() {
    let (name, family, style, _) = extracted("Fira-Sans-Bold.ttf");
    assert_eq!(name, "Fira-Sans-Bold");
    assert_eq!(family, "Fira");
    assert_eq!(style, "Sans-Bold");
}

#[test]
fn name_keeps_inner_dots() {
    let (name, family, style, _) = extracted("Some.Family.otf");
    assert_eq!(name, "Some.Family");
    assert_eq!(family, "Some.Family");
    assert_eq!(style, "Regular");
}

#[test]
fn path_is_recorded_verbatim() {
    let f = extract_font("Arial-Bold.ttf", "C:\\Windows\\Fonts\\Arial-Bold.ttf").unwrap();
    assert_eq!(f.path, "C:\\Windows\\Fonts\\Arial-Bold.ttf");
}

#[test]
fn other_extensions_are_filtered() {
    assert!(extract_font("archive.zip", "archive.zip").is_none());
    assert!(extract_font("readme.txt", "readme.txt").is_none());
    assert!(extract_font("Family-Style.ttf.bak", "x").is_none());
}

#[test]
fn extension_match_is_case_sensitive() {
    assert!(extract_font("FONT.TTF", "FONT.TTF").is_none());
    assert!(extract_font("Font.Ttf", "Font.Ttf").is_none());
}

#[test]
fn no_extension_is_filtered() {
    assert!(extract_font("ttf", "ttf").is_none());
    assert!(extract_font("", "").is_none());
}

#[test]
fn leading_dot_only_name_has_no_extension() {
    assert!(extract_font(".ttf", ".ttf").is_none());
}

#[test]
fn trailing_dot_has_empty_extension() {
    assert!(extract_font("Family.", "Family.").is_none());
}
