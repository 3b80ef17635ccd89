use font_browser::cache::DirListing;
use font_browser::cache::FontCache;
use font_browser::cache::ScanEntry;

fn entry(file_name: &str) -> ScanEntry {
    ScanEntry { file_name: file_name.to_string(), path: format!("/fonts/{}", file_name) }
}

fn readable(names: &[&str]) -> DirListing {
    DirListing { readable: true, entries: names.iter().map(|n| entry(n)).collect() }
}

fn unreadable() -> DirListing {
    DirListing { readable: false, entries: Vec::new() }
}

fn sample_scan() -> Vec<DirListing> {
    vec![
        readable(&["Arial-Bold.ttf", "notes.txt", "Verdana.otf"]),
        unreadable(),
        readable(&["Fira-Light.woff2"]),
    ]
}

#[test]
fn load_filters_and_keeps_order() {
    let mut cache = FontCache::new();
    let scan = sample_scan();
    let fonts = cache.get_all_fonts(&scan).unwrap();
    let names: Vec<&str> = fonts.iter().map(|f| f.name.as_str()).collect();
    assert_eq!(names, vec!["Arial-Bold", "Verdana", "Fira-Light"]);
    assert_eq!(fonts[0].family, "Arial");
    assert_eq!(fonts[0].style, "Bold");
    assert_eq!(fonts[1].style, "Regular");
}

#[test]
fn count_matches_listing_length() {
    let mut cache = FontCache::new();
    let scan = sample_scan();
    let fonts = cache.get_all_fonts(&scan).unwrap();
    let count = cache.get_font_count(&scan).unwrap();
    assert_eq!(fonts.len(), count);
    assert_eq!(count, 3);
}

#[test]
fn load_is_idempotent_across_accessors() {
    let mut cache = FontCache::new();
    let scan = sample_scan();
    let first = cache.get_all_fonts(&scan).unwrap();
    // A later pass, even over a different scan, must change nothing.
    let other_scan = vec![readable(&["Extra-Font.ttf"])];
    let second = cache.get_all_fonts(&other_scan).unwrap();
    assert_eq!(first.len(), second.len());
    for (a, b) in first.iter().zip(second.iter()) {
        assert_eq!(a.name, b.name);
        assert_eq!(a.path, b.path);
    }
    assert_eq!(cache.get_font_count(&other_scan).unwrap(), 3);
}

#[test]
fn unreadable_directory_does_not_hide_readable_ones() {
    let mut cache = FontCache::new();
    let scan = vec![unreadable(), readable(&["Georgia-Italic.ttc"]), unreadable()];
    let fonts = cache.get_all_fonts(&scan).unwrap();
    assert_eq!(fonts.len(), 1);
    assert_eq!(fonts[0].name, "Georgia-Italic");
    assert_eq!(fonts[0].family, "Georgia");
    assert_eq!(fonts[0].style, "Italic");
}

#[test]
fn empty_scan_loads_zero_fonts() {
    let mut cache = FontCache::new();
    let scan: Vec<DirListing> = Vec::new();
    assert_eq!(cache.get_font_count(&scan).unwrap(), 0);
    assert!(cache.get_all_fonts(&scan).unwrap().is_empty());
}

#[test]
fn duplicate_paths_are_preserved() {
    let mut cache = FontCache::new();
    let scan = vec![readable(&["Arial-Bold.ttf"]), readable(&["Arial-Bold.ttf"])];
    assert_eq!(cache.get_font_count(&scan).unwrap(), 2);
}

#[test]
fn pages_slice_the_collection() {
    let mut cache = FontCache::new();
    let scan = vec![readable(&["A.ttf", "B.ttf", "C.ttf", "D.ttf", "E.ttf"])];
    let p0 = cache.get_paginated_fonts(&scan, 0, 2).unwrap();
    let p1 = cache.get_paginated_fonts(&scan, 1, 2).unwrap();
    let p2 = cache.get_paginated_fonts(&scan, 2, 2).unwrap();
    let p3 = cache.get_paginated_fonts(&scan, 3, 2).unwrap();
    let names = |v: &Vec<font_browser::font::FontInfo>| -> Vec<String> {
        v.iter().map(|f| f.name.clone()).collect()
    };
    assert_eq!(names(&p0), vec!["A", "B"]);
    assert_eq!(names(&p1), vec!["C", "D"]);
    assert_eq!(names(&p2), vec!["E"]);
    assert!(p3.is_empty());
}

#[test]
fn page_is_never_longer_than_page_size() {
    let mut cache = FontCache::new();
    let scan = vec![readable(&["A.ttf", "B.ttf", "C.ttf"])];
    for page in 0..5 {
        for page_size in 0..5 {
            let p = cache.get_paginated_fonts(&scan, page, page_size).unwrap();
            assert!(p.len() <= page_size);
            if page_size > 0 {
                assert_eq!(p.is_empty(), page * page_size >= 3);
            }
        }
    }
}

#[test]
fn page_size_zero_is_always_empty() {
    let mut cache = FontCache::new();
    let scan = sample_scan();
    assert!(cache.get_paginated_fonts(&scan, 0, 0).unwrap().is_empty());
    assert!(cache.get_paginated_fonts(&scan, 7, 0).unwrap().is_empty());
}

#[test]
fn huge_page_numbers_yield_empty_pages() {
    let mut cache = FontCache::new();
    let scan = sample_scan();
    let p = cache.get_paginated_fonts(&scan, usize::MAX, usize::MAX).unwrap();
    assert!(p.is_empty());
}

#[test]
fn one_oversized_page_holds_everything() {
    let mut cache = FontCache::new();
    let scan = sample_scan();
    let p = cache.get_paginated_fonts(&scan, 0, 100).unwrap();
    assert_eq!(p.len(), 3);
}
