use anti_collision::session::{command_line_sources, window_sources};
use anti_collision::sources::{build_candidate_urls, DEFAULT_TEST_URL, DEFAULT_TEST_URLS};

#[test]
fn no_preference_gives_the_built_in_list() {
    assert_eq!(build_candidate_urls(None), DEFAULT_TEST_URLS.to_vec());
    assert_eq!(build_candidate_urls(None)[0], DEFAULT_TEST_URL);
    assert_eq!(DEFAULT_TEST_URL, "https://speedtest.selectel.ru/100MB");
}

#[test]
fn blank_preference_counts_as_none() {
    assert_eq!(build_candidate_urls(Some("")), DEFAULT_TEST_URLS.to_vec());
    assert_eq!(build_candidate_urls(Some(" \t\n\u{3000}")), DEFAULT_TEST_URLS.to_vec());
}

#[test]
fn preference_is_trimmed_and_first() {
    let urls = build_candidate_urls(Some("  https://example.com/large-file.bin \n"));
    assert_eq!(urls.len(), 9);
    assert_eq!(urls[0], "https://example.com/large-file.bin");
    assert_eq!(urls[1..].to_vec(), DEFAULT_TEST_URLS.to_vec());
}

#[test]
fn built_in_preference_is_not_named_twice() {
    let urls = build_candidate_urls(Some("https://speed.af.de/files/100MB.bin"));
    assert_eq!(
        urls,
        vec![
            "https://speed.af.de/files/100MB.bin",
            "https://speedtest.selectel.ru/100MB",
            "https://fsn1-speed.hetzner.com/100MB.bin",
            "https://hel1-speed.hetzner.com/100MB.bin",
            "https://ash-speed.hetzner.com/100MB.bin",
            "https://hil-speed.hetzner.com/100MB.bin",
            "https://us.speedtest.hostiserver.com/100MB",
            "https://eu.speedtest.hostiserver.com/100MB",
        ]
    );
}

#[test]
fn every_white_space_character_is_trimmed_and_no_other() {
    let white: Vec<u32> = vec![
        0x09, 0x0a, 0x0b, 0x0c, 0x0d, 0x20, 0x85, 0xa0, 0x1680, 0x2000, 0x2001, 0x2002, 0x2003,
        0x2004, 0x2005, 0x2006, 0x2007, 0x2008, 0x2009, 0x200a, 0x2028, 0x2029, 0x202f, 0x205f,
        0x3000,
    ];
    for u in 0..=0x10ffff_u32 {
        if let Some(c) = char::from_u32(u) {
            assert_eq!(format!("{c}x{c}").trim() == "x", white.contains(&u), "U+{u:04X}");
        }
    }
    for u in white {
        let c = char::from_u32(u).unwrap();
        assert_eq!(build_candidate_urls(Some(&format!("{c}{c}a b{c}")))[0], "a b");
    }
}

#[test]
fn command_line_prefers_its_argument() {
    let plan = command_line_sources(Some("https://example.com/f"));
    assert!(plan.prefer_first);
    assert_eq!(plan.candidates[0], "https://example.com/f");
    assert_eq!(plan.candidates.len(), 9);

    let plan = command_line_sources(None);
    assert!(!plan.prefer_first);
    assert_eq!(plan.candidates, DEFAULT_TEST_URLS.to_vec());

    let plan = command_line_sources(Some("  "));
    assert!(plan.prefer_first);
    assert_eq!(plan.candidates, DEFAULT_TEST_URLS.to_vec());
}

#[test]
fn window_prefers_what_stands_in_its_field() {
    let plan = window_sources(" https://example.com/f ");
    assert!(plan.prefer_first);
    assert_eq!(plan.candidates[0], "https://example.com/f");

    let plan = window_sources("  ");
    assert!(!plan.prefer_first);
    assert_eq!(plan.candidates, DEFAULT_TEST_URLS.to_vec());
}
