use reddit_scrape::link::{
    canonical_filename, ensure_json_link, filename_from_link, id_and_slug, id_from_link, parse,
};
use std::path::PathBuf;

#[test]
fn test_json_link() {
    let url = parse("https://www.reddit.com/r/BlackMetal/comments/5elhkp/spectral_lore_cosmic_significance/").unwrap();
    let expected = parse("https://www.reddit.com/r/BlackMetal/comments/5elhkp/spectral_lore_cosmic_significance/.json").unwrap();

    assert_eq!(ensure_json_link(&url), Some(expected.clone()));
    assert_eq!(ensure_json_link(&expected), Some(expected.clone()));

    let url = parse("http://aelv.se/spill/ul/test_json.json").expect("could not parse url");

    assert_eq!(ensure_json_link(&url), Some(url));
}

#[test]
fn test_dependency_path_segment() {
    assert_eq!(
        parse("https://github.com/rust-lang/rust/issues")
            .expect("could not parse url")
            .path_segments(),
        Some(vec![
            String::from("rust-lang"),
            String::from("rust"),
            String::from("issues")
        ])
    );

    let url = parse("https://www.reddit.com/r/BlackMetal/comments/5elhkp/spectral_lore_cosmic_significance").unwrap();
    assert_eq!(
        url.path_segments(),
        Some(vec![
            String::from("r"),
            String::from("BlackMetal"),
            String::from("comments"),
            String::from("5elhkp"),
            String::from("spectral_lore_cosmic_significance")
        ])
    );
}

#[test]
fn test_filename_from_link() {
    let url = parse("https://www.reddit.com/r/BlackMetal/comments/5elhkp/spectral_lore_cosmic_significance/").unwrap();
    let directory = "/tmp";
    let expected = PathBuf::from("/tmp/5elhkp_spectral_lore_cosmic_significance.json");

    assert_eq!(PathBuf::from(directory).join(filename_from_link(&url)), expected);
}

#[test]
fn filename_of_a_post_link() {
    let link = parse("https://site/r/X/comments/abc123/some_title/").unwrap();
    assert_eq!(canonical_filename(&link), Some(String::from("abc123_some_title.json")));
    assert_eq!(filename_from_link(&link), "abc123_some_title.json");
    assert_eq!(id_from_link(&link), Some(String::from("abc123")));
}

#[test]
fn parse_rejects_what_is_no_absolute_url() {
    assert_eq!(parse("not a link"), None);
    assert_eq!(parse(""), None);
    assert_eq!(parse("/r/Metal/comments/5k0ncr/"), None);
    assert_eq!(parse("www.reddit.com/r/Metal"), None);
}

#[test]
fn parse_normalizes_the_text() {
    let link = parse("HTTPS://WWW.Reddit.com").unwrap();
    assert_eq!(link.as_str(), "https://www.reddit.com/");
    assert_eq!(link.host_str(), Some("www.reddit.com"));
    assert_eq!(link.path_segments(), Some(vec![String::new()]));
}

#[test]
fn links_are_the_same_by_their_normalized_text() {
    let a = parse("https://www.reddit.com/r/Metal").unwrap();
    let b = parse("https://WWW.REDDIT.COM/r/Metal").unwrap();
    let c = parse("https://www.reddit.com/r/metal").unwrap();
    assert!(a.same_as(&b));
    assert_eq!(a, b);
    assert!(!a.same_as(&c));
    assert!(a.duplicate().same_as(&a));
    assert_eq!(a.duplicate(), a);
}

#[test]
fn a_link_that_cannot_be_a_base_has_no_segments() {
    let link = parse("data:text/plain,HelloWorld").unwrap();
    assert_eq!(link.path_segments(), None);
    assert_eq!(link.host_str(), None);
    assert_eq!(id_from_link(&link), None);
    assert_eq!(canonical_filename(&link), None);
}

#[test]
fn identifier_is_the_second_to_last_long_segment() {
    let link = parse("https://www.reddit.com/r/Metal/comments/5k0ncr/black_weakling_dead_as_dreams/").unwrap();
    assert_eq!(id_from_link(&link), Some(String::from("5k0ncr")));
    // without the slash at the end, and with short segments in between
    let link = parse("https://www.reddit.com/r/Metal/comments/5k0ncr/x/black_weakling_dead_as_dreams").unwrap();
    assert_eq!(id_from_link(&link), Some(String::from("5k0ncr")));
    let link = parse("https://github.com/rust-lang/rust/issues").unwrap();
    assert_eq!(id_from_link(&link), Some(String::from("rust")));
}

#[test]
fn identifier_fails_on_a_shallow_path() {
    for text in [
        "https://www.reddit.com",
        "https://www.reddit.com/",
        "https://www.reddit.com/r/",
        "https://www.reddit.com/r/Metal",
        "https://www.reddit.com/r/Metal/",
        "https://www.reddit.com/a/b/c/d/Metal/e",
    ] {
        let link = parse(text).unwrap();
        assert_eq!(id_from_link(&link), None);
        assert_eq!(canonical_filename(&link), None);
    }
}

#[test]
fn identifier_and_slug_of_given_segments() {
    let segments: Vec<String> = ["r", "X", "comments", "abc123", "", "some_title", ""]
        .iter()
        .map(|s| s.to_string())
        .collect();
    let found = id_and_slug(&segments).map(|(id, slug)| (id.clone(), slug.clone()));
    assert_eq!(found, Some((String::from("abc123"), String::from("some_title"))));

    let segments: Vec<String> = ["r", "comments", "x"].iter().map(|s| s.to_string()).collect();
    assert_eq!(id_and_slug(&segments), None);
    assert_eq!(id_and_slug(&Vec::new()), None);
}

#[test]
fn json_link_of_a_link_without_a_slash_at_the_end() {
    // `.json` is appended as a segment: no segment of the link is lost
    let link = parse("https://www.reddit.com/r/BlackMetal/comments/5elhkp/spectral_lore_cosmic_significance").unwrap();
    let expected = parse("https://www.reddit.com/r/BlackMetal/comments/5elhkp/spectral_lore_cosmic_significance/.json").unwrap();
    assert_eq!(ensure_json_link(&link), Some(expected));

    let link = parse("https://www.reddit.com/r/Metal/comments/5k0ncr/black").unwrap();
    let expected = parse("https://www.reddit.com/r/Metal/comments/5k0ncr/black/.json").unwrap();
    assert_eq!(ensure_json_link(&link), Some(expected));
}

#[test]
fn json_link_with_and_without_the_slash_is_the_same() {
    let with = parse("https://www.reddit.com/r/Metal/comments/3quxqv/black_zuriaake_%E6%A2%A6%E9%82%80/").unwrap();
    let without = parse("https://www.reddit.com/r/Metal/comments/3quxqv/black_zuriaake_%E6%A2%A6%E9%82%80").unwrap();
    let expected = parse("https://www.reddit.com/r/Metal/comments/3quxqv/black_zuriaake_%E6%A2%A6%E9%82%80/.json").unwrap();
    assert_eq!(ensure_json_link(&with), Some(expected.clone()));
    assert_eq!(ensure_json_link(&without), Some(expected));
}

#[test]
fn json_link_keeps_a_last_segment_of_any_form() {
    // a colon in the last segment is no scheme
    let link = parse("https://www.reddit.com/r/Metal/a:b").unwrap();
    assert_eq!(
        ensure_json_link(&link).map(|l| l.as_str().to_string()),
        Some(String::from("https://www.reddit.com/r/Metal/a:b/.json"))
    );
    let link = parse("https://www.reddit.com/wiki").unwrap();
    assert_eq!(
        ensure_json_link(&link).map(|l| l.as_str().to_string()),
        Some(String::from("https://www.reddit.com/wiki/.json"))
    );
    // the root of the site
    let link = parse("https://www.reddit.com").unwrap();
    assert_eq!(
        ensure_json_link(&link).map(|l| l.as_str().to_string()),
        Some(String::from("https://www.reddit.com/.json"))
    );
    // what follows the path is not part of the address of the document
    let link = parse("https://www.reddit.com/r/Metal/top?t=all#first").unwrap();
    assert_eq!(
        ensure_json_link(&link).map(|l| l.as_str().to_string()),
        Some(String::from("https://www.reddit.com/r/Metal/top/.json"))
    );
}

#[test]
fn json_link_of_a_link_that_cannot_be_a_base() {
    let link = parse("data:text/plain,HelloWorld").unwrap();
    assert_eq!(ensure_json_link(&link), None);
}
