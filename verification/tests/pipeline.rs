use reddit_scrape::cache::Cache;
use reddit_scrape::entry::{parse_reddit_json, RedditEntry};
use reddit_scrape::link::{ensure_json_link, id_from_link, parse};
use reddit_scrape::fetch::{decode_body, Body};
use reddit_scrape::pipeline::{
    bookmark_to_reddit, decode_documents, download_reddit_and_cache, links_on_host, missing_links,
    unique_links, Run,
};

fn document(id: &str, slug: &str, title: &str, score: u64, comments: u64, url: &str) -> String {
    format!(
        "[{{\"kind\": \"Listing\", \"data\": {{\"children\": [{{\"kind\": \"t3\", \"data\": {{\"subreddit\": \"Metal\", \"id\": \"{}\", \"score\": {}, \"permalink\": \"/r/Metal/comments/{}/{}/\", \"url\": \"{}\", \"title\": \"{}\", \"num_comments\": {}}}}}]}}}}, {{\"kind\": \"Listing\", \"data\": {{\"children\": []}}}}]",
        id, score, id, slug, url, title, comments
    )
}

fn weakling() -> String {
    document(
        "5k0ncr",
        "black_weakling_dead_as_dreams",
        "[Black] Weakling - Dead as Dreams",
        83,
        12,
        "https://www.youtube.com/watch?v=bbvBJMDbyeo",
    )
}

fn zuriaake() -> String {
    document(
        "3quxqv",
        "black_zuriaake_%E6%A2%A6%E9%82%80_2015_china_ffo_actual_chinese",
        "[Black] Zuriaake - 梦邀 (2015, China, FFO: actual Chinese BM, Paysage d'Hiver, Lunar Aurora)",
        24,
        4,
        "https://www.youtube.com/watch?v=Jv-HBOA9E0w",
    )
}

fn bookmark_line(address: &str) -> String {
    format!("        <DT><A HREF=\"{}\" ADD_DATE=\"1446230600\">a bookmark</A>", address)
}

#[test]
fn test_bookmark_to_reddit() {
    let lines = vec![bookmark_line("https://www.reddit.com/r/Metal/comments/3quxqv/black_zuriaake_%E6%A2%A6%E9%82%80_2015_china_ffo_actual_chinese/")];
    let mut run = bookmark_to_reddit(&lines, None);

    // the one link is fetched; the site answers with its document
    let fetch = run.next_fetch(1_000).expect("nothing to fetch");
    assert_eq!(
        fetch.address,
        parse("https://www.reddit.com/r/Metal/comments/3quxqv/black_zuriaake_%E6%A2%A6%E9%82%80_2015_china_ffo_actual_chinese/.json")
    );
    assert_eq!(run.store_request(), None);
    run.fetched(Some(zuriaake()), false, 1_200);
    assert!(run.next_fetch(1_300).is_none());
    let (result, _) = run.finish();

    let expected = RedditEntry {
        url: parse("https://www.youtube.com/watch?v=Jv-HBOA9E0w"),
        reddit_id: Some(String::from("3quxqv")),
        title: Some(String::from("[Black] Zuriaake - 梦邀 (2015, China, FFO: actual Chinese BM, Paysage d\'Hiver, Lunar Aurora)")),
        subreddit: Some(String::from("Metal")),
        votes: Some(24),
        comments: Some(4),
        self_link: parse("https://www.reddit.com/r/Metal/comments/3quxqv/black_zuriaake_%E6%A2%A6%E9%82%80_2015_china_ffo_actual_chinese/"),
    };

    assert!(result.len() == 1);
    let get_inportant_fields = |x: &RedditEntry| (x.url.clone(), x.self_link.clone());
    assert_eq!(get_inportant_fields(&result[0]), get_inportant_fields(&expected));
    assert_eq!(result[0], expected);
}

#[test]
fn test_download() {
    let url = parse("http://aelv.se/spill/ul/test_json.json").expect("could not parse test url");
    let expected = String::from("{ \"a\" : \"b\" }\n");

    // the address is fetched as it stands, and what comes back is the document
    assert_eq!(ensure_json_link(&url), Some(url.clone()));
    let mut body = Body::new();
    body.receive(expected.as_bytes());
    assert_eq!(body.into_text(), Some(expected));
}

#[test]
fn test_download_and_cache() {
    let url = parse("http://aelv.se/spill/ul/test_resources/5k0ncr.json").expect("could not parse url");
    let json = weakling();
    let expected = parse_reddit_json(&json);

    let downloaded = download_reddit_and_cache(&url, &mut None, Some(json.clone()), false);
    assert!(downloaded.is_some());
    assert_eq!(downloaded.map(|x| x.url), expected.map(|x| x.url));

    let cache_directory_path = "/tmp/_reddit_scrape_test_cache_empty/";
    let mut cache = Some(Cache::new(cache_directory_path));

    let key = id_from_link(&url).expect("could not create cache key");
    assert_eq!(key, "test_resources");
    let result = cache.as_ref().unwrap().try_to_get(&key);
    assert!(result.is_none());

    let expected = parse_reddit_json(&json);
    let downloaded = download_reddit_and_cache(&url, &mut cache, Some(json.clone()), true);
    assert!(downloaded.is_some());
    assert_eq!(downloaded.map(|x| x.url), expected.map(|x| x.url));
    assert!(cache.as_ref().unwrap().try_to_get(&key).is_some());
    assert_eq!(cache.as_ref().unwrap().try_to_get(&key), Some(json));
}

#[test]
fn a_body_is_stored_even_where_it_does_not_decode() {
    let url = parse("https://www.reddit.com/r/Metal/comments/5k0ncr/black_weakling/").unwrap();
    let mut cache = Some(Cache::new("dir"));
    let body = String::from("{ \"a\" : \"b\" }\n");
    assert_eq!(download_reddit_and_cache(&url, &mut cache, Some(body.clone()), true), None);
    assert_eq!(cache.as_ref().unwrap().try_to_get(&String::from("5k0ncr")), Some(body));
}

#[test]
fn nothing_is_stored_where_nothing_came_back_or_was_written() {
    let url = parse("https://www.reddit.com/r/Metal/comments/5k0ncr/black_weakling/").unwrap();
    let mut cache = Some(Cache::new("dir"));
    assert_eq!(download_reddit_and_cache(&url, &mut cache, None, true), None);
    assert!(cache.as_ref().unwrap().is_empty());
    let entry = download_reddit_and_cache(&url, &mut cache, Some(weakling()), false);
    assert_eq!(entry, Some(RedditEntry::new()));
    assert!(cache.as_ref().unwrap().is_empty());
    // a link without an identifier is decoded, and not stored
    let shallow = parse("https://www.reddit.com/").unwrap();
    let entry = download_reddit_and_cache(&shallow, &mut cache, Some(weakling()), true);
    assert_eq!(entry, Some(RedditEntry::new()));
    assert!(cache.as_ref().unwrap().is_empty());
}

#[test]
fn a_cached_link_is_not_fetched() {
    // two links, one of the site and known to the cache, one of another site
    let lines = vec![
        bookmark_line("https://www.reddit.com/r/Metal/comments/5k0ncr/black_weakling_dead_as_dreams/"),
        bookmark_line("https://www.youtube.com/watch?v=bbvBJMDbyeo"),
    ];
    let cache = Cache::load_cache_from_directory("dir", Some(&vec![weakling()])).unwrap();
    let run = bookmark_to_reddit(&lines, Some(cache));

    assert!(run.is_finished());
    assert_eq!(run.remaining(), 0);
    assert!(run.next_fetch(0).is_none());
    assert_eq!(run.store_request(), None);
    let (entries, cache) = run.finish();
    assert_eq!(entries, vec![RedditEntry::new()]);
    assert_eq!(cache.unwrap().len(), 1);
}

#[test]
fn a_link_that_the_cache_lacks_is_fetched_and_stored() {
    let lines = vec![bookmark_line("https://www.reddit.com/r/Metal/comments/5k0ncr/black_weakling_dead_as_dreams/")];
    let mut run = bookmark_to_reddit(&lines, Some(Cache::new("dir")));

    assert!(!run.is_finished());
    assert_eq!(run.remaining(), 1);
    let fetch = run.next_fetch(50_000).unwrap();
    assert_eq!(fetch.wait, 0);
    assert_eq!(
        fetch.address.map(|a| a.as_str().to_string()),
        Some(String::from("https://www.reddit.com/r/Metal/comments/5k0ncr/black_weakling_dead_as_dreams/.json"))
    );
    // the body goes to the file of its identifier
    assert_eq!(run.store_request(), Some(String::from("5k0ncr.json")));
    let body = weakling();
    run.fetched(Some(body.clone()), true, 50_300);

    assert!(run.is_finished());
    let (entries, cache) = run.finish();
    assert_eq!(entries.len(), 1);
    let entry = &entries[0];
    assert_eq!(entry.title, Some(String::from("[Black] Weakling - Dead as Dreams")));
    assert_eq!(entry.subreddit, Some(String::from("Metal")));
    assert_eq!(entry.votes, Some(83));
    assert_eq!(entry.comments, Some(12));
    assert_eq!(
        entry.self_link,
        parse("https://www.reddit.com/r/Metal/comments/5k0ncr/black_weakling_dead_as_dreams/")
    );
    let cache = cache.unwrap();
    assert_eq!(cache.len(), 1);
    assert_eq!(cache.try_to_get(&String::from("5k0ncr")), Some(body));
}

#[test]
fn requests_of_a_run_are_a_pause_apart() {
    let links = vec![
        parse("https://www.reddit.com/r/Metal/comments/5k0ncr/black_weakling_dead_as_dreams/").unwrap(),
        parse("https://www.reddit.com/r/Metal/comments/3quxqv/black_zuriaake/").unwrap(),
        parse("https://www.reddit.com/r/Metal/comments/5elhkp/spectral_lore/").unwrap(),
    ];
    let mut run = Run::start(links, None);
    assert_eq!(run.remaining(), 3);

    assert_eq!(run.next_fetch(100_000).unwrap().wait, 0);
    // the request fails
    run.fetched(None, false, 100_250);
    assert_eq!(run.entries().len(), 0);

    assert_eq!(run.next_fetch(100_250).unwrap().wait, 3000);
    assert_eq!(run.next_fetch(101_000).unwrap().wait, 2250);
    run.fetched(Some(zuriaake()), false, 103_400);
    assert_eq!(run.entries().len(), 1);

    // a long gap: no wait
    assert_eq!(run.next_fetch(200_000).unwrap().wait, 0);
    run.fetched(Some(String::from("not json")), false, 200_100);
    assert_eq!(run.entries().len(), 1);
    assert!(run.is_finished());

    // a run that is done stays as it is
    run.fetched(Some(weakling()), true, 300_000);
    assert_eq!(run.entries().len(), 1);
    assert_eq!(run.remaining(), 0);
    assert!(run.cache().is_none());
}

#[test]
fn entries_of_the_cache_come_before_those_fetched() {
    let links = vec![
        parse("https://www.reddit.com/r/Metal/comments/3quxqv/black_zuriaake_%E6%A2%A6%E9%82%80_2015_china_ffo_actual_chinese/").unwrap(),
        parse("https://www.reddit.com/r/Metal/comments/5k0ncr/black_weakling_dead_as_dreams/").unwrap(),
    ];
    let cache = Cache::load_cache_from_directory("dir", Some(&vec![weakling()])).unwrap();
    let mut run = Run::start(links, Some(cache));
    assert_eq!(run.remaining(), 1);
    assert_eq!(run.store_request(), Some(String::from("3quxqv.json")));
    run.fetched(Some(zuriaake()), false, 10);
    assert_eq!(run.cache().unwrap().len(), 1);
    let (entries, _) = run.finish();
    assert_eq!(entries.len(), 2);
    assert_eq!(entries[0], RedditEntry::new());
    assert_eq!(entries[1].reddit_id, Some(String::from("3quxqv")));
}

#[test]
fn each_missing_link_is_fetched_once() {
    let links = vec![
        parse("https://www.reddit.com/r/Metal/comments/3quxqv/black_zuriaake/").unwrap(),
        parse("https://www.reddit.com/r/Metal/comments/5k0ncr/black_weakling_dead_as_dreams/").unwrap(),
        parse("https://WWW.reddit.com/r/Metal/comments/3quxqv/black_zuriaake/").unwrap(),
        parse("https://www.reddit.com/r/Metal/comments/5elhkp/spectral_lore/").unwrap(),
        parse("https://www.reddit.com/r/Metal/comments/5elhkp/spectral_lore/").unwrap(),
    ];
    let found = vec![RedditEntry::new()];
    let missing = missing_links(&links, &found);
    assert_eq!(missing, vec![links[0].clone(), links[3].clone()]);
    assert_eq!(missing_links(&links, &Vec::new()), vec![links[0].clone(), links[1].clone(), links[3].clone()]);
    assert_eq!(missing_links(&Vec::new(), &found), Vec::new());
}

#[test]
fn only_links_of_the_host_are_kept() {
    let links = vec![
        parse("https://www.youtube.com/watch?v=o_3jJG_oGSs").unwrap(),
        parse("https://www.reddit.com/r/Metal/").unwrap(),
        parse("https://reddit.com/r/Metal/").unwrap(),
        parse("data:text/plain,www.reddit.com").unwrap(),
        parse("http://www.reddit.com:8080/").unwrap(),
    ];
    assert_eq!(
        links_on_host(&links, "www.reddit.com"),
        vec![links[1].clone(), links[4].clone()]
    );
    assert_eq!(links_on_host(&links, "example.com"), Vec::new());
}

#[test]
fn documents_decode_in_order() {
    let documents = vec![zuriaake(), String::from("not json"), weakling()];
    let entries = decode_documents(&documents);
    assert_eq!(entries.len(), 2);
    assert_eq!(entries[0].reddit_id, Some(String::from("3quxqv")));
    assert_eq!(entries[1], RedditEntry::new());
}

#[test]
fn a_body_is_text_where_it_is_utf8() {
    assert_eq!(decode_body(Vec::new()), Some(String::new()));
    assert_eq!(
        decode_body("{ \"a\" : \"b\" }\n".as_bytes().to_vec()),
        Some(String::from("{ \"a\" : \"b\" }\n"))
    );
    assert_eq!(decode_body(vec![0xe6, 0xa2, 0xa6, 0xe9, 0x82, 0x80]), Some(String::from("梦邀")));
    assert_eq!(decode_body(vec![0x61, 0xff, 0x62]), None);
    assert_eq!(decode_body(vec![0xe6, 0xa2]), None);
    assert_eq!(decode_body(vec![0xc0, 0x80]), None);
    assert_eq!(decode_body(vec![0xed, 0xa0, 0x80]), None);
}

#[test]
fn a_run_by_the_clock_keeps_the_pause() {
    let links = vec![
        parse("https://www.reddit.com/r/Metal/comments/5k0ncr/black_weakling_dead_as_dreams/").unwrap(),
        parse("https://www.reddit.com/r/Metal/comments/3quxqv/black_zuriaake/").unwrap(),
    ];
    let mut run = Run::start(links, None);
    let first = run.next_fetch_now().unwrap();
    assert_eq!(first.wait, 0);
    run.fetched_now(Some(weakling()), false);
    let second = run.next_fetch_now().unwrap();
    assert!(second.wait <= 3000);
    run.fetched_now(None, false);
    assert!(run.next_fetch_now().is_none());
    assert_eq!(run.finish().0, vec![RedditEntry::new()]);
}

#[test]
fn a_body_comes_in_part_by_part() {
    let mut body = Body::new();
    assert_eq!(body.receive("{ \"a\" ".as_bytes()), 6);
    assert_eq!(body.receive(&[]), 0);
    // a character may come in two parts
    assert_eq!(body.receive(&[0x3a, 0x20, 0x22, 0xe6, 0xa2]), 5);
    assert_eq!(body.receive(&[0xa6, 0x22, 0x20, 0x7d, 0x0a]), 5);
    assert_eq!(body.into_text(), Some(String::from("{ \"a\" : \"梦\" }\n")));

    assert_eq!(Body::new().into_text(), Some(String::new()));
    let mut broken = Body::new();
    assert_eq!(broken.receive(&[0xe6, 0xa2]), 2);
    assert_eq!(broken.into_text(), None);
}

#[test]
fn a_link_that_occurs_twice_and_is_cached_gives_one_entry() {
    let lines = vec![
        bookmark_line("https://www.reddit.com/r/Metal/comments/5k0ncr/black_weakling_dead_as_dreams/"),
        bookmark_line("https://www.youtube.com/watch?v=bbvBJMDbyeo"),
        bookmark_line("https://WWW.reddit.com/r/Metal/comments/5k0ncr/black_weakling_dead_as_dreams/"),
        bookmark_line("https://www.reddit.com/r/Metal/comments/5k0ncr/black_weakling_dead_as_dreams/"),
    ];
    let cache = Cache::load_cache_from_directory("dir", Some(&vec![weakling()])).unwrap();
    let run = bookmark_to_reddit(&lines, Some(cache));
    assert!(run.is_finished());
    assert_eq!(run.entries().len(), 1);
    assert_eq!(run.finish().0, vec![RedditEntry::new()]);
}

#[test]
fn a_link_that_occurs_twice_is_fetched_once() {
    let lines = vec![
        bookmark_line("https://www.reddit.com/r/Metal/comments/3quxqv/black_zuriaake/"),
        bookmark_line("https://www.reddit.com/r/Metal/comments/3quxqv/black_zuriaake/"),
    ];
    let mut run = bookmark_to_reddit(&lines, Some(Cache::new("dir")));
    assert_eq!(run.remaining(), 1);
    assert_eq!(run.store_request(), Some(String::from("3quxqv.json")));
    run.fetched(Some(zuriaake()), true, 1_000);
    assert!(run.is_finished());
    let (entries, cache) = run.finish();
    assert_eq!(entries.len(), 1);
    assert_eq!(cache.unwrap().len(), 1);
}

#[test]
fn each_link_is_kept_once() {
    let links = vec![
        parse("https://www.reddit.com/r/Metal/comments/3quxqv/black_zuriaake/").unwrap(),
        parse("https://www.reddit.com/r/Metal/comments/5k0ncr/black_weakling_dead_as_dreams/").unwrap(),
        parse("https://WWW.reddit.com/r/Metal/comments/3quxqv/black_zuriaake/").unwrap(),
        parse("https://www.reddit.com/r/Metal/comments/5k0ncr/black_weakling_dead_as_dreams/").unwrap(),
    ];
    assert_eq!(unique_links(&links), vec![links[0].clone(), links[1].clone()]);
    assert_eq!(unique_links(&Vec::new()), Vec::new());
}
