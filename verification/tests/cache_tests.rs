use everygarf::cache::{
    cache_row, expand_image_url, is_remote_url, minify_image_url, normalize_cache_lines,
    normalize_cache_text, parse_cached_urls, split_first_word, UrlCache, IMAGE_URL_BASE,
};
use everygarf::dates::Date;

fn d(year: u32, month: u32, day: u32) -> Date {
    Date { year, month, day }
}

#[test]
fn remote_urls_are_recognized() {
    assert!(is_remote_url("http://example.com/cache"));
    assert!(is_remote_url("https://example.com/cache"));
    assert!(!is_remote_url("cache.txt"));
    assert!(!is_remote_url("/home/user/cache"));
    assert!(!is_remote_url("ftp://example.com/cache"));
}

#[test]
fn split_first_word_splits_at_first_space() {
    assert_eq!(split_first_word("ab cd ef"), Some(("ab", " cd ef")));
    assert_eq!(split_first_word("2022-03-01 x.jpg"), Some(("2022-03-01", " x.jpg")));
    assert_eq!(split_first_word("nospace"), None);
    assert_eq!(split_first_word(""), None);
}

#[test]
fn minify_strips_only_the_known_prefix() {
    assert_eq!(minify_image_url("https://assets.amuniversal.com/abc123"), "abc123");
    assert_eq!(minify_image_url("https://example.com/x.jpg"), "https://example.com/x.jpg");
}

#[test]
fn expand_puts_the_prefix_back_only_on_minified_tokens() {
    assert_eq!(expand_image_url("x.jpg"), format!("{}x.jpg", IMAGE_URL_BASE));
    assert_eq!(
        expand_image_url("https://assets.amuniversal.com/x.jpg"),
        "https://assets.amuniversal.com/x.jpg"
    );
    // A token that is already a full URL is kept unchanged, whatever
    // host it names.
    assert_eq!(expand_image_url("https://example/x.jpg"), "https://example/x.jpg");
    assert_eq!(expand_image_url("http://example/x.jpg"), "http://example/x.jpg");
}

#[test]
fn cache_row_minifies_the_url() {
    assert_eq!(
        cache_row(d(2023, 5, 1), "https://assets.amuniversal.com/abc123"),
        "2023-05-01 abc123"
    );
    assert_eq!(
        cache_row(d(2023, 5, 1), "https://example.com/x.jpg"),
        "2023-05-01 https://example.com/x.jpg"
    );
}

#[test]
fn url_cache_lookup_is_last_write_wins() {
    let mut cache = UrlCache::new();
    assert_eq!(cache.get(d(2022, 3, 1)), None);
    cache.insert(d(2022, 3, 1), "first".to_string());
    cache.insert(d(2022, 3, 2), "other".to_string());
    cache.insert(d(2022, 3, 1), "second".to_string());
    assert_eq!(cache.get(d(2022, 3, 1)), Some("second".to_string()));
    assert_eq!(cache.get(d(2022, 3, 2)), Some("other".to_string()));
    assert_eq!(cache.get(d(2022, 3, 3)), None);
}

#[test]
fn parse_reads_rows_and_expands_minified_urls() {
    let cache = parse_cached_urls("2022-03-01 x.jpg\n\n2022-03-02 https://assets.amuniversal.com/y.gif\n")
        .expect("well-formed cache text should parse");
    assert_eq!(
        cache.get(d(2022, 3, 1)),
        Some(format!("{}x.jpg", IMAGE_URL_BASE))
    );
    assert_eq!(
        cache.get(d(2022, 3, 2)),
        Some("https://assets.amuniversal.com/y.gif".to_string())
    );
    assert_eq!(cache.get(d(2022, 3, 3)), None);
}

#[test]
fn parse_keeps_a_full_url_token_unchanged() {
    let cache = parse_cached_urls("2022-03-01 https://example/x.jpg\n").expect("should parse");
    assert_eq!(cache.get(d(2022, 3, 1)), Some("https://example/x.jpg".to_string()));
}

#[test]
fn parse_keeps_the_last_row_for_a_date() {
    let cache = parse_cached_urls("2022-03-01 a\n2022-03-01 b\n").expect("should parse");
    assert_eq!(cache.get(d(2022, 3, 1)), Some(format!("{}b", IMAGE_URL_BASE)));
}

#[test]
fn parse_fails_on_a_line_without_a_space() {
    assert!(parse_cached_urls("2022-03-01 x.jpg\nbogusline\n").is_err());
}

#[test]
fn parse_fails_on_an_unparseable_date() {
    assert!(parse_cached_urls("2022-13-01 x.jpg\n").is_err());
    assert!(parse_cached_urls("hello world\n").is_err());
}

#[test]
fn normalize_keeps_last_row_per_date() {
    // Two appends for one date, then normalization: the later URL wins.
    let row1 = cache_row(d(2022, 3, 1), "https://assets.amuniversal.com/old.gif");
    let row2 = cache_row(d(2022, 3, 1), "https://assets.amuniversal.com/new.gif");
    let text = format!("{}\n{}\n", row1, row2);
    let lines = normalize_cache_lines(&text);
    assert_eq!(lines, vec!["2022-03-01 new.gif".to_string()]);
    assert_eq!(normalize_cache_text(&text), "2022-03-01 new.gif\n");
}

#[test]
fn parse_tolerates_carriage_returns_and_padding() {
    let cache = parse_cached_urls("  2022-03-01 x.jpg \r\n\r\n").expect("should parse");
    assert_eq!(cache.get(d(2022, 3, 1)), Some(format!("{}x.jpg", IMAGE_URL_BASE)));
}

#[test]
fn normalized_file_reloads_with_the_last_url() {
    let row1 = cache_row(d(2022, 3, 1), "https://assets.amuniversal.com/old.gif");
    let row2 = cache_row(d(2022, 3, 1), "https://assets.amuniversal.com/new.gif");
    let text = format!("{}\n{}\n", row1, row2);
    let normalized = normalize_cache_text(&text);
    let cache = parse_cached_urls(&normalized).expect("normalized text must parse");
    assert_eq!(
        cache.get(d(2022, 3, 1)),
        Some("https://assets.amuniversal.com/new.gif".to_string())
    );
}

#[test]
fn normalize_sorts_by_date_and_deduplicates() {
    let text = "2022-03-02 b\n2022-03-01 a\n\n2022-03-01 c\n2021-12-31 z\n";
    let lines = normalize_cache_lines(text);
    assert_eq!(
        lines,
        vec![
            "2021-12-31 z".to_string(),
            "2022-03-01 c".to_string(),
            "2022-03-02 b".to_string(),
        ]
    );
}
