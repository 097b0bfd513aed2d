use everygarf::api::{Api, Source};
use everygarf::colors::remove_colors;
use everygarf::dates::Date;
use everygarf::digits::pad_two_digits;
use everygarf::errors::{format_request_error, Error, RequestFailure};

fn d(year: u32, month: u32, day: u32) -> Date {
    Date { year, month, day }
}

#[test]
fn gocomics_page_url_uses_slashed_date() {
    assert_eq!(
        Source::Gocomics.get_page_url(d(2023, 5, 1)),
        "https://www.gocomics.com/garfield/2023/05/01"
    );
}

#[test]
fn fandom_page_url_names_month_and_year() {
    assert_eq!(
        Source::Fandom.get_page_url(d(2023, 5, 1)),
        "https://garfield.fandom.com/wiki/Garfield,_May_2023_comic_strips?file=2023-05-01.gif"
    );
}

#[test]
fn proxy_prefixes_the_page_url() {
    let api = Api { source: Source::Gocomics, proxy: Some("https://proxy.example/cors") };
    assert_eq!(
        api.get_page_url(d(2023, 5, 1)),
        "https://proxy.example/cors?https://www.gocomics.com/garfield/2023/05/01"
    );
    let bare = Api { source: Source::Gocomics, proxy: None };
    assert_eq!(bare.get_page_url(d(2023, 5, 1)), "https://www.gocomics.com/garfield/2023/05/01");
}

#[test]
fn gocomics_extracts_a_fixed_length_span() {
    let url = "https://featureassets.gocomics.com/assets/aaaaaaaaaaaaaaaaaaaaaaaaaaaaaaaa";
    assert_eq!(url.len(), 74);
    let body = format!("<html><img src=\"{}\"></html>", url);
    assert_eq!(Source::Gocomics.find_image_url(&body), Some(url));
    assert_eq!(Source::Gocomics.find_image_url("<html>no marker</html>"), None);
    // Marker too close to the end of the body: no full-length span.
    assert_eq!(
        Source::Gocomics.find_image_url("https://featureassets.gocomics.com/x"),
        None
    );
}

#[test]
fn fandom_scans_to_the_terminating_quote() {
    let body = "junk \"imageUrl\":\"https://img.example/x.gif\" trailing";
    assert_eq!(Source::Fandom.find_image_url(body), Some("https://img.example/x.gif"));
    // Without a terminating quote the span runs to the end of the body.
    let open = "junk \"imageUrl\":\"https://img.example/y.gif";
    assert_eq!(Source::Fandom.find_image_url(open), Some("https://img.example/y.gif"));
    // An empty span is a failed scrape, not an empty URL.
    assert_eq!(Source::Fandom.find_image_url("junk \"imageUrl\":\"\" rest"), None);
    assert_eq!(Source::Fandom.find_image_url("no marker"), None);
}

#[test]
fn source_names_and_default() {
    assert_eq!(Source::Gocomics.name(), "gocomics");
    assert_eq!(Source::Fandom.name(), "fandom");
    assert_eq!(Source::default(), Source::Gocomics);
}

#[test]
fn request_error_wording() {
    let timeout = RequestFailure {
        timeout: true,
        connect: false,
        status: None,
        detail: String::new(),
    };
    assert_eq!(
        format_request_error(&timeout),
        "\u{1b}[33mRequest timed out.\u{1b}[0m If this happens often, check your connection, or change the `--timeout` argument."
    );

    let connect = RequestFailure {
        timeout: false,
        connect: true,
        status: None,
        detail: String::new(),
    };
    assert_eq!(
        format_request_error(&connect),
        "\u{1b}[33mBad connection.\u{1b}[0m Check your internet access."
    );

    let unknown = RequestFailure {
        timeout: false,
        connect: false,
        status: None,
        detail: "mystery".to_string(),
    };
    assert_eq!(
        format_request_error(&unknown),
        "\u{1b}[35mUnknown error:\u{1b}[0m mystery"
    );

    let rate_limited = RequestFailure {
        timeout: false,
        connect: false,
        status: Some(429),
        detail: String::new(),
    };
    assert_eq!(
        format_request_error(&rate_limited),
        "\u{1b}[33m\u{1b}[1m429\u{1b}[0m \u{1b}[31mRate limited.\u{1b}[0m Try again in a few minutes. See https://github.com/dxrcy/everygarf#proxy-service for more information."
    );

    let server = RequestFailure {
        timeout: false,
        connect: false,
        status: Some(500),
        detail: String::new(),
    };
    assert_eq!(
        format_request_error(&server),
        "\u{1b}[33m\u{1b}[1m500\u{1b}[0m Server error - Try again later."
    );

    let cloudflare = RequestFailure {
        timeout: false,
        connect: false,
        status: Some(525),
        detail: String::new(),
    };
    assert_eq!(
        format_request_error(&cloudflare),
        "\u{1b}[33m\u{1b}[1m525\u{1b}[0m SSL handshake failed with Cloudflare."
    );

    let uncommon = RequestFailure {
        timeout: false,
        connect: false,
        status: Some(404),
        detail: "404 Not Found".to_string(),
    };
    assert_eq!(
        format_request_error(&uncommon),
        "Uncommon error: \u{1b}[33m404 Not Found\u{1b}[0m"
    );
}

#[test]
fn remove_colors_strips_ansi_sequences() {
    assert_eq!(remove_colors("\u{1b}[31mred\u{1b}[0m plain"), "red plain");
    assert_eq!(remove_colors("no colors"), "no colors");
    assert_eq!(remove_colors(""), "");
    assert_eq!(remove_colors("\u{1b}[1m\u{1b}[33mbold yellow\u{1b}[0m"), "bold yellow");
}

#[test]
fn exit_codes_are_stable() {
    assert_eq!(Error::DownloadFail.exit_code(), 0);
    assert_eq!(Error::NoDir.exit_code(), 1);
    assert_eq!(Error::CreateDir.exit_code(), 2);
    assert_eq!(Error::ReadExistingDates.exit_code(), 3);
    assert_eq!(Error::ProxyPing.exit_code(), 4);
    assert_eq!(Error::CacheDownload.exit_code(), 5);
    assert_eq!(Error::CleanCache.exit_code(), 6);
    assert_eq!(Error::CacheAppendNewline.exit_code(), 7);
    assert_eq!(Error::BadStartDate.exit_code(), 8);
    assert_eq!(everygarf::QUERY_SOME_EXITCODE, 10);
}

#[test]
fn pad_two_digits_pads_below_ten() {
    assert_eq!(pad_two_digits(0), "00");
    assert_eq!(pad_two_digits(5), "05");
    assert_eq!(pad_two_digits(10), "10");
    assert_eq!(pad_two_digits(1978), "1978");
}

#[test]
fn folder_path_prefers_the_given_folder() {
    assert_eq!(
        everygarf::get_folder_path(Some("/tmp/garfield-test")),
        Ok("/tmp/garfield-test".to_string())
    );
    match everygarf::get_folder_path(None) {
        Ok(path) => assert!(path.ends_with("/garfield")),
        Err(message) => assert_eq!(
            message,
            "Cannot automatically find appropriate folder location. Please enter folder manually"
        ),
    }
}
