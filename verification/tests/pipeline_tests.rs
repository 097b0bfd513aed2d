use everygarf::api::{Api, Source};
use everygarf::dates::Date;
use everygarf::download::{
    image_filename, image_tree_components, run_job, DateUrlCached, DownloadOptions, ImageFormat,
    JobAction, JobEvent, JobPhase,
};
use everygarf::errors::RequestFailure;

fn d(year: u32, month: u32, day: u32) -> Date {
    Date { year, month, day }
}

fn opts(attempt_count: u32) -> DownloadOptions<'static> {
    DownloadOptions {
        attempt_count,
        api: Api { source: Source::Gocomics, proxy: None },
        cache_file: None,
        image_format: "png",
    }
}

fn network_failure() -> JobEvent {
    JobEvent::PageFailed {
        error: RequestFailure {
            timeout: true,
            connect: false,
            status: None,
            detail: String::new(),
        },
    }
}

fn gocomics_body() -> String {
    let url = "https://featureassets.gocomics.com/assets/aaaaaaaaaaaaaaaaaaaaaaaaaaaaaaaa";
    assert_eq!(url.len(), 74);
    format!("<html><img src=\"{}\"></html>", url)
}

fn png_bytes() -> Vec<u8> {
    let img = image::DynamicImage::new_rgb8(1, 1);
    let mut buf: Vec<u8> = Vec::new();
    img.write_to(&mut std::io::Cursor::new(&mut buf), image::ImageFormat::Png)
        .expect("encoding a 1x1 image must work");
    buf
}

fn count_page_fetches(actions: &[JobAction]) -> usize {
    actions.iter().filter(|a| matches!(a, JobAction::FetchPage { .. })).count()
}

fn count_saves(actions: &[JobAction]) -> usize {
    actions.iter().filter(|a| matches!(a, JobAction::SaveImage { .. })).count()
}

fn count_warnings(actions: &[JobAction]) -> usize {
    actions.iter().filter(|a| matches!(a, JobAction::Warn { .. })).count()
}

#[test]
fn retry_exhaustion_attempts_exactly_attempt_count_times() {
    let opts = opts(4);
    let job = DateUrlCached { date: d(2023, 5, 1), url: None };
    let events = vec![network_failure(), network_failure(), network_failure(), network_failure()];
    let (state, actions) = run_job(&opts, job, events);
    assert!(matches!(state.phase, JobPhase::Failed { fatal: false, .. }));
    assert_eq!(count_page_fetches(&actions), 4);
    assert_eq!(count_saves(&actions), 0);
    assert_eq!(count_warnings(&actions), 3);
}

#[test]
fn third_attempt_succeeds_after_two_failures() {
    let opts = opts(3);
    let job = DateUrlCached { date: d(2023, 5, 1), url: None };
    let events = vec![
        network_failure(),
        network_failure(),
        JobEvent::PageFetched { body: gocomics_body() },
        JobEvent::ImageFetched { bytes: png_bytes() },
        JobEvent::ImageSaved,
    ];
    let (state, actions) = run_job(&opts, job, events);
    assert!(matches!(state.phase, JobPhase::Done));
    assert_eq!(count_saves(&actions), 1);
    assert_eq!(count_warnings(&actions), 2);
    assert_eq!(count_page_fetches(&actions), 3);
}

#[test]
fn attempts_failing_at_different_stages_are_all_counted() {
    let opts = opts(3);
    let job = DateUrlCached { date: d(2023, 5, 1), url: None };
    let garbage = vec![0u8, 1, 2, 3];
    let events = vec![
        network_failure(),
        JobEvent::PageFetched { body: gocomics_body() },
        JobEvent::ImageFetched { bytes: garbage },
        JobEvent::PageFetched { body: gocomics_body() },
        JobEvent::ImageFetched { bytes: png_bytes() },
        JobEvent::ImageSaved,
    ];
    let (state, actions) = run_job(&opts, job, events);
    assert!(matches!(state.phase, JobPhase::Done));
    assert_eq!(count_warnings(&actions), 2);
    assert_eq!(count_saves(&actions), 1);
    assert_eq!(count_page_fetches(&actions), 3);
}

#[test]
fn cached_url_skips_the_page_scrape() {
    let opts = opts(3);
    let job = DateUrlCached {
        date: d(2023, 5, 1),
        url: Some("https://assets.amuniversal.com/abc".to_string()),
    };
    let events = vec![JobEvent::ImageFetched { bytes: png_bytes() }, JobEvent::ImageSaved];
    let (state, actions) = run_job(&opts, job, events);
    assert!(matches!(state.phase, JobPhase::Done));
    assert_eq!(count_page_fetches(&actions), 0);
    assert!(matches!(
        &actions[0],
        JobAction::FetchImage { url } if url == "https://assets.amuniversal.com/abc"
    ));
}

#[test]
fn resolved_url_is_recorded_when_a_cache_file_is_configured() {
    let opts = DownloadOptions {
        attempt_count: 3,
        api: Api { source: Source::Gocomics, proxy: None },
        cache_file: Some("cache.txt"),
        image_format: "png",
    };
    let job = DateUrlCached {
        date: d(2023, 5, 1),
        url: Some("https://assets.amuniversal.com/abc".to_string()),
    };
    let events = vec![
        JobEvent::CacheAppended,
        JobEvent::ImageFetched { bytes: png_bytes() },
        JobEvent::ImageSaved,
    ];
    let (state, actions) = run_job(&opts, job, events);
    assert!(matches!(state.phase, JobPhase::Done));
    assert!(matches!(
        &actions[0],
        JobAction::AppendCache { row } if row == "2023-05-01 abc"
    ));
}

#[test]
fn cache_append_failure_is_fatal() {
    let opts = DownloadOptions {
        attempt_count: 3,
        api: Api { source: Source::Gocomics, proxy: None },
        cache_file: Some("cache.txt"),
        image_format: "png",
    };
    let job = DateUrlCached {
        date: d(2023, 5, 1),
        url: Some("https://assets.amuniversal.com/abc".to_string()),
    };
    let events = vec![JobEvent::CacheAppendFailed { message: "Opening cache file - denied".to_string() }];
    let (state, _actions) = run_job(&opts, job, events);
    assert!(matches!(state.phase, JobPhase::Failed { fatal: true, .. }));
}

#[test]
fn undecodable_bytes_are_retried() {
    let opts = opts(2);
    let job = DateUrlCached {
        date: d(2023, 5, 1),
        url: Some("https://assets.amuniversal.com/abc".to_string()),
    };
    let garbage = vec![0u8, 1, 2, 3];
    let events = vec![
        JobEvent::ImageFetched { bytes: garbage },
        JobEvent::ImageFetched { bytes: png_bytes() },
        JobEvent::ImageSaved,
    ];
    let (state, actions) = run_job(&opts, job, events);
    assert!(matches!(state.phase, JobPhase::Done));
    assert_eq!(count_warnings(&actions), 1);
    assert_eq!(count_saves(&actions), 1);
}

#[test]
fn save_failure_is_fatal_and_not_retried() {
    let opts = opts(5);
    let job = DateUrlCached {
        date: d(2023, 5, 1),
        url: Some("https://assets.amuniversal.com/abc".to_string()),
    };
    let events = vec![
        JobEvent::ImageFetched { bytes: png_bytes() },
        JobEvent::ImageSaveFailed { message: "disk full".to_string() },
    ];
    let (state, actions) = run_job(&opts, job, events);
    match state.phase {
        JobPhase::Failed { fatal, message } => {
            assert!(fatal);
            assert_eq!(message, "2023-05-01 Failed to save image file - disk full");
        }
        _ => panic!("a failed save must end the job"),
    }
    assert_eq!(count_warnings(&actions), 0);
}

#[test]
fn exhaustion_message_names_date_and_attempts() {
    let opts = opts(2);
    let job = DateUrlCached { date: d(2023, 5, 1), url: None };
    let events = vec![network_failure(), network_failure()];
    let (state, _actions) = run_job(&opts, job, events);
    match state.phase {
        JobPhase::Failed { fatal, message } => {
            assert!(!fatal);
            assert!(message.contains("2023-05-01"));
            assert!(message.contains("Failed after \u{1b}[1m2\u{1b}[0m attempts"));
            assert!(message.contains("Request timed out."));
        }
        _ => panic!("exhausted retries must end the job failed"),
    }
}

#[test]
fn filenames_follow_the_date_convention() {
    assert_eq!(image_filename(d(2023, 5, 1), "png"), "2023-05-01.png");
    assert_eq!(image_filename(d(978, 12, 31), "gif"), "0978-12-31.gif");
    let (year, month, day) = image_tree_components(d(2023, 5, 1), "jpg");
    assert_eq!(year, "2023");
    assert_eq!(month, "05");
    assert_eq!(day, "01.jpg");
}

#[test]
fn image_format_names() {
    assert_eq!(ImageFormat::Png.name(), "png");
    assert_eq!(ImageFormat::Jpg.name(), "jpg");
    assert_eq!(ImageFormat::Gif.name(), "gif");
    assert_eq!(ImageFormat::default(), ImageFormat::Png);
}
