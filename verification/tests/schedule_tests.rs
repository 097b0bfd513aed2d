use everygarf::api::{Api, Source};
use everygarf::cache::UrlCache;
use everygarf::dates::{format_date, get_dates_between, Date};
use everygarf::download::{run_job, DateUrlCached, DownloadOptions, JobEvent, JobPhase};
use everygarf::errors::RequestFailure;
use everygarf::schedule::{job_slot, make_jobs, should_ping_proxy, MIN_COUNT_FOR_PING};

fn d(year: u32, month: u32, day: u32) -> Date {
    Date { year, month, day }
}

#[test]
fn ping_decision_follows_batch_size_and_override() {
    assert_eq!(MIN_COUNT_FOR_PING, 10);
    assert!(!should_ping_proxy(false, 0));
    assert!(!should_ping_proxy(false, 9));
    assert!(should_ping_proxy(false, 10));
    assert!(should_ping_proxy(false, 50));
    assert!(should_ping_proxy(true, 0));
    assert!(should_ping_proxy(true, 9));
}

#[test]
fn job_slots_rotate() {
    assert_eq!(job_slot(0, 5), 0);
    assert_eq!(job_slot(4, 5), 4);
    assert_eq!(job_slot(5, 5), 0);
    assert_eq!(job_slot(13, 5), 3);
    assert_eq!(job_slot(7, 1), 0);
}

#[test]
fn jobs_carry_cached_urls() {
    let dates = vec![d(2023, 5, 1), d(2023, 5, 2), d(2023, 5, 3)];
    let mut cache = UrlCache::new();
    cache.insert(d(2023, 5, 2), "https://assets.amuniversal.com/two".to_string());
    let jobs = make_jobs(&dates, Some(&cache));
    assert_eq!(jobs.len(), 3);
    assert_eq!(jobs[0].date, d(2023, 5, 1));
    assert_eq!(jobs[0].url, None);
    assert_eq!(jobs[1].url, Some("https://assets.amuniversal.com/two".to_string()));
    assert_eq!(jobs[2].url, None);

    let bare = make_jobs(&dates, None);
    assert!(bare.iter().all(|j| j.url.is_none()));
}

fn png_bytes() -> Vec<u8> {
    let img = image::DynamicImage::new_rgb8(1, 1);
    let mut buf: Vec<u8> = Vec::new();
    img.write_to(&mut std::io::Cursor::new(&mut buf), image::ImageFormat::Png)
        .expect("encoding a 1x1 image must work");
    buf
}

fn success_events() -> Vec<JobEvent> {
    let url = "https://featureassets.gocomics.com/assets/aaaaaaaaaaaaaaaaaaaaaaaaaaaaaaaa";
    vec![
        JobEvent::PageFetched { body: format!("<img src=\"{}\">", url) },
        JobEvent::ImageFetched { bytes: png_bytes() },
        JobEvent::ImageSaved,
    ]
}

fn failure_events() -> Vec<JobEvent> {
    let failure = || JobEvent::PageFailed {
        error: RequestFailure {
            timeout: true,
            connect: false,
            status: None,
            detail: String::new(),
        },
    };
    vec![failure(), failure(), failure()]
}

/// Runs the given jobs in the given order and returns the sorted set
/// of dates whose job ended with its file written.  Every odd job is
/// given a trace of failures; every even job a trace that succeeds.
fn saved_dates_in_order(jobs: &[DateUrlCached], order: &[usize]) -> Vec<String> {
    let opts = DownloadOptions {
        attempt_count: 3,
        api: Api { source: Source::Gocomics, proxy: None },
        cache_file: None,
        image_format: "png",
    };
    let mut saved: Vec<String> = Vec::new();
    for &i in order {
        let events = if i % 2 == 0 { success_events() } else { failure_events() };
        let (state, _actions) = run_job(&opts, jobs[i].clone(), events);
        if matches!(state.phase, JobPhase::Done) {
            saved.push(format_date(jobs[i].date));
        }
    }
    saved.sort();
    saved
}

#[test]
fn outcome_set_is_independent_of_processing_order() {
    // Fifty dates; each job's own trace decides its outcome, so the
    // set of written files cannot depend on how completions interleave.
    let dates = get_dates_between(d(2023, 1, 1), d(2023, 2, 19));
    assert_eq!(dates.len(), 50);
    let jobs = make_jobs(&dates, None);

    // One worker: jobs finish in submission order.
    let sequential: Vec<usize> = (0..jobs.len()).collect();
    // Ten workers: completions interleave across the worker slots.
    let mut interleaved: Vec<usize> = Vec::new();
    for slot in 0..10 {
        for i in 0..jobs.len() {
            if i % 10 == slot {
                interleaved.push(i);
            }
        }
    }
    assert_ne!(sequential, interleaved);

    let a = saved_dates_in_order(&jobs, &sequential);
    let b = saved_dates_in_order(&jobs, &interleaved);
    assert_eq!(a, b);
    assert_eq!(a.len(), 25);
    assert!(a.contains(&"2023-01-01".to_string()));
    assert!(!a.contains(&"2023-01-02".to_string()));
}
