//! The per-job download pipeline: resolve the image URL (from the
//! cache, or by scraping the fetched page), optionally record it,
//! fetch the image bytes, decode them, and save — wrapped in a bounded
//! retry loop.  The pipeline is a state machine: the driver performs
//! each requested action (a network fetch, a file append, a save) and
//! reports the outcome back as an event.

use vstd::prelude::*;

verus! {

use vstd::string::*;
use crate::api::{Api, Source, spec_api_page_url};
use crate::cache::{cache_row, cache_row_spec};
use crate::colors::{BOLD, RESET};
use crate::dates::{Date, date_token, format_date};
use crate::digits::{dec_str, dec_str_pad2, pad_two_digits, u32_to_string};
use crate::errors::{RequestFailure, RequestFailureV, format_request_error,
    spec_format_request_error};
use crate::strings::push_char;

/// File extension to save images as.
#[derive(Clone, Copy, Debug, PartialEq, Eq, Structural)]
pub enum ImageFormat {
    Png,
    Jpg,
    Gif,
}

impl Default for ImageFormat {
    /// The format used when none is chosen.
    fn default() -> (r: Self)
        ensures
            r == ImageFormat::Png,
    {
        ImageFormat::Png
    }
}

impl ImageFormat {
    /// The file extension of this format.
    pub open spec fn spec_name(self) -> Seq<char> {
        match self {
            ImageFormat::Png => "png"@,
            ImageFormat::Jpg => "jpg"@,
            ImageFormat::Gif => "gif"@,
        }
    }

    /// The file extension this format is saved under.
    pub fn name(&self) -> (r: &'static str)
        ensures
            r@ == self.spec_name(),
    {
        match self {
            ImageFormat::Png => "png",
            ImageFormat::Jpg => "jpg",
            ImageFormat::Gif => "gif",
        }
    }
}

/// A date queued for download, carrying the image URL the cache
/// pre-supplies for it, if any.
#[derive(Clone, Debug)]
pub struct DateUrlCached {
    pub date: Date,
    pub url: Option<String>,
}

/// The abstract form of a candidate job.
pub struct DateUrlCachedV {
    pub date: Date,
    pub url: Option<Seq<char>>,
}

impl View for DateUrlCached {
    type V = DateUrlCachedV;

    open spec fn view(&self) -> DateUrlCachedV {
        DateUrlCachedV {
            date: self.date,
            url: match self.url {
                Some(u) => Some(u@),
                None => None,
            },
        }
    }
}

/// Per-run download configuration: how many attempts each job may
/// make, which source and proxy to use, whether resolved URLs are
/// recorded to a cache file, and the output image format's extension.
#[derive(Clone, Copy)]
pub struct DownloadOptions<'a> {
    pub attempt_count: u32,
    pub api: Api<'a>,
    pub cache_file: Option<&'a str>,
    pub image_format: &'a str,
}

/// The abstract form of the download configuration.
pub struct DownloadOptionsV {
    pub attempt_count: u32,
    pub source: Source,
    pub proxy: Option<Seq<char>>,
    pub record_cache: bool,
    pub image_format: Seq<char>,
}

impl<'a> View for DownloadOptions<'a> {
    type V = DownloadOptionsV;

    open spec fn view(&self) -> DownloadOptionsV {
        DownloadOptionsV {
            attempt_count: self.attempt_count,
            source: self.api.source,
            proxy: match self.api.proxy {
                Some(p) => Some(p@),
                None => None,
            },
            record_cache: self.cache_file is Some,
            image_format: self.image_format@,
        }
    }
}

/// Where a job stands between events.
pub enum JobPhase {
    Resolving,
    FetchingPage,
    RecordingCache { url: String },
    FetchingImage { url: String },
    Saving,
    Done,
    Failed { fatal: bool, message: String },
}

/// The abstract form of a job phase.
pub enum JobPhaseV {
    Resolving,
    FetchingPage,
    RecordingCache { url: Seq<char> },
    FetchingImage { url: Seq<char> },
    Saving,
    Done,
    Failed { fatal: bool, message: Seq<char> },
}

impl View for JobPhase {
    type V = JobPhaseV;

    open spec fn view(&self) -> JobPhaseV {
        match self {
            JobPhase::Resolving => JobPhaseV::Resolving,
            JobPhase::FetchingPage => JobPhaseV::FetchingPage,
            JobPhase::RecordingCache { url } => JobPhaseV::RecordingCache { url: url@ },
            JobPhase::FetchingImage { url } => JobPhaseV::FetchingImage { url: url@ },
            JobPhase::Saving => JobPhaseV::Saving,
            JobPhase::Done => JobPhaseV::Done,
            JobPhase::Failed { fatal, message } => JobPhaseV::Failed {
                fatal: *fatal,
                message: message@,
            },
        }
    }
}

/// A job's state: its date, the cache-supplied URL it may carry, the
/// attempt it is on, and its phase.
pub struct JobState {
    pub date: Date,
    pub cached_url: Option<String>,
    pub attempt: u32,
    pub phase: JobPhase,
}

/// The abstract form of a job state.
pub struct JobStateV {
    pub date: Date,
    pub cached_url: Option<Seq<char>>,
    pub attempt: u32,
    pub phase: JobPhaseV,
}

impl View for JobState {
    type V = JobStateV;

    open spec fn view(&self) -> JobStateV {
        JobStateV {
            date: self.date,
            cached_url: match self.cached_url {
                Some(u) => Some(u@),
                None => None,
            },
            attempt: self.attempt,
            phase: self.phase@,
        }
    }
}

/// What the driver must do next for a job.
pub enum JobAction {
    FetchPage { url: String },
    AppendCache { row: String },
    FetchImage { url: String },
    SaveImage { image: image::DynamicImage },
    Warn { attempt: u32, message: String },
    Fail { fatal: bool, message: String },
    Finish,
}

/// The abstract form of an action; the decoded image itself is opaque.
pub enum JobActionV {
    FetchPage { url: Seq<char> },
    AppendCache { row: Seq<char> },
    FetchImage { url: Seq<char> },
    SaveImage,
    Warn { attempt: u32, message: Seq<char> },
    Fail { fatal: bool, message: Seq<char> },
    Finish,
}

impl View for JobAction {
    type V = JobActionV;

    open spec fn view(&self) -> JobActionV {
        match self {
            JobAction::FetchPage { url } => JobActionV::FetchPage { url: url@ },
            JobAction::AppendCache { row } => JobActionV::AppendCache { row: row@ },
            JobAction::FetchImage { url } => JobActionV::FetchImage { url: url@ },
            JobAction::SaveImage { .. } => JobActionV::SaveImage,
            JobAction::Warn { attempt, message } => JobActionV::Warn {
                attempt: *attempt,
                message: message@,
            },
            JobAction::Fail { fatal, message } => JobActionV::Fail {
                fatal: *fatal,
                message: message@,
            },
            JobAction::Finish => JobActionV::Finish,
        }
    }
}

impl DeepView for JobAction {
    type V = JobActionV;

    open spec fn deep_view(&self) -> JobActionV {
        self.view()
    }
}

/// What the driver reports back after performing an action.
pub enum JobEvent {
    PageFetched { body: String },
    PageFailed { error: RequestFailure },
    CacheAppended,
    CacheAppendFailed { message: String },
    ImageFetched { bytes: Vec<u8> },
    ImageFailed { error: RequestFailure },
    ImageSaved,
    ImageSaveFailed { message: String },
}

/// The abstract form of an event.
pub enum JobEventV {
    PageFetched { body: Seq<char> },
    PageFailed { error: RequestFailureV },
    CacheAppended,
    CacheAppendFailed { message: Seq<char> },
    ImageFetched { bytes: Seq<u8> },
    ImageFailed { error: RequestFailureV },
    ImageSaved,
    ImageSaveFailed { message: Seq<char> },
}

impl View for JobEvent {
    type V = JobEventV;

    open spec fn view(&self) -> JobEventV {
        match self {
            JobEvent::PageFetched { body } => JobEventV::PageFetched { body: body@ },
            JobEvent::PageFailed { error } => JobEventV::PageFailed { error: error@ },
            JobEvent::CacheAppended => JobEventV::CacheAppended,
            JobEvent::CacheAppendFailed { message } => JobEventV::CacheAppendFailed {
                message: message@,
            },
            JobEvent::ImageFetched { bytes } => JobEventV::ImageFetched { bytes: bytes@ },
            JobEvent::ImageFailed { error } => JobEventV::ImageFailed { error: error@ },
            JobEvent::ImageSaved => JobEventV::ImageSaved,
            JobEvent::ImageSaveFailed { message } => JobEventV::ImageSaveFailed {
                message: message@,
            },
        }
    }
}

impl DeepView for JobEvent {
    type V = JobEventV;

    open spec fn deep_view(&self) -> JobEventV {
        self.view()
    }
}

#[verifier::external_type_specification]
#[verifier::external_body]
pub struct ExDynamicImage(image::DynamicImage);

/// Whether a byte buffer decodes as an image: a function of the bytes
/// alone.
pub uninterp spec fn decode_ok(bytes: Seq<u8>) -> bool;

/// Relies on `image::load_from_memory`: whether the buffer decodes as
/// an image depends on the bytes alone.
#[verifier::external_body]
fn decode_image(bytes: &Vec<u8>) -> (r: Result<image::DynamicImage, ()>)
    ensures
        r is Ok <==> decode_ok(bytes@),
{
    match image::load_from_memory(bytes.as_slice()) {
        Ok(img) => Ok(img),
        Err(_) => Err(()),
    }
}

/// The wording of a decode failure.
pub open spec fn spec_decode_fail_text() -> Seq<char> {
    "Parsing image - invalid or corrupt image data"@
}

/// The wording of a failed page scrape for a given effective page URL.
pub open spec fn spec_extract_fail_text(opts: DownloadOptionsV, date: Date) -> Seq<char> {
    "Cannot find image URL in webpage body ("@ + spec_api_page_url(opts.source, opts.proxy, date)
        + ")"@
}

/// The terminal message of a job that exhausted its attempts.
pub open spec fn spec_fail_message(date: Date, attempts: u32, error_text: Seq<char>) -> Seq<char> {
    RESET@ + BOLD@ + date_token(date) + RESET@ + " Failed after "@ + BOLD@ + dec_str(
        attempts as nat,
    ) + RESET@ + " attempts: "@ + error_text
}

/// The terminal message of a failed save.
pub open spec fn spec_save_fail_message(date: Date, detail: Seq<char>) -> Seq<char> {
    date_token(date) + " Failed to save image file - "@ + detail
}

/// Once a URL is resolved: record it when a cache file is configured,
/// else fetch the image at once.
pub open spec fn spec_after_resolve(
    opts: DownloadOptionsV,
    date: Date,
    cached_url: Option<Seq<char>>,
    attempt: u32,
    url: Seq<char>,
) -> (JobStateV, Seq<JobActionV>) {
    if opts.record_cache {
        (
            JobStateV { date, cached_url, attempt, phase: JobPhaseV::RecordingCache { url } },
            seq![JobActionV::AppendCache { row: cache_row_spec(date, url) }],
        )
    } else {
        (
            JobStateV { date, cached_url, attempt, phase: JobPhaseV::FetchingImage { url } },
            seq![JobActionV::FetchImage { url }],
        )
    }
}

/// What starts an attempt: a cache-supplied URL skips the page scrape
/// entirely; otherwise the page is fetched through the proxy.
pub open spec fn spec_start_attempt(
    opts: DownloadOptionsV,
    date: Date,
    cached_url: Option<Seq<char>>,
    attempt: u32,
) -> (JobStateV, Seq<JobActionV>) {
    match cached_url {
        Some(u) => spec_after_resolve(opts, date, cached_url, attempt, u),
        None => (
            JobStateV { date, cached_url, attempt, phase: JobPhaseV::FetchingPage },
            seq![
                JobActionV::FetchPage { url: spec_api_page_url(opts.source, opts.proxy, date) },
            ],
        ),
    }
}

/// A retryable failure: warn and start the next attempt while any are
/// left, otherwise fail with the terminal message.
pub open spec fn spec_retry(
    opts: DownloadOptionsV,
    date: Date,
    cached_url: Option<Seq<char>>,
    attempt: u32,
    error_text: Seq<char>,
) -> (JobStateV, Seq<JobActionV>) {
    if attempt < opts.attempt_count {
        let next = spec_start_attempt(opts, date, cached_url, (attempt + 1) as u32);
        (next.0, seq![JobActionV::Warn { attempt, message: error_text }] + next.1)
    } else {
        let message = spec_fail_message(date, opts.attempt_count, error_text);
        (
            JobStateV {
                date,
                cached_url,
                attempt,
                phase: JobPhaseV::Failed { fatal: false, message },
            },
            seq![JobActionV::Fail { fatal: false, message }],
        )
    }
}

/// The pipeline's transition relation: what each event does in each
/// phase.  An event that does not belong to the current phase changes
/// nothing.
pub open spec fn spec_step(opts: DownloadOptionsV, s: JobStateV, ev: JobEventV) -> (
    JobStateV,
    Seq<JobActionV>,
) {
    match (s.phase, ev) {
        (JobPhaseV::FetchingPage, JobEventV::PageFetched { body }) => {
            match opts.source.spec_extract(body) {
                Some(url) => spec_after_resolve(opts, s.date, s.cached_url, s.attempt, url),
                None => spec_retry(
                    opts,
                    s.date,
                    s.cached_url,
                    s.attempt,
                    spec_extract_fail_text(opts, s.date),
                ),
            }
        },
        (JobPhaseV::FetchingPage, JobEventV::PageFailed { error }) => spec_retry(
            opts,
            s.date,
            s.cached_url,
            s.attempt,
            "Fetching image url - "@ + spec_format_request_error(error),
        ),
        (JobPhaseV::RecordingCache { url }, JobEventV::CacheAppended) => (
            JobStateV { phase: JobPhaseV::FetchingImage { url }, ..s },
            seq![JobActionV::FetchImage { url }],
        ),
        (JobPhaseV::RecordingCache { .. }, JobEventV::CacheAppendFailed { message }) => (
            JobStateV { phase: JobPhaseV::Failed { fatal: true, message }, ..s },
            seq![JobActionV::Fail { fatal: true, message }],
        ),
        (JobPhaseV::FetchingImage { .. }, JobEventV::ImageFetched { bytes }) => {
            if decode_ok(bytes) {
                (JobStateV { phase: JobPhaseV::Saving, ..s }, seq![JobActionV::SaveImage])
            } else {
                spec_retry(opts, s.date, s.cached_url, s.attempt, spec_decode_fail_text())
            }
        },
        (JobPhaseV::FetchingImage { .. }, JobEventV::ImageFailed { error }) => spec_retry(
            opts,
            s.date,
            s.cached_url,
            s.attempt,
            "Fetching image bytes - "@ + spec_format_request_error(error),
        ),
        (JobPhaseV::Saving, JobEventV::ImageSaved) => (
            JobStateV { phase: JobPhaseV::Done, ..s },
            seq![JobActionV::Finish],
        ),
        (JobPhaseV::Saving, JobEventV::ImageSaveFailed { message }) => {
            let full = spec_save_fail_message(s.date, message);
            (
                JobStateV { phase: JobPhaseV::Failed { fatal: true, message: full }, ..s },
                seq![JobActionV::Fail { fatal: true, message: full }],
            )
        },
        (phase, _) => (JobStateV { phase, ..s }, Seq::empty()),
    }
}

fn after_resolve(
    opts: &DownloadOptions,
    date: Date,
    cached_url: Option<String>,
    attempt: u32,
    url: String,
) -> (r: (JobState, Vec<JobAction>))
    requires
        date.valid(),
    ensures
        (r.0@, r.1.deep_view()) == spec_after_resolve(
            opts@,
            date,
            match cached_url {
                Some(u) => Some(u@),
                None => None,
            },
            attempt,
            url@,
        ),
{
    let ghost cu = match cached_url {
        Some(ref u) => Some(u@),
        None => None,
    };
    let ghost u0 = url@;
    if opts.cache_file.is_some() {
        let row = cache_row(date, url.as_str());
        let st = JobState { date, cached_url, attempt, phase: JobPhase::RecordingCache { url } };
        let acts = vec![JobAction::AppendCache { row }];
        proof {
            assert(acts.deep_view() =~= seq![
                JobActionV::AppendCache { row: cache_row_spec(date, u0) },
            ]);
        }
        (st, acts)
    } else {
        let url2 = url.clone();
        let st = JobState { date, cached_url, attempt, phase: JobPhase::FetchingImage { url } };
        let acts = vec![JobAction::FetchImage { url: url2 }];
        proof {
            assert(acts.deep_view() =~= seq![JobActionV::FetchImage { url: url2@ }]);
        }
        (st, acts)
    }
}

fn start_attempt(opts: &DownloadOptions, date: Date, cached_url: Option<String>, attempt: u32) -> (r:
    (JobState, Vec<JobAction>))
    requires
        date.valid(),
    ensures
        (r.0@, r.1.deep_view()) == spec_start_attempt(
            opts@,
            date,
            match cached_url {
                Some(u) => Some(u@),
                None => None,
            },
            attempt,
        ),
{
    let ghost cu = match cached_url {
        Some(ref u) => Some(u@),
        None => None,
    };
    match cached_url {
        Some(u) => {
            let cached_again = Some(u.clone());
            after_resolve(opts, date, cached_again, attempt, u)
        },
        None => {
            let url = opts.api.get_page_url(date);
            let st = JobState { date, cached_url: None, attempt, phase: JobPhase::FetchingPage };
            let acts = vec![JobAction::FetchPage { url }];
            proof {
                assert(acts.deep_view() =~= spec_start_attempt(opts@, date, cu, attempt).1);
            }
            (st, acts)
        },
    }
}

fn retry(
    opts: &DownloadOptions,
    date: Date,
    cached_url: Option<String>,
    attempt: u32,
    error_text: String,
) -> (r: (JobState, Vec<JobAction>))
    requires
        date.valid(),
    ensures
        (r.0@, r.1.deep_view()) == spec_retry(
            opts@,
            date,
            match cached_url {
                Some(u) => Some(u@),
                None => None,
            },
            attempt,
            error_text@,
        ),
{
    let ghost cu = match cached_url {
        Some(ref u) => Some(u@),
        None => None,
    };
    if attempt < opts.attempt_count {
        let (st, mut acts) = start_attempt(opts, date, cached_url, attempt + 1);
        let ghost tail = acts.deep_view();
        acts.insert(0, JobAction::Warn { attempt, message: error_text });
        proof {
            assert(acts.deep_view() =~= seq![
                JobActionV::Warn { attempt, message: error_text@ },
            ] + tail);
        }
        (st, acts)
    } else {
        let message = fail_message(date, opts.attempt_count, error_text.as_str());
        let message2 = message.clone();
        let st = JobState {
            date,
            cached_url,
            attempt,
            phase: JobPhase::Failed { fatal: false, message },
        };
        let acts = vec![JobAction::Fail { fatal: false, message: message2 }];
        proof {
            assert(acts.deep_view() =~= seq![
                JobActionV::Fail {
                    fatal: false,
                    message: spec_fail_message(date, opts@.attempt_count, error_text@),
                },
            ]);
        }
        (st, acts)
    }
}

/// Renders the terminal message of a job that exhausted its attempts.
fn fail_message(date: Date, attempts: u32, error_text: &str) -> (r: String)
    ensures
        r@ == spec_fail_message(date, attempts, error_text@),
{
    let s = RESET.to_owned();
    let s = s.concat(BOLD);
    let tok = format_date(date);
    let s = s.concat(tok.as_str());
    let s = s.concat(RESET);
    let s = s.concat(" Failed after ");
    let s = s.concat(BOLD);
    let n = u32_to_string(attempts);
    let s = s.concat(n.as_str());
    let s = s.concat(RESET);
    let s = s.concat(" attempts: ");
    let r = s.concat(error_text);
    proof {
        assert(r@ =~= spec_fail_message(date, attempts, error_text@));
    }
    r
}

/// The initial state of a job: first attempt, nothing resolved yet.
pub open spec fn initial_state(job: DateUrlCachedV) -> JobStateV {
    JobStateV { date: job.date, cached_url: job.url, attempt: 1, phase: JobPhaseV::Resolving }
}

/// Starts a job: returns its state and the first action the driver
/// must perform.  A job whose cache entry pre-supplies the URL never
/// asks for a page fetch.
pub fn start_job(opts: &DownloadOptions, job: DateUrlCached) -> (r: (JobState, Vec<JobAction>))
    requires
        job@.date.valid(),
    ensures
        (r.0@, r.1.deep_view()) == spec_start_attempt(opts@, job@.date, job@.url, 1),
{
    let DateUrlCached { date, url } = job;
    start_attempt(opts, date, url, 1)
}

/// Feeds one event into a job and returns the new state with the
/// actions the driver must perform next.
pub fn step_job(opts: &DownloadOptions, state: JobState, event: JobEvent) -> (r: (
    JobState,
    Vec<JobAction>,
))
    requires
        state@.date.valid(),
    ensures
        (r.0@, r.1.deep_view()) == spec_step(opts@, state@, event@),
{
    let JobState { date, cached_url, attempt, phase } = state;
    match (phase, event) {
        (JobPhase::FetchingPage, JobEvent::PageFetched { body }) => {
            match opts.api.source.find_image_url(body.as_str()) {
                Some(u) => {
                    let url = u.to_owned();
                    after_resolve(opts, date, cached_url, attempt, url)
                },
                None => {
                    let text = extract_fail_text(opts, date);
                    retry(opts, date, cached_url, attempt, text)
                },
            }
        },
        (JobPhase::FetchingPage, JobEvent::PageFailed { error }) => {
            let s = "Fetching image url - ".to_owned();
            let e = format_request_error(&error);
            let text = s.concat(e.as_str());
            retry(opts, date, cached_url, attempt, text)
        },
        (JobPhase::RecordingCache { url }, JobEvent::CacheAppended) => {
            let url2 = url.clone();
            let st = JobState {
                date,
                cached_url,
                attempt,
                phase: JobPhase::FetchingImage { url },
            };
            let acts = vec![JobAction::FetchImage { url: url2 }];
            proof {
                assert(acts.deep_view() =~= seq![JobActionV::FetchImage { url: url2@ }]);
            }
            (st, acts)
        },
        (JobPhase::RecordingCache { url }, JobEvent::CacheAppendFailed { message }) => {
            let message2 = message.clone();
            let st = JobState {
                date,
                cached_url,
                attempt,
                phase: JobPhase::Failed { fatal: true, message },
            };
            let acts = vec![JobAction::Fail { fatal: true, message: message2 }];
            proof {
                assert(acts.deep_view() =~= seq![
                    JobActionV::Fail { fatal: true, message: message2@ },
                ]);
            }
            (st, acts)
        },
        (JobPhase::FetchingImage { url }, JobEvent::ImageFetched { bytes }) => {
            match decode_image(&bytes) {
                Ok(image) => {
                    let st = JobState { date, cached_url, attempt, phase: JobPhase::Saving };
                    let acts = vec![JobAction::SaveImage { image }];
                    proof {
                        assert(acts.deep_view() =~= seq![JobActionV::SaveImage]);
                    }
                    (st, acts)
                },
                Err(_) => {
                    let text = "Parsing image - invalid or corrupt image data".to_owned();
                    retry(opts, date, cached_url, attempt, text)
                },
            }
        },
        (JobPhase::FetchingImage { url }, JobEvent::ImageFailed { error }) => {
            let s = "Fetching image bytes - ".to_owned();
            let e = format_request_error(&error);
            let text = s.concat(e.as_str());
            retry(opts, date, cached_url, attempt, text)
        },
        (JobPhase::Saving, JobEvent::ImageSaved) => {
            let st = JobState { date, cached_url, attempt, phase: JobPhase::Done };
            let acts = vec![JobAction::Finish];
            proof {
                assert(acts.deep_view() =~= seq![JobActionV::Finish]);
            }
            (st, acts)
        },
        (JobPhase::Saving, JobEvent::ImageSaveFailed { message }) => {
            let full = save_fail_message(date, message.as_str());
            let full2 = full.clone();
            let st = JobState {
                date,
                cached_url,
                attempt,
                phase: JobPhase::Failed { fatal: true, message: full },
            };
            let acts = vec![JobAction::Fail { fatal: true, message: full2 }];
            proof {
                assert(acts.deep_view() =~= seq![
                    JobActionV::Fail { fatal: true, message: full2@ },
                ]);
            }
            (st, acts)
        },
        (phase, _) => {
            let st = JobState { date, cached_url, attempt, phase };
            let acts: Vec<JobAction> = Vec::new();
            proof {
                assert(acts.deep_view() =~= Seq::<JobActionV>::empty());
            }
            (st, acts)
        },
    }
}

/// Renders the wording of a failed page scrape.
fn extract_fail_text(opts: &DownloadOptions, date: Date) -> (r: String)
    requires
        date.valid(),
    ensures
        r@ == spec_extract_fail_text(opts@, date),
{
    let s = "Cannot find image URL in webpage body (".to_owned();
    let url = opts.api.get_page_url(date);
    let s = s.concat(url.as_str());
    let r = s.concat(")");
    proof {
        assert(r@ =~= spec_extract_fail_text(opts@, date));
    }
    r
}

/// Renders the terminal message of a failed save.
fn save_fail_message(date: Date, detail: &str) -> (r: String)
    ensures
        r@ == spec_save_fail_message(date, detail@),
{
    let tok = format_date(date);
    let s = tok.concat(" Failed to save image file - ");
    let r = s.concat(detail);
    proof {
        assert(r@ =~= spec_save_fail_message(date, detail@));
    }
    r
}

impl JobState {
    /// Whether the job has reached a terminal phase.
    pub fn is_terminal(&self) -> (b: bool)
        ensures
            b == (self@.phase is Done || self@.phase is Failed),
    {
        match self.phase {
            JobPhase::Done => true,
            JobPhase::Failed { .. } => true,
            _ => false,
        }
    }
}

/// The flat-layout output file name for a date: `YYYY-MM-DD.<ext>`.
pub fn image_filename(date: Date, image_format: &str) -> (r: String)
    ensures
        r@ == date_token(date) + "."@ + image_format@,
{
    let mut s = format_date(date);
    push_char(&mut s, '.');
    let r = s.concat(image_format);
    proof {
        reveal_strlit(".");
        assert("."@ =~= seq!['.']);
        assert(r@ =~= date_token(date) + "."@ + image_format@);
    }
    r
}

/// The nested-layout path parts for a date: the year directory, the
/// zero-padded month directory, and the day file name `DD.<ext>`.
pub fn image_tree_components(date: Date, image_format: &str) -> (r: (String, String, String))
    ensures
        r.0@ == dec_str_pad2(date.year as nat),
        r.1@ == dec_str_pad2(date.month as nat),
        r.2@ == dec_str_pad2(date.day as nat) + "."@ + image_format@,
{
    let year = pad_two_digits(date.year);
    let month = pad_two_digits(date.month);
    let mut day = pad_two_digits(date.day);
    push_char(&mut day, '.');
    let day = day.concat(image_format);
    proof {
        reveal_strlit(".");
        assert("."@ =~= seq!['.']);
        assert(day@ =~= dec_str_pad2(date.day as nat) + "."@ + image_format@);
    }
    (year, month, day)
}

/// The state and actions a job reaches from `s` after the given
/// events, stopping at a terminal phase.
pub open spec fn spec_run_from(
    opts: DownloadOptionsV,
    s: JobStateV,
    events: Seq<JobEventV>,
) -> (JobStateV, Seq<JobActionV>)
    decreases events.len(),
{
    if events.len() == 0 || s.phase is Done || s.phase is Failed {
        (s, Seq::empty())
    } else {
        let first = spec_step(opts, s, events.first());
        let rest = spec_run_from(opts, first.0, events.drop_first());
        (rest.0, first.1 + rest.1)
    }
}

/// The state and actions of a whole job run: the first attempt is
/// started, then each event is fed in turn.
pub open spec fn spec_run(
    opts: DownloadOptionsV,
    job: DateUrlCachedV,
    events: Seq<JobEventV>,
) -> (JobStateV, Seq<JobActionV>) {
    let start = spec_start_attempt(opts, job.date, job.url, 1);
    let rest = spec_run_from(opts, start.0, events);
    (rest.0, start.1 + rest.1)
}

/// Runs a whole job against a recorded list of events: starts the
/// first attempt, then feeds each event in turn until the job reaches
/// a terminal phase.  Returns the final state and every action asked
/// of the driver, in order.
pub fn run_job(opts: &DownloadOptions, job: DateUrlCached, events: Vec<JobEvent>) -> (r: (
    JobState,
    Vec<JobAction>,
))
    requires
        job@.date.valid(),
    ensures
        (r.0@, r.1.deep_view()) == spec_run(opts@, job@, events.deep_view()),
{
    let ghost evs = events.deep_view();
    let ghost jobv = job@;
    let (mut state, mut actions) = start_job(opts, job);
    let n = events.len();
    let mut events = events;
    let mut i: usize = 0;
    let mut stopped = false;
    proof {
        assert(evs.skip(0) =~= evs);
    }
    while !stopped && i < n
        invariant
            0 <= i <= n,
            evs.len() == n,
            events.deep_view() =~= evs.skip(i as int),
            state@.date.valid(),
            stopped ==> (state@.phase is Done || state@.phase is Failed),
            spec_run(opts@, jobv, evs).0 == spec_run_from(opts@, state@, evs.skip(i as int)).0,
            spec_run(opts@, jobv, evs).1 == actions.deep_view() + spec_run_from(
                opts@,
                state@,
                evs.skip(i as int),
            ).1,
        decreases n - i + (if stopped {
            0int
        } else {
            1int
        }),
    {
        proof {
            assert(evs.skip(i as int).len() == n - i);
            assert(evs.skip(i as int).first() == evs[i as int]);
            assert(evs.skip(i as int).drop_first() =~= evs.skip(i + 1));
        }
        if state.is_terminal() {
            stopped = true;
        } else {
            let ev = events.remove(0);
            proof {
                assert(ev@ == evs.skip(i as int)[0]);
                assert(events.deep_view() =~= evs.skip(i + 1));
            }
            let ghost acc0 = actions.deep_view();
            let (next, mut acts) = step_job(opts, state, ev);
            let ghost stepped = acts.deep_view();
            state = next;
            actions.append(&mut acts);
            proof {
                assert(actions.deep_view() =~= acc0 + stepped);
                assert(acc0 + stepped + spec_run_from(opts@, state@, evs.skip(i + 1)).1 =~= acc0
                    + (stepped + spec_run_from(opts@, state@, evs.skip(i + 1)).1));
            }
            i += 1;
        }
    }
    proof {
        if i == n {
            assert(evs.skip(n as int) =~= Seq::<JobEventV>::empty());
        }
        assert(spec_run_from(opts@, state@, evs.skip(i as int)).1 =~= Seq::<JobActionV>::empty());
        assert(actions.deep_view() + Seq::<JobActionV>::empty() =~= actions.deep_view());
    }
    (state, actions)
}

/// How many page-fetch actions a trace asks for: one per attempt of
/// an uncached job.
pub open spec fn count_page_fetches(acts: Seq<JobActionV>) -> int
    decreases acts.len(),
{
    if acts.len() == 0 {
        0
    } else {
        (if acts.first() is FetchPage {
            1int
        } else {
            0int
        }) + count_page_fetches(acts.drop_first())
    }
}

/// How many save actions a trace asks for: one per written file.
pub open spec fn count_saves(acts: Seq<JobActionV>) -> int
    decreases acts.len(),
{
    if acts.len() == 0 {
        0
    } else {
        (if acts.first() is SaveImage {
            1int
        } else {
            0int
        }) + count_saves(acts.drop_first())
    }
}

/// How many retry warnings a trace records.
pub open spec fn count_warnings(acts: Seq<JobActionV>) -> int
    decreases acts.len(),
{
    if acts.len() == 0 {
        0
    } else {
        (if acts.first() is Warn {
            1int
        } else {
            0int
        }) + count_warnings(acts.drop_first())
    }
}

/// The three counts distribute over concatenation.
pub proof fn lemma_counts_concat(a: Seq<JobActionV>, b: Seq<JobActionV>)
    ensures
        count_page_fetches(a + b) == count_page_fetches(a) + count_page_fetches(b),
        count_saves(a + b) == count_saves(a) + count_saves(b),
        count_warnings(a + b) == count_warnings(a) + count_warnings(b),
    decreases a.len(),
{
    if a.len() == 0 {
        assert(a + b =~= b);
    } else {
        assert((a + b).first() == a.first());
        assert((a + b).drop_first() =~= a.drop_first() + b);
        lemma_counts_concat(a.drop_first(), b);
    }
}

proof fn lemma_counts_singleton(a: JobActionV)
    ensures
        count_page_fetches(seq![a]) == if a is FetchPage {
            1int
        } else {
            0int
        },
        count_saves(seq![a]) == if a is SaveImage {
            1int
        } else {
            0int
        },
        count_warnings(seq![a]) == if a is Warn {
            1int
        } else {
            0int
        },
{
    assert(seq![a].drop_first() =~= Seq::<JobActionV>::empty());
    assert(seq![a].first() == a);
    assert(count_page_fetches(Seq::<JobActionV>::empty()) == 0);
    assert(count_saves(Seq::<JobActionV>::empty()) == 0);
    assert(count_warnings(Seq::<JobActionV>::empty()) == 0);
    assert(count_page_fetches(seq![a]) == (if a is FetchPage {
        1int
    } else {
        0int
    }) + count_page_fetches(seq![a].drop_first()));
    assert(count_saves(seq![a]) == (if a is SaveImage {
        1int
    } else {
        0int
    }) + count_saves(seq![a].drop_first()));
    assert(count_warnings(seq![a]) == (if a is Warn {
        1int
    } else {
        0int
    }) + count_warnings(seq![a].drop_first()));
}

proof fn lemma_exhaust_from(opts: DownloadOptionsV, s: JobStateV, events: Seq<JobEventV>)
    requires
        s.phase is FetchingPage,
        s.cached_url is None,
        1 <= s.attempt <= opts.attempt_count,
        events.len() == opts.attempt_count - s.attempt + 1,
        forall|i: int| 0 <= i < events.len() ==> (#[trigger] events[i]) is PageFailed,
    ensures
        spec_run_from(opts, s, events).0.phase is Failed,
        count_page_fetches(spec_run_from(opts, s, events).1) == events.len() - 1,
        count_saves(spec_run_from(opts, s, events).1) == 0,
        count_warnings(spec_run_from(opts, s, events).1) == events.len() - 1,
    decreases events.len(),
{
    let ev = events.first();
    assert(events[0] is PageFailed);
    let first = spec_step(opts, s, ev);
    let rest = spec_run_from(opts, first.0, events.drop_first());
    if s.attempt < opts.attempt_count {
        let warn = JobActionV::Warn {
            attempt: s.attempt,
            message: "Fetching image url - "@ + spec_format_request_error(ev->PageFailed_error),
        };
        let fetch = JobActionV::FetchPage {
            url: spec_api_page_url(opts.source, opts.proxy, s.date),
        };
        assert(first.1 =~= seq![warn] + seq![fetch]);
        lemma_counts_singleton(warn);
        lemma_counts_singleton(fetch);
        lemma_counts_concat(seq![warn], seq![fetch]);
        assert forall|i: int| 0 <= i < events.drop_first().len() implies (#[trigger] events.drop_first()[i]) is PageFailed by {
            assert(events.drop_first()[i] == events[i + 1]);
        }
        lemma_exhaust_from(opts, first.0, events.drop_first());
        lemma_counts_concat(first.1, rest.1);
    } else {
        let fail = JobActionV::Fail {
            fatal: false,
            message: spec_fail_message(
                s.date,
                opts.attempt_count,
                "Fetching image url - "@ + spec_format_request_error(ev->PageFailed_error),
            ),
        };
        assert(first.1 =~= seq![fail]);
        lemma_counts_singleton(fail);
        assert(rest == (first.0, Seq::<JobActionV>::empty()));
        lemma_counts_concat(first.1, rest.1);
    }
}

/// A terminal failure that came from exhausted retries.
pub open spec fn phase_exhausted(p: JobPhaseV) -> bool {
    match p {
        JobPhaseV::Failed { fatal, .. } => !fatal,
        _ => false,
    }
}

/// A terminal failure that aborts the run at once.
pub open spec fn phase_failed_fatal(p: JobPhaseV) -> bool {
    match p {
        JobPhaseV::Failed { fatal, .. } => fatal,
        _ => false,
    }
}

proof fn lemma_after_resolve_counts(
    opts: DownloadOptionsV,
    date: Date,
    cached_url: Option<Seq<char>>,
    attempt: u32,
    url: Seq<char>,
)
    ensures
        ({
            let r = spec_after_resolve(opts, date, cached_url, attempt, url);
            &&& count_warnings(r.1) == 0
            &&& count_saves(r.1) == 0
            &&& r.0.attempt == attempt
            &&& (r.0.phase is RecordingCache || r.0.phase is FetchingImage)
        }),
{
    let r = spec_after_resolve(opts, date, cached_url, attempt, url);
    lemma_counts_singleton(r.1[0]);
    assert(r.1 =~= seq![r.1.first()]);
}

proof fn lemma_start_attempt_counts(
    opts: DownloadOptionsV,
    date: Date,
    cached_url: Option<Seq<char>>,
    attempt: u32,
)
    ensures
        ({
            let r = spec_start_attempt(opts, date, cached_url, attempt);
            &&& count_warnings(r.1) == 0
            &&& count_saves(r.1) == 0
            &&& r.0.attempt == attempt
            &&& (r.0.phase is FetchingPage || r.0.phase is RecordingCache
                || r.0.phase is FetchingImage)
        }),
{
    let r = spec_start_attempt(opts, date, cached_url, attempt);
    match cached_url {
        Some(u) => {
            lemma_after_resolve_counts(opts, date, cached_url, attempt, u);
        },
        None => {
            lemma_counts_singleton(r.1[0]);
            assert(r.1 =~= seq![r.1.first()]);
        },
    }
}

proof fn lemma_retry_counts(
    opts: DownloadOptionsV,
    date: Date,
    cached_url: Option<Seq<char>>,
    attempt: u32,
    error_text: Seq<char>,
)
    ensures
        ({
            let r = spec_retry(opts, date, cached_url, attempt, error_text);
            &&& count_saves(r.1) == 0
            &&& (attempt < opts.attempt_count ==> {
                &&& count_warnings(r.1) == 1
                &&& r.0.attempt == attempt + 1
                &&& (r.0.phase is FetchingPage || r.0.phase is RecordingCache
                    || r.0.phase is FetchingImage)
            })
            &&& (attempt >= opts.attempt_count ==> {
                &&& count_warnings(r.1) == 0
                &&& r.0.attempt == attempt
                &&& phase_exhausted(r.0.phase)
            })
        }),
{
    let r = spec_retry(opts, date, cached_url, attempt, error_text);
    if attempt < opts.attempt_count {
        let next = spec_start_attempt(opts, date, cached_url, (attempt + 1) as u32);
        lemma_start_attempt_counts(opts, date, cached_url, (attempt + 1) as u32);
        let warn = JobActionV::Warn { attempt, message: error_text };
        lemma_counts_singleton(warn);
        lemma_counts_concat(seq![warn], next.1);
        assert(r.1 =~= seq![warn] + next.1);
    } else {
        lemma_counts_singleton(r.1[0]);
        assert(r.1 =~= seq![r.1.first()]);
    }
}

/// Per-step bookkeeping: warnings count attempts, a save is asked for
/// exactly on entering the saving phase, retry exhaustion happens only
/// on the configured final attempt, and a job done is a job saved.
proof fn lemma_step_counts(opts: DownloadOptionsV, s: JobStateV, ev: JobEventV)
    requires
        1 <= s.attempt <= opts.attempt_count,
        phase_exhausted(s.phase) ==> s.attempt == opts.attempt_count,
    ensures
        ({
            let r = spec_step(opts, s, ev);
            &&& s.attempt <= r.0.attempt <= opts.attempt_count
            &&& count_warnings(r.1) == r.0.attempt - s.attempt
            &&& count_saves(r.1) == (if !(s.phase is Saving) && r.0.phase is Saving {
                1int
            } else {
                0int
            })
            &&& (r.0.phase is Done ==> s.phase is Saving || s.phase is Done)
            &&& (phase_exhausted(r.0.phase) ==> r.0.attempt == opts.attempt_count)
            &&& (s.phase is Saving ==> count_saves(r.1) == 0 && (r.0.phase is Saving
                || r.0.phase is Done || phase_failed_fatal(r.0.phase)))
            &&& (s.phase is Done ==> r.0.phase is Done)
        }),
{
    let r = spec_step(opts, s, ev);
    match (s.phase, ev) {
        (JobPhaseV::FetchingPage, JobEventV::PageFetched { body }) => {
            match opts.source.spec_extract(body) {
                Some(url) => {
                    lemma_after_resolve_counts(opts, s.date, s.cached_url, s.attempt, url);
                },
                None => {
                    lemma_retry_counts(
                        opts,
                        s.date,
                        s.cached_url,
                        s.attempt,
                        spec_extract_fail_text(opts, s.date),
                    );
                },
            }
        },
        (JobPhaseV::FetchingPage, JobEventV::PageFailed { error }) => {
            lemma_retry_counts(
                opts,
                s.date,
                s.cached_url,
                s.attempt,
                "Fetching image url - "@ + spec_format_request_error(error),
            );
        },
        (JobPhaseV::FetchingImage { .. }, JobEventV::ImageFetched { bytes }) => {
            if decode_ok(bytes) {
                lemma_counts_singleton(JobActionV::SaveImage);
                assert(r.1 =~= seq![JobActionV::SaveImage]);
            } else {
                lemma_retry_counts(opts, s.date, s.cached_url, s.attempt, spec_decode_fail_text());
            }
        },
        (JobPhaseV::FetchingImage { .. }, JobEventV::ImageFailed { error }) => {
            lemma_retry_counts(
                opts,
                s.date,
                s.cached_url,
                s.attempt,
                "Fetching image bytes - "@ + spec_format_request_error(error),
            );
        },
        _ => {
            if r.1.len() == 1 {
                lemma_counts_singleton(r.1[0]);
                assert(r.1 =~= seq![r.1.first()]);
            } else {
                assert(r.1 =~= Seq::<JobActionV>::empty());
            }
        },
    }
}

proof fn lemma_accounting_from(opts: DownloadOptionsV, s: JobStateV, events: Seq<JobEventV>)
    requires
        1 <= s.attempt <= opts.attempt_count,
        phase_exhausted(s.phase) ==> s.attempt == opts.attempt_count,
    ensures
        ({
            let r = spec_run_from(opts, s, events);
            &&& s.attempt <= r.0.attempt <= opts.attempt_count
            &&& count_warnings(r.1) == r.0.attempt - s.attempt
            &&& count_saves(r.1) <= 1
            &&& (phase_exhausted(r.0.phase) ==> r.0.attempt == opts.attempt_count
                && count_saves(r.1) == 0)
            &&& (s.phase is Saving || s.phase is Done ==> count_saves(r.1) == 0 && (
            r.0.phase is Saving || r.0.phase is Done || phase_failed_fatal(r.0.phase)))
            &&& (r.0.phase is Done && !(s.phase is Saving) && !(s.phase is Done) ==> count_saves(
                r.1,
            ) == 1)
        }),
    decreases events.len(),
{
    if events.len() == 0 || s.phase is Done || s.phase is Failed {
        assert(count_warnings(Seq::<JobActionV>::empty()) == 0);
        assert(count_saves(Seq::<JobActionV>::empty()) == 0);
    } else {
        let first = spec_step(opts, s, events.first());
        let rest = spec_run_from(opts, first.0, events.drop_first());
        lemma_step_counts(opts, s, events.first());
        lemma_accounting_from(opts, first.0, events.drop_first());
        lemma_counts_concat(first.1, rest.1);
    }
}

/// Attempt accounting, for any job and any trace of events: each
/// completed non-final attempt warns exactly once, whichever stage it
/// failed at (page fetch, extraction, image fetch or decode); a job
/// that exhausted its retries made exactly `attempt_count` attempts
/// and never asked for a file to be written; a finished job asked for
/// exactly one; no run asks for more than one.
pub proof fn lemma_attempt_accounting(
    opts: DownloadOptionsV,
    job: DateUrlCachedV,
    events: Seq<JobEventV>,
)
    requires
        opts.attempt_count >= 1,
    ensures
        ({
            let r = spec_run(opts, job, events);
            &&& 1 <= r.0.attempt <= opts.attempt_count
            &&& count_warnings(r.1) == r.0.attempt - 1
            &&& count_saves(r.1) <= 1
            &&& (phase_exhausted(r.0.phase) ==> r.0.attempt == opts.attempt_count
                && count_saves(r.1) == 0)
            &&& (r.0.phase is Done ==> count_saves(r.1) == 1)
        }),
{
    let start = spec_start_attempt(opts, job.date, job.url, 1);
    lemma_start_attempt_counts(opts, job.date, job.url, 1);
    lemma_accounting_from(opts, start.0, events);
    lemma_counts_concat(start.1, spec_run_from(opts, start.0, events).1);
}

proof fn lemma_step_keeps_cached(opts: DownloadOptionsV, s: JobStateV, ev: JobEventV)
    requires
        s.cached_url is Some,
    ensures
        spec_step(opts, s, ev).0.cached_url == s.cached_url,
        count_page_fetches(spec_step(opts, s, ev).1) == 0,
{
    let r = spec_step(opts, s, ev);
    match (s.phase, ev) {
        (JobPhaseV::FetchingPage, JobEventV::PageFetched { body }) => {
            match opts.source.spec_extract(body) {
                Some(url) => {
                    lemma_after_resolve_no_fetch_page(opts, s.date, s.cached_url, s.attempt, url);
                },
                None => {
                    lemma_retry_no_fetch_page(
                        opts,
                        s.date,
                        s.cached_url,
                        s.attempt,
                        spec_extract_fail_text(opts, s.date),
                    );
                },
            }
        },
        (JobPhaseV::FetchingPage, JobEventV::PageFailed { error }) => {
            lemma_retry_no_fetch_page(
                opts,
                s.date,
                s.cached_url,
                s.attempt,
                "Fetching image url - "@ + spec_format_request_error(error),
            );
        },
        (JobPhaseV::FetchingImage { .. }, JobEventV::ImageFetched { bytes }) => {
            if decode_ok(bytes) {
                lemma_counts_singleton(JobActionV::SaveImage);
            } else {
                lemma_retry_no_fetch_page(
                    opts,
                    s.date,
                    s.cached_url,
                    s.attempt,
                    spec_decode_fail_text(),
                );
            }
        },
        (JobPhaseV::FetchingImage { .. }, JobEventV::ImageFailed { error }) => {
            lemma_retry_no_fetch_page(
                opts,
                s.date,
                s.cached_url,
                s.attempt,
                "Fetching image bytes - "@ + spec_format_request_error(error),
            );
        },
        _ => {
            if r.1.len() == 1 {
                lemma_counts_singleton(r.1[0]);
                assert(r.1 =~= seq![r.1.first()]);
            } else {
                assert(count_page_fetches(r.1) == 0);
            }
        },
    }
}

proof fn lemma_after_resolve_no_fetch_page(
    opts: DownloadOptionsV,
    date: Date,
    cached_url: Option<Seq<char>>,
    attempt: u32,
    url: Seq<char>,
)
    ensures
        spec_after_resolve(opts, date, cached_url, attempt, url).0.cached_url == cached_url,
        count_page_fetches(spec_after_resolve(opts, date, cached_url, attempt, url).1) == 0,
{
    let r = spec_after_resolve(opts, date, cached_url, attempt, url);
    lemma_counts_singleton(r.1[0]);
    assert(r.1 =~= seq![r.1.first()]);
}

proof fn lemma_retry_no_fetch_page(
    opts: DownloadOptionsV,
    date: Date,
    cached_url: Option<Seq<char>>,
    attempt: u32,
    error_text: Seq<char>,
)
    requires
        cached_url is Some,
    ensures
        spec_retry(opts, date, cached_url, attempt, error_text).0.cached_url == cached_url,
        count_page_fetches(spec_retry(opts, date, cached_url, attempt, error_text).1) == 0,
{
    let r = spec_retry(opts, date, cached_url, attempt, error_text);
    if attempt < opts.attempt_count {
        let next = spec_start_attempt(opts, date, cached_url, (attempt + 1) as u32);
        lemma_after_resolve_no_fetch_page(opts, date, cached_url, (attempt + 1) as u32, cached_url->0);
        let warn = JobActionV::Warn { attempt, message: error_text };
        lemma_counts_singleton(warn);
        lemma_counts_concat(seq![warn], next.1);
        assert(r.1 =~= seq![warn] + next.1);
    } else {
        lemma_counts_singleton(r.1[0]);
        assert(r.1 =~= seq![r.1.first()]);
    }
}

proof fn lemma_cached_run_from(opts: DownloadOptionsV, s: JobStateV, events: Seq<JobEventV>)
    requires
        s.cached_url is Some,
    ensures
        count_page_fetches(spec_run_from(opts, s, events).1) == 0,
    decreases events.len(),
{
    if events.len() == 0 || s.phase is Done || s.phase is Failed {
        assert(count_page_fetches(Seq::<JobActionV>::empty()) == 0);
    } else {
        let first = spec_step(opts, s, events.first());
        lemma_step_keeps_cached(opts, s, events.first());
        lemma_cached_run_from(opts, first.0, events.drop_first());
        lemma_counts_concat(first.1, spec_run_from(opts, first.0, events.drop_first()).1);
    }
}

/// A job whose cache entry pre-supplies its image URL never asks for
/// a page fetch, whatever happens: the page scrape is skipped
/// entirely.
pub proof fn lemma_cached_job_skips_scrape(
    opts: DownloadOptionsV,
    job: DateUrlCachedV,
    events: Seq<JobEventV>,
)
    requires
        job.url is Some,
    ensures
        count_page_fetches(spec_run(opts, job, events).1) == 0,
{
    let start = spec_start_attempt(opts, job.date, job.url, 1);
    lemma_after_resolve_no_fetch_page(opts, job.date, job.url, 1, job.url->0);
    lemma_cached_run_from(opts, start.0, events);
    lemma_counts_concat(start.1, spec_run_from(opts, start.0, events).1);
}

/// Retry exhaustion: an uncached job whose page fetch fails at every
/// attempt asks for exactly `attempt_count` page fetches, warns once
/// per failed non-final attempt, never asks for a save, and ends
/// failed.
pub proof fn lemma_retry_exhaustion(
    opts: DownloadOptionsV,
    job: DateUrlCachedV,
    events: Seq<JobEventV>,
)
    requires
        opts.attempt_count >= 1,
        job.url is None,
        events.len() == opts.attempt_count,
        forall|i: int| 0 <= i < events.len() ==> (#[trigger] events[i]) is PageFailed,
    ensures
        spec_run(opts, job, events).0.phase is Failed,
        count_page_fetches(spec_run(opts, job, events).1) == opts.attempt_count,
        count_saves(spec_run(opts, job, events).1) == 0,
        count_warnings(spec_run(opts, job, events).1) == opts.attempt_count - 1,
{
    let start = spec_start_attempt(opts, job.date, job.url, 1);
    let fetch = JobActionV::FetchPage {
        url: spec_api_page_url(opts.source, opts.proxy, job.date),
    };
    assert(start.1 =~= seq![fetch]);
    lemma_counts_singleton(fetch);
    lemma_exhaust_from(opts, start.0, events);
    lemma_counts_concat(start.1, spec_run_from(opts, start.0, events).1);
}

} // verus!
