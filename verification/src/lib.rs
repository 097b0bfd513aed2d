//! A concurrent comic-strip downloader library.
//!
//! The verified core: the calendar date range model, the URL cache
//! (parsing, appending, normalization), the per-site source adapters,
//! the per-job download pipeline state machine with its retry policy,
//! and the scheduling bookkeeping around it.  Network and file system
//! access stay outside the library; callers hand in the raw values
//! (page bodies, image bytes, file names) and perform the actions the
//! pipeline asks for.

pub mod api;
pub mod cache;
pub mod colors;
pub mod dates;
pub mod digits;
pub mod download;
pub mod errors;
pub mod format;
pub mod io;
pub mod schedule;
pub mod strings;

pub use crate::download::DateUrlCached;
pub use crate::download::DownloadOptions;
pub use crate::errors::Error;
pub use crate::format::format_bytes;
pub use crate::format::format_duration;
pub use crate::io::get_folder_path;

use vstd::prelude::*;

verus! {

/// Exit code reported when query mode finds missing dates.
pub const QUERY_SOME_EXITCODE: i32 = 10;

/// The CORS-proxy service used unless another is configured.
pub const PROXY_DEFAULT: &'static str = "https://proxy.darcy-700.workers.dev/cors-proxy";

/// The remote URL cache used unless another is configured.
pub const CACHE_DEFAULT: &'static str =
    "https://raw.githubusercontent.com/dxrcy/everygarf-cache/master/cache";

} // verus!
