//! Fatal error categories with the process exit code each one maps
//! onto, and the wording of request failures shown to the user.

use vstd::prelude::*;

verus! {

use vstd::string::*;
use crate::colors::{BOLD, MAGENTA, RED, RESET, YELLOW};
use crate::digits::dec_str;
use crate::digits::u64_to_string;

/// One category per fatal failure of a run.  The numeric exit code of
/// each category is fixed by [`Error::exit_code`].
#[derive(Clone, Copy, Debug, PartialEq, Eq, Structural)]
pub enum Error {
    DownloadFail,
    NoDir,
    CreateDir,
    ReadExistingDates,
    ProxyPing,
    CacheDownload,
    CleanCache,
    CacheAppendNewline,
    BadStartDate,
}

impl Error {
    /// The process exit code for this error category.
    pub fn exit_code(&self) -> (code: i32)
        ensures
            code == self.spec_exit_code(),
    {
        match self {
            Error::DownloadFail => 0,
            Error::NoDir => 1,
            Error::CreateDir => 2,
            Error::ReadExistingDates => 3,
            Error::ProxyPing => 4,
            Error::CacheDownload => 5,
            Error::CleanCache => 6,
            Error::CacheAppendNewline => 7,
            Error::BadStartDate => 8,
        }
    }

    /// Which exit code each category carries.
    pub open spec fn spec_exit_code(self) -> i32 {
        match self {
            Error::DownloadFail => 0,
            Error::NoDir => 1,
            Error::CreateDir => 2,
            Error::ReadExistingDates => 3,
            Error::ProxyPing => 4,
            Error::CacheDownload => 5,
            Error::CleanCache => 6,
            Error::CacheAppendNewline => 7,
            Error::BadStartDate => 8,
        }
    }
}

/// What a failed HTTP request looked like, as plain values: whether it
/// timed out, whether the connection failed, the response status if
/// one arrived, and the error's own description for the remaining
/// cases.
#[derive(Clone, Debug)]
pub struct RequestFailure {
    pub timeout: bool,
    pub connect: bool,
    pub status: Option<u16>,
    pub detail: String,
}

/// The abstract form of a request failure.
pub struct RequestFailureV {
    pub timeout: bool,
    pub connect: bool,
    pub status: Option<u16>,
    pub detail: Seq<char>,
}

impl View for RequestFailure {
    type V = RequestFailureV;

    open spec fn view(&self) -> RequestFailureV {
        RequestFailureV {
            timeout: self.timeout,
            connect: self.connect,
            status: self.status,
            detail: self.detail@,
        }
    }
}

/// A status-specific message prefixed with the bold status code.
pub open spec fn spec_status_message(code: u16, message: Seq<char>) -> Seq<char> {
    YELLOW@ + BOLD@ + dec_str(code as nat) + RESET@ + " "@ + message
}

/// The user-facing wording of a request failure: timeouts and bad
/// connections first, then rate limiting, two special-cased upstream
/// statuses, and the error's own description for everything else.
pub open spec fn spec_format_request_error(f: RequestFailureV) -> Seq<char> {
    if f.timeout {
        YELLOW@ + "Request timed out."@ + RESET@
            + " If this happens often, check your connection, or change the `--timeout` argument."@
    } else if f.connect {
        YELLOW@ + "Bad connection."@ + RESET@ + " Check your internet access."@
    } else {
        match f.status {
            None => MAGENTA@ + "Unknown error:"@ + RESET@ + " "@ + f.detail,
            Some(code) => if code == 429 {
                spec_status_message(
                    code,
                    RED@ + "Rate limited."@ + RESET@
                        + " Try again in a few minutes. See https://github.com/dxrcy/everygarf#proxy-service for more information."@,
                )
            } else if code == 525 {
                spec_status_message(code, "SSL handshake failed with Cloudflare."@)
            } else if code == 500 {
                spec_status_message(code, "Server error - Try again later."@)
            } else {
                "Uncommon error: "@ + YELLOW@ + f.detail + RESET@
            },
        }
    }
}

/// Renders a request failure for the user.
pub fn format_request_error(f: &RequestFailure) -> (r: String)
    ensures
        r@ == spec_format_request_error(f@),
{
    if f.timeout {
        let s = YELLOW.to_owned();
        let s = s.concat("Request timed out.");
        let s = s.concat(RESET);
        let r = s.concat(
            " If this happens often, check your connection, or change the `--timeout` argument.",
        );
        proof {
            assert(r@ =~= spec_format_request_error(f@));
        }
        r
    } else if f.connect {
        let s = YELLOW.to_owned();
        let s = s.concat("Bad connection.");
        let s = s.concat(RESET);
        let r = s.concat(" Check your internet access.");
        proof {
            assert(r@ =~= spec_format_request_error(f@));
        }
        r
    } else {
        match f.status {
            None => {
                let s = MAGENTA.to_owned();
                let s = s.concat("Unknown error:");
                let s = s.concat(RESET);
                let s = s.concat(" ");
                let r = s.concat(f.detail.as_str());
                proof {
                    assert(r@ =~= spec_format_request_error(f@));
                }
                r
            },
            Some(code) => {
                if code == 429 {
                    let m = RED.to_owned();
                    let m = m.concat("Rate limited.");
                    let m = m.concat(RESET);
                    let m = m.concat(
                        " Try again in a few minutes. See https://github.com/dxrcy/everygarf#proxy-service for more information.",
                    );
                    status_message(code, m.as_str())
                } else if code == 525 {
                    status_message(code, "SSL handshake failed with Cloudflare.")
                } else if code == 500 {
                    status_message(code, "Server error - Try again later.")
                } else {
                    let s = "Uncommon error: ".to_owned();
                    let s = s.concat(YELLOW);
                    let s = s.concat(f.detail.as_str());
                    let r = s.concat(RESET);
                    proof {
                        assert(r@ =~= spec_format_request_error(f@));
                    }
                    r
                }
            },
        }
    }
}

/// Prefixes a status-specific message with its bold status code.
fn status_message(code: u16, message: &str) -> (r: String)
    ensures
        r@ == spec_status_message(code, message@),
{
    let s = YELLOW.to_owned();
    let s = s.concat(BOLD);
    let c = u64_to_string(code as u64);
    let s = s.concat(c.as_str());
    let s = s.concat(RESET);
    let s = s.concat(" ");
    let r = s.concat(message);
    proof {
        assert(r@ =~= spec_status_message(code, message@));
    }
    r
}

} // verus!
