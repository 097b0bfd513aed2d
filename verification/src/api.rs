//! Source adapters: how each supported site's page URL is built for a
//! date, and how an image URL is scraped out of a fetched page body.

use vstd::prelude::*;

verus! {

use vstd::string::*;
use crate::dates::{Date, date_token, date_token_sep, format_date, format_date_sep, spec_month_name};
use crate::digits::{dec_str, u32_to_string};
use crate::strings::{find_sub, first_match};

/// The marker whose first occurrence starts a Gocomics image URL.
pub const GOCOMICS_IMAGE_PREFIX: &'static str = "https://featureassets.gocomics.com";

/// The fixed character length of a Gocomics image URL.
pub const GOCOMICS_IMAGE_URL_LEN: usize = 74;

/// The JSON key that precedes a Fandom image URL.
pub const FANDOM_IMAGE_KEY: &'static str = "\"imageUrl\":\"";

/// The closed set of supported source sites.
#[derive(Clone, Copy, Debug, PartialEq, Eq, Structural)]
pub enum Source {
    Gocomics,
    Fandom,
}

impl Default for Source {
    /// The source used when none is chosen.
    fn default() -> (r: Self)
        ensures
            r == Source::Gocomics,
    {
        Source::Gocomics
    }
}

impl Source {
    /// The lower-case name this source is selected by.
    pub fn name(&self) -> (r: &'static str)
        ensures
            r@ == (match self {
                Source::Gocomics => "gocomics"@,
                Source::Fandom => "fandom"@,
            }),
    {
        match self {
            Source::Gocomics => "gocomics",
            Source::Fandom => "fandom",
        }
    }
}

/// The Gocomics page URL for a date.
pub open spec fn gocomics_page_url(d: Date) -> Seq<char> {
    "https://www.gocomics.com/garfield/"@ + date_token_sep(d, '/')
}

/// The Fandom page URL for a date.
pub open spec fn fandom_page_url(d: Date) -> Seq<char> {
    "https://garfield.fandom.com/wiki/Garfield,_"@ + spec_month_name(d.month as int) + "_"@
        + dec_str(d.year as nat) + "_comic_strips?file="@ + date_token(d) + ".gif"@
}

/// A Gocomics page body yields the fixed-length span starting at the
/// first occurrence of the image URL prefix, if the body holds one.
pub open spec fn gocomics_extract(body: Seq<char>) -> Option<Seq<char>> {
    match first_match(body, GOCOMICS_IMAGE_PREFIX@) {
        None => None,
        Some(i) => if i + GOCOMICS_IMAGE_URL_LEN <= body.len() {
            Some(body.subrange(i, i + GOCOMICS_IMAGE_URL_LEN))
        } else {
            None
        },
    }
}

/// A Fandom page body yields the span after the first image-URL key,
/// scanned forward to the terminating quote or the end of the body;
/// an empty span yields nothing.
pub open spec fn fandom_extract(body: Seq<char>) -> Option<Seq<char>> {
    match first_match(body, FANDOM_IMAGE_KEY@) {
        None => None,
        Some(k) => {
            let left = k + FANDOM_IMAGE_KEY@.len() as int;
            let right = match first_match(body.subrange(left, body.len() as int), seq!['"']) {
                Some(j) => left + j,
                None => body.len() as int,
            };
            if right > left {
                Some(body.subrange(left, right))
            } else {
                None
            }
        },
    }
}

impl Source {
    /// The page URL this source serves the comic of `d` under.
    pub open spec fn spec_page_url(self, d: Date) -> Seq<char> {
        match self {
            Source::Gocomics => gocomics_page_url(d),
            Source::Fandom => fandom_page_url(d),
        }
    }

    /// The image URL this source's scraping heuristic finds in a page
    /// body, if any.
    pub open spec fn spec_extract(self, body: Seq<char>) -> Option<Seq<char>> {
        match self {
            Source::Gocomics => gocomics_extract(body),
            Source::Fandom => fandom_extract(body),
        }
    }

    /// Builds the page URL for the comic of `date`.
    pub fn get_page_url(&self, date: Date) -> (r: String)
        requires
            date.valid(),
        ensures
            r@ == self.spec_page_url(date),
    {
        match self {
            Source::Gocomics => {
                let base = "https://www.gocomics.com/garfield/".to_owned();
                let tok = format_date_sep(date, '/');
                base.concat(tok.as_str())
            },
            Source::Fandom => {
                let mut s = "https://garfield.fandom.com/wiki/Garfield,_".to_owned();
                let month = crate::dates::date_month_to_string(date);
                let mut s = s.concat(month);
                let mut s = s.concat("_");
                let year = u32_to_string(date.year);
                let mut s = s.concat(year.as_str());
                let mut s = s.concat("_comic_strips?file=");
                let tok = format_date(date);
                let mut s = s.concat(tok.as_str());
                let s = s.concat(".gif");
                proof {
                    assert(s@ =~= fandom_page_url(date));
                }
                s
            },
        }
    }

    /// Scrapes the image URL out of a fetched page body, if the site's
    /// marker is present and the span it starts is not empty.
    pub fn find_image_url<'a>(&self, body: &'a str) -> (r: Option<&'a str>)
        ensures
            match self.spec_extract(body@) {
                Some(u) => r matches Some(s) && s@ == u,
                None => r is None,
            },
    {
        let n: usize = body.unicode_len();
        match self {
            Source::Gocomics => {
                match find_sub(body, GOCOMICS_IMAGE_PREFIX) {
                    None => None,
                    Some(i) => {
                        if n - i >= GOCOMICS_IMAGE_URL_LEN {
                            Some(body.substring_char(i, i + GOCOMICS_IMAGE_URL_LEN))
                        } else {
                            None
                        }
                    },
                }
            },
            Source::Fandom => {
                proof {
                    reveal_strlit("\"");
                    assert("\""@ =~= seq!['"']);
                }
                match find_sub(body, FANDOM_IMAGE_KEY) {
                    None => None,
                    Some(k) => {
                        let key_len: usize = FANDOM_IMAGE_KEY.unicode_len();
                        let left = k + key_len;
                        let tail = body.substring_char(left, n);
                        let right = match find_sub(tail, "\"") {
                            Some(j) => left + j,
                            None => n,
                        };
                        if right > left {
                            Some(body.substring_char(left, right))
                        } else {
                            None
                        }
                    },
                }
            },
        }
    }
}

/// A selected source site together with an optional CORS-proxy base.
#[derive(Clone, Copy, Debug)]
pub struct Api<'a> {
    pub source: Source,
    pub proxy: Option<&'a str>,
}

/// The URL actually requested for the page of `d`: the source's page
/// URL, prefixed with `proxy?` when a proxy is configured.
pub open spec fn spec_api_page_url(source: Source, proxy: Option<Seq<char>>, d: Date) -> Seq<
    char,
> {
    match proxy {
        None => source.spec_page_url(d),
        Some(p) => p + "?"@ + source.spec_page_url(d),
    }
}

impl<'a> Api<'a> {
    /// The URL actually requested for the page of `d`: the source's
    /// page URL, routed through the proxy when one is configured.
    pub open spec fn spec_page_url(self, d: Date) -> Seq<char> {
        spec_api_page_url(
            self.source,
            match self.proxy {
                Some(p) => Some(p@),
                None => None,
            },
            d,
        )
    }

    /// Builds the effective page URL for the comic of `date`.
    pub fn get_page_url(&self, date: Date) -> (r: String)
        requires
            date.valid(),
        ensures
            r@ == self.spec_page_url(date),
    {
        let url = self.source.get_page_url(date);
        match self.proxy {
            None => url,
            Some(proxy) => {
                let mut s = proxy.to_owned();
                let s = s.concat("?");
                let r = s.concat(url.as_str());
                proof {
                    assert(r@ =~= self.spec_page_url(date));
                }
                r
            },
        }
    }
}

} // verus!
