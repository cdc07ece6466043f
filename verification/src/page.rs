//! The decisions behind a served page: which kind of request it answers,
//! how the page is laid out for it, and how errors are reported.
use vstd::prelude::*;

use crate::paths::push_all;
use crate::text::{chars_of, string_of};

verus! {

/// How a page was asked for: a fragment for an htmx request, a boosted
/// navigation that swaps the body, or a full document.
#[derive(Clone, Copy, Debug, PartialEq, Eq, Structural)]
pub enum PageKind {
    Direct,
    Boosted,
    Full,
}

/// A header value that reads exactly `true`.
pub open spec fn is_true(v: Option<Seq<u8>>) -> bool {
    v == Some(seq![116u8, 114u8, 117u8, 101u8])
}

fn bytes_are_true(v: &[u8]) -> (r: bool)
    ensures
        r == (v@ == seq![116u8, 114u8, 117u8, 101u8]),
{
    if v.len() == 4 && v[0] == 116 && v[1] == 114 && v[2] == 117 && v[3] == 101 {
        assert(v@ =~= seq![116u8, 114u8, 117u8, 101u8]);
        true
    } else {
        false
    }
}

fn header_is_true(v: Option<&[u8]>) -> (r: bool)
    ensures
        r == is_true(
            match v {
                Some(b) => Some(b@),
                None => None,
            },
        ),
{
    match v {
        Some(b) => bytes_are_true(b),
        None => false,
    }
}

/// How a page is put together for its kind of request.
#[derive(Clone, Copy, Debug, PartialEq, Eq, Structural)]
pub enum PageLayout {
    /// Only the markup meant for direct requests.
    DirectMarkup,
    /// Only the page's content.
    ContentOnly,
    /// The head, the navigation and the content.
    BoostedWithHead,
    /// The title, the navigation and the content.
    BoostedWithTitle,
    /// A whole document: doctype, head and body.
    Document,
}

impl PageKind {
    /// The kind of a request from its `HX-Boosted` and `HX-Request`
    /// headers: boosted when `HX-Boosted` is `true`, otherwise direct when
    /// `HX-Request` is `true`, otherwise full.
    pub fn from_headers(hx_boosted: Option<&[u8]>, hx_request: Option<&[u8]>) -> (r: PageKind)
        ensures
            r == if is_true(
                match hx_boosted {
                    Some(b) => Some(b@),
                    None => None,
                },
            ) {
                PageKind::Boosted
            } else if is_true(
                match hx_request {
                    Some(b) => Some(b@),
                    None => None,
                },
            ) {
                PageKind::Direct
            } else {
                PageKind::Full
            },
    {
        if header_is_true(hx_boosted) {
            PageKind::Boosted
        } else if header_is_true(hx_request) {
            PageKind::Direct
        } else {
            PageKind::Full
        }
    }

    /// The layout of a page of this kind: a direct request gets the markup
    /// meant for it when there is some, else the content; a boosted one
    /// gets the extra head when there is one, else just the title; a full
    /// one gets a document.
    pub fn layout(self, has_head: bool, has_direct: bool) -> (r: PageLayout)
        ensures
            r == match self {
                PageKind::Direct => if has_direct {
                    PageLayout::DirectMarkup
                } else {
                    PageLayout::ContentOnly
                },
                PageKind::Boosted => if has_head {
                    PageLayout::BoostedWithHead
                } else {
                    PageLayout::BoostedWithTitle
                },
                PageKind::Full => PageLayout::Document,
            },
    {
        match self {
            PageKind::Direct => if has_direct {
                PageLayout::DirectMarkup
            } else {
                PageLayout::ContentOnly
            },
            PageKind::Boosted => if has_head {
                PageLayout::BoostedWithHead
            } else {
                PageLayout::BoostedWithTitle
            },
            PageKind::Full => PageLayout::Document,
        }
    }

    /// The status an error page is sent with: none of its own for a boosted
    /// request (htmx would not swap it in), the error's status otherwise.
    pub fn error_status(self, status: u16) -> (r: Option<u16>)
        ensures
            r == if self == PageKind::Boosted {
                None
            } else {
                Some(status)
            },
    {
        match self {
            PageKind::Boosted => None,
            _ => Some(status),
        }
    }
}

/// What an error page says.
#[derive(Clone, Copy, Debug, PartialEq, Eq, Structural)]
pub enum ErrorMessage {
    NotFound,
    BadRequest,
    ClientError,
    UnderConstruction,
    InternalServerError,
}

impl ErrorMessage {
    /// The text shown for the error.
    pub fn text(self) -> (r: &'static str)
        ensures
            r@ == match self {
                ErrorMessage::NotFound => "Not Found"@,
                ErrorMessage::BadRequest => "Bad Request"@,
                ErrorMessage::ClientError => "Client Error"@,
                ErrorMessage::UnderConstruction => "Under construction"@,
                ErrorMessage::InternalServerError => "Internal Server Error"@,
            },
    {
        match self {
            ErrorMessage::NotFound => "Not Found",
            ErrorMessage::BadRequest => "Bad Request",
            ErrorMessage::ClientError => "Client Error",
            ErrorMessage::UnderConstruction => "Under construction",
            ErrorMessage::InternalServerError => "Internal Server Error",
        }
    }
}

/// The error page that replaces a response with the given status: 404 and
/// 400 by name, other 4xx as client errors, 503 as a page under
/// construction, other 5xx as server errors; any other status passes
/// through.
pub fn error_page_for(status: u16) -> (r: Option<ErrorMessage>)
    ensures
        r == if status == 404 {
            Some(ErrorMessage::NotFound)
        } else if status == 400 {
            Some(ErrorMessage::BadRequest)
        } else if 400 <= status <= 499 {
            Some(ErrorMessage::ClientError)
        } else if status == 503 {
            Some(ErrorMessage::UnderConstruction)
        } else if 500 <= status <= 599 {
            Some(ErrorMessage::InternalServerError)
        } else {
            None
        },
{
    if status == 404 {
        Some(ErrorMessage::NotFound)
    } else if status == 400 {
        Some(ErrorMessage::BadRequest)
    } else if 400 <= status && status <= 499 {
        Some(ErrorMessage::ClientError)
    } else if status == 503 {
        Some(ErrorMessage::UnderConstruction)
    } else if 500 <= status && status <= 599 {
        Some(ErrorMessage::InternalServerError)
    } else {
        None
    }
}

/// The description of a post page: the tagline, a `---` line and the
/// brief, or the brief alone.
pub fn post_description(tagline: &Option<String>, brief: &str) -> (r: String)
    ensures
        r@ == match tagline {
            Some(t) => t@ + "\n---\n"@ + brief@,
            None => brief@,
        },
{
    match tagline {
        Some(t) => {
            let mut out = chars_of(t.as_str());
            push_all(&mut out, &chars_of("\n---\n"));
            push_all(&mut out, &chars_of(brief));
            string_of(out.as_slice())
        },
        None => string_of(chars_of(brief).as_slice()),
    }
}

/// Whether a post's table of contents is worth showing: its markup is
/// longer than 40 bytes.
pub fn shows_toc(toc: &str) -> (r: bool)
    ensures
        r == (toc.len() > 40),
{
    toc.len() > 40
}

/// The tooltip on a post's date: its revision history, when there is one.
pub fn revisions_tooltip(revisions: &str) -> (r: Option<String>)
    ensures
        r matches Some(t) ==> t@ == revisions@,
        r is None <==> revisions@.len() == 0,
{
    if revisions.is_empty() {
        None
    } else {
        Some(string_of(chars_of(revisions).as_slice()))
    }
}

/// The tooltip on a post's date in the earlier layout: `updated` and the
/// date of the last update, when there is one.
pub fn updated_tooltip(updated: &Option<String>) -> (r: Option<String>)
    ensures
        match updated {
            Some(u) => r matches Some(t) && t@ == "updated "@ + u@,
            None => r is None,
        },
{
    match updated {
        Some(u) => {
            let mut out = chars_of("updated ");
            push_all(&mut out, &chars_of(u.as_str()));
            Some(string_of(out.as_slice()))
        },
        None => None,
    }
}

/// `prefix` followed by `value`.
fn prefixed(prefix: &str, value: &str) -> (r: String)
    ensures
        r@ == prefix@ + value@,
{
    let mut out = chars_of(prefix);
    push_all(&mut out, &chars_of(value));
    string_of(out.as_slice())
}

/// The link that lists the posts with a tag.
pub fn tag_link(tag: &str) -> (r: String)
    ensures
        r@ == "/posts?tag="@ + tag@,
{
    prefixed("/posts?tag=", tag)
}

/// The link that lists the posts of a series.
pub fn series_link(slug: &str) -> (r: String)
    ensures
        r@ == "/posts?series="@ + slug@,
{
    prefixed("/posts?series=", slug)
}

/// The link to a post.
pub fn post_link(slug: &str) -> (r: String)
    ensures
        r@ == "/posts/"@ + slug@,
{
    prefixed("/posts/", slug)
}

/// The id of the checkbox that filters by a tag.
pub fn tag_checkbox_id(tag: &str) -> (r: String)
    ensures
        r@ == "checkbox-"@ + tag@,
{
    prefixed("checkbox-", tag)
}

} // verus!
