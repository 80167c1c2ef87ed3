//! Addresses, and the percent encoding of header values.

use crate::text::{opt_view, trim, trimmed};
use vstd::prelude::*;
use vstd::utf8::{decode_utf8, encode_utf8, is_ascii_chars, valid_utf8};

verus! {

/// The parts of a URL.
#[derive(Debug, Clone)]
pub struct UrlParts {
    pub scheme: String,
    pub host: Option<String>,
    pub port: Option<u16>,
    pub path: String,
    pub query: Option<String>,
    /// The URL up to its fragment.
    pub base: String,
}

pub struct UrlModel {
    pub scheme: Seq<char>,
    pub host: Option<Seq<char>>,
    pub port: Option<u16>,
    pub path: Seq<char>,
    pub query: Option<Seq<char>>,
    pub base: Seq<char>,
}

impl View for UrlParts {
    type V = UrlModel;

    open spec fn view(&self) -> UrlModel {
        UrlModel {
            scheme: self.scheme@,
            host: opt_view(self.host),
            port: self.port,
            path: self.path@,
            query: opt_view(self.query),
            base: self.base@,
        }
    }
}

/// The parts of the URL that a text writes, where it writes one.
pub uninterp spec fn url_parsed(s: Seq<char>) -> Option<UrlModel>;

/// `url::Url::parse`, with the accessors for the parts: what comes out depends on
/// the text alone, and the path is ASCII. `base` is the normalised URL up to the end
/// of its query. How a URL is normalised is not stated.
#[verifier::external_body]
pub(crate) fn parse_url(s: &str) -> (r: Option<UrlParts>)
    ensures
        match r {
            Some(u) => url_parsed(s@) == Some(u@) && is_ascii_chars(u.path@),
            None => url_parsed(s@) is None,
        },
{
    url::Url::parse(s).ok().map(|u| UrlParts {
        scheme: u.scheme().to_string(),
        host: u.host_str().map(|h| h.to_string()),
        port: u.port(),
        path: u.path().to_string(),
        query: u.query().map(|q| q.to_string()),
        base: u[..url::Position::AfterQuery].to_string(),
    })
}

pub open spec fn hex_value(b: u8) -> Option<u8> {
    if 48 <= b <= 57 {
        Some((b - 48) as u8)
    } else if 65 <= b <= 70 {
        Some((b - 55) as u8)
    } else if 97 <= b <= 102 {
        Some((b - 87) as u8)
    } else {
        None
    }
}

/// The bytes that a percent-encoded text stands for: `%` and two hexadecimal
/// digits stand for a byte, anything else for itself.
pub open spec fn percent_bytes(b: Seq<u8>) -> Seq<u8>
    decreases b.len(),
{
    if b.len() == 0 {
        Seq::empty()
    } else if b.len() >= 3 && b[0] == 37 && hex_value(b[1]) is Some && hex_value(b[2]) is Some {
        seq![(hex_value(b[1])->0 * 16 + hex_value(b[2])->0) as u8] + percent_bytes(b.skip(3))
    } else {
        seq![b[0]] + percent_bytes(b.skip(1))
    }
}

/// The text that a percent-encoded text stands for, where that is UTF-8.
pub open spec fn percent_decoded(s: Seq<char>) -> Option<Seq<char>> {
    let bytes = percent_bytes(encode_utf8(s));
    if valid_utf8(bytes) {
        Some(decode_utf8(bytes))
    } else {
        None
    }
}

/// `urlencoding::decode`: `%` and two hexadecimal digits become a byte, and what
/// comes out must be UTF-8.
#[verifier::external_body]
pub(crate) fn percent_decode(s: &str) -> (r: Option<String>)
    ensures
        opt_view(r) == percent_decoded(s@),
{
    urlencoding::decode(s).ok().map(|c| c.into_owned())
}

/// The domain in its ASCII form that `url::Host::parse` makes of a text, where it makes one.
pub uninterp spec fn host_domain(s: Seq<char>) -> Option<Seq<char>>;

/// `url::Host::parse`: the domain in its ASCII form, where the text is one. Of an address,
/// and of a text that is no host, nothing comes. What comes depends on the text alone; how
/// other letters than those of ASCII are written is not stated.
#[verifier::external_body]
pub(crate) fn parse_host_domain(s: &str) -> (r: Option<String>)
    ensures
        opt_view(r) == host_domain(s@),
{
    match url::Host::parse(s) {
        Ok(url::Host::Domain(d)) => Some(d),
        _ => None,
    }
}

/// The ASCII form of a domain: itself, where it has no other letters; and where it has, and
/// has no such form.
pub open spec fn ascii_domain(s: Seq<char>) -> Seq<char> {
    if is_ascii_chars(s) {
        s
    } else {
        match host_domain(s) {
            Some(d) => d,
            None => s,
        }
    }
}

/// Takes the ASCII form of a domain over.
pub fn with_ascii_form(s: &str, form: Option<String>) -> (r: String)
    ensures
        r@ == if is_ascii_chars(s@) {
            s@
        } else {
            match opt_view(form) {
                Some(d) => d,
                None => s@,
            }
        },
{
    if all_ascii(s) {
        return s.to_owned();
    }
    match form {
        Some(d) => d,
        None => s.to_owned(),
    }
}

fn all_ascii(s: &str) -> (r: bool)
    ensures
        r == is_ascii_chars(s@),
{
    let n: usize = s.unicode_len();
    for i in 0..n
        invariant
            n == s@.len(),
            forall|j: int| 0 <= j < i ==> '\0' <= #[trigger] s@[j] <= '\u{7f}',
    {
        if s.get_char(i) > '\u{7f}' {
            return false;
        }
    }
    true
}

/// The ASCII form of a domain.
pub fn to_ascii_domain(s: &str) -> (r: String)
    ensures
        r@ == ascii_domain(s@),
{
    with_ascii_form(s, parse_host_domain(s))
}

/// What `String::from_utf8_lossy` makes of bytes.
pub uninterp spec fn lossy_text(bytes: Seq<u8>) -> Seq<char>;

/// `String::from_utf8_lossy`: the text of bytes that are UTF-8. What takes the place
/// of other bytes is not stated, but for its depending on the bytes alone.
#[verifier::external_body]
pub(crate) fn text_lossy(bytes: &[u8]) -> (r: String)
    ensures
        r@ == lossy_text(bytes@),
        valid_utf8(bytes@) ==> r@ == decode_utf8(bytes@),
{
    String::from_utf8_lossy(bytes).into_owned()
}

/// The text of a header's value, trimmed; nothing where that leaves nothing.
pub open spec fn header_words(bytes: Seq<u8>) -> Option<Seq<char>> {
    if trimmed(lossy_text(bytes)).len() == 0 {
        None
    } else {
        Some(trimmed(lossy_text(bytes)))
    }
}

/// The text of a header's value.
pub fn header_value_to_string(bytes: &[u8]) -> (r: Option<String>)
    ensures
        opt_view(r) == header_words(bytes@),
{
    let text = text_lossy(bytes);
    let t = trim(text.as_str());
    if t.is_empty() {
        None
    } else {
        Some(t.to_owned())
    }
}

/// The URL under which two subscriptions are the same: without its fragment. The
/// order of the query and the case of the path stay, for they may carry a signature.
pub open spec fn canonical_url(input: Seq<char>) -> Option<Seq<char>> {
    match url_parsed(trimmed(input)) {
        Some(u) if u.scheme == "http"@ || u.scheme == "https"@ => Some(u.base),
        _ => None,
    }
}

/// What is compared of a subscription's URL: the parsed and normalised URL without
/// its fragment; `None` unless it is an `http` or `https` URL.
pub fn canonical_subscription_url(input: &str) -> (r: Option<String>)
    ensures
        opt_view(r) == canonical_url(input@),
{
    canonical_of_parts(parse_url(trim(input)))
}

/// The canonical form of a URL that was taken apart.
pub fn canonical_of_parts(parts: Option<UrlParts>) -> (r: Option<String>)
    ensures
        opt_view(r) == match parts {
            Some(u) if u.scheme@ == "http"@ || u.scheme@ == "https"@ => Some(u.base@),
            _ => None,
        },
{
    match parts {
        Some(u) => {
            if crate::text::same(u.scheme.as_str(), "http") || crate::text::same(
                u.scheme.as_str(),
                "https",
            ) {
                Some(u.base)
            } else {
                None
            }
        },
        None => None,
    }
}

} // verus!
