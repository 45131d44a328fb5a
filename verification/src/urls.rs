//! The library's URL type.
//!
//! A [`Url`] carries the two things the discovery logic reads of a URL:
//! its serialization and its host component. Parsing a string into these
//! parts, and resolving a relative reference against a base, are the work
//! of the `url` crate; each stands behind one trusted wrapper whose result
//! is named by an uninterpreted spec function, since the outcome depends
//! on the input strings alone.

use vstd::prelude::*;

verus! {

/// Mathematical view of a [`Url`]: the serialization and the host.
#[verifier::ext_equal]
pub struct UrlV {
    pub text: Seq<char>,
    pub host: Option<Seq<char>>,
}

/// An absolute URL together with its host component, if it has one.
#[derive(Debug, PartialEq, Eq)]
pub struct Url {
    text: String,
    host: Option<String>,
}

impl Clone for Url {
    fn clone(&self) -> (res: Url)
        ensures
            res@ == self@,
    {
        let res = Url {
            text: self.text.clone(),
            host: match &self.host {
                Some(h) => Some(h.clone()),
                None => None,
            },
        };
        proof {
            assert(res@ =~= self@);
        }
        res
    }
}

impl View for Url {
    type V = UrlV;

    closed spec fn view(&self) -> UrlV {
        UrlV {
            text: self.text@,
            host: match self.host {
                Some(h) => Some(h@),
                None => None,
            },
        }
    }
}

impl DeepView for Url {
    type V = UrlV;

    open spec fn deep_view(&self) -> UrlV {
        self.view()
    }
}

/// What `url::Url::parse` makes of a string: the parsed URL's
/// serialization and host when the string is an absolute URL, `None`
/// otherwise.
pub uninterp spec fn parse_of(s: Seq<char>) -> Option<UrlV>;

/// What resolving `rel` against the absolute URL serialized as `base`
/// yields: the joined URL's serialization and host, or `None` when the
/// two do not combine into a URL.
pub uninterp spec fn join_of(base: Seq<char>, rel: Seq<char>) -> Option<UrlV>;

/// Relies on `url::Url::parse`, `url::Url::as_str` and
/// `url::Url::host_str`: whether a string parses as an absolute URL, and
/// the serialization and host of the result, depend on the string alone.
#[verifier::external_body]
fn parse_raw(s: &str) -> (r: Option<Url>)
    ensures
        match parse_of(s@) {
            Some(v) => r matches Some(u) && u@ == v,
            None => r is None,
        },
{
    match url::Url::parse(s) {
        Ok(u) => {
            let text = u.as_str().to_string();
            let host = match u.host_str() {
                Some(h) => Some(h.to_string()),
                None => None,
            };
            Some(Url { text, host })
        },
        Err(_) => None,
    }
}

/// Relies on `url::Url::parse` and `url::Url::join`: re-parses the base
/// serialization and resolves `rel` against it by standard URL-join
/// semantics; the outcome depends on the two strings alone.
#[verifier::external_body]
fn join_raw(base: &str, rel: &str) -> (r: Option<Url>)
    ensures
        match join_of(base@, rel@) {
            Some(v) => r matches Some(u) && u@ == v,
            None => r is None,
        },
{
    let b = match url::Url::parse(base) {
        Ok(b) => b,
        Err(_) => return None,
    };
    match b.join(rel) {
        Ok(u) => {
            let text = u.as_str().to_string();
            let host = match u.host_str() {
                Some(h) => Some(h.to_string()),
                None => None,
            };
            Some(Url { text, host })
        },
        Err(_) => None,
    }
}

/// Prefixes a host with the scheme that canonical result URLs carry.
pub fn https(url: String) -> (r: String)
    ensures
        r@ == "https://"@ + url@,
{
    String::from_str("https://").concat(url.as_str())
}

/// The canonical URL view that stands for a bare host: `https://` and the
/// host, with the host as its host component.
pub open spec fn canon_v(h: Seq<char>) -> UrlV {
    UrlV { text: "https://"@ + h, host: Some(h) }
}

/// Parses the seed domain argument: as the text stands, or, when that
/// fails, with `https://` prefixed.
pub fn parse_seed(s: &str) -> (r: Option<Url>)
    ensures
        match parse_of(s@) {
            Some(v) => r matches Some(u) && u@ == v,
            None => match parse_of("https://"@ + s@) {
                Some(v) => r matches Some(u) && u@ == v,
                None => r is None,
            },
        },
{
    match Url::parse(s) {
        Some(u) => Some(u),
        None => {
            let withs = https(String::from_str(s));
            Url::parse(withs.as_str())
        },
    }
}

impl Url {
    /// Parses an absolute URL; `None` when the string is not one.
    pub fn parse(s: &str) -> (r: Option<Url>)
        ensures
            match parse_of(s@) {
                Some(v) => r matches Some(u) && u@ == v,
                None => r is None,
            },
    {
        parse_raw(s)
    }

    /// Resolves a (possibly relative) reference against this URL.
    pub fn join(&self, rel: &str) -> (r: Option<Url>)
        ensures
            match join_of(self@.text, rel@) {
                Some(v) => r matches Some(u) && u@ == v,
                None => r is None,
            },
    {
        join_raw(self.text.as_str(), rel)
    }

    /// The canonical URL for a bare host: `https://` followed by the host.
    pub fn from_host(h: &str) -> (r: Url)
        ensures
            r@ == canon_v(h@),
    {
        let r = Url { text: https(String::from_str(h)), host: Some(String::from_str(h)) };
        proof {
            assert(r@ =~= canon_v(h@));
        }
        r
    }

    /// The serialization of this URL.
    pub fn as_str(&self) -> (r: &str)
        ensures
            r@ == self@.text,
    {
        self.text.as_str()
    }

    /// The host component, if the URL has one.
    pub fn host_str(&self) -> (r: Option<&String>)
        ensures
            match r {
                Some(h) => self@.host matches Some(hv) && h@ == hv,
                None => self@.host is None,
            },
    {
        match &self.host {
            Some(h) => Some(h),
            None => None,
        }
    }

    /// Whether this URL and `other` have the same serialization.
    pub fn same_text(&self, other: &Url) -> (r: bool)
        ensures
            r == (self@.text == other@.text),
    {
        self.text.eq(&other.text)
    }

    /// Whether the URL has a host component.
    pub fn has_host(&self) -> (r: bool)
        ensures
            r == (self@.host is Some),
    {
        match &self.host {
            Some(_) => true,
            None => false,
        }
    }
}

} // verus!
