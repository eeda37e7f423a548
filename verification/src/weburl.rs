//! URLs.
use vstd::prelude::*;

use crate::text::joined;

verus! {

/// What a URL is: the text it was read from and the parts it was read into.
#[verifier::ext_equal]
pub struct UrlView {
    /// The text it was read from.
    pub source: Seq<char>,
    /// The URL as it is written out.
    pub text: Seq<char>,
    /// The part before the first colon.
    pub scheme: Seq<char>,
    /// The host as it stands in the text.
    pub host: Option<Seq<char>>,
    /// The host where it is a name, not an address.
    pub domain: Option<Seq<char>>,
    /// The port, or the scheme's own where none is written.
    pub port: Option<u16>,
    /// The path.
    pub path: Seq<char>,
    /// What follows the `#`.
    pub fragment: Option<Seq<char>>,
    /// Whether there is a `?`.
    pub has_query: bool,
    /// Whether the scheme is followed by something else than a path from a root.
    pub opaque: bool,
    /// The origin in Unicode, `null` where it is opaque.
    pub origin: Seq<char>,
}

/// The parts that a URL is read into.
#[derive(Debug)]
struct UrlParts {
    source: String,
    text: String,
    scheme: String,
    host: Option<String>,
    domain: Option<String>,
    port: Option<u16>,
    path: String,
    fragment: Option<String>,
    has_query: bool,
    opaque: bool,
    origin: String,
}

/// A text that may be missing.
pub open spec fn maybe_text(s: Option<String>) -> Option<Seq<char>> {
    match s {
        Some(t) => Some(t@),
        None => None,
    }
}

impl View for UrlParts {
    type V = UrlView;

    closed spec fn view(&self) -> UrlView {
        UrlView {
            source: self.source@,
            text: self.text@,
            scheme: self.scheme@,
            host: maybe_text(self.host),
            domain: maybe_text(self.domain),
            port: self.port,
            path: self.path@,
            fragment: maybe_text(self.fragment),
            has_query: self.has_query,
            opaque: self.opaque,
            origin: self.origin@,
        }
    }
}

/// What `Url::parse` reads out of a text: a URL, or the words of the error.
pub uninterp spec fn parsed_url(source: Seq<char>) -> Result<UrlView, Seq<char>>;

/// A text without the first `#` and what follows it.
pub open spec fn before_hash(s: Seq<char>) -> Seq<char>
    decreases s.len(),
{
    if s.len() == 0 || s[0] == '#' {
        Seq::empty()
    } else {
        seq![s[0]] + before_hash(s.drop_first())
    }
}

/// A text without the spaces at its end.
pub open spec fn without_end_spaces(s: Seq<char>) -> Seq<char>
    decreases s.len(),
{
    if s.len() > 0 && s.last() == ' ' {
        without_end_spaces(s.drop_last())
    } else {
        s
    }
}

/// How a URL is written out once its fragment is taken away.
pub open spec fn without_fragment(url: UrlView) -> Seq<char> {
    if url.opaque && !url.has_query {
        without_end_spaces(before_hash(url.text))
    } else {
        before_hash(url.text)
    }
}

/// `Url::parse`, and the accessors that say what was read. A `#` stands in the text
/// only where there is a fragment.
#[verifier::external_body]
fn read_url(source: &str) -> (r: Result<UrlParts, String>)
    ensures
        r is Ok == parsed_url(source@) is Ok,
        r is Ok ==> parsed_url(source@)->Ok_0 == r->Ok_0@,
        r is Ok ==> r->Ok_0.source@ == source@,
        r is Ok ==> r->Ok_0.text@.contains('#') == (r->Ok_0.fragment is Some),
        r is Err ==> parsed_url(source@)->Err_0 == r->Err_0@,
{
    let u = url::Url::parse(source).map_err(|e| e.to_string())?;
    Ok(UrlParts {
        source: source.to_string(),
        text: u.as_str().to_string(),
        scheme: u.scheme().to_string(),
        host: u.host_str().map(str::to_string),
        domain: u.domain().map(str::to_string),
        port: u.port_or_known_default(),
        path: u.path().to_string(),
        fragment: u.fragment().map(str::to_string),
        has_query: u.query().is_some(),
        opaque: u.cannot_be_a_base(),
        origin: u.origin().unicode_serialization(),
    })
}

/// `Url::set_fragment` with nothing to set: the `#` and what follows it go; where the
/// path is opaque and no query follows it, so do the spaces that then stand at the end.
#[verifier::external_body]
fn cut_fragment(source: &str) -> (r: String)
    requires
        parsed_url(source@) is Ok,
        parsed_url(source@)->Ok_0.fragment is Some,
    ensures
        r@ == without_fragment(parsed_url(source@)->Ok_0),
{
    let mut u = url::Url::parse(source).unwrap();
    u.set_fragment(None);
    u.as_str().to_string()
}

/// A URL.
#[derive(Debug)]
pub struct WebUrl {
    parts: UrlParts,
}

impl View for WebUrl {
    type V = UrlView;

    closed spec fn view(&self) -> UrlView {
        self.parts@
    }
}

/// A copy of a text that may be missing.
fn copy_maybe(s: &Option<String>) -> (r: Option<String>)
    ensures
        r == *s,
{
    match s {
        Some(t) => Some(t.clone()),
        None => None,
    }
}

/// A text that is cut before its first `#` holds none, and is a beginning of the text.
pub proof fn before_hash_has_none(s: Seq<char>)
    ensures
        !before_hash(s).contains('#'),
        before_hash(s).is_prefix_of(s),
    decreases s.len(),
{
    if s.len() > 0 && s[0] != '#' {
        before_hash_has_none(s.drop_first());
        let rest = before_hash(s.drop_first());
        assert forall|i: int| 0 <= i < before_hash(s).len() implies before_hash(s)[i] != '#'
            && before_hash(s)[i] == s[i] by {
            if i > 0 {
                assert(before_hash(s)[i] == rest[i - 1]);
                assert(rest.contains(rest[i - 1]));
                assert(s.drop_first()[i - 1] == s[i]);
            }
        }
    }
}

/// Taking the spaces at the end away leaves a beginning of the text.
pub proof fn without_end_spaces_is_prefix(s: Seq<char>)
    ensures
        without_end_spaces(s).is_prefix_of(s),
    decreases s.len(),
{
    if s.len() > 0 && s.last() == ' ' {
        without_end_spaces_is_prefix(s.drop_last());
    }
}

/// A URL whose fragment was taken away has no `#` and is otherwise written as before.
pub proof fn without_fragment_has_none(url: UrlView)
    ensures
        !without_fragment(url).contains('#'),
        without_fragment(url).is_prefix_of(url.text),
{
    let cut = before_hash(url.text);
    before_hash_has_none(url.text);
    without_end_spaces_is_prefix(cut);
    let end = without_fragment(url);
    assert forall|i: int| 0 <= i < end.len() implies end[i] != '#' by {
        assert(end[i] == cut[i]);
        assert(cut.contains(cut[i]));
    }
}

impl WebUrl {
    #[verifier::type_invariant]
    spec fn was_read(self) -> bool {
        &&& parsed_url(self.parts.source@) is Ok
        &&& parsed_url(self.parts.source@)->Ok_0 == self.parts@
        &&& self.parts.text@.contains('#') == (self.parts.fragment is Some)
    }

    /// Reads a URL, or says in words why the text is none.
    pub fn parse(source: &str) -> (r: Result<WebUrl, String>)
        ensures
            r is Ok == parsed_url(source@) is Ok,
            r is Ok ==> parsed_url(source@)->Ok_0 == r->Ok_0@ && r->Ok_0@.source == source@,
            r is Err ==> parsed_url(source@)->Err_0 == r->Err_0@,
    {
        match read_url(source) {
            Ok(parts) => Ok(WebUrl { parts }),
            Err(e) => Err(e),
        }
    }

    /// The same URL again.
    pub fn copy(&self) -> (r: WebUrl)
        ensures
            r == *self,
    {
        proof {
            use_type_invariant(self);
        }
        let p = &self.parts;
        let parts = UrlParts {
            source: p.source.clone(),
            text: p.text.clone(),
            scheme: p.scheme.clone(),
            host: copy_maybe(&p.host),
            domain: copy_maybe(&p.domain),
            port: p.port,
            path: p.path.clone(),
            fragment: copy_maybe(&p.fragment),
            has_query: p.has_query,
            opaque: p.opaque,
            origin: p.origin.clone(),
        };
        WebUrl { parts }
    }

    /// The text that the URL was read from; reading it again gives the same URL.
    pub fn source(&self) -> (r: &str)
        ensures
            r@ == self@.source,
            parsed_url(r@) is Ok,
            parsed_url(r@)->Ok_0 == self@,
    {
        proof {
            use_type_invariant(self);
        }
        self.parts.source.as_str()
    }

    /// The URL as it is written out.
    pub fn as_str(&self) -> (r: &str)
        ensures
            r@ == self@.text,
    {
        self.parts.text.as_str()
    }

    /// The scheme.
    pub fn scheme(&self) -> (r: &str)
        ensures
            r@ == self@.scheme,
    {
        self.parts.scheme.as_str()
    }

    /// The host, empty where there is none.
    pub fn host_or_empty(&self) -> (r: String)
        ensures
            r@ == host_or_empty(self@),
    {
        match &self.parts.host {
            Some(h) => h.clone(),
            None => String::new(),
        }
    }

    /// The host where it is a name.
    pub fn domain(&self) -> (r: Option<String>)
        ensures
            maybe_text(r) == self@.domain,
    {
        copy_maybe(&self.parts.domain)
    }

    /// The port, or the scheme's own where none is written.
    pub fn port(&self) -> (r: Option<u16>)
        ensures
            r == self@.port,
    {
        self.parts.port
    }

    /// Whether the URL has a fragment.
    pub fn has_fragment(&self) -> (r: bool)
        ensures
            r == (self@.fragment is Some),
            r == self@.text.contains('#'),
    {
        proof {
            use_type_invariant(self);
        }
        match &self.parts.fragment {
            Some(_) => true,
            None => false,
        }
    }

    /// The URL as it is written out without its fragment.
    pub fn text_without_fragment(&self) -> (r: String)
        requires
            self@.fragment is Some,
        ensures
            r@ == without_fragment(self@),
    {
        proof {
            use_type_invariant(self);
        }
        cut_fragment(self.parts.source.as_str())
    }

    /// The origin in Unicode, `null` where it is opaque.
    pub fn origin(&self) -> (r: &str)
        ensures
            r@ == self@.origin,
    {
        self.parts.origin.as_str()
    }
}

/// A URL's host, empty where there is none.
pub open spec fn host_or_empty(url: UrlView) -> Seq<char> {
    match url.host {
        Some(h) => h,
        None => Seq::empty(),
    }
}

/// A URL's scheme and host, as `scheme://host`.
pub open spec fn site(url: UrlView) -> Seq<char> {
    url.scheme + "://"@ + host_or_empty(url)
}

/// A URL's scheme and host, as `scheme://host`.
pub fn site_of(url: &WebUrl) -> (r: String)
    ensures
        r@ == site(url@),
{
    let head = joined(url.scheme(), "://");
    let host = url.host_or_empty();
    joined(head.as_str(), host.as_str())
}

} // verus!
