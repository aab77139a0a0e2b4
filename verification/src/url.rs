//! Decomposition of an `http://` URL into host, port, path and search part.

use vstd::prelude::*;
use crate::error::Error;
use crate::text::{
    after, before, chars_of, find_char, has_char, lemma_first_index, lemma_first_index_is,
    starts_with, string_of,
};

verus! {

/// The only scheme that is supported, with its separator.
pub open spec fn scheme() -> Seq<char> {
    "http://"@
}

/// The port of a URL that names none.
pub open spec fn default_port() -> Seq<char> {
    "80"@
}

/// Whether `url` begins with the supported scheme.
pub open spec fn is_http_url(url: Seq<char>) -> bool {
    scheme().is_prefix_of(url)
}

/// `url` without the scheme that it begins with.
pub open spec fn remainder(url: Seq<char>) -> Seq<char> {
    if is_http_url(url) {
        url.skip(scheme().len() as int)
    } else {
        url
    }
}

/// The part of `url` between the scheme and the first `/` after it.
pub open spec fn authority(url: Seq<char>) -> Seq<char> {
    before(remainder(url), '/')
}

/// The part of `url` after the first `/` that follows the scheme.
pub open spec fn path_and_search(url: Seq<char>) -> Seq<char> {
    after(remainder(url), '/')
}

/// The host: the authority up to its first `:`.
pub open spec fn host_of(url: Seq<char>) -> Seq<char> {
    before(authority(url), ':')
}

/// The port: what follows the first `:` of the authority, or the default
/// port where the authority has no `:`.
pub open spec fn port_of(url: Seq<char>) -> Seq<char> {
    if has_char(authority(url), ':') {
        after(authority(url), ':')
    } else {
        default_port()
    }
}

/// The path: what follows the authority's `/`, up to the first `?`.
pub open spec fn path_of(url: Seq<char>) -> Seq<char> {
    before(path_and_search(url), '?')
}

/// The search part: what follows the first `?` of the path.
pub open spec fn search_of(url: Seq<char>) -> Seq<char> {
    after(path_and_search(url), '?')
}

/// What a `Url` holds, as sequences of characters.
pub struct UrlView {
    pub url: Seq<char>,
    pub host: Seq<char>,
    pub port: Seq<char>,
    pub path: Seq<char>,
    pub searchpart: Seq<char>,
}

/// What parsing makes of the text `url`.
pub open spec fn parsed(url: Seq<char>) -> UrlView {
    UrlView {
        url,
        host: host_of(url),
        port: port_of(url),
        path: path_of(url),
        searchpart: search_of(url),
    }
}

/// What a `Url` holds before it is parsed.
pub open spec fn unparsed(url: Seq<char>) -> UrlView {
    UrlView {
        url,
        host: Seq::empty(),
        port: Seq::empty(),
        path: Seq::empty(),
        searchpart: Seq::empty(),
    }
}

/// The port of a URL with the supported scheme is the default port exactly
/// when its authority has no `:`, unless the default port is written out
/// after the `:`.
pub proof fn lemma_default_port_iff_no_colon(url: Seq<char>)
    requires
        is_http_url(url),
        after(authority(url), ':') != default_port(),
    ensures
        parsed(url).port == default_port() <==> !has_char(authority(url), ':'),
{
}

/// The host holds neither a port suffix nor any of the path: no `:` and no
/// `/` occurs in it.
pub proof fn lemma_host_is_bare(url: Seq<char>)
    ensures
        !host_of(url).contains(':'),
        !host_of(url).contains('/'),
{
    lemma_first_index(remainder(url), '/');
    lemma_first_index(authority(url), ':');
    let host = host_of(url);
    if host.contains(':') {
        let k = choose|k: int| 0 <= k < host.len() && host[k] == ':';
        assert(authority(url)[k] == ':');
    }
    if host.contains('/') {
        let k = choose|k: int| 0 <= k < host.len() && host[k] == '/';
        assert(authority(url)[k] == '/');
        assert(remainder(url)[k] == '/');
    }
}

/// A URL and the parts that `parse` found in it.
#[derive(Debug, PartialEq)]
pub struct Url {
    url: String,
    host: String,
    port: String,
    path: String,
    searchpart: String,
}

impl View for Url {
    type V = UrlView;

    closed spec fn view(&self) -> UrlView {
        UrlView {
            url: self.url@,
            host: self.host@,
            port: self.port@,
            path: self.path@,
            searchpart: self.searchpart@,
        }
    }
}

impl Clone for Url {
    fn clone(&self) -> (copy: Self)
        ensures
            copy == *self,
    {
        Url {
            url: self.url.clone(),
            host: self.host.clone(),
            port: self.port.clone(),
            path: self.path.clone(),
            searchpart: self.searchpart.clone(),
        }
    }
}

/// Where the remainder of `v` begins.
fn remainder_start(v: &Vec<char>) -> (n: usize)
    ensures
        n <= v.len(),
        v@.subrange(n as int, v.len() as int) == remainder(v@),
{
    let prefix = chars_of("http://");
    if starts_with(v, &prefix) {
        prefix.len()
    } else {
        proof {
            assert(v@.subrange(0, v.len() as int) =~= v@);
        }
        0
    }
}

impl Url {
    /// A URL that has not been parsed yet: its parts are empty.
    pub fn new(url: String) -> (u: Self)
        ensures
            u@ == unparsed(url@),
    {
        Self {
            url,
            host: String::new(),
            port: String::new(),
            path: String::new(),
            searchpart: String::new(),
        }
    }

    /// The host that `parse` found.
    pub fn host(&self) -> (s: String)
        ensures
            s@ == self@.host,
    {
        self.host.clone()
    }

    /// The port that `parse` found.
    pub fn port(&self) -> (s: String)
        ensures
            s@ == self@.port,
    {
        self.port.clone()
    }

    /// The path that `parse` found.
    pub fn path(&self) -> (s: String)
        ensures
            s@ == self@.path,
    {
        self.path.clone()
    }

    /// The search part that `parse` found.
    pub fn searchpart(&self) -> (s: String)
        ensures
            s@ == self@.searchpart,
    {
        self.searchpart.clone()
    }

    /// Finds the parts of the URL. A URL that does not begin with `http://`
    /// is refused and left as it was; any other is taken apart, whatever
    /// stands in its host and port.
    pub fn parse(&mut self) -> (r: Result<Self, Error>)
        ensures
            is_http_url(old(self)@.url) ==> r is Ok && r->Ok_0@ == parsed(old(self)@.url)
                && final(self)@ == parsed(old(self)@.url),
            !is_http_url(old(self)@.url) ==> (r matches Err(Error::UnsupportedScheme))
                && final(self)@ == old(self)@,
    {
        if !self.is_http() {
            return Err(Error::UnsupportedScheme);
        }
        self.host = self.extract_host();
        self.port = self.extract_port();
        self.path = self.extract_path();
        self.searchpart = self.extract_searchpart();

        Ok(self.clone())
    }

    fn is_http(&self) -> (b: bool)
        ensures
            b == is_http_url(self@.url),
    {
        let v = chars_of(self.url.as_str());
        let prefix = chars_of("http://");
        starts_with(&v, &prefix)
    }

    fn extract_host(&self) -> (host: String)
        ensures
            host@ == host_of(self@.url),
    {
        let v = chars_of(self.url.as_str());
        let start = remainder_start(&v);
        let slash = find_char(&v, start, v.len(), '/');
        let colon = find_char(&v, start, slash, ':');
        proof {
            assert(v@.subrange(start as int, v.len() as int).take(slash - start)
                =~= v@.subrange(start as int, slash as int));
            assert(v@.subrange(start as int, slash as int).take(colon - start)
                =~= v@.subrange(start as int, colon as int));
        }
        string_of(&v, start, colon)
    }

    fn extract_port(&self) -> (port: String)
        ensures
            port@ == port_of(self@.url),
    {
        let v = chars_of(self.url.as_str());
        let start = remainder_start(&v);
        let slash = find_char(&v, start, v.len(), '/');
        let colon = find_char(&v, start, slash, ':');
        proof {
            assert(v@.subrange(start as int, v.len() as int).take(slash - start)
                =~= v@.subrange(start as int, slash as int));
        }
        if colon < slash {
            proof {
                assert(v@.subrange(start as int, slash as int).skip(colon - start + 1)
                    =~= v@.subrange(colon + 1, slash as int));
            }
            string_of(&v, colon + 1, slash)
        } else {
            "80".to_string()
        }
    }

    fn extract_path(&self) -> (path: String)
        ensures
            path@ == path_of(self@.url),
    {
        let v = chars_of(self.url.as_str());
        let start = remainder_start(&v);
        let slash = find_char(&v, start, v.len(), '/');
        if slash == v.len() {
            proof {
                lemma_first_index_is(Seq::<char>::empty(), '?', 0);
            }
            return String::new();
        }
        let mark = find_char(&v, slash + 1, v.len(), '?');
        proof {
            assert(v@.subrange(start as int, v.len() as int).skip(slash - start + 1)
                =~= v@.subrange(slash + 1, v.len() as int));
            assert(v@.subrange(slash + 1, v.len() as int).take(mark - (slash + 1))
                =~= v@.subrange(slash + 1, mark as int));
        }
        string_of(&v, slash + 1, mark)
    }

    fn extract_searchpart(&self) -> (searchpart: String)
        ensures
            searchpart@ == search_of(self@.url),
    {
        let v = chars_of(self.url.as_str());
        let start = remainder_start(&v);
        let slash = find_char(&v, start, v.len(), '/');
        if slash == v.len() {
            proof {
                lemma_first_index_is(Seq::<char>::empty(), '?', 0);
            }
            return String::new();
        }
        let mark = find_char(&v, slash + 1, v.len(), '?');
        proof {
            assert(v@.subrange(start as int, v.len() as int).skip(slash - start + 1)
                =~= v@.subrange(slash + 1, v.len() as int));
        }
        if mark == v.len() {
            String::new()
        } else {
            proof {
                assert(v@.subrange(slash + 1, v.len() as int).skip(mark - (slash + 1) + 1)
                    =~= v@.subrange(mark + 1, v.len() as int));
            }
            string_of(&v, mark + 1, v.len())
        }
    }
}

} // verus!
