use vstd::prelude::*;

verus! {

/// The method of an HTTP request.
pub enum Method {
    Options,
    Get,
    Post,
    Put,
    Delete,
    Head,
    Trace,
    Connect,
    Patch,
    Extension(String),
}

impl Method {
    /// Whether two methods are the same; extension methods compare by name.
    pub open spec fn same_as(&self, other: &Method) -> bool {
        match (self, other) {
            (Method::Options, Method::Options) => true,
            (Method::Get, Method::Get) => true,
            (Method::Post, Method::Post) => true,
            (Method::Put, Method::Put) => true,
            (Method::Delete, Method::Delete) => true,
            (Method::Head, Method::Head) => true,
            (Method::Trace, Method::Trace) => true,
            (Method::Connect, Method::Connect) => true,
            (Method::Patch, Method::Patch) => true,
            (Method::Extension(a), Method::Extension(b)) => a@ == b@,
            _ => false,
        }
    }

    pub fn is_same(&self, other: &Method) -> (r: bool)
        ensures
            r == self.same_as(other),
    {
        match (self, other) {
            (Method::Options, Method::Options) => true,
            (Method::Get, Method::Get) => true,
            (Method::Post, Method::Post) => true,
            (Method::Put, Method::Put) => true,
            (Method::Delete, Method::Delete) => true,
            (Method::Head, Method::Head) => true,
            (Method::Trace, Method::Trace) => true,
            (Method::Connect, Method::Connect) => true,
            (Method::Patch, Method::Patch) => true,
            (Method::Extension(a), Method::Extension(b)) => a.eq(b),
            _ => false,
        }
    }
}

/// The protocol version of an HTTP request.
#[derive(Clone, Copy, PartialEq, Eq, Structural, Debug)]
pub enum HttpVersion {
    Http09,
    Http10,
    Http11,
    H2,
    H2c,
}

/// The path of `uri`, when it parses as an absolute URL.
pub uninterp spec fn url_path(uri: Seq<char>) -> Option<Seq<char>>;

/// Relies on `url::Url::parse`, then `url::Url::path` of the parsed URL: the
/// path component of `uri`, or `None` where `uri` does not parse.
#[verifier::external_body]
fn parse_url_path(uri: &str) -> (r: Option<String>)
    ensures
        match r {
            Some(p) => url_path(uri@) == Some(p@),
            None => url_path(uri@) is None,
        },
{
    url::Url::parse(uri).ok().map(|u| u.path().to_string())
}

/// The error of a request whose URL does not parse.
#[derive(Clone, Copy, PartialEq, Eq, Structural, Debug)]
pub struct InvalidUrl;

/// An HTTP request: method, URL, headers and a body that can be taken once.
pub struct Request {
    pub method: Method,
    pub http_version: HttpVersion,
    pub url: String,
    pub headers: Vec<(String, String)>,
    pub path: String,
    pub body: Option<Vec<u8>>,
}

impl Request {
    /// A request is well formed when its path is the path of its URL.
    pub open spec fn wf(&self) -> bool {
        url_path(self.url@) == Some(self.path@)
    }

    /// The body, while it has not been taken.
    pub open spec fn body_view(&self) -> Option<Seq<u8>> {
        match self.body {
            Some(b) => Some(b@),
            None => None,
        }
    }

    /// Builds a request from its parts; fails where `url` does not parse.
    pub fn new(
        method: Method,
        url: String,
        http_version: HttpVersion,
        headers: Vec<(String, String)>,
        body: Vec<u8>,
    ) -> (r: Result<Request, InvalidUrl>)
        ensures
            r is Ok <==> url_path(url@) is Some,
            r matches Ok(req) ==> {
                &&& req.wf()
                &&& req.method == method
                &&& req.http_version == http_version
                &&& req.url == url
                &&& req.headers == headers
                &&& Some(req.path@) == url_path(url@)
                &&& req.body_view() == Some(body@)
            },
    {
        match parse_url_path(url.as_str()) {
            Some(path) => Ok(Request { method, http_version, url, headers, path, body: Some(body) }),
            None => Err(InvalidUrl),
        }
    }

    /// Returns the path of the request URL.
    pub fn path(&self) -> (r: &str)
        ensures
            r@ == self.path@,
            self.wf() ==> url_path(self.url@) == Some(r@),
    {
        self.path.as_str()
    }

    /// Takes the body out of the request, leaving `None` in its place; `None`
    /// once it has been taken.
    pub fn take_body(&mut self) -> (r: Option<Vec<u8>>)
        ensures
            r == old(self).body,
            match r {
                Some(b) => old(self).body_view() == Some(b@),
                None => old(self).body_view() is None,
            },
            final(self).body_view() is None,
            final(self).method == old(self).method,
            final(self).http_version == old(self).http_version,
            final(self).url == old(self).url,
            final(self).headers == old(self).headers,
            final(self).path == old(self).path,
    {
        self.body.take()
    }
}

} // verus!
