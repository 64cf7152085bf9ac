//! Request targets.  The target of a request line must be a syntactically
//! well-formed URI reference; that validation, and the splitting into
//! components, is delegated to the `http` crate's URI parser.  The parse
//! is a pure function of the target bytes, so its outcome and its
//! components are named by uninterpreted spec functions, and the rest of
//! the library is verified against those names.

use vstd::prelude::*;

verus! {

/// Whether `http::Uri::from_shared` accepts `s` as a URI reference.
pub uninterp spec fn uri_ok(s: Seq<u8>) -> bool;

/// The scheme component of the URI parsed from `s`, if any.
pub uninterp spec fn uri_scheme(s: Seq<u8>) -> Option<Seq<u8>>;

/// The host component of the URI parsed from `s`, if any.
pub uninterp spec fn uri_host(s: Seq<u8>) -> Option<Seq<u8>>;

/// The port component of the URI parsed from `s`, if any.
pub uninterp spec fn uri_port(s: Seq<u8>) -> Option<u16>;

/// The path component of the URI parsed from `s`.
pub uninterp spec fn uri_path(s: Seq<u8>) -> Seq<u8>;

/// The query component of the URI parsed from `s`, if any.
pub uninterp spec fn uri_query(s: Seq<u8>) -> Option<Seq<u8>>;

/// The mathematical shape of a parsed request target: the raw bytes and
/// the components the URI parser extracted from them.
#[verifier::ext_equal]
pub ghost struct UriView {
    pub raw: Seq<u8>,
    pub scheme: Option<Seq<u8>>,
    pub host: Option<Seq<u8>>,
    pub port: Option<u16>,
    pub path: Seq<u8>,
    pub query: Option<Seq<u8>>,
}

/// The components of `s` as the URI parser reads them.
pub open spec fn uri_view_of(s: Seq<u8>) -> UriView {
    UriView {
        raw: s,
        scheme: uri_scheme(s),
        host: uri_host(s),
        port: uri_port(s),
        path: uri_path(s),
        query: uri_query(s),
    }
}

/// A validated request target.  Holds the raw target bytes together with
/// the components of the one parse that accepted them, as plain values.
#[derive(Debug)]
pub struct Uri {
    bytes: Vec<u8>,
    scheme: Option<Vec<u8>>,
    host: Option<Vec<u8>>,
    port: Option<u16>,
    path: Vec<u8>,
    query: Option<Vec<u8>>,
}

impl View for Uri {
    type V = UriView;

    closed spec fn view(&self) -> UriView {
        UriView {
            raw: self.bytes@,
            scheme: self.scheme.deep_view(),
            host: self.host.deep_view(),
            port: self.port,
            path: self.path@,
            query: self.query.deep_view(),
        }
    }
}

/// Relies on `http::Uri::from_shared` (http 0.1) and the component
/// accessors `scheme_str`, `host`, `port_u16`, `path` and `query` of
/// `http::Uri`: `from_shared` returns `Ok` exactly for the byte strings
/// that form a syntactically well-formed URI reference, and the accessors
/// hand back the components of that parse.  The parse depends on the
/// input bytes alone; its outcome and components carry the names
/// `uri_ok`, `uri_scheme`, `uri_host`, `uri_port`, `uri_path`,
/// `uri_query`.
#[verifier::external_body]
pub(crate) fn uri_from_bytes(b: &[u8]) -> (r: Option<Uri>)
    ensures
        r is Some <==> uri_ok(b@),
        r matches Some(u) ==> u@.raw == b@ && u@.scheme == uri_scheme(b@) && u@.host == uri_host(
            b@,
        ) && u@.port == uri_port(b@) && u@.path == uri_path(b@) && u@.query == uri_query(b@),
{
    match http::Uri::from_shared(bytes::Bytes::from(b.to_vec())) {
        Ok(u) => Some(Uri {
            bytes: b.to_vec(),
            scheme: u.scheme_str().map(|s| s.as_bytes().to_vec()),
            host: u.host().map(|s| s.as_bytes().to_vec()),
            port: u.port_u16(),
            path: u.path().as_bytes().to_vec(),
            query: u.query().map(|s| s.as_bytes().to_vec()),
        }),
        Err(_) => None,
    }
}

impl Uri {
    /// The raw target bytes this URI was parsed from.
    pub fn as_bytes(&self) -> (r: &Vec<u8>)
        ensures
            r@ == self@.raw,
    {
        &self.bytes
    }

    /// The scheme component, if any.
    pub fn scheme(&self) -> (r: Option<&Vec<u8>>)
        ensures
            match r {
                Some(v) => self@.scheme == Some(v@),
                None => self@.scheme is None,
            },
    {
        self.scheme.as_ref()
    }

    /// The host component, if any.
    pub fn host(&self) -> (r: Option<&Vec<u8>>)
        ensures
            match r {
                Some(v) => self@.host == Some(v@),
                None => self@.host is None,
            },
    {
        self.host.as_ref()
    }

    /// The port component, if any.
    pub fn port(&self) -> (r: Option<u16>)
        ensures
            r == self@.port,
    {
        self.port
    }

    /// The path component.
    pub fn path(&self) -> (r: &Vec<u8>)
        ensures
            r@ == self@.path,
    {
        &self.path
    }

    /// The query component, if any.
    pub fn query(&self) -> (r: Option<&Vec<u8>>)
        ensures
            match r {
                Some(v) => self@.query == Some(v@),
                None => self@.query is None,
            },
    {
        self.query.as_ref()
    }
}

} // verus!
