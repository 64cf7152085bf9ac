//! The request line: exactly `method SP request-target SP HTTP-version`,
//! anchored, with single spaces and no other whitespace anywhere.  The
//! method must match the `token` grammar, the target must be a
//! syntactically well-formed URI reference, and the version must be one
//! of the recognized literals `HTTP/1.0` and `HTTP/1.1`.  Other versions
//! (HTTP/0.9, HTTP/2.0) are surfaced as a distinct `Version` error, never
//! silently accepted.

use vstd::prelude::*;
use vstd::slice::slice_to_vec;
use crate::grammar::check_token;
use crate::grammar::find_byte;
use crate::grammar::find_from;
use crate::grammar::is_token;
use crate::uri::Uri;
use crate::uri::UriView;
use crate::uri::uri_from_bytes;
use crate::uri::uri_ok;
use crate::uri::uri_view_of;

verus! {

/// A validated request method: a `token`.
#[derive(Debug)]
pub struct Method {
    bytes: Vec<u8>,
}

impl View for Method {
    type V = Seq<u8>;

    closed spec fn view(&self) -> Seq<u8> {
        self.bytes@
    }
}

impl Method {
    pub open spec fn wf(&self) -> bool {
        is_token(self@)
    }

    /// The method bytes, exactly as they stood on the request line.
    pub fn as_bytes(&self) -> (r: &Vec<u8>)
        ensures
            r@ == self@,
    {
        &self.bytes
    }
}

/// A recognized protocol version.
#[derive(Clone, Copy, Debug, PartialEq, Eq, Structural)]
pub enum Version {
    Http10,
    Http11,
}

/// The literal wire form of a recognized version.
pub open spec fn version_bytes(v: Version) -> Seq<u8> {
    match v {
        Version::Http10 => seq![0x48u8, 0x54, 0x54, 0x50, 0x2f, 0x31, 0x2e, 0x30],
        Version::Http11 => seq![0x48u8, 0x54, 0x54, 0x50, 0x2f, 0x31, 0x2e, 0x31],
    }
}

/// Which recognized version literal `s` is, if any.
pub open spec fn version_of(s: Seq<u8>) -> Option<Version> {
    if s == version_bytes(Version::Http10) {
        Some(Version::Http10)
    } else if s == version_bytes(Version::Http11) {
        Some(Version::Http11)
    } else {
        None
    }
}

impl Version {
    /// The wire form of this version, e.g. `HTTP/1.1`.
    pub fn to_bytes(&self) -> (r: Vec<u8>)
        ensures
            r@ == version_bytes(*self),
    {
        let mut out: Vec<u8> = Vec::new();
        out.push(0x48);
        out.push(0x54);
        out.push(0x54);
        out.push(0x50);
        out.push(0x2f);
        out.push(0x31);
        out.push(0x2e);
        match self {
            Version::Http10 => out.push(0x30),
            Version::Http11 => out.push(0x31),
        }
        proof {
            assert(out@ =~= version_bytes(*self));
        }
        out
    }
}

/// Why a request line was rejected: the line shape, or one of the three
/// sub-tokens.
#[derive(Clone, Copy, Debug, PartialEq, Eq, Structural)]
pub enum InvalidRequestLine {
    Format,
    Method,
    Uri,
    Version,
}

/// A byte the request-line shape treats as whitespace.
pub open spec fn is_ws_byte(b: u8) -> bool {
    b == 0x09 || b == 0x0a || b == 0x0b || b == 0x0c || b == 0x0d || b == 0x20
}

/// How a request line divides, if it has the shape
/// `non-ws-run SP non-ws-run SP non-ws-run`: exactly two spaces, no other
/// whitespace bytes, and three non-empty parts.
pub open spec fn req_line_split(s: Seq<u8>) -> Option<(Seq<u8>, Seq<u8>, Seq<u8>)> {
    let i = find_from(s, 0x20, 0);
    let j = find_from(s, 0x20, i + 1);
    if i < s.len() && j < s.len() && find_from(s, 0x20, j + 1) == s.len() && 0 < i && i + 1 < j && j
        + 1 < s.len() && (forall|k: int| 0 <= k < s.len() ==> s[k] == 0x20 || !is_ws_byte(s[k])) {
        Some((s.subrange(0, i), s.subrange(i + 1, j), s.subrange(j + 1, s.len() as int)))
    } else {
        None
    }
}

/// What `parse_request_line` returns on each input: the method bytes, the
/// parsed target, and the version, or the error of the first sub-grammar
/// that fails (shape, then method, then target, then version).
pub open spec fn spec_parse_request_line(s: Seq<u8>) -> Result<
    (Seq<u8>, UriView, Version),
    InvalidRequestLine,
> {
    match req_line_split(s) {
        None => Err(InvalidRequestLine::Format),
        Some((m, t, v)) => if !is_token(m) {
            Err(InvalidRequestLine::Method)
        } else if !uri_ok(t) {
            Err(InvalidRequestLine::Uri)
        } else {
            match version_of(v) {
                None => Err(InvalidRequestLine::Version),
                Some(ver) => Ok((m, uri_view_of(t), ver)),
            }
        },
    }
}

/// Any line built as `method SP target SP version` from three non-empty
/// whitespace-free parts splits back into exactly those parts.
pub proof fn lemma_request_line_round_trip(m: Seq<u8>, t: Seq<u8>, v: Seq<u8>)
    requires
        m.len() > 0,
        t.len() > 0,
        v.len() > 0,
        forall|i: int| 0 <= i < m.len() ==> !is_ws_byte(m[i]),
        forall|i: int| 0 <= i < t.len() ==> !is_ws_byte(t[i]),
        forall|i: int| 0 <= i < v.len() ==> !is_ws_byte(v[i]),
    ensures
        req_line_split(m + seq![0x20u8] + t + seq![0x20u8] + v) == Some((m, t, v)),
{
    let s = m + seq![0x20u8] + t + seq![0x20u8] + v;
    let lm = m.len() as int;
    let lt = t.len() as int;
    let i = lm;
    let j = lm + 1 + lt;
    assert forall|k: int| 0 <= k < s.len() implies s[k] == (if k < lm {
        m[k]
    } else if k == lm {
        0x20u8
    } else if k < j {
        t[k - lm - 1]
    } else if k == j {
        0x20u8
    } else {
        v[k - j - 1]
    }) by {}
    crate::grammar::lemma_find_from_is(s, 0x20, 0, i);
    crate::grammar::lemma_find_from_is(s, 0x20, i + 1, j);
    crate::grammar::lemma_find_from_is(s, 0x20, j + 1, s.len() as int);
    assert(s.subrange(0, i) =~= m);
    assert(s.subrange(i + 1, j) =~= t);
    assert(s.subrange(j + 1, s.len() as int) =~= v);
}

/// For every valid request line — a `token` method, a whitespace-free
/// target the URI grammar accepts, and a recognized version literal,
/// joined by single spaces — the parse returns exactly those three
/// decoded parts.
pub proof fn lemma_request_line_accepts(m: Seq<u8>, t: Seq<u8>, v: Seq<u8>)
    requires
        is_token(m),
        t.len() > 0,
        forall|i: int| 0 <= i < t.len() ==> !is_ws_byte(t[i]),
        uri_ok(t),
        version_of(v) is Some,
    ensures
        spec_parse_request_line(m + seq![0x20u8] + t + seq![0x20u8] + v) == Ok::<
            (Seq<u8>, UriView, Version),
            InvalidRequestLine,
        >((m, uri_view_of(t), version_of(v)->Some_0)),
{
    assert forall|i: int| 0 <= i < m.len() implies !is_ws_byte(m[i]) by {
        assert(crate::grammar::is_tchar(m[i]));
    }
    assert forall|i: int| 0 <= i < v.len() implies !is_ws_byte(v[i]) by {
        assert(v == version_bytes(version_of(v)->Some_0));
    }
    lemma_request_line_round_trip(m, t, v);
}

/// Decides `version_of`.
fn version_from(s: &[u8]) -> (r: Option<Version>)
    ensures
        r == version_of(s@),
{
    if s.len() != 8 {
        return None;
    }
    if s[0] == 0x48 && s[1] == 0x54 && s[2] == 0x54 && s[3] == 0x50 && s[4] == 0x2f && s[5] == 0x31
        && s[6] == 0x2e {
        if s[7] == 0x30 {
            proof {
                assert(s@ =~= version_bytes(Version::Http10));
            }
            return Some(Version::Http10);
        }
        if s[7] == 0x31 {
            proof {
                assert(s@ =~= version_bytes(Version::Http11));
            }
            return Some(Version::Http11);
        }
    }
    None
}

/// Splits and validates a request line (without its CRLF) into method,
/// target and version, as `spec_parse_request_line` describes.
pub fn parse_request_line(s: &[u8]) -> (r: Result<(Method, Uri, Version), InvalidRequestLine>)
    ensures
        match (r, spec_parse_request_line(s@)) {
            (Ok((m, u, v)), Ok((ms, us, vs))) => m@ == ms && m.wf() && u@ == us && v == vs,
            (Err(e), Err(es)) => e == es,
            _ => false,
        },
{
    let i = find_byte(s, 0x20, 0);
    if i == s.len() {
        return Err(InvalidRequestLine::Format);
    }
    let j = find_byte(s, 0x20, i + 1);
    if j == s.len() {
        return Err(InvalidRequestLine::Format);
    }
    let k = find_byte(s, 0x20, j + 1);
    if k != s.len() {
        return Err(InvalidRequestLine::Format);
    }
    if !(0 < i && i + 1 < j && j + 1 < s.len()) {
        return Err(InvalidRequestLine::Format);
    }
    let mut t: usize = 0;
    while t < s.len()
        invariant
            0 <= t <= s@.len(),
            forall|k2: int| 0 <= k2 < t ==> s@[k2] == 0x20 || !is_ws_byte(s@[k2]),
        decreases s@.len() - t,
    {
        let b = s[t];
        if b != 0x20 && (b == 0x09 || b == 0x0a || b == 0x0b || b == 0x0c || b == 0x0d) {
            return Err(InvalidRequestLine::Format);
        }
        t = t + 1;
    }
    let method_bytes = &s[0..i];
    if !check_token(method_bytes) {
        return Err(InvalidRequestLine::Method);
    }
    let target = &s[(i + 1)..j];
    let u = match uri_from_bytes(target) {
        Some(u) => u,
        None => {
            return Err(InvalidRequestLine::Uri);
        },
    };
    let v = match version_from(&s[(j + 1)..s.len()]) {
        Some(v) => v,
        None => {
            return Err(InvalidRequestLine::Version);
        },
    };
    proof {
        assert(u@ =~= uri_view_of(s@.subrange(i as int + 1, j as int)));
    }
    let m = Method { bytes: slice_to_vec(method_bytes) };
    Ok((m, u, v))
}

} // verus!
