//! The header block assembler: reads bounded CRLF-terminated lines out
//! of a byte buffer, parses the first as a request line and each further
//! one as a header field, and stops at the empty line.  A single
//! malformed line aborts the whole parse; nothing is recovered.
//!
//! Line framing enforces the cap before any grammar runs: a line is
//! rejected once `LINE_CAP` octets have been consumed without reaching
//! its `\n`, and a line that does not end in exactly `\r\n` (a bare `\n`
//! included) is rejected rather than normalized.

use vstd::prelude::*;
use crate::field_map::HeaderFieldMap;
use crate::field_map::spec_insert;
use crate::grammar::ascii_lower;
use crate::grammar::find_byte;
use crate::grammar::find_from;
use crate::header_field::InvalidHeaderField;
use crate::header_field::header_field_split;
use crate::header_field::parse_header_field;
use crate::request_line::InvalidRequestLine;
use crate::request_line::Method;
use crate::request_line::Version;
use crate::request_line::parse_request_line;
use crate::request_line::spec_parse_request_line;
use crate::uri::Uri;
use crate::uri::UriView;
use crate::uri::uri_ok;

verus! {

/// The largest number of octets one line may span, its CRLF included.
/// Enforced before any grammar matching, to bound memory on adversarial
/// input.
pub const LINE_CAP: usize = 16384;

/// Why a request header block was rejected: the line framing, or one of
/// the two line grammars, whose own error is kept.
#[derive(Clone, Copy, Debug, PartialEq, Eq, Structural)]
pub enum InvalidRequestHeader {
    Format,
    RequestLine(InvalidRequestLine),
    HeaderField(InvalidHeaderField),
}

impl core::convert::From<InvalidRequestLine> for InvalidRequestHeader {
    fn from(e: InvalidRequestLine) -> (r: Self) {
        InvalidRequestHeader::RequestLine(e)
    }
}

impl vstd::std_specs::convert::FromSpecImpl<InvalidRequestLine> for InvalidRequestHeader {
    open spec fn obeys_from_spec() -> bool {
        true
    }

    open spec fn from_spec(e: InvalidRequestLine) -> Self {
        InvalidRequestHeader::RequestLine(e)
    }
}

impl core::convert::From<InvalidHeaderField> for InvalidRequestHeader {
    fn from(e: InvalidHeaderField) -> (r: Self) {
        InvalidRequestHeader::HeaderField(e)
    }
}

impl vstd::std_specs::convert::FromSpecImpl<InvalidHeaderField> for InvalidRequestHeader {
    open spec fn obeys_from_spec() -> bool {
        true
    }

    open spec fn from_spec(e: InvalidHeaderField) -> Self {
        InvalidRequestHeader::HeaderField(e)
    }
}

/// One parsed request header block.
#[derive(Debug)]
pub struct RequestHeader {
    pub method: Method,
    pub uri: Uri,
    pub version: Version,
    pub fields: HeaderFieldMap,
}

/// The mathematical shape of a parsed request header block.
#[verifier::ext_equal]
pub ghost struct RequestHeaderView {
    pub method: Seq<u8>,
    pub uri: UriView,
    pub version: Version,
    pub fields: Seq<(Seq<u8>, Seq<u8>)>,
}

impl View for RequestHeader {
    type V = RequestHeaderView;

    open spec fn view(&self) -> RequestHeaderView {
        RequestHeaderView {
            method: self.method@,
            uri: self.uri@,
            version: self.version,
            fields: self.fields@,
        }
    }
}

impl RequestHeader {
    pub open spec fn wf(&self) -> bool {
        self.method.wf() && self.fields.wf() && uri_ok(self.uri@.raw)
    }
}

/// Where the next line of `s` starting at `pos` ends: `Some((content,
/// next))` with the line's content (CRLF stripped) and the position just
/// after its `\n`.  `None` when no octet is left, when `LINE_CAP` octets
/// pass without the line ending, or when the line does not end in
/// exactly `\r\n`.
pub open spec fn spec_next_line(s: Seq<u8>, pos: int) -> Option<(Seq<u8>, int)>
    recommends
        0 <= pos <= s.len(),
{
    let k = find_from(s, 0x0a, pos);
    let upto = if k < s.len() {
        k + 1 - pos
    } else {
        s.len() - pos
    };
    let count = if upto > LINE_CAP as int {
        LINE_CAP as int
    } else {
        upto
    };
    if count < 1 || count == LINE_CAP as int {
        None
    } else {
        let raw = s.subrange(pos, pos + count);
        if raw.len() >= 2 && raw[raw.len() - 1] == 0x0a && raw[raw.len() - 2] == 0x0d {
            Some((s.subrange(pos, pos + count - 2), pos + count))
        } else {
            None
        }
    }
}

/// The search for `\n` never runs past the end of the input.
pub proof fn lemma_find_from_le(s: Seq<u8>, b: u8, i: int)
    requires
        i <= s.len(),
    ensures
        find_from(s, b, i) <= s.len(),
    decreases s.len() - i,
{
    if i < s.len() && s[i] != b {
        lemma_find_from_le(s, b, i + 1);
    }
}

/// Boundary, rejecting side: once `LINE_CAP` octets pass without a
/// `\n`, the line is rejected — never truncated into a success.
pub proof fn lemma_oversized_line_rejected(s: Seq<u8>, pos: int)
    requires
        0 <= pos,
        pos + LINE_CAP <= s.len(),
        forall|i: int| pos <= i < pos + LINE_CAP ==> s[i] != 0x0a,
    ensures
        spec_next_line(s, pos) is None,
{
    crate::grammar::lemma_find_from(s, 0x0a, pos);
}

/// Boundary, accepting side: a line of `n` octets ending in `\r\n` is
/// accepted for every `n` below `LINE_CAP` — in particular for
/// `n == LINE_CAP - 1`.
pub proof fn lemma_bounded_line_accepted(s: Seq<u8>, pos: int, n: int)
    requires
        0 <= pos,
        pos + n <= s.len(),
        2 <= n < LINE_CAP,
        forall|i: int| pos <= i < pos + n - 1 ==> s[i] != 0x0a,
        s[pos + n - 1] == 0x0a,
        s[pos + n - 2] == 0x0d,
    ensures
        spec_next_line(s, pos) == Some((s.subrange(pos, pos + n - 2), pos + n)),
{
    crate::grammar::lemma_find_from_is(s, 0x0a, pos, pos + n - 1);
    assert(s.subrange(pos, pos + n)[n - 1] == s[pos + n - 1]);
    assert(s.subrange(pos, pos + n)[n - 2] == s[pos + n - 2]);
}

/// Parsing has no hidden state: any two results the contract of
/// `parse_request_header` allows for the same bytes are equal.
pub proof fn lemma_parse_request_header_deterministic(
    s: Seq<u8>,
    r1: Result<RequestHeaderView, InvalidRequestHeader>,
    r2: Result<RequestHeaderView, InvalidRequestHeader>,
)
    requires
        r1 == spec_parse_request_header(s),
        r2 == spec_parse_request_header(s),
    ensures
        r1 == r2,
{
}

/// The field lines that the input from `pos` on denotes, given the
/// fields `acc` already collected: an empty line ends the block keeping
/// `acc`; each further field line is parsed and inserted under its
/// lowercased name; any framing or grammar failure aborts.
pub open spec fn spec_fields(s: Seq<u8>, pos: int, acc: Seq<(Seq<u8>, Seq<u8>)>) -> Result<
    Seq<(Seq<u8>, Seq<u8>)>,
    InvalidRequestHeader,
>
    decreases s.len() - pos,
    via spec_fields_decreases
{
    match spec_next_line(s, pos) {
        None => Err(InvalidRequestHeader::Format),
        Some((line, p2)) => if line.len() == 0 {
            Ok(acc)
        } else {
            match header_field_split(line) {
                None => Err(InvalidRequestHeader::HeaderField(InvalidHeaderField::Format)),
                Some((n, v)) => spec_fields(s, p2, spec_insert(acc, ascii_lower(n), v)),
            }
        },
    }
}

#[via_fn]
proof fn spec_fields_decreases(s: Seq<u8>, pos: int, acc: Seq<(Seq<u8>, Seq<u8>)>) {
    if pos <= s.len() {
        lemma_find_from_le(s, 0x0a, pos);
    }
}

/// What `parse_request_header` returns on each input: the request line
/// parsed from the first line, the fields collected up to the empty
/// line, or the error of the first step that fails.
pub open spec fn spec_parse_request_header(s: Seq<u8>) -> Result<
    RequestHeaderView,
    InvalidRequestHeader,
> {
    match spec_next_line(s, 0) {
        None => Err(InvalidRequestHeader::Format),
        Some((line, p)) => match spec_parse_request_line(line) {
            Err(e) => Err(InvalidRequestHeader::RequestLine(e)),
            Ok((m, u, v)) => match spec_fields(s, p, Seq::<(Seq<u8>, Seq<u8>)>::empty()) {
                Err(e) => Err(e),
                Ok(fs) => Ok(RequestHeaderView { method: m, uri: u, version: v, fields: fs }),
            },
        },
    }
}

/// Reads the line that starts at `pos`: `Some((content_end, next))`
/// exactly when `spec_next_line` accepts it.
fn next_line(s: &[u8], pos: usize) -> (r: Option<(usize, usize)>)
    requires
        pos <= s@.len(),
    ensures
        match r {
            Some((e, p2)) => spec_next_line(s@, pos as int) == Some(
                (s@.subrange(pos as int, e as int), p2 as int),
            ) && pos <= e && e + 2 == p2 && p2 <= s@.len(),
            None => spec_next_line(s@, pos as int) is None,
        },
{
    let k = find_byte(s, 0x0a, pos);
    let upto = if k < s.len() {
        k + 1 - pos
    } else {
        s.len() - pos
    };
    let count = if upto > LINE_CAP {
        LINE_CAP
    } else {
        upto
    };
    if count < 1 || count == LINE_CAP {
        return None;
    }
    if count < 2 {
        proof {
            assert(s@.subrange(pos as int, pos + count as int).len() < 2);
        }
        return None;
    }
    let end = pos + count;
    proof {
        assert(s@.subrange(pos as int, end as int)[count - 1] == s@[end - 1]);
        assert(s@.subrange(pos as int, end as int)[count - 2] == s@[end - 2]);
    }
    if s[end - 1] == 0x0a && s[end - 2] == 0x0d {
        Some((end - 2, end))
    } else {
        None
    }
}

/// Assembles one request header block from a byte buffer, as
/// `spec_parse_request_header` describes.  The buffer holds the header
/// octets from its start; octets after the blank line are ignored.
pub fn parse_request_header(s: &[u8]) -> (r: Result<RequestHeader, InvalidRequestHeader>)
    ensures
        match (r, spec_parse_request_header(s@)) {
            (Ok(h), Ok(hv)) => h@ == hv && h.wf(),
            (Err(e), Err(es)) => e == es,
            _ => false,
        },
{
    let (e1, p1) = match next_line(s, 0) {
        Some(x) => x,
        None => {
            return Err(InvalidRequestHeader::Format);
        },
    };
    let first = &s[0..e1];
    let (m, u, v) = match parse_request_line(first) {
        Ok(x) => x,
        Err(e) => {
            return Err(InvalidRequestHeader::RequestLine(e));
        },
    };
    let mut fields = HeaderFieldMap::new();
    let mut pos = p1;
    while pos < s.len()
        invariant
            pos <= s@.len(),
            fields.wf(),
            m.wf(),
            uri_ok(u@.raw),
            spec_parse_request_header(s@) == match spec_fields(s@, pos as int, fields@) {
                Err(e) => Err::<RequestHeaderView, InvalidRequestHeader>(e),
                Ok(fs) => Ok(
                    RequestHeaderView { method: m@, uri: u@, version: v, fields: fs },
                ),
            },
        decreases s@.len() - pos,
    {
        let (e2, p2) = match next_line(s, pos) {
            Some(x) => x,
            None => {
                return Err(InvalidRequestHeader::Format);
            },
        };
        if e2 == pos {
            proof {
                assert(s@.subrange(pos as int, e2 as int).len() == 0);
            }
            return Ok(RequestHeader { method: m, uri: u, version: v, fields });
        }
        let line = &s[pos..e2];
        let (n, val) = match parse_header_field(line) {
            Ok(x) => x,
            Err(e) => {
                return Err(InvalidRequestHeader::HeaderField(e));
            },
        };
        fields.insert(n, val);
        pos = p2;
    }
    proof {
        assert(find_from(s@, 0x0a, pos as int) == s@.len());
    }
    Err(InvalidRequestHeader::Format)
}

} // verus!
