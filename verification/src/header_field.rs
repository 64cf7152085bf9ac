//! Header field lines: `token ":" OWS field-content OWS`, with the colon
//! required to follow the field name immediately.  A line with whitespace
//! between the name and the colon is rejected outright (a request-smuggling
//! vector), and folded (multi-line) values are rejected by the block
//! assembler because their continuation lines do not match this grammar.

use vstd::prelude::*;
use vstd::slice::slice_to_vec;
use crate::grammar::ascii_lower;
use crate::grammar::check_field_content;
use crate::grammar::check_token;
use crate::grammar::find_byte;
use crate::grammar::find_from;
use crate::grammar::is_field_content;
use crate::grammar::is_token;
use crate::grammar::lemma_ascii_lower_token;
use crate::grammar::to_lower;
use crate::grammar::trim_ows;
use crate::grammar::trim_ows_bounds;

verus! {

/// A validated header field name: a `token`, normalized to lowercase
/// (name comparison is case-insensitive).
#[derive(Debug)]
pub struct HeaderName {
    bytes: Vec<u8>,
}

impl View for HeaderName {
    type V = Seq<u8>;

    closed spec fn view(&self) -> Seq<u8> {
        self.bytes@
    }
}

impl HeaderName {
    /// The construction rule of the field map: a lowercase token.
    pub open spec fn wf(&self) -> bool {
        is_token(self@) && self@ == ascii_lower(self@)
    }

    /// The normalized (lowercase) name bytes.
    pub fn as_bytes(&self) -> (r: &Vec<u8>)
        ensures
            r@ == self@,
    {
        &self.bytes
    }
}

/// A validated header field value: `field-content`, an opaque byte
/// sequence with no leading or trailing OWS (high octets pass through
/// uninterpreted).
#[derive(Debug)]
pub struct HeaderValue {
    bytes: Vec<u8>,
}

impl View for HeaderValue {
    type V = Seq<u8>;

    closed spec fn view(&self) -> Seq<u8> {
        self.bytes@
    }
}

impl HeaderValue {
    /// The construction rule of the field map: non-empty `field-content`.
    pub open spec fn wf(&self) -> bool {
        is_field_content(self@)
    }

    /// The value bytes.
    pub fn as_bytes(&self) -> (r: &Vec<u8>)
        ensures
            r@ == self@,
    {
        &self.bytes
    }
}

/// Why a header field line was rejected.  `Name` and `Value` mirror the
/// taxonomy of the per-token validators; with this crate's field map the
/// grammar match already establishes both construction rules, so only
/// `Format` is ever produced.
#[derive(Clone, Copy, Debug, PartialEq, Eq, Structural)]
pub enum InvalidHeaderField {
    Format,
    Name,
    Value,
}

/// How a header field line divides, if it matches the grammar
/// `token ":" OWS field-content OWS`: the name (before lowercasing) and
/// the trimmed value.  The colon is the first colon of the line; the
/// name must consist of token characters only, so in particular any
/// whitespace before the colon makes the line fail.
pub open spec fn header_field_split(s: Seq<u8>) -> Option<(Seq<u8>, Seq<u8>)> {
    let c = find_from(s, 0x3a, 0);
    if c >= s.len() {
        None
    } else {
        let name = s.subrange(0, c);
        let value = trim_ows(s.subrange(c + 1, s.len() as int));
        if is_token(name) && is_field_content(value) {
            Some((name, value))
        } else {
            None
        }
    }
}

/// Every line built as `name ":" OWS value OWS` from a `token` name and
/// a `field-content` value splits back into exactly that name and that
/// value, whatever OWS padding stands around the value.
pub proof fn lemma_header_field_line(name: Seq<u8>, pad_l: Seq<u8>, value: Seq<u8>, pad_r: Seq<u8>)
    requires
        is_token(name),
        forall|i: int| 0 <= i < pad_l.len() ==> crate::grammar::is_ows_byte(pad_l[i]),
        forall|i: int| 0 <= i < pad_r.len() ==> crate::grammar::is_ows_byte(pad_r[i]),
        is_field_content(value),
    ensures
        header_field_split(name + seq![0x3au8] + pad_l + value + pad_r) == Some((name, value)),
{
    let s = name + seq![0x3au8] + pad_l + value + pad_r;
    let ln = name.len() as int;
    let pl = pad_l.len() as int;
    let lv = value.len() as int;
    assert forall|k: int| 0 <= k < s.len() implies s[k] == (if k < ln {
        name[k]
    } else if k == ln {
        0x3au8
    } else if k < ln + 1 + pl {
        pad_l[k - ln - 1]
    } else if k < ln + 1 + pl + lv {
        value[k - ln - 1 - pl]
    } else {
        pad_r[k - ln - 1 - pl - lv]
    }) by {}
    crate::grammar::lemma_find_from_is(s, 0x3a, 0, ln);
    assert(s.subrange(0, ln) =~= name);
    assert(s.subrange(ln + 1, s.len() as int) =~= pad_l + value + pad_r);
    crate::grammar::lemma_trim_ows_padded(pad_l, value, pad_r);
}

/// Round trip: the exact output of a serializer that writes
/// `name ":" value` (the line layer adds and strips the CRLF) parses
/// back to the same name and value, for every stored pair — a lowercase
/// `token` name and a `field-content` value.
pub proof fn lemma_header_field_round_trip(name: Seq<u8>, value: Seq<u8>)
    requires
        is_token(name),
        name == ascii_lower(name),
        is_field_content(value),
    ensures
        header_field_split(name + seq![0x3au8] + value) == Some((name, value)),
        ascii_lower(name) == name,
{
    lemma_header_field_line(name, Seq::empty(), value, Seq::empty());
    assert(name + seq![0x3au8] + Seq::<u8>::empty() + value + Seq::<u8>::empty() =~= name + seq![
        0x3au8,
    ] + value);
}

/// Whitespace anywhere before the colon makes a header field line fail:
/// the would-be name is then no `token`.
pub proof fn lemma_ws_before_colon_rejected(s: Seq<u8>, i: int)
    requires
        0 <= i < s.len(),
        crate::grammar::is_ows_byte(s[i]),
        i < find_from(s, 0x3a, 0),
    ensures
        header_field_split(s) is None,
{
    crate::grammar::lemma_find_from(s, 0x3a, 0);
    let c = find_from(s, 0x3a, 0);
    if c < s.len() {
        assert(s.subrange(0, c)[i] == s[i]);
    }
}

/// Splits and validates one header field line (without its CRLF) into a
/// lowercased name and a trimmed value; fails with `Format` exactly when
/// the line does not match `token ":" OWS field-content OWS`.
pub fn parse_header_field(s: &[u8]) -> (r: Result<(HeaderName, HeaderValue), InvalidHeaderField>)
    ensures
        match (r, header_field_split(s@)) {
            (Ok((n, v)), Some((ns, vs))) => n@ == ascii_lower(ns) && v@ == vs && n.wf() && v.wf(),
            (Err(e), None) => e == InvalidHeaderField::Format,
            _ => false,
        },
{
    let c = find_byte(s, 0x3a, 0);
    if c == s.len() {
        return Err(InvalidHeaderField::Format);
    }
    let name_bytes = &s[0..c];
    if !check_token(name_bytes) {
        return Err(InvalidHeaderField::Format);
    }
    let rest = &s[(c + 1)..s.len()];
    let (lo, hi) = trim_ows_bounds(rest);
    let value_bytes = &rest[lo..hi];
    if !check_field_content(value_bytes) {
        return Err(InvalidHeaderField::Format);
    }
    proof {
        lemma_ascii_lower_token(s@.subrange(0, c as int));
    }
    let name = HeaderName { bytes: to_lower(name_bytes) };
    let value = HeaderValue { bytes: slice_to_vec(value_bytes) };
    Ok((name, value))
}

} // verus!

