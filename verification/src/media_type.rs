//! Media-type values, e.g. the value of a `Content-Type` field:
//! `type "/" subtype *( OWS ";" OWS parameter )` with
//! `parameter = token "=" ( token | quoted-string )`.  A quoted-string
//! parameter value is decoded by dropping every `\` byte and copying all
//! other bytes through verbatim (including the byte after a `\`); a bare
//! token value is copied as given.  Trailing garbage after the last
//! parameter is rejected, not ignored.

use vstd::prelude::*;
use vstd::slice::slice_to_vec;
use crate::grammar::bytes_eq;
use crate::grammar::lemma_ows_prefix_len;
use crate::grammar::lemma_qs_tail_len;
use crate::grammar::lemma_token_prefix_len;
use crate::grammar::ows_prefix_len;
use crate::grammar::qs_tail_len;
use crate::grammar::scan_quoted;
use crate::grammar::skip_ows;
use crate::grammar::strip_bs;
use crate::grammar::token_run;
use crate::grammar::token_prefix_len;
use crate::field_map::lemma_find_name_is;
use crate::field_map::spec_get;
use crate::field_map::spec_insert;

verus! {

/// An ordered map from parameter names to raw parameter value bytes.
/// Names are compared case-sensitively, exactly as given; a repeated
/// name overwrites the previous value (last-wins), keeping the position
/// of the first occurrence.
#[derive(Clone, Debug, PartialEq, Eq)]
pub struct ParamMap {
    entries: Vec<(Vec<u8>, Vec<u8>)>,
}

impl View for ParamMap {
    type V = Seq<(Seq<u8>, Seq<u8>)>;

    closed spec fn view(&self) -> Seq<(Seq<u8>, Seq<u8>)> {
        Seq::new(self.entries@.len(), |i: int| (self.entries@[i].0@, self.entries@[i].1@))
    }
}

impl ParamMap {
    /// Entry names are unique.
    pub open spec fn wf(&self) -> bool {
        forall|i: int, j: int| 0 <= i < j < self@.len() ==> self@[i].0 != self@[j].0
    }

    /// An empty map.
    pub fn new() -> (r: Self)
        ensures
            r@ == Seq::<(Seq<u8>, Seq<u8>)>::empty(),
            r.wf(),
    {
        let r = ParamMap { entries: Vec::new() };
        proof {
            assert(r@ =~= Seq::<(Seq<u8>, Seq<u8>)>::empty());
        }
        r
    }

    /// The number of entries.
    pub fn len(&self) -> (r: usize)
        ensures
            r == self@.len(),
    {
        self.entries.len()
    }

    /// Inserts a name/value pair, replacing the value in place if the
    /// name is already present (last-wins).
    pub fn insert(&mut self, name: Vec<u8>, value: Vec<u8>)
        requires
            old(self).wf(),
        ensures
            final(self)@ == spec_insert(old(self)@, name@, value@),
            final(self).wf(),
    {
        let ghost name_view = name@;
        let ghost value_view = value@;
        let mut i: usize = 0;
        while i < self.entries.len()
            invariant
                *self == *old(self),
                old(self).wf(),
                name_view == name@,
                value_view == value@,
                0 <= i <= self.entries@.len(),
                forall|k: int| 0 <= k < i ==> self@[k].0 != name_view,
            decreases self.entries@.len() - i,
        {
            proof {
                assert(self@[i as int] == (self.entries@[i as int].0@, self.entries@[i as int].1@));
            }
            if bytes_eq(self.entries[i].0.as_slice(), name.as_slice()) {
                let ghost pre = self@;
                proof {
                    lemma_find_name_is(pre, name_view, 0, i as int);
                }
                self.entries[i] = (name, value);
                proof {
                    assert forall|k: int| 0 <= k < self@.len() implies self@[k] == pre.update(
                        i as int,
                        (name_view, value_view),
                    )[k] by {
                        assert(self@[k] == (self.entries@[k].0@, self.entries@[k].1@));
                    }
                    assert(self@ =~= pre.update(i as int, (name_view, value_view)));
                    assert(pre[i as int].0 == name_view);
                    assert forall|a: int, b: int|
                        0 <= a < b < self@.len() implies self@[a].0 != self@[b].0 by {
                        assert(pre[a].0 != pre[b].0);
                    }
                }
                return ;
            }
            i = i + 1;
        }
        let ghost pre = self@;
        proof {
            lemma_find_name_is(pre, name_view, 0, pre.len() as int);
        }
        self.entries.push((name, value));
        proof {
            assert forall|k: int| 0 <= k < self@.len() implies self@[k] == pre.push(
                (name_view, value_view),
            )[k] by {
                assert(self@[k] == (self.entries@[k].0@, self.entries@[k].1@));
                if k < pre.len() {
                    assert(pre[k] == (self.entries@[k].0@, self.entries@[k].1@));
                }
            }
            assert(self@ =~= pre.push((name_view, value_view)));
        }
    }

    /// Looks up a name, compared byte-for-byte.
    pub fn get(&self, name: &[u8]) -> (r: Option<&Vec<u8>>)
        ensures
            match r {
                Some(v) => spec_get(self@, name@) == Some(v@),
                None => spec_get(self@, name@) is None,
            },
    {
        let mut i: usize = 0;
        while i < self.entries.len()
            invariant
                0 <= i <= self.entries@.len(),
                forall|k: int| 0 <= k < i ==> self@[k].0 != name@,
            decreases self.entries@.len() - i,
        {
            proof {
                assert(self@[i as int] == (self.entries@[i as int].0@, self.entries@[i as int].1@));
            }
            if bytes_eq(self.entries[i].0.as_slice(), name) {
                proof {
                    lemma_find_name_is(self@, name@, 0, i as int);
                }
                return Some(&self.entries[i].1);
            }
            i = i + 1;
        }
        proof {
            lemma_find_name_is(self@, name@, 0, self@.len() as int);
        }
        None
    }
}

/// A parsed media-type value.
#[derive(Clone, Debug, PartialEq, Eq)]
pub struct MediaType {
    pub type_: Vec<u8>,
    pub subtype: Vec<u8>,
    pub parameters: ParamMap,
}

/// The mathematical shape of a parsed media type.
#[verifier::ext_equal]
pub ghost struct MediaTypeView {
    pub type_: Seq<u8>,
    pub subtype: Seq<u8>,
    pub params: Seq<(Seq<u8>, Seq<u8>)>,
}

impl View for MediaType {
    type V = MediaTypeView;

    open spec fn view(&self) -> MediaTypeView {
        MediaTypeView { type_: self.type_@, subtype: self.subtype@, params: self.parameters@ }
    }
}

/// The rejection of a media-type value that does not match the grammar.
#[derive(Clone, Copy, Debug, PartialEq, Eq, Structural)]
pub struct InvalidMediaType;

/// How one `OWS ";" OWS token "=" ( token | quoted-string )` segment at
/// the head of `t` divides: the number of bytes it spans, the parameter
/// name, and the decoded parameter value.
pub open spec fn param_segment(t: Seq<u8>) -> Option<(int, Seq<u8>, Seq<u8>)> {
    let a = ows_prefix_len(t);
    if a >= t.len() || t[a] != 0x3b {
        None
    } else {
        let b = a + 1 + ows_prefix_len(t.subrange(a + 1, t.len() as int));
        let nl = token_prefix_len(t.subrange(b, t.len() as int));
        if nl == 0 || b + nl >= t.len() || t[b + nl] != 0x3d {
            None
        } else {
            let name = t.subrange(b, b + nl);
            let p = b + nl + 1;
            if p < t.len() && t[p] == 0x22 {
                match qs_tail_len(t.subrange(p + 1, t.len() as int)) {
                    None => None,
                    Some(n) => Some((p + 1 + n, name, strip_bs(t.subrange(p + 1, p + n)))),
                }
            } else {
                let vl = token_prefix_len(t.subrange(p, t.len() as int));
                if vl == 0 {
                    None
                } else {
                    Some((p + vl, name, t.subrange(p, p + vl)))
                }
            }
        }
    }
}

/// A parameter segment spans at least one and at most all of `t`'s bytes.
pub proof fn lemma_param_segment_bounds(t: Seq<u8>)
    ensures
        param_segment(t) matches Some((c, name, value)) ==> 1 <= c <= t.len(),
{
    lemma_ows_prefix_len(t);
    let a = ows_prefix_len(t);
    if a < t.len() && t[a] == 0x3b {
        lemma_ows_prefix_len(t.subrange(a + 1, t.len() as int));
        let b = a + 1 + ows_prefix_len(t.subrange(a + 1, t.len() as int));
        lemma_token_prefix_len(t.subrange(b, t.len() as int));
        let nl = token_prefix_len(t.subrange(b, t.len() as int));
        if nl > 0 && b + nl < t.len() && t[b + nl] == 0x3d {
            let p = b + nl + 1;
            if p < t.len() && t[p] == 0x22 {
                lemma_qs_tail_len(t.subrange(p + 1, t.len() as int));
            } else {
                lemma_token_prefix_len(t.subrange(p, t.len() as int));
            }
        }
    }
}

/// The parameter list that the remainder `t` denotes, given the
/// parameters `acc` already collected: empty input keeps `acc`, and each
/// further segment is inserted last-wins.
pub open spec fn spec_parse_params(
    t: Seq<u8>,
    acc: Seq<(Seq<u8>, Seq<u8>)>,
) -> Option<Seq<(Seq<u8>, Seq<u8>)>>
    decreases t.len(),
    via spec_parse_params_decreases
{
    if t.len() == 0 {
        Some(acc)
    } else {
        match param_segment(t) {
            None => None,
            Some((c, name, value)) => spec_parse_params(
                t.subrange(c, t.len() as int),
                spec_insert(acc, name, value),
            ),
        }
    }
}

#[via_fn]
proof fn spec_parse_params_decreases(t: Seq<u8>, acc: Seq<(Seq<u8>, Seq<u8>)>) {
    lemma_param_segment_bounds(t);
}

/// What `parse_media_type` accepts and returns: `token "/" token`, then
/// parameter segments covering the entire remainder.
pub open spec fn spec_parse_media_type(s: Seq<u8>) -> Option<MediaTypeView> {
    let tl = token_prefix_len(s);
    if tl == 0 || tl >= s.len() || s[tl] != 0x2f {
        None
    } else {
        let sl = token_prefix_len(s.subrange(tl + 1, s.len() as int));
        if sl == 0 {
            None
        } else {
            match spec_parse_params(
                s.subrange(tl + 1 + sl, s.len() as int),
                Seq::<(Seq<u8>, Seq<u8>)>::empty(),
            ) {
                None => None,
                Some(ps) => Some(
                    MediaTypeView {
                        type_: s.subrange(0, tl),
                        subtype: s.subrange(tl + 1, tl + 1 + sl),
                        params: ps,
                    },
                ),
            }
        }
    }
}

/// Parsing has no hidden state: any two results the contract of
/// `parse_media_type` allows for the same bytes are equal.
pub proof fn lemma_parse_media_type_deterministic(
    s: Seq<u8>,
    r1: Option<MediaTypeView>,
    r2: Option<MediaTypeView>,
)
    requires
        r1 == spec_parse_media_type(s),
        r2 == spec_parse_media_type(s),
    ensures
        r1 == r2,
{
}

/// Copies `s[lo..hi]` dropping every `\` byte.
fn decode_quoted(s: &[u8], lo: usize, hi: usize) -> (r: Vec<u8>)
    requires
        lo <= hi <= s@.len(),
    ensures
        r@ == strip_bs(s@.subrange(lo as int, hi as int)),
{
    let mut out: Vec<u8> = Vec::new();
    let mut j = lo;
    while j < hi
        invariant
            lo <= j <= hi <= s@.len(),
            out@ == strip_bs(s@.subrange(lo as int, j as int)),
        decreases hi - j,
    {
        proof {
            assert(s@.subrange(lo as int, j + 1).drop_last() =~= s@.subrange(lo as int, j as int));
            assert(s@.subrange(lo as int, j + 1).last() == s@[j as int]);
        }
        if s[j] != 0x5c {
            out.push(s[j]);
        }
        j = j + 1;
    }
    out
}

/// Parses a media-type value, as `spec_parse_media_type` describes:
/// `Ok` exactly when the whole input matches the grammar.
pub fn parse_media_type(s: &[u8]) -> (r: Result<MediaType, InvalidMediaType>)
    ensures
        match (r, spec_parse_media_type(s@)) {
            (Ok(m), Some(mv)) => m@ == mv && m.parameters.wf(),
            (Err(e), None) => e == InvalidMediaType,
            _ => false,
        },
{
    proof {
        assert(s@.subrange(0, s@.len() as int) =~= s@);
    }
    let tl = token_run(s, 0);
    if tl == 0 || tl == s.len() || s[tl] != 0x2f {
        return Err(InvalidMediaType);
    }
    let sl_end = token_run(s, tl + 1);
    if sl_end == tl + 1 {
        return Err(InvalidMediaType);
    }
    let type_ = slice_to_vec(&s[0..tl]);
    let subtype = slice_to_vec(&s[(tl + 1)..sl_end]);
    let mut params = ParamMap::new();
    let mut pos = sl_end;
    while pos < s.len()
        invariant
            0 <= pos <= s@.len(),
            params.wf(),
            spec_parse_media_type(s@) == match spec_parse_params(
                s@.subrange(pos as int, s@.len() as int),
                params@,
            ) {
                None => None::<MediaTypeView>,
                Some(ps) => Some(
                    MediaTypeView { type_: type_@, subtype: subtype@, params: ps },
                ),
            },
        decreases s@.len() - pos,
    {
        let ghost t = s@.subrange(pos as int, s@.len() as int);
        let rest = &s[pos..s.len()];
        proof {
            assert(rest@ == t);
            assert(rest@.subrange(0, rest@.len() as int) =~= t);
        }
        let a = skip_ows(rest, 0);
        if a == rest.len() || rest[a] != 0x3b {
            return Err(InvalidMediaType);
        }
        proof {
            assert(t.subrange(a as int + 1, t.len() as int) =~= rest@.subrange(
                a as int + 1,
                rest@.len() as int,
            ));
        }
        let b = skip_ows(rest, a + 1);
        proof {
            assert(t.subrange(b as int, t.len() as int) =~= rest@.subrange(
                b as int,
                rest@.len() as int,
            ));
        }
        let nl_end = token_run(rest, b);
        if nl_end == b || nl_end == rest.len() || rest[nl_end] != 0x3d {
            return Err(InvalidMediaType);
        }
        let name = slice_to_vec(&rest[b..nl_end]);
        let p = nl_end + 1;
        proof {
            assert(t.subrange(p as int, t.len() as int) =~= rest@.subrange(
                p as int,
                rest@.len() as int,
            ));
        }
        let ghost pre_params = params@;
        let consumed: usize;
        if p < rest.len() && rest[p] == 0x22 {
            proof {
                assert(t.subrange(p as int + 1, t.len() as int) =~= rest@.subrange(
                    p as int + 1,
                    rest@.len() as int,
                ));
            }
            let qn = match scan_quoted(rest, p + 1) {
                Some(qn) => qn,
                None => {
                    return Err(InvalidMediaType);
                },
            };
            let value = decode_quoted(rest, p + 1, p + qn);
            proof {
                assert(t.subrange(p as int + 1, p + qn as int) =~= rest@.subrange(
                    p as int + 1,
                    p + qn as int,
                ));
            }
            params.insert(name, value);
            consumed = p + 1 + qn;
        } else {
            let vl_end = token_run(rest, p);
            if vl_end == p {
                return Err(InvalidMediaType);
            }
            let value = slice_to_vec(&rest[p..vl_end]);
            params.insert(name, value);
            consumed = vl_end;
        }
        proof {
            lemma_param_segment_bounds(t);
            assert(param_segment(t) matches Some((c, n2, v2)) && c == consumed as int
                && params@ == spec_insert(pre_params, n2, v2));
            assert(t.subrange(consumed as int, t.len() as int) =~= s@.subrange(
                pos as int + consumed as int,
                s@.len() as int,
            ));
        }
        pos = pos + consumed;
    }
    proof {
        assert(s@.subrange(pos as int, s@.len() as int).len() == 0);
    }
    Ok(MediaType { type_, subtype, parameters: params })
}

} // verus!
