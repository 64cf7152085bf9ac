//! Shared character-class predicates and scanning primitives for the
//! HTTP/1.x wire grammar: `token`, optional whitespace (OWS), and
//! `field-content`.  These are pure pattern definitions; the parsers in
//! the other modules are specified and proved against them.

use vstd::prelude::*;

verus! {

/// A `token` character: `! # $ % & ' * + - . ^ _ ` | ~`, digits and letters.
pub open spec fn is_tchar(b: u8) -> bool {
    ||| b == 0x21
    ||| (0x23 <= b && b <= 0x27)
    ||| b == 0x2a
    ||| b == 0x2b
    ||| b == 0x2d
    ||| b == 0x2e
    ||| (0x30 <= b && b <= 0x39)
    ||| (0x41 <= b && b <= 0x5a)
    ||| (0x5e <= b && b <= 0x60)
    ||| (0x61 <= b && b <= 0x7a)
    ||| b == 0x7c
    ||| b == 0x7e
}

/// A `token`: one or more token characters.
pub open spec fn is_token(s: Seq<u8>) -> bool {
    s.len() > 0 && forall|i: int| 0 <= i < s.len() ==> is_tchar(s[i])
}

/// An optional-whitespace byte: space or horizontal tab.
pub open spec fn is_ows_byte(b: u8) -> bool {
    b == 0x20 || b == 0x09
}

/// A byte that may stand first or last in a header value: visible ASCII
/// or an opaque high octet (which is passed through, not decoded).
pub open spec fn is_vis_byte(b: u8) -> bool {
    (0x21 <= b && b <= 0x7e) || 0x80 <= b
}

/// `field-content`: non-empty, first and last byte visible-or-opaque,
/// interior bytes visible-or-opaque or OWS.
pub open spec fn is_field_content(s: Seq<u8>) -> bool {
    &&& s.len() > 0
    &&& is_vis_byte(s[0])
    &&& is_vis_byte(s[s.len() - 1])
    &&& forall|i: int| 0 <= i < s.len() ==> is_vis_byte(s[i]) || is_ows_byte(s[i])
}

/// The index of the first occurrence of `b` in `s` at or after `i`,
/// or `s.len()` if there is none.
pub open spec fn find_from(s: Seq<u8>, b: u8, i: int) -> int
    recommends
        0 <= i <= s.len(),
    decreases s.len() - i,
{
    if i >= s.len() {
        s.len() as int
    } else if s[i] == b {
        i
    } else {
        find_from(s, b, i + 1)
    }
}

pub proof fn lemma_find_from(s: Seq<u8>, b: u8, i: int)
    requires
        0 <= i <= s.len(),
    ensures
        i <= find_from(s, b, i) <= s.len(),
        forall|j: int| i <= j < find_from(s, b, i) ==> s[j] != b,
        find_from(s, b, i) < s.len() ==> s[find_from(s, b, i)] == b,
    decreases s.len() - i,
{
    if i < s.len() && s[i] != b {
        lemma_find_from(s, b, i + 1);
    }
}

/// If no occurrence lies in `[i, j)` and `j` is an occurrence (or the end),
/// then `j` is where the search lands.
pub proof fn lemma_find_from_is(s: Seq<u8>, b: u8, i: int, j: int)
    requires
        0 <= i <= j <= s.len(),
        forall|k: int| i <= k < j ==> s[k] != b,
        j < s.len() ==> s[j] == b,
    ensures
        find_from(s, b, i) == j,
    decreases j - i,
{
    if i < j {
        lemma_find_from_is(s, b, i + 1, j);
    }
}

/// The number of leading OWS bytes of `s`.
pub open spec fn ows_prefix_len(s: Seq<u8>) -> int
    decreases s.len(),
{
    if s.len() > 0 && is_ows_byte(s[0]) {
        1 + ows_prefix_len(s.drop_first())
    } else {
        0
    }
}

pub proof fn lemma_ows_prefix_len(s: Seq<u8>)
    ensures
        0 <= ows_prefix_len(s) <= s.len(),
        forall|i: int| 0 <= i < ows_prefix_len(s) ==> is_ows_byte(s[i]),
        ows_prefix_len(s) < s.len() ==> !is_ows_byte(s[ows_prefix_len(s)]),
    decreases s.len(),
{
    if s.len() > 0 && is_ows_byte(s[0]) {
        let t = s.drop_first();
        lemma_ows_prefix_len(t);
        assert forall|i: int| 0 <= i < ows_prefix_len(s) implies is_ows_byte(s[i]) by {
            if i > 0 {
                assert(s[i] == t[i - 1]);
            }
        }
    }
}

pub proof fn lemma_ows_prefix_len_is(s: Seq<u8>, n: int)
    requires
        0 <= n <= s.len(),
        forall|i: int| 0 <= i < n ==> is_ows_byte(s[i]),
        n < s.len() ==> !is_ows_byte(s[n]),
    ensures
        ows_prefix_len(s) == n,
    decreases s.len(),
{
    if s.len() > 0 && is_ows_byte(s[0]) {
        lemma_ows_prefix_len_is(s.drop_first(), n - 1);
    }
}

/// The number of trailing OWS bytes of `s`.
pub open spec fn ows_suffix_len(s: Seq<u8>) -> int
    decreases s.len(),
{
    if s.len() > 0 && is_ows_byte(s.last()) {
        1 + ows_suffix_len(s.drop_last())
    } else {
        0
    }
}

pub proof fn lemma_ows_suffix_len_is(s: Seq<u8>, n: int)
    requires
        0 <= n <= s.len(),
        forall|i: int| s.len() - n <= i < s.len() ==> is_ows_byte(s[i]),
        n < s.len() ==> !is_ows_byte(s[s.len() - 1 - n]),
    ensures
        ows_suffix_len(s) == n,
    decreases s.len(),
{
    if s.len() > 0 && is_ows_byte(s.last()) {
        lemma_ows_suffix_len_is(s.drop_last(), n - 1);
    }
}

/// The number of leading token characters of `s`.
pub open spec fn token_prefix_len(s: Seq<u8>) -> int
    decreases s.len(),
{
    if s.len() > 0 && is_tchar(s[0]) {
        1 + token_prefix_len(s.drop_first())
    } else {
        0
    }
}

pub proof fn lemma_token_prefix_len(s: Seq<u8>)
    ensures
        0 <= token_prefix_len(s) <= s.len(),
        forall|i: int| 0 <= i < token_prefix_len(s) ==> is_tchar(s[i]),
        token_prefix_len(s) < s.len() ==> !is_tchar(s[token_prefix_len(s)]),
    decreases s.len(),
{
    if s.len() > 0 && is_tchar(s[0]) {
        let t = s.drop_first();
        lemma_token_prefix_len(t);
        assert forall|i: int| 0 <= i < token_prefix_len(s) implies is_tchar(s[i]) by {
            if i > 0 {
                assert(s[i] == t[i - 1]);
            }
        }
    }
}

pub proof fn lemma_token_prefix_len_is(s: Seq<u8>, n: int)
    requires
        0 <= n <= s.len(),
        forall|i: int| 0 <= i < n ==> is_tchar(s[i]),
        n < s.len() ==> !is_tchar(s[n]),
    ensures
        token_prefix_len(s) == n,
    decreases s.len(),
{
    if s.len() > 0 && is_tchar(s[0]) {
        lemma_token_prefix_len_is(s.drop_first(), n - 1);
    }
}

/// A byte allowed plain inside a quoted string: HTAB, SP and visible or
/// opaque bytes other than `"` and `\`.
pub open spec fn is_qdtext_byte(b: u8) -> bool {
    ||| b == 0x09
    ||| b == 0x20
    ||| b == 0x21
    ||| (0x23 <= b && b <= 0x5b)
    ||| (0x5d <= b && b <= 0x7e)
    ||| 0x80 <= b
}

/// A byte allowed after `\` inside a quoted string: HTAB, SP, visible
/// ASCII or an opaque byte.
pub open spec fn is_qpair_byte(b: u8) -> bool {
    b == 0x09 || (0x20 <= b && b <= 0x7e) || 0x80 <= b
}

/// How many bytes of `t` a quoted string whose opening quote stands just
/// before `t` spans, up to and including the closing quote; `None` if the
/// string is unterminated or holds a byte outside the grammar.
pub open spec fn qs_tail_len(t: Seq<u8>) -> Option<int>
    decreases t.len(),
{
    if t.len() == 0 {
        None
    } else if t[0] == 0x22 {
        Some(1)
    } else if t[0] == 0x5c {
        if t.len() >= 2 && is_qpair_byte(t[1]) {
            match qs_tail_len(t.subrange(2, t.len() as int)) {
                Some(n) => Some(n + 2),
                None => None,
            }
        } else {
            None
        }
    } else if is_qdtext_byte(t[0]) {
        match qs_tail_len(t.subrange(1, t.len() as int)) {
            Some(n) => Some(n + 1),
            None => None,
        }
    } else {
        None
    }
}

pub proof fn lemma_qs_tail_len(t: Seq<u8>)
    ensures
        qs_tail_len(t) matches Some(n) ==> 1 <= n <= t.len(),
    decreases t.len(),
{
    if t.len() > 0 && t[0] != 0x22 {
        if t[0] == 0x5c {
            if t.len() >= 2 && is_qpair_byte(t[1]) {
                lemma_qs_tail_len(t.subrange(2, t.len() as int));
            }
        } else if is_qdtext_byte(t[0]) {
            lemma_qs_tail_len(t.subrange(1, t.len() as int));
        }
    }
}

/// `s` with every `\` byte removed and all other bytes kept in order.
pub open spec fn strip_bs(s: Seq<u8>) -> Seq<u8>
    decreases s.len(),
{
    if s.len() == 0 {
        Seq::empty()
    } else if s.last() == 0x5c {
        strip_bs(s.drop_last())
    } else {
        strip_bs(s.drop_last()).push(s.last())
    }
}

/// `s` with leading and trailing OWS removed.
pub open spec fn trim_ows(s: Seq<u8>) -> Seq<u8> {
    let t = s.subrange(ows_prefix_len(s), s.len() as int);
    t.subrange(0, t.len() - ows_suffix_len(t))
}

/// Trimming strips exactly the OWS padding around a value whose first
/// and last bytes are not OWS.
pub proof fn lemma_trim_ows_padded(pad_l: Seq<u8>, mid: Seq<u8>, pad_r: Seq<u8>)
    requires
        forall|i: int| 0 <= i < pad_l.len() ==> is_ows_byte(pad_l[i]),
        forall|i: int| 0 <= i < pad_r.len() ==> is_ows_byte(pad_r[i]),
        mid.len() > 0,
        !is_ows_byte(mid[0]),
        !is_ows_byte(mid[mid.len() - 1]),
    ensures
        trim_ows(pad_l + mid + pad_r) == mid,
{
    let s = pad_l + mid + pad_r;
    let pl = pad_l.len() as int;
    let pm = mid.len() as int;
    let pr = pad_r.len() as int;
    assert forall|k: int| 0 <= k < s.len() implies s[k] == (if k < pl {
        pad_l[k]
    } else if k < pl + pm {
        mid[k - pl]
    } else {
        pad_r[k - pl - pm]
    }) by {}
    lemma_ows_prefix_len_is(s, pl);
    let t = s.subrange(pl, s.len() as int);
    assert(t =~= mid + pad_r);
    lemma_ows_suffix_len_is(t, pr);
    assert(t.subrange(0, t.len() - pr) =~= mid);
}

/// The ASCII-lowercased form of a byte.
pub open spec fn lower_byte(b: u8) -> u8 {
    if 0x41 <= b && b <= 0x5a {
        (b + 0x20) as u8
    } else {
        b
    }
}

/// The ASCII-lowercased form of a byte sequence.
pub open spec fn ascii_lower(s: Seq<u8>) -> Seq<u8> {
    Seq::new(s.len(), |i: int| lower_byte(s[i]))
}

/// Lowercasing changes no character class and is idempotent.
pub proof fn lemma_ascii_lower_token(s: Seq<u8>)
    requires
        is_token(s),
    ensures
        is_token(ascii_lower(s)),
        ascii_lower(ascii_lower(s)) == ascii_lower(s),
{
    assert forall|i: int| 0 <= i < ascii_lower(s).len() implies is_tchar(ascii_lower(s)[i]) by {
        assert(is_tchar(s[i]));
    }
    assert(ascii_lower(ascii_lower(s)) =~= ascii_lower(s));
}

/// Decides `is_tchar`.
pub fn check_tchar(b: u8) -> (r: bool)
    ensures
        r == is_tchar(b),
{
    b == 0x21
        || (0x23 <= b && b <= 0x27)
        || b == 0x2a
        || b == 0x2b
        || b == 0x2d
        || b == 0x2e
        || (0x30 <= b && b <= 0x39)
        || (0x41 <= b && b <= 0x5a)
        || (0x5e <= b && b <= 0x60)
        || (0x61 <= b && b <= 0x7a)
        || b == 0x7c
        || b == 0x7e
}

/// Decides `is_token`.
pub fn check_token(s: &[u8]) -> (r: bool)
    ensures
        r == is_token(s@),
{
    if s.len() == 0 {
        return false;
    }
    let mut i: usize = 0;
    while i < s.len()
        invariant
            0 <= i <= s@.len(),
            forall|j: int| 0 <= j < i ==> is_tchar(s@[j]),
        decreases s@.len() - i,
    {
        if !check_tchar(s[i]) {
            return false;
        }
        i = i + 1;
    }
    true
}

/// Decides `is_ows_byte`.
pub fn check_ows_byte(b: u8) -> (r: bool)
    ensures
        r == is_ows_byte(b),
{
    b == 0x20 || b == 0x09
}

/// Decides `is_vis_byte`.
pub fn check_vis_byte(b: u8) -> (r: bool)
    ensures
        r == is_vis_byte(b),
{
    (0x21 <= b && b <= 0x7e) || 0x80 <= b
}

/// Decides `is_field_content`.
pub fn check_field_content(s: &[u8]) -> (r: bool)
    ensures
        r == is_field_content(s@),
{
    if s.len() == 0 {
        return false;
    }
    if !check_vis_byte(s[0]) || !check_vis_byte(s[s.len() - 1]) {
        return false;
    }
    let mut i: usize = 0;
    while i < s.len()
        invariant
            0 <= i <= s@.len(),
            forall|j: int| 0 <= j < i ==> is_vis_byte(s@[j]) || is_ows_byte(s@[j]),
        decreases s@.len() - i,
    {
        if !check_vis_byte(s[i]) && !check_ows_byte(s[i]) {
            return false;
        }
        i = i + 1;
    }
    true
}

/// The index of the first occurrence of `b` at or after `from`, or `s.len()`.
pub fn find_byte(s: &[u8], b: u8, from: usize) -> (r: usize)
    requires
        from <= s@.len(),
    ensures
        r == find_from(s@, b, from as int),
        from <= r <= s@.len(),
        r < s@.len() ==> s@[r as int] == b,
        forall|k: int| from <= k < r ==> s@[k] != b,
{
    let mut j = from;
    while j < s.len() && s[j] != b
        invariant
            from <= j <= s@.len(),
            forall|k: int| from <= k < j ==> s@[k] != b,
        decreases s@.len() - j,
    {
        j = j + 1;
    }
    proof {
        lemma_find_from_is(s@, b, from as int, j as int);
    }
    j
}

/// The end of the run of OWS bytes that starts at `from`.
pub fn skip_ows(s: &[u8], from: usize) -> (r: usize)
    requires
        from <= s@.len(),
    ensures
        from <= r <= s@.len(),
        r - from == ows_prefix_len(s@.subrange(from as int, s@.len() as int)),
{
    let mut j = from;
    while j < s.len() && check_ows_byte(s[j])
        invariant
            from <= j <= s@.len(),
            forall|k: int| from <= k < j ==> is_ows_byte(s@[k]),
        decreases s@.len() - j,
    {
        j = j + 1;
    }
    proof {
        let t = s@.subrange(from as int, s@.len() as int);
        assert forall|i: int| 0 <= i < j - from implies is_ows_byte(t[i]) by {
            assert(t[i] == s@[from + i]);
        }
        lemma_ows_prefix_len_is(t, j - from);
    }
    j
}

/// The end of the run of token characters that starts at `from`.
pub fn token_run(s: &[u8], from: usize) -> (r: usize)
    requires
        from <= s@.len(),
    ensures
        from <= r <= s@.len(),
        r - from == token_prefix_len(s@.subrange(from as int, s@.len() as int)),
{
    let mut j = from;
    while j < s.len() && check_tchar(s[j])
        invariant
            from <= j <= s@.len(),
            forall|k: int| from <= k < j ==> is_tchar(s@[k]),
        decreases s@.len() - j,
    {
        j = j + 1;
    }
    proof {
        let t = s@.subrange(from as int, s@.len() as int);
        assert forall|i: int| 0 <= i < j - from implies is_tchar(t[i]) by {
            assert(t[i] == s@[from + i]);
        }
        lemma_token_prefix_len_is(t, j - from);
    }
    j
}

/// The bounds `(lo, hi)` of `s` with leading and trailing OWS removed.
pub fn trim_ows_bounds(s: &[u8]) -> (r: (usize, usize))
    ensures
        r.0 <= r.1 <= s@.len(),
        s@.subrange(r.0 as int, r.1 as int) == trim_ows(s@),
{
    let a = skip_ows(s, 0);
    let mut j: usize = s.len();
    while j > a && check_ows_byte(s[j - 1])
        invariant
            a <= j <= s@.len(),
            forall|k: int| j <= k < s@.len() ==> is_ows_byte(s@[k]),
        decreases j,
    {
        j = j - 1;
    }
    proof {
        assert(s@.subrange(0, s@.len() as int) =~= s@);
        let t = s@.subrange(a as int, s@.len() as int);
        assert forall|i: int| t.len() - (s@.len() - j) <= i < t.len() implies is_ows_byte(t[i]) by {
            assert(t[i] == s@[a + i]);
        }
        if s@.len() - j < t.len() {
            assert(t[t.len() - 1 - (s@.len() - j)] == s@[j - 1]);
        }
        lemma_ows_suffix_len_is(t, s@.len() - j);
        assert(s@.subrange(a as int, j as int) =~= t.subrange(0, t.len() - (s@.len() - j)));
    }
    (a, j)
}

/// The ASCII-lowercased copy of a slice.
pub fn to_lower(s: &[u8]) -> (r: Vec<u8>)
    ensures
        r@ == ascii_lower(s@),
{
    let mut out: Vec<u8> = Vec::new();
    let mut i: usize = 0;
    while i < s.len()
        invariant
            0 <= i <= s@.len(),
            out@.len() == i,
            forall|j: int| 0 <= j < i ==> out@[j] == lower_byte(s@[j]),
        decreases s@.len() - i,
    {
        let b = s[i];
        if 0x41 <= b && b <= 0x5a {
            out.push(b + 0x20);
        } else {
            out.push(b);
        }
        i = i + 1;
    }
    proof {
        assert(out@ =~= ascii_lower(s@));
    }
    out
}

/// Decides `is_qdtext_byte`.
pub fn check_qdtext_byte(b: u8) -> (r: bool)
    ensures
        r == is_qdtext_byte(b),
{
    b == 0x09 || b == 0x20 || b == 0x21 || (0x23 <= b && b <= 0x5b) || (0x5d <= b && b <= 0x7e)
        || 0x80 <= b
}

/// Decides `is_qpair_byte`.
pub fn check_qpair_byte(b: u8) -> (r: bool)
    ensures
        r == is_qpair_byte(b),
{
    b == 0x09 || (0x20 <= b && b <= 0x7e) || 0x80 <= b
}

/// Scans the tail of a quoted string whose opening quote stands just
/// before `from`; returns how many bytes it spans, up to and including
/// the closing quote.
pub fn scan_quoted(s: &[u8], from: usize) -> (r: Option<usize>)
    requires
        from <= s@.len(),
    ensures
        match r {
            Some(n) => qs_tail_len(s@.subrange(from as int, s@.len() as int)) == Some(n as int) && 1
                <= n && from + n <= s@.len(),
            None => qs_tail_len(s@.subrange(from as int, s@.len() as int)) is None,
        },
{
    let ghost t0 = s@.subrange(from as int, s@.len() as int);
    let mut j = from;
    while j < s.len()
        invariant
            from <= j <= s@.len(),
            t0 == s@.subrange(from as int, s@.len() as int),
            match qs_tail_len(s@.subrange(j as int, s@.len() as int)) {
                Some(m) => qs_tail_len(t0) == Some(m + (j - from)),
                None => qs_tail_len(t0) is None,
            },
        decreases s@.len() - j,
    {
        let ghost tj = s@.subrange(j as int, s@.len() as int);
        proof {
            assert(tj[0] == s@[j as int]);
        }
        let b = s[j];
        if b == 0x22 {
            return Some(j + 1 - from);
        } else if b == 0x5c {
            if j + 1 < s.len() && check_qpair_byte(s[j + 1]) {
                proof {
                    assert(tj[1] == s@[j as int + 1]);
                    assert(tj.subrange(2, tj.len() as int) =~= s@.subrange(
                        j as int + 2,
                        s@.len() as int,
                    ));
                }
                j = j + 2;
            } else {
                proof {
                    if j + 1 < s.len() {
                        assert(tj[1] == s@[j as int + 1]);
                    }
                }
                return None;
            }
        } else if check_qdtext_byte(b) {
            proof {
                assert(tj.subrange(1, tj.len() as int) =~= s@.subrange(
                    j as int + 1,
                    s@.len() as int,
                ));
            }
            j = j + 1;
        } else {
            return None;
        }
    }
    proof {
        assert(s@.subrange(j as int, s@.len() as int).len() == 0);
    }
    None
}

/// Byte-for-byte equality of two slices.
pub fn bytes_eq(a: &[u8], b: &[u8]) -> (r: bool)
    ensures
        r == (a@ == b@),
{
    if a.len() != b.len() {
        return false;
    }
    let mut i: usize = 0;
    while i < a.len()
        invariant
            a@.len() == b@.len(),
            0 <= i <= a@.len(),
            forall|j: int| 0 <= j < i ==> a@[j] == b@[j],
        decreases a@.len() - i,
    {
        if a[i] != b[i] {
            return false;
        }
        i = i + 1;
    }
    proof {
        assert(a@ =~= b@);
    }
    true
}

} // verus!
