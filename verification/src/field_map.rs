//! The header field map: an ordered collection of name/value pairs with
//! case-insensitively unique names (names are stored lowercased, so
//! uniqueness is plain equality of the stored bytes).  The merge policy
//! for a repeated name is last-wins: the new value replaces the old one
//! in place, keeping the position of the first insertion.

use vstd::prelude::*;
use crate::grammar::ascii_lower;
use crate::grammar::bytes_eq;
use crate::grammar::to_lower;
use crate::header_field::HeaderName;
use crate::header_field::HeaderValue;

verus! {

/// The index of the first entry of `es` named `name` at or after `i`,
/// or `es.len()` if there is none.
pub open spec fn find_name(es: Seq<(Seq<u8>, Seq<u8>)>, name: Seq<u8>, i: int) -> int
    recommends
        0 <= i <= es.len(),
    decreases es.len() - i,
{
    if i >= es.len() {
        es.len() as int
    } else if es[i].0 == name {
        i
    } else {
        find_name(es, name, i + 1)
    }
}

pub proof fn lemma_find_name_is(es: Seq<(Seq<u8>, Seq<u8>)>, name: Seq<u8>, i: int, j: int)
    requires
        0 <= i <= j <= es.len(),
        forall|k: int| i <= k < j ==> es[k].0 != name,
        j < es.len() ==> es[j].0 == name,
    ensures
        find_name(es, name, i) == j,
    decreases j - i,
{
    if i < j {
        lemma_find_name_is(es, name, i + 1, j);
    }
}

/// What inserting `(name, value)` does to the entries: replaces the value
/// of the first entry with that name, or appends a new entry.
pub open spec fn spec_insert(
    es: Seq<(Seq<u8>, Seq<u8>)>,
    name: Seq<u8>,
    value: Seq<u8>,
) -> Seq<(Seq<u8>, Seq<u8>)> {
    let i = find_name(es, name, 0);
    if i < es.len() {
        es.update(i, (name, value))
    } else {
        es.push((name, value))
    }
}

/// The value stored under `name`, if any.
pub open spec fn spec_get(es: Seq<(Seq<u8>, Seq<u8>)>, name: Seq<u8>) -> Option<Seq<u8>> {
    let i = find_name(es, name, 0);
    if i < es.len() {
        Some(es[i].1)
    } else {
        None
    }
}

/// An ordered map from lowercased header names to header values.
#[derive(Debug)]
pub struct HeaderFieldMap {
    entries: Vec<(HeaderName, HeaderValue)>,
}

impl View for HeaderFieldMap {
    type V = Seq<(Seq<u8>, Seq<u8>)>;

    closed spec fn view(&self) -> Seq<(Seq<u8>, Seq<u8>)> {
        Seq::new(self.entries@.len(), |i: int| (self.entries@[i].0@, self.entries@[i].1@))
    }
}

impl HeaderFieldMap {
    /// Entry names are unique, and every entry satisfies the construction
    /// rules: a lowercase token name and a `field-content` value.
    pub open spec fn wf(&self) -> bool {
        &&& forall|i: int, j: int| 0 <= i < j < self@.len() ==> self@[i].0 != self@[j].0
        &&& forall|i: int|
            0 <= i < self@.len() ==> crate::grammar::is_token(self@[i].0) && self@[i].0
                == ascii_lower(self@[i].0) && crate::grammar::is_field_content(self@[i].1)
    }

    /// An empty map.
    pub fn new() -> (r: Self)
        ensures
            r@ == Seq::<(Seq<u8>, Seq<u8>)>::empty(),
            r.wf(),
    {
        let r = HeaderFieldMap { entries: Vec::new() };
        proof {
            assert(r@ =~= Seq::<(Seq<u8>, Seq<u8>)>::empty());
        }
        r
    }

    /// The number of entries.
    pub fn len(&self) -> (r: usize)
        ensures
            r == self@.len(),
    {
        self.entries.len()
    }

    /// Inserts a parsed name/value pair, replacing the value in place if
    /// the name is already present (last-wins).
    pub fn insert(&mut self, name: HeaderName, value: HeaderValue)
        requires
            old(self).wf(),
            name.wf(),
            value.wf(),
        ensures
            final(self)@ == spec_insert(old(self)@, name@, value@),
            final(self).wf(),
    {
        let ghost name_view = name@;
        let ghost value_view = value@;
        let mut i: usize = 0;
        while i < self.entries.len()
            invariant
                *self == *old(self),
                old(self).wf(),
                name.wf(),
                value.wf(),
                name_view == name@,
                value_view == value@,
                0 <= i <= self.entries@.len(),
                forall|k: int| 0 <= k < i ==> self@[k].0 != name_view,
            decreases self.entries@.len() - i,
        {
            proof {
                assert(self@[i as int] == (self.entries@[i as int].0@, self.entries@[i as int].1@));
            }
            if bytes_eq(self.entries[i].0.as_bytes().as_slice(), name.as_bytes().as_slice()) {
                let ghost pre = self@;
                proof {
                    lemma_find_name_is(pre, name_view, 0, i as int);
                }
                self.entries[i] = (name, value);
                proof {
                    assert forall|k: int| 0 <= k < self@.len() implies self@[k] == pre.update(
                        i as int,
                        (name_view, value_view),
                    )[k] by {
                        assert(self@[k] == (self.entries@[k].0@, self.entries@[k].1@));
                    }
                    assert(self@ =~= pre.update(i as int, (name_view, value_view)));
                    assert(pre[i as int].0 == name_view);
                    assert forall|a: int, b: int|
                        0 <= a < b < self@.len() implies self@[a].0 != self@[b].0 by {
                        assert(pre[a].0 != pre[b].0);
                    }
                    assert forall|k: int|
                        0 <= k < self@.len() implies crate::grammar::is_token(self@[k].0)
                            && self@[k].0 == ascii_lower(self@[k].0)
                            && crate::grammar::is_field_content(self@[k].1) by {
                        if k != i as int {
                            assert(crate::grammar::is_token(pre[k].0));
                            assert(pre[k].0 == ascii_lower(pre[k].0));
                            assert(crate::grammar::is_field_content(pre[k].1));
                        }
                    }
                }
                return ;
            }
            i = i + 1;
        }
        let ghost pre = self@;
        proof {
            lemma_find_name_is(pre, name_view, 0, pre.len() as int);
        }
        self.entries.push((name, value));
        proof {
            assert forall|k: int| 0 <= k < self@.len() implies self@[k] == pre.push(
                (name_view, value_view),
            )[k] by {
                assert(self@[k] == (self.entries@[k].0@, self.entries@[k].1@));
                if k < pre.len() {
                    assert(pre[k] == (self.entries@[k].0@, self.entries@[k].1@));
                }
            }
            assert(self@ =~= pre.push((name_view, value_view)));
        }
    }

    /// Looks up a name, compared case-insensitively (the argument is
    /// lowercased before the comparison).
    pub fn get(&self, name: &[u8]) -> (r: Option<&HeaderValue>)
        ensures
            match r {
                Some(v) => spec_get(self@, ascii_lower(name@)) == Some(v@),
                None => spec_get(self@, ascii_lower(name@)) is None,
            },
    {
        let lname = to_lower(name);
        let mut i: usize = 0;
        while i < self.entries.len()
            invariant
                lname@ == ascii_lower(name@),
                0 <= i <= self.entries@.len(),
                forall|k: int| 0 <= k < i ==> self@[k].0 != lname@,
            decreases self.entries@.len() - i,
        {
            proof {
                assert(self@[i as int] == (self.entries@[i as int].0@, self.entries@[i as int].1@));
            }
            if bytes_eq(self.entries[i].0.as_bytes().as_slice(), lname.as_slice()) {
                proof {
                    lemma_find_name_is(self@, lname@, 0, i as int);
                }
                return Some(&self.entries[i].1);
            }
            i = i + 1;
        }
        proof {
            lemma_find_name_is(self@, lname@, 0, self@.len() as int);
        }
        None
    }
}

} // verus!
