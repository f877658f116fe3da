//! Static reference directories keyed by ticker symbol.
//!
//! One structure serves both read-only mappings the pipeline needs: the
//! place directory (ticker to address and country) and the broker alias
//! directory (ticker to payer identifier and display name). Absence of a
//! key is an expected condition, answered with `None`, never a failure.

use vstd::prelude::*;
use crate::strutil::str_eq;

verus! {

pub ghost struct DirEntryV {
    pub key: Seq<char>,
    pub first: Seq<char>,
    pub second: Seq<char>,
}

pub struct DirEntry {
    pub key: String,
    pub first: String,
    pub second: String,
}

impl View for DirEntry {
    type V = DirEntryV;

    open spec fn view(&self) -> DirEntryV {
        DirEntryV { key: self.key@, first: self.first@, second: self.second@ }
    }
}

/// First entry whose key equals `key`, if any.
pub open spec fn dir_lookup(d: Seq<DirEntryV>, key: Seq<char>) -> Option<(Seq<char>, Seq<char>)>
    decreases d.len(),
{
    if d.len() == 0 {
        None
    } else if d[0].key == key {
        Some((d[0].first, d[0].second))
    } else {
        dir_lookup(d.skip(1), key)
    }
}

proof fn lemma_dir_lookup_skip(d: Seq<DirEntryV>, key: Seq<char>, i: int)
    requires
        0 <= i <= d.len(),
        forall|j: int| 0 <= j < i ==> d[j].key != key,
    ensures
        dir_lookup(d, key) == dir_lookup(d.skip(i), key),
    decreases i,
{
    if i > 0 {
        assert(d.skip(1).skip(i - 1) =~= d.skip(i));
        assert forall|j: int| 0 <= j < i - 1 implies d.skip(1)[j].key != key by {
            assert(d.skip(1)[j] == d[j + 1]);
        }
        lemma_dir_lookup_skip(d.skip(1), key, i - 1);
    } else {
        assert(d.skip(0) =~= d);
    }
}

/// A read-only ticker-keyed directory of string pairs.
pub struct Directory {
    entries: Vec<DirEntry>,
}

impl View for Directory {
    type V = Seq<DirEntryV>;

    closed spec fn view(&self) -> Seq<DirEntryV> {
        self.entries@.map_values(|e: DirEntry| e@)
    }
}

impl Directory {
    pub fn new() -> (r: Directory)
        ensures
            r@ =~= Seq::<DirEntryV>::empty(),
    {
        Directory { entries: Vec::new() }
    }

    pub fn add(&mut self, key: String, first: String, second: String)
        ensures
            final(self)@ =~= old(self)@.push(
                DirEntryV { key: key@, first: first@, second: second@ },
            ),
    {
        self.entries.push(DirEntry { key, first, second });
    }

}

/// Resolves a ticker in a directory, answering the first matching entry's
/// pair of values: address and country in the place directory, payer
/// identifier and name in the broker alias directory.
pub fn company_address(company_name: &str, places: &Directory) -> (r: Option<(String, String)>)
    ensures
        match r {
            Some(p) => dir_lookup(places@, company_name@) == Some((p.0@, p.1@)),
            None => dir_lookup(places@, company_name@) is None,
        },
{
    let n = places.entries.len();
    let mut i: usize = 0;
    while i < n
        invariant
            0 <= i <= n,
            n == places.entries.len(),
            forall|j: int| 0 <= j < i ==> places@[j].key != company_name@,
        decreases n - i,
    {
        let e = &places.entries[i];
        if str_eq(e.key.as_str(), company_name) {
            proof {
                lemma_dir_lookup_skip(places@, company_name@, i as int);
                assert(places@.skip(i as int)[0] == places@[i as int]);
            }
            return Some((e.first.clone(), e.second.clone()));
        }
        i = i + 1;
    }
    proof {
        lemma_dir_lookup_skip(places@, company_name@, n as int);
        assert(places@.skip(n as int) =~= Seq::<DirEntryV>::empty());
    }
    None
}

} // verus!
