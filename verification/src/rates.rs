//! The date-indexed exchange-rate table.
//!
//! Each entry pairs a date string and a currency code with the rate parsed
//! as an exact decimal (units of that currency per one EUR). Lookup is by
//! exact date: when the date is absent there is no fallback to a
//! neighboring date, and the conversion fails for that row.

use vstd::prelude::*;
use crate::decimal::{Dec, DecV, parse_dec, spec_parse_dec};
use crate::strutil::str_eq;

verus! {

pub ghost struct RateEntryV {
    pub date: Seq<char>,
    pub code: Seq<char>,
    pub rate: DecV,
}

struct RateEntry {
    date: String,
    code: String,
    rate: Dec,
}

impl View for RateEntry {
    type V = RateEntryV;

    closed spec fn view(&self) -> RateEntryV {
        RateEntryV { date: self.date@, code: self.code@, rate: self.rate@ }
    }
}

/// Whether some entry carries the given date.
pub open spec fn has_date(t: Seq<RateEntryV>, date: Seq<char>) -> bool
    decreases t.len(),
{
    if t.len() == 0 {
        false
    } else {
        t[0].date == date || has_date(t.skip(1), date)
    }
}

/// The last rate recorded for the given date and currency code, if any: a
/// later entry for the same date and currency overrides an earlier one, as
/// for a mapping built by successive insertion.
pub open spec fn rate_lookup(t: Seq<RateEntryV>, date: Seq<char>, code: Seq<char>) -> Option<DecV>
    decreases t.len(),
{
    if t.len() == 0 {
        None
    } else if t.last().date == date && t.last().code == code {
        Some(t.last().rate)
    } else {
        rate_lookup(t.drop_last(), date, code)
    }
}

proof fn lemma_has_date_skip(t: Seq<RateEntryV>, date: Seq<char>, i: int)
    requires
        0 <= i <= t.len(),
        forall|j: int| 0 <= j < i ==> t[j].date != date,
    ensures
        has_date(t, date) == has_date(t.skip(i), date),
    decreases i,
{
    if i > 0 {
        assert(t.skip(1).skip(i - 1) =~= t.skip(i));
        assert forall|j: int| 0 <= j < i - 1 implies t.skip(1)[j].date != date by {
            assert(t.skip(1)[j] == t[j + 1]);
        }
        lemma_has_date_skip(t.skip(1), date, i - 1);
    } else {
        assert(t.skip(0) =~= t);
    }
}

/// The rate table. Every stored rate comes from the accepted decimal
/// grammar, so its mantissa has at most fifteen digits.
pub struct RateTable {
    entries: Vec<RateEntry>,
}

impl View for RateTable {
    type V = Seq<RateEntryV>;

    closed spec fn view(&self) -> Seq<RateEntryV> {
        self.entries@.map_values(|e: RateEntry| e@)
    }
}

impl RateTable {
    #[verifier::type_invariant]
    spec fn inv(self) -> bool {
        forall|i: int| 0 <= i < self.entries@.len() ==> (#[trigger] self.entries@[i]@).rate.mantissa
            < 1000000000000000 && self.entries@[i]@.rate.scale <= 15
    }

    pub fn new() -> (r: RateTable)
        ensures
            r@ =~= Seq::<RateEntryV>::empty(),
    {
        RateTable { entries: Vec::new() }
    }

    /// Records one rate for a date and currency code. Fails exactly when
    /// the rate string is not in the accepted decimal grammar, leaving the
    /// table unchanged.
    pub fn add_rate(&mut self, date: &str, code: &str, rate: &str) -> (ok: bool)
        ensures
            ok ==> (spec_parse_dec(rate@) matches Some(d) && final(self)@ =~= old(self)@.push(
                RateEntryV { date: date@, code: code@, rate: d },
            )),
            !ok ==> spec_parse_dec(rate@) is None && final(self)@ == old(self)@,
    {
        match parse_dec(rate) {
            Some(d) => {
                proof {
                    use_type_invariant(&*self);
                }
                let mut es: Vec<RateEntry> = Vec::new();
                core::mem::swap(&mut es, &mut self.entries);
                es.push(RateEntry { date: date.to_owned(), code: code.to_owned(), rate: d });
                core::mem::swap(&mut es, &mut self.entries);
                true
            },
            None => false,
        }
    }

    /// Whether the table holds any entry for this exact date.
    pub fn contains_date(&self, date: &str) -> (r: bool)
        ensures
            r == has_date(self@, date@),
    {
        let n = self.entries.len();
        let mut i: usize = 0;
        while i < n
            invariant
                0 <= i <= n,
                n == self.entries.len(),
                forall|j: int| 0 <= j < i ==> self@[j].date != date@,
            decreases n - i,
        {
            let e = &self.entries[i];
            if str_eq(e.date.as_str(), date) {
                proof {
                    lemma_has_date_skip(self@, date@, i as int);
                    assert(self@.skip(i as int)[0] == self@[i as int]);
                }
                return true;
            }
            i = i + 1;
        }
        proof {
            lemma_has_date_skip(self@, date@, n as int);
            assert(self@.skip(n as int) =~= Seq::<RateEntryV>::empty());
        }
        false
    }

    /// The rate in force for this exact date and currency code, if any:
    /// the latest entry recorded for the pair.
    pub fn find_rate(&self, date: &str, code: &str) -> (r: Option<Dec>)
        ensures
            match r {
                Some(d) => rate_lookup(self@, date@, code@) == Some(d@) && d.mantissa
                    < 1000000000000000 && d.scale <= 15,
                None => rate_lookup(self@, date@, code@) is None,
            },
    {
        proof {
            use_type_invariant(self);
        }
        let n = self.entries.len();
        let mut i: usize = 0;
        let mut found: Option<Dec> = None;
        while i < n
            invariant
                0 <= i <= n,
                n == self.entries.len(),
                match found {
                    Some(d) => rate_lookup(self@.take(i as int), date@, code@) == Some(d@)
                        && d.mantissa < 1000000000000000 && d.scale <= 15,
                    None => rate_lookup(self@.take(i as int), date@, code@) is None,
                },
                forall|k: int| 0 <= k < self.entries@.len() ==> (#[trigger] self.entries@[k]@)
                    .rate.mantissa < 1000000000000000 && self.entries@[k]@.rate.scale <= 15,
            decreases n - i,
        {
            let e = &self.entries[i];
            proof {
                assert(self@.take(i + 1).drop_last() =~= self@.take(i as int));
                assert(self@.take(i + 1).last() == self@[i as int]);
            }
            if str_eq(e.date.as_str(), date) && str_eq(e.code.as_str(), code) {
                found = Some(Dec { neg: e.rate.neg, mantissa: e.rate.mantissa, scale: e.rate.scale });
            }
            i = i + 1;
        }
        proof {
            assert(self@.take(n as int) =~= self@);
        }
        found
    }
}

} // verus!
