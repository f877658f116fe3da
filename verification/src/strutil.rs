//! Character-exact string helpers shared by the converter, the parsers and
//! the report writer: equality, first-occurrence search, the date-only
//! truncation rule and the decimal-point-to-comma rewrite.

use vstd::prelude::*;

verus! {

/// Index of the first occurrence of `c1` or `c2` in `s`, or `s.len()` when
/// neither occurs.
pub open spec fn first_in(s: Seq<char>, c1: char, c2: char) -> nat
    decreases s.len(),
{
    if s.len() == 0 {
        0
    } else if s[0] == c1 || s[0] == c2 {
        0
    } else {
        1 + first_in(s.skip(1), c1, c2)
    }
}

pub proof fn lemma_first_in_exact(s: Seq<char>, c1: char, c2: char, i: int)
    requires
        0 <= i <= s.len(),
        forall|j: int| 0 <= j < i ==> s[j] != c1 && s[j] != c2,
        i < s.len() ==> (s[i] == c1 || s[i] == c2),
    ensures
        first_in(s, c1, c2) == i,
    decreases s.len(),
{
    if s.len() == 0 {
    } else if s[0] == c1 || s[0] == c2 {
        assert(i == 0);
    } else {
        assert(i >= 1);
        assert forall|j: int| 0 <= j < i - 1 implies s.skip(1)[j] != c1 && s.skip(1)[j] != c2 by {
            assert(s.skip(1)[j] == s[j + 1]);
        }
        if i < s.len() {
            assert(s.skip(1)[i - 1] == s[i]);
        }
        lemma_first_in_exact(s.skip(1), c1, c2, i - 1);
    }
}

/// Finds the first occurrence of `c1` or `c2` in `s` at or after `from`,
/// returning `s@.len()` when neither occurs there.
pub fn find_first(s: &str, from: usize, c1: char, c2: char) -> (r: usize)
    requires
        from <= s@.len(),
    ensures
        from <= r <= s@.len(),
        r - from == first_in(s@.skip(from as int), c1, c2),
        forall|j: int| from <= j < r ==> s@[j] != c1 && s@[j] != c2,
        r < s@.len() ==> (s@[r as int] == c1 || s@[r as int] == c2),
{
    let n = s.unicode_len();
    let mut i = from;
    let mut found = false;
    while i < n && !found
        invariant
            from <= i <= n,
            n == s@.len(),
            from <= s@.len(),
            forall|j: int| from <= j < i ==> s@[j] != c1 && s@[j] != c2,
            found ==> i < n && (s@[i as int] == c1 || s@[i as int] == c2),
        decreases n - i + (if found { 0int } else { 1int }),
    {
        let c = s.get_char(i);
        if c == c1 || c == c2 {
            found = true;
        } else {
            i = i + 1;
        }
    }
    proof {
        assert forall|j: int| 0 <= j < i - from implies s@.skip(from as int)[j] != c1
            && s@.skip(from as int)[j] != c2 by {
            assert(s@.skip(from as int)[j] == s@[from + j]);
        }
        if i < n {
            assert(s@.skip(from as int)[i - from] == s@[i as int]);
        }
        lemma_first_in_exact(s@.skip(from as int), c1, c2, i - from);
    }
    i
}

/// Character-sequence equality on string slices.
pub fn str_eq(a: &str, b: &str) -> (r: bool)
    ensures
        r == (a@ == b@),
{
    let na = a.unicode_len();
    let nb = b.unicode_len();
    if na != nb {
        return false;
    }
    let mut i: usize = 0;
    while i < na
        invariant
            0 <= i <= na,
            na == a@.len(),
            na == b@.len(),
            forall|j: int| 0 <= j < i ==> a@[j] == b@[j],
        decreases na - i,
    {
        if a.get_char(i) != b.get_char(i) {
            return false;
        }
        i = i + 1;
    }
    proof {
        assert(a@ =~= b@);
    }
    true
}

/// The date-only portion of a timestamp: everything before the first space
/// or `'T'` separator (the whole string when no separator occurs).
pub open spec fn date_only(s: Seq<char>) -> Seq<char> {
    s.subrange(0, first_in(s, ' ', 'T') as int)
}

/// Truncates a timestamp to its date-only portion.
pub fn date_part<'a>(s: &'a str) -> (r: &'a str)
    ensures
        r@ == date_only(s@),
{
    let i = find_first(s, 0, ' ', 'T');
    proof {
        assert(s@.skip(0) =~= s@);
    }
    s.substring_char(0, i)
}

/// `s` with its first `'.'` (if any) replaced by `','`; the local decimal
/// convention applied to an already-formatted amount.
pub open spec fn comma_first(s: Seq<char>) -> Seq<char> {
    let i = first_in(s, '.', '.') as int;
    if i == s.len() {
        s
    } else {
        s.subrange(0, i) + seq![','] + s.skip(i + 1)
    }
}

/// `s` with every `'.'` replaced by `','`: the rewrite the report stage
/// applies to the amount field.
pub open spec fn comma_all(s: Seq<char>) -> Seq<char> {
    Seq::new(
        s.len(),
        |i: int|
            if s[i] == '.' {
                ','
            } else {
                s[i]
            },
    )
}

/// Replaces every decimal point of `s` with a comma.
pub fn commify_all(s: &str) -> (r: String)
    ensures
        r@ == comma_all(s@),
{
    let n = s.unicode_len();
    let mut out = String::new();
    let mut start: usize = 0;
    while start < n
        invariant
            0 <= start <= n,
            n == s@.len(),
            out@ == comma_all(s@).subrange(0, start as int),
        decreases n - start,
    {
        let i = find_first(s, start, '.', '.');
        let seg = s.substring_char(start, i);
        out.append(seg);
        if i < n {
            out.append(",");
            proof {
                reveal_strlit(",");
                assert(out@ =~= comma_all(s@).subrange(0, i + 1));
            }
            start = i + 1;
        } else {
            proof {
                assert(out@ =~= comma_all(s@).subrange(0, n as int));
            }
            start = n;
        }
    }
    proof {
        assert(comma_all(s@).subrange(0, n as int) =~= comma_all(s@));
    }
    out
}

/// Law: the comma rewrite leaves a string without a decimal point
/// unchanged.
pub proof fn lemma_comma_first_no_dot(s: Seq<char>)
    requires
        forall|j: int| 0 <= j < s.len() ==> s[j] != '.',
    ensures
        comma_first(s) == s,
{
    lemma_first_in_exact(s, '.', '.', s.len() as int);
}

/// Replaces the first decimal point of `s` with a comma, leaving a dot-free
/// string unchanged.
pub fn commify(s: &str) -> (r: String)
    ensures
        r@ == comma_first(s@),
{
    let n = s.unicode_len();
    let i = find_first(s, 0, '.', '.');
    proof {
        assert(s@.skip(0) =~= s@);
    }
    if i == n {
        proof {
            assert(comma_first(s@) == s@);
        }
        s.to_owned()
    } else {
        let head = s.substring_char(0, i);
        let tail = s.substring_char(i + 1, n);
        let r = head.to_owned().concat(",").concat(tail);
        proof {
            reveal_strlit(",");
            assert(","@ =~= seq![',']);
            assert(s@.skip(i + 1) =~= s@.subrange(i + 1 as int, n as int));
            assert(r@ =~= comma_first(s@));
        }
        r
    }
}

} // verus!
