//! Exact decimal arithmetic for amounts and exchange rates.
//!
//! An amount string is parsed into a sign, an integer mantissa and a decimal
//! scale (`"12.34"` becomes `12.34 = 1234 / 10^2`). Conversion multiplies
//! mantissas and rounds the exact product to whole euro cents, half away
//! from zero, so no floating-point error ever enters a reported figure.

use vstd::prelude::*;

verus! {

pub open spec fn pow10(e: nat) -> nat
    decreases e,
{
    if e == 0 {
        1
    } else {
        10 * pow10((e - 1) as nat)
    }
}

pub proof fn lemma_pow10_pos(e: nat)
    ensures
        pow10(e) >= 1,
    decreases e,
{
    if e > 0 {
        lemma_pow10_pos((e - 1) as nat);
    }
}

pub proof fn lemma_pow10_mono(a: nat, b: nat)
    requires
        a <= b,
    ensures
        pow10(a) <= pow10(b),
    decreases b,
{
    if a < b && b > 0 {
        lemma_pow10_mono(a, (b - 1) as nat);
        lemma_pow10_pos((b - 1) as nat);
    }
}

pub proof fn lemma_pow10_15()
    ensures
        pow10(15) == 1000000000000000,
{
    reveal_with_fuel(pow10, 16);
}

pub proof fn lemma_pow10_16()
    ensures
        pow10(16) == 10000000000000000,
{
    reveal_with_fuel(pow10, 17);
}

pub proof fn lemma_pow10_28()
    ensures
        pow10(28) == 10000000000000000000000000000,
{
    reveal_with_fuel(pow10, 29);
}

/// Numeric value of a decimal digit character.
pub open spec fn digit_val(c: char) -> Option<nat> {
    if c == '0' {
        Some(0nat)
    } else if c == '1' {
        Some(1nat)
    } else if c == '2' {
        Some(2nat)
    } else if c == '3' {
        Some(3nat)
    } else if c == '4' {
        Some(4nat)
    } else if c == '5' {
        Some(5nat)
    } else if c == '6' {
        Some(6nat)
    } else if c == '7' {
        Some(7nat)
    } else if c == '8' {
        Some(8nat)
    } else if c == '9' {
        Some(9nat)
    } else {
        None
    }
}

fn digit_of(c: char) -> (r: Option<u8>)
    ensures
        match r {
            Some(d) => digit_val(c) == Some(d as nat) && d <= 9,
            None => digit_val(c) is None,
        },
{
    match c {
        '0' => Some(0u8),
        '1' => Some(1u8),
        '2' => Some(2u8),
        '3' => Some(3u8),
        '4' => Some(4u8),
        '5' => Some(5u8),
        '6' => Some(6u8),
        '7' => Some(7u8),
        '8' => Some(8u8),
        '9' => Some(9u8),
        _ => None,
    }
}

/// State of the left-to-right scan of a decimal string's body: mantissa so
/// far, digits seen, whether the decimal point was seen, fractional digits.
pub ghost struct ScanSt {
    pub m: nat,
    pub nd: nat,
    pub dot: bool,
    pub fr: nat,
}

pub open spec fn scan_step(st: Option<ScanSt>, c: char) -> Option<ScanSt> {
    match st {
        None => None,
        Some(st) => match digit_val(c) {
            Some(d) => Some(
                ScanSt {
                    m: st.m * 10 + d,
                    nd: st.nd + 1,
                    dot: st.dot,
                    fr: if st.dot {
                        st.fr + 1
                    } else {
                        st.fr
                    },
                },
            ),
            None => if c == '.' && !st.dot {
                Some(ScanSt { m: st.m, nd: st.nd, dot: true, fr: st.fr })
            } else {
                None
            },
        },
    }
}

/// Scans a decimal body: digits with at most one interior `'.'`.
pub open spec fn scan(b: Seq<char>) -> Option<ScanSt>
    decreases b.len(),
{
    if b.len() == 0 {
        Some(ScanSt { m: 0, nd: 0, dot: false, fr: 0 })
    } else {
        scan_step(scan(b.drop_last()), b.last())
    }
}

pub proof fn lemma_scan_shape(b: Seq<char>)
    ensures
        scan(b) matches Some(st) ==> {
            &&& st.nd + (if st.dot { 1nat } else { 0nat }) == b.len()
            &&& st.fr <= st.nd
            &&& st.m < pow10(st.nd)
        },
    decreases b.len(),
{
    if b.len() > 0 {
        lemma_scan_shape(b.drop_last());
        if scan(b) is Some && scan(b.drop_last()) is Some {
            let st0 = scan(b.drop_last()).unwrap();
            if digit_val(b.last()) is Some {
                assert(st0.m * 10 + 9 < pow10(st0.nd) * 10);
            }
        }
    }
}

pub proof fn lemma_scan_none_extends(b: Seq<char>, k: int)
    requires
        0 <= k <= b.len(),
        scan(b.take(k)) is None,
    ensures
        scan(b) is None,
    decreases b.len() - k,
{
    if k == b.len() {
        assert(b.take(k) =~= b);
    } else {
        assert(b.take(k + 1).drop_last() =~= b.take(k));
        assert(scan(b.take(k + 1)) is None);
        lemma_scan_none_extends(b, k + 1);
    }
}

pub proof fn lemma_scan_nd_monotone(b: Seq<char>, k: int)
    requires
        0 <= k <= b.len(),
        scan(b) is Some,
    ensures
        scan(b.take(k)) is Some,
        scan(b.take(k)).unwrap().nd <= scan(b).unwrap().nd,
    decreases b.len() - k,
{
    if k == b.len() {
        assert(b.take(k) =~= b);
    } else {
        lemma_scan_nd_monotone(b, k + 1);
        assert(b.take(k + 1).drop_last() =~= b.take(k));
    }
}

/// Spec-level decimal value: sign, mantissa and scale, standing for
/// `(-1)^neg * mantissa / 10^scale`.
pub ghost struct DecV {
    pub neg: bool,
    pub mantissa: nat,
    pub scale: nat,
}

/// Exec decimal value; the view carries the same three components.
pub struct Dec {
    pub neg: bool,
    pub mantissa: u64,
    pub scale: u32,
}

impl View for Dec {
    type V = DecV;

    open spec fn view(&self) -> DecV {
        DecV { neg: self.neg, mantissa: self.mantissa as nat, scale: self.scale as nat }
    }
}

pub open spec fn dec_negative(s: Seq<char>) -> bool {
    s.len() > 0 && s[0] == '-'
}

pub open spec fn dec_body(s: Seq<char>) -> Seq<char> {
    if dec_negative(s) {
        s.skip(1)
    } else {
        s
    }
}

/// What it means for a string to be an accepted decimal number: an optional
/// leading minus sign, then one to fifteen digits with at most one interior
/// decimal point.
pub open spec fn spec_parse_dec(s: Seq<char>) -> Option<DecV> {
    match scan(dec_body(s)) {
        None => None,
        Some(st) => if 1 <= st.nd <= 15 {
            Some(DecV { neg: dec_negative(s), mantissa: st.m, scale: st.fr })
        } else {
            None
        },
    }
}

/// Parses a decimal amount string; `None` exactly on strings the accepted
/// grammar refuses.
pub fn parse_dec(s: &str) -> (r: Option<Dec>)
    ensures
        match r {
            Some(d) => spec_parse_dec(s@) == Some(d@) && d.mantissa < 1000000000000000 && d.scale
                <= 15,
            None => spec_parse_dec(s@) is None,
        },
{
    let n = s.unicode_len();
    let start: usize = if n > 0 && s.get_char(0) == '-' {
        1
    } else {
        0
    };
    let ghost b = s@.skip(start as int);
    proof {
        assert(s@.skip(0) =~= s@);
        assert(b == dec_body(s@));
    }
    let mut m: u64 = 0;
    let mut nd: u32 = 0;
    let mut dot: bool = false;
    let mut fr: u32 = 0;
    let mut k: usize = start;
    while k < n
        invariant
            start <= k <= n,
            n == s@.len(),
            b == s@.skip(start as int),
            b == dec_body(s@),
            scan(b.take(k - start)) == Some(
                ScanSt { m: m as nat, nd: nd as nat, dot, fr: fr as nat },
            ),
            fr <= nd <= 16,
            m < 10000000000000000,
        decreases n - k,
    {
        let c = s.get_char(k);
        proof {
            assert(b[k - start] == s@[k as int]);
            assert(b.take(k - start + 1).drop_last() =~= b.take(k - start));
            assert(b.take(k - start + 1).last() == b[k - start]);
        }
        match digit_of(c) {
            Some(d) => {
                if nd == 16 {
                    proof {
                        if scan(b) is Some {
                            lemma_scan_nd_monotone(b, k - start);
                        }
                    }
                    return None;
                }
                m = m * 10 + (d as u64);
                nd = nd + 1;
                if dot {
                    fr = fr + 1;
                }
                proof {
                    lemma_scan_shape(b.take(k - start + 1));
                    lemma_pow10_16();
                    lemma_pow10_mono(nd as nat, 16);
                }
            },
            None => {
                if c == '.' && !dot {
                    dot = true;
                } else {
                    proof {
                        lemma_scan_none_extends(b, k - start + 1);
                    }
                    return None;
                }
            },
        }
        k = k + 1;
    }
    proof {
        assert(b.take(n - start) =~= b);
    }
    if 1 <= nd && nd <= 15 {
        proof {
            lemma_scan_shape(b);
            lemma_pow10_15();
            lemma_pow10_mono(nd as nat, 15);
        }
        Some(Dec { neg: start == 1, mantissa: m, scale: fr })
    } else {
        None
    }
}

/// The exact product `p / 10^s`, expressed in cents and rounded half away
/// from zero: multiplied up when fewer than two fractional digits exist,
/// otherwise divided with half of the divisor added first.
pub open spec fn cents_of(p: nat, s: nat) -> nat {
    if s <= 2 {
        p * pow10((2 - s) as nat)
    } else {
        (p + pow10((s - 2) as nat) / 2) / pow10((s - 2) as nat)
    }
}

fn pow10_u128(e: u32) -> (r: u128)
    requires
        e <= 28,
    ensures
        r == pow10(e as nat),
{
    let mut i: u32 = 0;
    let mut acc: u128 = 1;
    while i < e
        invariant
            i <= e <= 28,
            acc == pow10(i as nat),
        decreases e - i,
    {
        proof {
            lemma_pow10_mono(i as nat + 1, 28);
            lemma_pow10_28();
        }
        acc = acc * 10;
        i = i + 1;
    }
    acc
}

/// Rounds the scaled product `p / 10^s` to whole cents.
pub fn cents_exec(p: u128, s: u32) -> (r: u128)
    requires
        p < 100000000000000000000000000000000,
        s <= 30,
    ensures
        r == cents_of(p as nat, s as nat),
        r < 10000000000000000000000000000000000,
{
    if s == 2 {
        proof {
            assert(pow10(0) == 1);
            assert(cents_of(p as nat, s as nat) == p as nat * pow10(0));
        }
        p
    } else if s == 1 {
        proof {
            assert(pow10(0) == 1);
            assert(pow10(1) == 10);
            assert(cents_of(p as nat, s as nat) == p as nat * pow10(1));
        }
        p * 10
    } else if s == 0 {
        proof {
            assert(pow10(0) == 1);
            assert(pow10(1) == 10);
            assert(pow10(2) == 100);
            assert(cents_of(p as nat, s as nat) == p as nat * pow10(2));
        }
        p * 100
    } else {
        let d = pow10_u128(s - 2);
        proof {
            lemma_pow10_pos((s - 2) as nat);
            lemma_pow10_mono((s - 2) as nat, 28);
            lemma_pow10_28();
            assert((p as int + d as int / 2) / d as int <= p as int + d as int / 2)
                by (nonlinear_arith)
                requires
                    d >= 1,
            ;
        }
        (p + d / 2) / d
    }
}

/// Decimal digit string of `n`, most significant digit first.
pub open spec fn digit_char(d: nat) -> char {
    if d == 0 {
        '0'
    } else if d == 1 {
        '1'
    } else if d == 2 {
        '2'
    } else if d == 3 {
        '3'
    } else if d == 4 {
        '4'
    } else if d == 5 {
        '5'
    } else if d == 6 {
        '6'
    } else if d == 7 {
        '7'
    } else if d == 8 {
        '8'
    } else {
        '9'
    }
}

pub open spec fn dec_digits(n: nat) -> Seq<char>
    decreases n,
{
    if n < 10 {
        seq![digit_char(n)]
    } else {
        dec_digits(n / 10) + seq![digit_char(n % 10)]
    }
}

fn digit_str(d: u128) -> (r: &'static str)
    requires
        d <= 9,
    ensures
        r@ == seq![digit_char(d as nat)],
{
    let r: &'static str = if d == 0 {
        "0"
    } else if d == 1 {
        "1"
    } else if d == 2 {
        "2"
    } else if d == 3 {
        "3"
    } else if d == 4 {
        "4"
    } else if d == 5 {
        "5"
    } else if d == 6 {
        "6"
    } else if d == 7 {
        "7"
    } else if d == 8 {
        "8"
    } else {
        "9"
    };
    proof {
        reveal_strlit("0");
        reveal_strlit("1");
        reveal_strlit("2");
        reveal_strlit("3");
        reveal_strlit("4");
        reveal_strlit("5");
        reveal_strlit("6");
        reveal_strlit("7");
        reveal_strlit("8");
        reveal_strlit("9");
        assert(r@ =~= seq![digit_char(d as nat)]);
    }
    r
}

fn push_digits(n: u128, out: &mut String)
    ensures
        final(out)@ == old(out)@ + dec_digits(n as nat),
    decreases n,
{
    if n < 10 {
        out.append(digit_str(n));
        proof {
            assert(out@ =~= old(out)@ + dec_digits(n as nat));
        }
    } else {
        push_digits(n / 10, out);
        out.append(digit_str(n % 10));
        proof {
            assert(out@ =~= old(out)@ + dec_digits(n as nat));
        }
    }
}

/// A cent count rendered with the local decimal convention: integer euros,
/// a comma, then exactly two cent digits; a minus sign only on a nonzero
/// negative value.
pub open spec fn format_cents(neg: bool, c: nat) -> Seq<char> {
    let sign: Seq<char> = if neg && c > 0 {
        seq!['-']
    } else {
        seq![]
    };
    sign + dec_digits(c / 100) + seq![','] + seq![digit_char((c / 10) % 10), digit_char(c % 10)]
}

/// Renders a signed cent count in the report's numeric convention.
pub fn render_cents(neg: bool, c: u128) -> (r: String)
    ensures
        r@ == format_cents(neg, c as nat),
{
    let mut out = String::new();
    if neg && c > 0 {
        out.append("-");
    }
    push_digits(c / 100, &mut out);
    out.append(",");
    out.append(digit_str((c / 10) % 10));
    out.append(digit_str(c % 10));
    proof {
        reveal_strlit("-");
        reveal_strlit(",");
        assert(out@ =~= format_cents(neg, c as nat));
    }
    out
}

} // verus!
