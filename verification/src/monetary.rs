//! Fixed-point signed decimal money with four fractional digits.
//!
//! A [`Monetary`] is a signed 64-bit count of ten-thousandths of a unit.
//! Arithmetic is checked, and text parsing and formatting are exact: the
//! canonical text of a value parses back to the same value.

use crate::errors::MonetaryError;
use vstd::arithmetic::div_mod::{lemma_div_denominator, lemma_fundamental_div_mod};
use vstd::prelude::*;
use vstd::string::*;

verus! {

/// How many ten-thousandths make one whole unit.
pub const SCALE: i64 = 10000;

/// A signed fixed-point amount, scaled by ten thousand.
#[derive(Clone, Copy, Debug, PartialEq, Eq, Structural)]
pub struct Monetary {
    units: i64,
}

impl View for Monetary {
    type V = int;

    closed spec fn view(&self) -> int {
        self.units as int
    }
}

/// Every amount lies in the signed 64-bit range of ten-thousandths.
pub broadcast proof fn lemma_monetary_in_range(m: Monetary)
    ensures
        i64::MIN <= #[trigger] m@ <= i64::MAX,
{
}

impl Monetary {
    /// The zero amount.
    pub fn new() -> (r: Self)
        ensures
            r@ == 0,
    {
        Monetary { units: 0 }
    }

    /// True exactly when the amount is below zero.
    pub fn is_negative(&self) -> (r: bool)
        ensures
            r == (self@ < 0),
    {
        self.units < 0
    }

    /// The sum, or `None` when it does not fit the representation.
    pub fn checked_add(self, rhs: Monetary) -> (r: Option<Monetary>)
        ensures
            i64::MIN <= self@ + rhs@ <= i64::MAX ==> (r matches Some(s) && s@ == self@ + rhs@),
            !(i64::MIN <= self@ + rhs@ <= i64::MAX) ==> r is None,
    {
        match self.units.checked_add(rhs.units) {
            Some(units) => Some(Monetary { units }),
            None => None,
        }
    }

    /// The difference, or `None` when it does not fit the representation.
    pub fn checked_sub(self, rhs: Monetary) -> (r: Option<Monetary>)
        ensures
            i64::MIN <= self@ - rhs@ <= i64::MAX ==> (r matches Some(s) && s@ == self@ - rhs@),
            !(i64::MIN <= self@ - rhs@ <= i64::MAX) ==> r is None,
    {
        match self.units.checked_sub(rhs.units) {
            Some(units) => Some(Monetary { units }),
            None => None,
        }
    }

    /// True exactly when `self` is strictly below `rhs` in numeric order.
    pub fn lt(&self, rhs: &Monetary) -> (r: bool)
        ensures
            r == (self@ < rhs@),
    {
        self.units < rhs.units
    }
}

// ---------------------------------------------------------------------------
// The text form: `[+|-] digits [ . up-to-4-digits ]`, surrounded by optional
// whitespace.  The spec functions below carve a character sequence into sign,
// integer digits and fractional digits, and give the value each part denotes.
// ---------------------------------------------------------------------------

/// The whitespace characters that may surround a monetary literal: the
/// characters Unicode marks White_Space, the ones `str::trim` removes.
pub open spec fn is_ws_char(c: char) -> bool {
    ||| c == ' '
    ||| c == '\t'
    ||| c == '\n'
    ||| c == '\u{000B}'
    ||| c == '\u{000C}'
    ||| c == '\r'
    ||| c == '\u{0085}'
    ||| c == '\u{00A0}'
    ||| c == '\u{1680}'
    ||| ('\u{2000}' <= c && c <= '\u{200A}')
    ||| c == '\u{2028}'
    ||| c == '\u{2029}'
    ||| c == '\u{202F}'
    ||| c == '\u{205F}'
    ||| c == '\u{3000}'
}

/// A decimal digit.
pub open spec fn is_digit_char(c: char) -> bool {
    '0' <= c && c <= '9'
}

/// The numeric value of a decimal digit character.
pub open spec fn digit_val(c: char) -> int {
    c as int - '0' as int
}

/// Every character of `s` is a decimal digit.
pub open spec fn all_digits(s: Seq<char>) -> bool {
    forall|i: int| 0 <= i < s.len() ==> is_digit_char(#[trigger] s[i])
}

/// The value of a digit sequence read most-significant first.
pub open spec fn digits_val(s: Seq<char>) -> int
    decreases s.len(),
{
    if s.len() == 0 {
        0
    } else {
        digits_val(s.drop_last()) * 10 + digit_val(s.last())
    }
}

/// `s` without its leading whitespace.
pub open spec fn drop_leading_ws(s: Seq<char>) -> Seq<char>
    decreases s.len(),
{
    if s.len() > 0 && is_ws_char(s[0]) {
        drop_leading_ws(s.drop_first())
    } else {
        s
    }
}

/// `s` without its trailing whitespace.
pub open spec fn drop_trailing_ws(s: Seq<char>) -> Seq<char>
    decreases s.len(),
{
    if s.len() > 0 && is_ws_char(s.last()) {
        drop_trailing_ws(s.drop_last())
    } else {
        s
    }
}

/// `s` without surrounding whitespace.
pub open spec fn trimmed(s: Seq<char>) -> Seq<char> {
    drop_trailing_ws(drop_leading_ws(s))
}

/// The sign a trimmed literal denotes: `-1` under a leading minus, else `1`.
pub open spec fn sign_of(t: Seq<char>) -> int {
    if t.len() > 0 && t[0] == '-' {
        -1
    } else {
        1
    }
}

/// A trimmed literal without its sign character, if it carries one.
pub open spec fn body_of(t: Seq<char>) -> Seq<char> {
    if t.len() > 0 && (t[0] == '-' || t[0] == '+') {
        t.drop_first()
    } else {
        t
    }
}

/// How many digits stand at the front of `b`.
pub open spec fn digit_run_len(b: Seq<char>) -> int
    decreases b.len(),
{
    if b.len() > 0 && is_digit_char(b[0]) {
        1 + digit_run_len(b.drop_first())
    } else {
        0
    }
}

/// The integer digits of a trimmed literal.
pub open spec fn int_digits_of(t: Seq<char>) -> Seq<char> {
    body_of(t).take(digit_run_len(body_of(t)))
}

/// What follows the integer digits of a trimmed literal.
pub open spec fn tail_of(t: Seq<char>) -> Seq<char> {
    body_of(t).skip(digit_run_len(body_of(t)))
}

/// The fractional digits of a trimmed literal (empty when it has no point).
pub open spec fn frac_digits_of(t: Seq<char>) -> Seq<char> {
    if tail_of(t).len() == 0 {
        Seq::empty()
    } else {
        tail_of(t).drop_first()
    }
}

/// A trimmed literal is well formed when an optional sign is followed by at
/// least one integer digit and, optionally, one point and at most four
/// fractional digits.
pub open spec fn well_formed(t: Seq<char>) -> bool {
    &&& digit_run_len(body_of(t)) >= 1
    &&& (tail_of(t).len() == 0 || (tail_of(t)[0] == '.' && all_digits(frac_digits_of(t))
        && frac_digits_of(t).len() <= 4))
}

/// Ten to the `k`.
pub open spec fn pow10(k: nat) -> int
    decreases k,
{
    if k == 0 {
        1
    } else {
        10 * pow10((k - 1) as nat)
    }
}

/// The value of the integer digits of a trimmed literal.
pub open spec fn int_val_of(t: Seq<char>) -> int {
    digits_val(int_digits_of(t))
}

/// The value of the fractional digits, in ten-thousandths: digits past the
/// fourth place would stand for less than one ten-thousandth and are never
/// accepted, shorter runs are padded with zeros on the right.
pub open spec fn frac_val_of(t: Seq<char>) -> int {
    if frac_digits_of(t).len() <= 4 {
        digits_val(frac_digits_of(t)) * pow10((4 - frac_digits_of(t).len()) as nat)
    } else {
        0
    }
}

/// The integer part, sign included, must fit a signed 64-bit value, as a
/// count of whole units.
pub open spec fn int_part_fits(t: Seq<char>) -> bool {
    if sign_of(t) == 1 {
        int_val_of(t) <= i64::MAX as int
    } else {
        int_val_of(t) <= 0x8000_0000_0000_0000
    }
}

/// The value a trimmed literal denotes, in ten-thousandths, unbounded.
pub open spec fn scaled_val(t: Seq<char>) -> int {
    sign_of(t) * (int_val_of(t) * (SCALE as int) + frac_val_of(t))
}

/// The denoted value fits a signed 64-bit count of ten-thousandths.
pub open spec fn value_fits(t: Seq<char>) -> bool {
    i64::MIN <= scaled_val(t) <= i64::MAX
}

/// What parsing a piece of text yields: the denoted value in
/// ten-thousandths, or the reason the text is rejected.
pub open spec fn spec_parse(s: Seq<char>) -> Result<int, MonetaryError> {
    let t = trimmed(s);
    if !(well_formed(t) && int_part_fits(t)) {
        Err(MonetaryError::InvalidFormat)
    } else if !value_fits(t) {
        Err(MonetaryError::Overflow)
    } else {
        Ok(scaled_val(t))
    }
}

/// The character of a decimal digit value.
pub open spec fn digit_char(d: int) -> char {
    if d == 0 {
        '0'
    } else if d == 1 {
        '1'
    } else if d == 2 {
        '2'
    } else if d == 3 {
        '3'
    } else if d == 4 {
        '4'
    } else if d == 5 {
        '5'
    } else if d == 6 {
        '6'
    } else if d == 7 {
        '7'
    } else if d == 8 {
        '8'
    } else {
        '9'
    }
}

/// The decimal digits of `n`, most significant first, no leading zeros
/// except for `n == 0` itself.
pub open spec fn spec_digits(n: nat) -> Seq<char>
    decreases n,
{
    if n < 10 {
        seq![digit_char(n as int)]
    } else {
        spec_digits(n / 10) + seq![digit_char((n % 10) as int)]
    }
}

/// The four zero-padded fractional digits of `m` ten-thousandths of a unit,
/// for `m` under ten thousand.
pub open spec fn spec_frac4(m: nat) -> Seq<char> {
    seq![
        digit_char((m / 1000) as int % 10),
        digit_char((m / 100) as int % 10),
        digit_char((m / 10) as int % 10),
        digit_char(m as int % 10),
    ]
}

/// The canonical text of a value of `v` ten-thousandths: a minus sign only
/// when negative, integer digits without leading zeros, one point, and
/// exactly four fractional digits.
pub open spec fn spec_format(v: int) -> Seq<char> {
    let a = (if v < 0 { -v } else { v }) as nat;
    (if v < 0 { seq!['-'] } else { Seq::<char>::empty() }) + spec_digits(a / 10000)
        + seq!['.'] + spec_frac4(a % 10000)
}

// ---------------------------------------------------------------------------
// Facts about digit runs, digit values and whitespace trimming.
// ---------------------------------------------------------------------------

/// Scanning leading whitespace computes `drop_leading_ws`.
proof fn lemma_drop_leading(b: Seq<char>, k: int)
    requires
        0 <= k <= b.len(),
        forall|i: int| 0 <= i < k ==> is_ws_char(#[trigger] b[i]),
        k == b.len() || !is_ws_char(b[k]),
    ensures
        drop_leading_ws(b) == b.skip(k),
    decreases b.len(),
{
    if k == 0 {
        assert(b.skip(0) == b);
    } else {
        assert(is_ws_char(b[0]));
        lemma_drop_leading(b.drop_first(), k - 1);
        assert(b.drop_first().skip(k - 1) == b.skip(k));
    }
}

/// Scanning trailing whitespace computes `drop_trailing_ws`.
proof fn lemma_drop_trailing(b: Seq<char>, m: int)
    requires
        0 <= m <= b.len(),
        forall|i: int| m <= i < b.len() ==> is_ws_char(#[trigger] b[i]),
        m == 0 || !is_ws_char(b[m - 1]),
    ensures
        drop_trailing_ws(b) == b.take(m),
    decreases b.len(),
{
    if m == b.len() {
        assert(b.take(m) == b);
    } else {
        assert(is_ws_char(b.last()));
        lemma_drop_trailing(b.drop_last(), m);
        assert(b.drop_last().take(m) == b.take(m));
    }
}

/// Scanning leading digits computes `digit_run_len`.
proof fn lemma_digit_run(b: Seq<char>, m: int)
    requires
        0 <= m <= b.len(),
        forall|i: int| 0 <= i < m ==> is_digit_char(#[trigger] b[i]),
        m == b.len() || !is_digit_char(b[m]),
    ensures
        digit_run_len(b) == m,
    decreases b.len(),
{
    if m == 0 {
    } else {
        assert(is_digit_char(b[0]));
        lemma_digit_run(b.drop_first(), m - 1);
    }
}

/// A digit sequence denotes a value between zero and ten to its length.
proof fn lemma_digits_val_bound(b: Seq<char>)
    requires
        all_digits(b),
    ensures
        0 <= digits_val(b) < pow10(b.len()),
    decreases b.len(),
{
    if b.len() == 0 {
    } else {
        assert(all_digits(b.drop_last())) by {
            assert(forall|i: int| 0 <= i < b.len() - 1 ==> b.drop_last()[i] == b[i]);
        }
        lemma_digits_val_bound(b.drop_last());
        assert(is_digit_char(b.last()));
        assert(0 <= digit_val(b.last()) <= 9);
        assert(pow10(b.len()) == 10 * pow10(b.drop_last().len()));
    }
}

/// Extending a digit run on the right multiplies its value by ten and adds
/// the new digit.
proof fn lemma_digits_val_step(s: Seq<char>, j: int)
    requires
        0 <= j < s.len(),
    ensures
        forall|i: int| 0 <= i <= j ==> digits_val(#[trigger] s.subrange(i, j + 1))
            == digits_val(s.subrange(i, j)) * 10 + digit_val(s[j]),
{
    assert forall|i: int| 0 <= i <= j implies digits_val(#[trigger] s.subrange(i, j + 1))
        == digits_val(s.subrange(i, j)) * 10 + digit_val(s[j]) by {
        let w = s.subrange(i, j + 1);
        assert(w.len() > 0);
        assert(w.drop_last() == s.subrange(i, j));
        assert(w.last() == s[j]);
    }
}

/// The small powers of ten, spelled out.
proof fn lemma_pow10_small()
    ensures
        pow10(0) == 1,
        pow10(1) == 10,
        pow10(2) == 100,
        pow10(3) == 1000,
        pow10(4) == 10000,
{
    reveal_with_fuel(pow10, 5);
}

/// Decides `is_ws_char`.
fn is_ws(c: char) -> (r: bool)
    ensures
        r == is_ws_char(c),
{
    c == ' ' || c == '\t' || c == '\n' || c == '\u{000B}' || c == '\u{000C}' || c == '\r'
        || c == '\u{0085}' || c == '\u{00A0}' || c == '\u{1680}'
        || (c >= '\u{2000}' && c <= '\u{200A}')
        || c == '\u{2028}' || c == '\u{2029}' || c == '\u{202F}' || c == '\u{205F}'
        || c == '\u{3000}'
}

/// Decides `is_digit_char`.
fn is_digit(c: char) -> (r: bool)
    ensures
        r == is_digit_char(c),
{
    c >= '0' && c <= '9'
}

/// The value of a digit character.
fn digit_value(c: char) -> (r: u64)
    requires
        is_digit_char(c),
    ensures
        r == digit_val(c),
{
    (c as u32 - 48) as u64
}

/// Finds the trimmed extent of `s`: the first and the one-past-last index
/// of the middle that is free of surrounding whitespace, or `None` when
/// whitespace is all there is.
#[verifier::loop_isolation(false)]
fn trim_bounds(s: &str) -> (r: Option<(usize, usize)>)
    ensures
        match r {
            Some(b) => {
                &&& 0 <= b.0 < b.1 <= s@.len()
                &&& trimmed(s@) == s@.subrange(b.0 as int, b.1 as int)
            },
            None => trimmed(s@).len() == 0,
        },
{
    let n: usize = s.unicode_len();

    let mut lo: usize = 0;
    while lo < n && is_ws(s.get_char(lo))
        invariant
            0 <= lo <= n,
            forall|i: int| 0 <= i < lo ==> is_ws_char(#[trigger] s@[i]),
        decreases n - lo,
    {
        lo += 1;
    }
    proof {
        lemma_drop_leading(s@, lo as int);
    }
    if lo == n {
        proof {
            assert(drop_leading_ws(s@).len() == 0);
            assert(trimmed(s@).len() == 0);
        }
        return None;
    }

    let mut hi: usize = n;
    while is_ws(s.get_char(hi - 1))
        invariant
            lo < hi <= n,
            forall|i: int| hi <= i < n ==> is_ws_char(#[trigger] s@[i]),
        decreases hi,
    {
        hi -= 1;
    }
    proof {
        let b = s@.skip(lo as int);
        assert forall|i: int| (hi - lo) <= i < b.len() implies is_ws_char(#[trigger] b[i]) by {
            assert(b[i] == s@[lo + i]);
        }
        assert(!is_ws_char(b[hi - lo - 1]));
        lemma_drop_trailing(b, hi - lo);
        assert(b.take(hi - lo) =~= s@.subrange(lo as int, hi as int));
    }
    Some((lo, hi))
}

/// Scans the digit run of `s` that starts at `from` and stops before `hi`,
/// and accumulates its value; a run too large for 64 bits is flagged in the
/// last component.
#[verifier::loop_isolation(false)]
fn scan_digits(s: &str, from: usize, hi: usize) -> (r: (usize, u64, bool))
    requires
        from <= hi <= s@.len(),
    ensures
        from <= r.0 <= hi,
        forall|k: int| from <= k < r.0 ==> is_digit_char(#[trigger] s@[k]),
        r.0 < hi ==> !is_digit_char(s@[r.0 as int]),
        !r.2 ==> r.1 as int == digits_val(s@.subrange(from as int, r.0 as int)),
        r.2 ==> digits_val(s@.subrange(from as int, r.0 as int)) > u64::MAX as int,
{
    let mut j: usize = from;
    let mut acc: u64 = 0;
    let mut overflowed = false;
    while j < hi && is_digit(s.get_char(j))
        invariant
            from <= j <= hi,
            forall|k: int| from <= k < j ==> is_digit_char(#[trigger] s@[k]),
            !overflowed ==> acc as int == digits_val(s@.subrange(from as int, j as int)),
            overflowed ==> digits_val(s@.subrange(from as int, j as int)) > u64::MAX as int,
        decreases hi - j,
    {
        let c = s.get_char(j);
        let d: u64 = digit_value(c);
        proof {
            lemma_digits_val_step(s@, j as int);
        }
        if !overflowed {
            match acc.checked_mul(10) {
                Some(x) => {
                    match x.checked_add(d) {
                        Some(y) => {
                            acc = y;
                        },
                        None => {
                            overflowed = true;
                        },
                    }
                },
                None => {
                    overflowed = true;
                },
            }
        } else {
            proof {
                let prev = digits_val(s@.subrange(from as int, j as int));
                assert(digits_val(s@.subrange(from as int, j as int + 1)) == prev * 10
                    + digit_val(s@[j as int]));
            }
        }
        j += 1;
    }
    (j, acc, overflowed)
}

impl Monetary {
    /// Reads a monetary literal: optional surrounding whitespace, an
    /// optional `+` or `-`, one or more integer digits, and optionally a
    /// point followed by at most four fractional digits.  The integer part
    /// must fit a signed 64-bit count of whole units, the scaled value a
    /// signed 64-bit count of ten-thousandths.
    #[verifier::rlimit(60)]
    pub fn parse(s: &str) -> (r: Result<Monetary, MonetaryError>)
        ensures
            r matches Ok(m) ==> spec_parse(s@) == Ok::<int, MonetaryError>(m@),
            r matches Err(e) ==> spec_parse(s@) == Err::<int, MonetaryError>(e),
    {
        let (lo, hi) = match trim_bounds(s) {
            Some(b) => b,
            None => {
                return Err(MonetaryError::InvalidFormat);
            },
        };
        let ghost t = s@.subrange(lo as int, hi as int);

        let mut i: usize = lo;
        let mut neg = false;
        let c0 = s.get_char(lo);
        if c0 == '-' {
            neg = true;
            i = lo + 1;
        } else if c0 == '+' {
            i = lo + 1;
        }
        let ghost body = s@.subrange(i as int, hi as int);
        proof {
            assert(t[0] == s@[lo as int]);
            if c0 == '-' || c0 == '+' {
                assert(t.drop_first() =~= body);
            }
            assert(body_of(t) == body);
            assert(sign_of(t) == if neg { -1int } else { 1int });
        }

        let (j, acc, overflowed) = scan_digits(s, i, hi);
        proof {
            assert forall|k: int| 0 <= k < (j - i) implies is_digit_char(#[trigger] body[k]) by {
                assert(body[k] == s@[i + k]);
            }
            if (j as int - i as int) < body.len() {
                assert(body[j - i] == s@[j as int]);
            }
            lemma_digit_run(body, j as int - i as int);
            assert(int_digits_of(t) =~= s@.subrange(i as int, j as int));
            assert(tail_of(t) =~= s@.subrange(j as int, hi as int));
        }
        if j == i {
            proof {
                assert(!well_formed(t));
            }
            return Err(MonetaryError::InvalidFormat);
        }

        let limit: u64 = if neg {
            0x8000_0000_0000_0000
        } else {
            0x7FFF_FFFF_FFFF_FFFF
        };
        if overflowed || acc > limit {
            proof {
                assert(int_val_of(t) > limit as int);
                assert(!int_part_fits(t));
            }
            return Err(MonetaryError::InvalidFormat);
        }

        let mut fr: u64 = 0;
        let mut flen: usize = 0;
        if j < hi {
            let dot = s.get_char(j);
            proof {
                assert(tail_of(t)[0] == s@[j as int]);
            }
            if dot != '.' {
                proof {
                    assert(!well_formed(t));
                }
                return Err(MonetaryError::InvalidFormat);
            }
            proof {
                assert(frac_digits_of(t) =~= s@.subrange(j as int + 1, hi as int));
            }
            if hi - j - 1 > 4 {
                proof {
                    assert(!well_formed(t));
                }
                return Err(MonetaryError::InvalidFormat);
            }
            flen = hi - j - 1;
            let (k, facc, fovf) = scan_digits(s, j + 1, hi);
            if k < hi {
                proof {
                    assert(frac_digits_of(t)[k - j - 1] == s@[k as int]);
                    assert(!all_digits(frac_digits_of(t)));
                    assert(!well_formed(t));
                }
                return Err(MonetaryError::InvalidFormat);
            }
            proof {
                let w = frac_digits_of(t);
                assert(w == s@.subrange(j as int + 1, hi as int));
                lemma_digits_val_bound(w);
                lemma_pow10_small();
                assert(pow10(w.len()) <= 10000) by {
                    reveal_with_fuel(pow10, 5);
                    if w.len() == 0 {
                    } else if w.len() == 1 {
                    } else if w.len() == 2 {
                    } else if w.len() == 3 {
                    } else {
                        assert(w.len() == 4);
                    }
                }
                assert(!fovf);
            }
            fr = facc;
        }
        proof {
            if j == hi {
                assert(tail_of(t).len() == 0);
                assert(frac_digits_of(t).len() == 0);
                assert(digits_val(frac_digits_of(t)) == 0);
            } else {
                assert(fr as int == digits_val(frac_digits_of(t)));
                assert(flen == frac_digits_of(t).len());
            }
            assert(well_formed(t));
            assert(int_val_of(t) == acc as int);
            assert(int_part_fits(t));
        }

        let pad: u64 = if flen == 0 {
            10000
        } else if flen == 1 {
            1000
        } else if flen == 2 {
            100
        } else if flen == 3 {
            10
        } else {
            1
        };
        proof {
            lemma_pow10_small();
            if flen == 0 {
                assert(frac_val_of(t) == 0);
            } else {
                assert(pad as int == pow10((4 - frac_digits_of(t).len()) as nat));
            }
            assert(frac_val_of(t) == (fr as int) * (pad as int));
            assert((fr as int) * (pad as int) < 10000) by {
                if flen != 0 {
                    let w = frac_digits_of(t);
                    lemma_digits_val_bound(w);
                    if flen == 1 {
                        assert(fr < 10);
                    } else if flen == 2 {
                        assert(fr < 100);
                    } else if flen == 3 {
                        assert(fr < 1000);
                    }
                }
            }
        }
        let fscaled: u64 = fr * pad;

        let mag: i128 = (acc as i128) * 10000 + (fscaled as i128);
        let v128: i128 = if neg {
            -mag
        } else {
            mag
        };
        proof {
            assert(scaled_val(t) == v128 as int);
        }
        if v128 < i64::MIN as i128 || v128 > i64::MAX as i128 {
            proof {
                assert(!value_fits(t));
            }
            return Err(MonetaryError::Overflow);
        }
        Ok(Monetary { units: v128 as i64 })
    }
}

impl core::str::FromStr for Monetary {
    type Err = MonetaryError;

    /// Reads a monetary literal, as [`Monetary::parse`] does.
    fn from_str(text: &str) -> Result<Monetary, MonetaryError> {
        Monetary::parse(text)
    }
}

/// The text of one digit value.
fn digit_str(d: u64) -> (r: &'static str)
    requires
        d < 10,
    ensures
        r@ == seq![digit_char(d as int)],
        r@.len() == 1,
{
    let r = match d {
        0 => "0",
        1 => "1",
        2 => "2",
        3 => "3",
        4 => "4",
        5 => "5",
        6 => "6",
        7 => "7",
        8 => "8",
        _ => "9",
    };
    proof {
        reveal_strlit("0");
        reveal_strlit("1");
        reveal_strlit("2");
        reveal_strlit("3");
        reveal_strlit("4");
        reveal_strlit("5");
        reveal_strlit("6");
        reveal_strlit("7");
        reveal_strlit("8");
        reveal_strlit("9");
        assert(r@ =~= seq![digit_char(d as int)]);
    }
    r
}

/// The decimal digits of `n`, most significant first.
fn format_units(n: u64) -> (r: String)
    ensures
        r@ == spec_digits(n as nat),
    decreases n,
{
    if n < 10 {
        String::from_str(digit_str(n))
    } else {
        let front = format_units(n / 10);
        front.concat(digit_str(n % 10))
    }
}

impl Monetary {
    /// Writes the canonical text of the amount: a minus sign only when
    /// negative, the integer part without leading zeros, a point, and
    /// exactly four fractional digits.
    pub fn to_text(&self) -> (r: String)
        ensures
            r@ == spec_format(self@),
    {
        let neg = self.units < 0;
        let mag: u64 = if neg {
            (-(self.units as i128)) as u64
        } else {
            self.units as u64
        };
        let ghost a = (if self@ < 0 { -self@ } else { self@ }) as nat;
        proof {
            assert(mag as nat == a);
        }
        let whole: u64 = mag / 10000;
        let frac: u64 = mag % 10000;

        let mut out = if neg {
            proof {
                reveal_strlit("-");
            }
            String::from_str("-")
        } else {
            proof {
                reveal_strlit("");
            }
            String::from_str("")
        };
        proof {
            if neg {
                assert(out@ =~= seq!['-']);
            } else {
                assert(out@ =~= Seq::<char>::empty());
            }
        }
        let units_text = format_units(whole);
        out.append(units_text.as_str());
        proof {
            reveal_strlit(".");
        }
        out.append(".");
        out.append(digit_str(frac / 1000));
        out.append(digit_str((frac / 100) % 10));
        out.append(digit_str((frac / 10) % 10));
        out.append(digit_str(frac % 10));
        proof {
            assert((frac / 1000) as int == ((a % 10000) / 1000) as int % 10);
            assert(out@ =~= spec_format(self@));
        }
        out
    }
}

// ---------------------------------------------------------------------------
// The round trip: the canonical text of a value parses back to that value.
// ---------------------------------------------------------------------------

/// The digits of `n` denote `n`: at least one digit, all digits, no loss.
proof fn lemma_spec_digits_wf(n: nat)
    ensures
        spec_digits(n).len() >= 1,
        all_digits(spec_digits(n)),
        digits_val(spec_digits(n)) == n,
    decreases n,
{
    let s = spec_digits(n);
    if n < 10 {
        assert(s =~= seq![digit_char(n as int)]);
        assert(s.drop_last() =~= Seq::<char>::empty());
        assert(s.last() == digit_char(n as int));
        assert(digits_val(s) == digits_val(s.drop_last()) * 10 + digit_val(s.last()));
        assert(digits_val(Seq::<char>::empty()) == 0);
        assert(is_digit_char(digit_char(n as int)));
        assert(digit_val(digit_char(n as int)) == n);
    } else {
        lemma_spec_digits_wf(n / 10);
        let front = spec_digits(n / 10);
        assert(s == front + seq![digit_char((n % 10) as int)]);
        assert(s.drop_last() =~= front);
        assert(s.last() == digit_char((n % 10) as int));
        assert(digit_val(s.last()) == n % 10);
        assert forall|i: int| 0 <= i < s.len() implies is_digit_char(#[trigger] s[i]) by {
            if i < front.len() {
                assert(s[i] == front[i]);
            } else {
                assert(s[i] == digit_char((n % 10) as int));
            }
        }
        assert(digits_val(s) == digits_val(front) * 10 + (n % 10));
        lemma_fundamental_div_mod(n as int, 10);
    }
}

/// The four padded fractional digits of `m` denote `m`, for `m` under ten
/// thousand.
proof fn lemma_frac4_wf(m: nat)
    requires
        m < 10000,
    ensures
        spec_frac4(m).len() == 4,
        all_digits(spec_frac4(m)),
        digits_val(spec_frac4(m)) == m,
{
    let s = spec_frac4(m);
    let d3 = (m / 1000) as int % 10;
    let d2 = (m / 100) as int % 10;
    let d1 = (m / 10) as int % 10;
    let d0 = m as int % 10;
    let s3 = seq![digit_char(d3), digit_char(d2), digit_char(d1)];
    let s2 = seq![digit_char(d3), digit_char(d2)];
    let s1 = seq![digit_char(d3)];
    assert(s.drop_last() =~= s3);
    assert(s3.drop_last() =~= s2);
    assert(s2.drop_last() =~= s1);
    assert(s1.drop_last() =~= Seq::<char>::empty());
    assert(s.last() == digit_char(d0));
    assert(s3.last() == digit_char(d1));
    assert(s2.last() == digit_char(d2));
    assert(s1.last() == digit_char(d3));
    assert(digits_val(s) == digits_val(s3) * 10 + digit_val(digit_char(d0)));
    assert(digits_val(s3) == digits_val(s2) * 10 + digit_val(digit_char(d1)));
    assert(digits_val(s2) == digits_val(s1) * 10 + digit_val(digit_char(d2)));
    assert(digits_val(s1) == digits_val(Seq::<char>::empty()) * 10 + digit_val(digit_char(d3)));
    assert(digits_val(Seq::<char>::empty()) == 0);
    assert(digit_val(digit_char(d3)) == d3);
    assert(digit_val(digit_char(d2)) == d2);
    assert(digit_val(digit_char(d1)) == d1);
    assert(digit_val(digit_char(d0)) == d0);
    lemma_div_denominator(m as int, 10, 10);
    lemma_div_denominator(m as int, 100, 10);
    lemma_fundamental_div_mod(m as int, 10);
    lemma_fundamental_div_mod(m as int / 10, 10);
    lemma_fundamental_div_mod(m as int / 100, 10);
    assert(m as int / 1000 == m as int / 100 / 10);
    assert(m as int / 1000 < 10);
    assert(d3 == m as int / 1000);
    assert(m as int / 100 == (m as int / 1000) * 10 + d2);
    assert(m as int / 10 == (m as int / 100) * 10 + d1);
    assert(m as int == (m as int / 10) * 10 + d0);
}

/// The round trip of the text form: for every representable count of
/// ten-thousandths `v`, the canonical text of `v` parses back to exactly
/// `v`.  Together with the contracts of [`Monetary::parse`] and
/// [`Monetary::to_text`], parsing the formatted text of any amount yields
/// that amount again.
pub proof fn lemma_parse_format_round_trip(v: int)
    requires
        i64::MIN <= v <= i64::MAX,
    ensures
        spec_parse(spec_format(v)) == Ok::<int, MonetaryError>(v),
{
    let a = (if v < 0 { -v } else { v }) as nat;
    let w = a / 10000;
    let f = a % 10000;
    let digits = spec_digits(w);
    let frac = spec_frac4(f);
    lemma_spec_digits_wf(w);
    lemma_frac4_wf(f);
    let t = spec_format(v);
    let sign: Seq<char> = if v < 0 { seq!['-'] } else { Seq::<char>::empty() };
    assert(t == sign + digits + seq!['.'] + frac);

    assert(is_digit_char(digits[0]));
    assert(is_digit_char(frac[3]));
    assert(t.last() == frac[3]);
    assert(!is_ws_char(t[0]));
    assert(!is_ws_char(t.last()));
    lemma_drop_leading(t, 0);
    assert(t.skip(0) == t);
    lemma_drop_trailing(t, t.len() as int);
    assert(t.take(t.len() as int) == t);
    assert(trimmed(t) == t);

    let b = body_of(t);
    if v < 0 {
        assert(t[0] == '-');
        assert(sign_of(t) == -1);
        assert(t.drop_first() =~= digits + seq!['.'] + frac);
        assert(b == digits + seq!['.'] + frac);
    } else {
        assert(t[0] == digits[0]);
        assert(t[0] != '-' && t[0] != '+');
        assert(sign_of(t) == 1);
        assert(b == t);
        assert(b =~= digits + seq!['.'] + frac);
    }

    assert forall|i: int| 0 <= i < digits.len() implies is_digit_char(#[trigger] b[i]) by {
        assert(b[i] == digits[i]);
    }
    assert(b[digits.len() as int] == '.');
    assert(!is_digit_char('.'));
    lemma_digit_run(b, digits.len() as int);
    assert(int_digits_of(t) =~= digits);
    assert(tail_of(t) =~= seq!['.'] + frac);
    assert(tail_of(t)[0] == '.');
    assert(frac_digits_of(t) =~= frac);
    assert(well_formed(t));

    assert(int_val_of(t) == w);
    lemma_pow10_small();
    assert(frac_val_of(t) == f * pow10(0));
    assert(frac_val_of(t) == f);
    assert(int_part_fits(t));
    lemma_fundamental_div_mod(a as int, 10000);
    assert(a == w * 10000 + f);
    assert(scaled_val(t) == v);
    assert(value_fits(t));
}

} // verus!
