//! Fixed-point decimals: an integer mantissa and a base-10 scale.
//!
//! Numeric answers are read and compared exactly. Nothing here rounds, so a tolerance
//! boundary lies where the author of the item wrote it.

use crate::text::{
    chars_of, is_white, trim, trimmed, trimmed_end, trimmed_start, trimming_takes_white_ends,
};
use vstd::prelude::*;

verus! {

/// Most digits accepted in a numeric answer, before and after the point together.
pub const MAX_DECIMAL_DIGITS: usize = 30;

/// A decimal number: `mantissa / 10^scale`.
#[derive(Clone, Copy, Debug, PartialEq, Eq, Structural)]
pub struct Decimal {
    pub mantissa: i128,
    pub scale: u32,
}

/// Ten to the power of `n`.
pub open spec fn pow10(n: nat) -> int
    decreases n,
{
    if n == 0 {
        1
    } else {
        10 * pow10((n - 1) as nat)
    }
}

/// Powers of ten are positive and grow.
pub proof fn pow10_grows(m: nat, n: nat)
    requires
        m <= n,
    ensures
        1 <= pow10(m) <= pow10(n),
    decreases n,
{
    if n > m {
        pow10_grows(m, (n - 1) as nat);
    } else if n > 0 {
        pow10_grows((m - 1) as nat, (n - 1) as nat);
    }
}

/// Powers of ten multiply by adding.
pub proof fn pow10_adds(m: nat, n: nat)
    ensures
        pow10(m + n) == pow10(m) * pow10(n),
    decreases n,
{
    if n > 0 {
        pow10_adds(m, (n - 1) as nat);
        assert(pow10(m + n) == 10 * pow10((m + n - 1) as nat));
        assert(pow10(m) * (10 * pow10((n - 1) as nat)) == 10 * (pow10(m) * pow10((n - 1) as nat)))
            by (nonlinear_arith);
    }
}

/// A decimal digit.
pub open spec fn is_digit(c: char) -> bool {
    '0' <= c <= '9'
}

/// The number that a run of digits spells, the decimal point left out.
pub open spec fn spelled(s: Seq<char>) -> int
    decreases s.len(),
{
    if s.len() == 0 {
        0
    } else if s.last() == '.' {
        spelled(s.drop_last())
    } else {
        spelled(s.drop_last()) * 10 + (s.last() as int - '0' as int)
    }
}

/// How many characters are not the decimal point.
pub open spec fn digit_count(s: Seq<char>) -> nat
    decreases s.len(),
{
    if s.len() == 0 {
        0
    } else {
        digit_count(s.drop_last()) + if s.last() == '.' {
            0nat
        } else {
            1nat
        }
    }
}

/// How many digits follow the decimal point.
pub open spec fn places(s: Seq<char>) -> nat
    decreases s.len(),
{
    if s.len() == 0 || s.last() == '.' || !s.contains('.') {
        0
    } else {
        places(s.drop_last()) + 1
    }
}

/// At least one digit and at most the accepted number of them, with at most one decimal
/// point among them and nothing else.
pub open spec fn is_numeral(s: Seq<char>) -> bool {
    &&& 1 <= digit_count(s) <= MAX_DECIMAL_DIGITS
    &&& forall|i: int| 0 <= i < s.len() ==> #[trigger] s[i] == '.' || is_digit(s[i])
    &&& forall|i: int, j: int|
        #![trigger s[i], s[j]]
        0 <= i < j < s.len() ==> s[i] != '.' || s[j] != '.'
}

/// The digits of a number as written: separators between thousands are left out.
pub open spec fn without_separators(s: Seq<char>) -> Seq<char> {
    s.filter(|c: char| c != ',' && c != '_')
}

/// The number that a text spells, if it spells one: white space around it, a sign, then
/// a numeral.
pub open spec fn read(raw: Seq<char>) -> Option<Decimal> {
    let text = trimmed(raw);
    let signed = text.len() > 0 && (text[0] == '-' || text[0] == '+');
    let digits = without_separators(
        if signed {
            text.skip(1)
        } else {
            text
        },
    );
    if is_numeral(digits) {
        Some(
            Decimal {
                mantissa: (if signed && text[0] == '-' {
                    -spelled(digits)
                } else {
                    spelled(digits)
                }) as i128,
                scale: places(digits) as u32,
            },
        )
    } else {
        None
    }
}

/// Thirty digits fit with room to spare.
pub proof fn thirty_digits_fit()
    ensures
        pow10(30) == 1_000_000_000_000_000_000_000_000_000_000,
        pow10(38) == 100_000_000_000_000_000_000_000_000_000_000_000_000,
        pow10(38) <= i128::MAX,
        pow10(39) > i128::MAX,
{
    reveal_with_fuel(pow10, 40);
}

/// A numeral stays below the power of ten that its digits allow.
pub proof fn spelled_bound(s: Seq<char>)
    requires
        forall|i: int| 0 <= i < s.len() ==> #[trigger] s[i] == '.' || is_digit(s[i]),
    ensures
        0 <= spelled(s) < pow10(digit_count(s)),
        places(s) <= digit_count(s),
    decreases s.len(),
{
    if s.len() > 0 {
        let init = s.drop_last();
        assert forall|i: int| 0 <= i < init.len() implies #[trigger] init[i] == '.' || is_digit(
            init[i],
        ) by {
            assert(s[i] == init[i]);
        }
        spelled_bound(init);
        assert(s[s.len() - 1] == s.last());
    }
}

/// What was read is small enough to be negated, and was written to few places.
pub proof fn read_bound(raw: Seq<char>)
    ensures
        read(raw) matches Some(d) ==> -pow10(30) < d.mantissa < pow10(30) && d.scale <= 30,
{
    let text = trimmed(raw);
    let signed = text.len() > 0 && (text[0] == '-' || text[0] == '+');
    let digits = without_separators(
        if signed {
            text.skip(1)
        } else {
            text
        },
    );
    if is_numeral(digits) {
        spelled_bound(digits);
        pow10_grows(digit_count(digits), 30);
        thirty_digits_fit();
    }
}

impl Decimal {
    /// The mantissa at a larger scale, where it and the factor both fit.
    pub open spec fn lifted(self, scale: u32) -> Option<int> {
        let factor = pow10((scale - self.scale) as nat);
        let product = self.mantissa * factor;
        if factor <= i128::MAX && i128::MIN <= product <= i128::MAX {
            Some(product)
        } else {
            None
        }
    }

    /// The larger of two scales.
    pub open spec fn common_scale(self, other: Decimal) -> u32 {
        if self.scale >= other.scale {
            self.scale
        } else {
            other.scale
        }
    }

    /// Two decimals at a common scale, where both fit.
    pub open spec fn aligned(a: Decimal, b: Decimal) -> Option<(int, int)> {
        let scale = a.common_scale(b);
        match (a.lifted(scale), b.lifted(scale)) {
            (Some(x), Some(y)) => Some((x, y)),
            _ => None,
        }
    }

    /// `|self - other|`, where it fits.
    pub open spec fn distance(self, other: Decimal) -> Option<Decimal> {
        match Self::aligned(self, other) {
            Some((a, b)) => {
                let gap = if a >= b {
                    a - b
                } else {
                    b - a
                };
                if gap <= i128::MAX {
                    Some(Decimal { mantissa: gap as i128, scale: self.common_scale(other) })
                } else {
                    None
                }
            },
            None => None,
        }
    }

    /// `self <= other`, where both fit at a common scale.
    pub open spec fn at_most(self, other: Decimal) -> Option<bool> {
        match Self::aligned(self, other) {
            Some((a, b)) => Some(a <= b),
            None => None,
        }
    }

    /// `|self|`.
    pub open spec fn size(self) -> int {
        if self.mantissa >= 0 {
            self.mantissa as int
        } else {
            -self.mantissa
        }
    }

    /// `|self| * percent / 100`, where it fits.
    pub open spec fn share(self, percent: Decimal) -> Option<Decimal> {
        let product = self.size() * percent.mantissa;
        let scale = self.scale + percent.scale + 2;
        if self.size() <= i128::MAX && i128::MIN <= product <= i128::MAX && scale <= u32::MAX {
            Some(Decimal { mantissa: product as i128, scale: scale as u32 })
        } else {
            None
        }
    }

    /// Whether two decimals are the same number.
    pub open spec fn same_value(self, other: Decimal) -> bool {
        self.mantissa * pow10(other.scale as nat) == other.mantissa * pow10(self.scale as nat)
    }

    /// Whether this is the smaller number, or the same.
    pub open spec fn value_at_most(self, other: Decimal) -> bool {
        self.mantissa * pow10(other.scale as nat) <= other.mantissa * pow10(self.scale as nat)
    }

    /// Reads a decimal: a leading sign, digits, one decimal point and surrounding white
    /// space. Separators between thousands are left out. Everything else is refused,
    /// exponents among it.
    pub fn parse(raw: &str) -> (number: Option<Decimal>)
        ensures
            number == read(raw@),
    {
        let text: String = trim(raw);
        let chars: Vec<char> = chars_of(text.as_str());
        let ghost line = trimmed(raw@);
        let mut start: usize = 0;
        let mut negative: bool = false;
        if chars.len() > 0 && (chars[0] == '-' || chars[0] == '+') {
            start = 1;
            negative = chars[0] == '-';
        }
        let ghost body = if start == 1 {
            line.skip(1)
        } else {
            line
        };
        assert(body =~= line.skip(start as int));
        let ghost keep = |c: char| c != ',' && c != '_';
        let ghost digits = without_separators(body);
        let mut mantissa: i128 = 0;
        let mut scale: u32 = 0;
        let mut seen_point: bool = false;
        let mut count: usize = 0;
        let mut i: usize = start;
        proof {
            reveal(Seq::filter);
            assert(body.take(0) =~= seq![]);
            thirty_digits_fit();
            pow10_grows(0, 30);
        }
        let ghost mut read_so_far: Seq<char> = seq![];
        while i < chars.len()
            invariant
                chars@ == line,
                line == trimmed(raw@),
                start == (if line.len() > 0 && (line[0] == '-' || line[0] == '+') {
                    1int
                } else {
                    0int
                }),
                start <= i <= chars@.len(),
                body == line.skip(start as int),
                keep == (|c: char| c != ',' && c != '_'),
                digits == body.filter(keep),
                read(raw@) is Some <==> is_numeral(digits),
                read_so_far == body.take(i - start).filter(keep),
                forall|k: int|
                    0 <= k < read_so_far.len() ==> #[trigger] read_so_far[k] == '.' || is_digit(
                        read_so_far[k],
                    ),
                forall|k: int, m: int|
                    #![trigger read_so_far[k], read_so_far[m]]
                    0 <= k < m < read_so_far.len() ==> read_so_far[k] != '.' || read_so_far[m]
                        != '.',
                seen_point == read_so_far.contains('.'),
                count == digit_count(read_so_far),
                count <= MAX_DECIMAL_DIGITS,
                mantissa == spelled(read_so_far),
                scale == places(read_so_far),
                pow10(30) == 1_000_000_000_000_000_000_000_000_000_000,
            decreases chars@.len() - i,
        {
            let c: char = chars[i];
            let ghost before = read_so_far;
            proof {
                reveal(Seq::filter);
                let seen = body.take(i - start + 1);
                assert(seen.drop_last() =~= body.take(i - start));
                assert(seen.last() == c);
                spelled_bound(before);
                pow10_grows(digit_count(before), 30);
                if keep(c) {
                    read_so_far = before.push(c);
                    assert(read_so_far.drop_last() =~= before);
                    lead_in(body, keep, i - start + 1);
                    assert(read_so_far == body.take(i - start + 1).filter(keep));
                    assert(body.take(i - start + 1).filter(keep)[before.len() as int] == c);
                    assert(digits[before.len() as int] == c);
                    assert(digits.take(read_so_far.len() as int) == read_so_far);
                    assert forall|k: int| 0 <= k < before.len() implies #[trigger] digits[k]
                        == before[k] by {
                        assert(body.take(i - start + 1).filter(keep)[k] == before[k]);
                    }
                    assert(before.contains('.') ==> exists|k: int|
                        0 <= k < before.len() && before[k] == '.');
                    assert(read_so_far.contains('.') <==> before.contains('.') || c == '.') by {
                        if before.contains('.') {
                            let k = choose|k: int| 0 <= k < before.len() && before[k] == '.';
                            assert(read_so_far[k] == '.');
                        }
                        if c == '.' {
                            assert(read_so_far[before.len() as int] == '.');
                        }
                    }
                }
            }
            if c == ',' || c == '_' {
                i += 1;
            } else if c == '.' {
                if seen_point {
                    proof {
                        let k = choose|k: int| 0 <= k < before.len() && before[k] == '.';
                        assert(digits[k] == '.' && digits[before.len() as int] == '.');
                        assert(!is_numeral(digits));
                    }
                    return None;
                }
                seen_point = true;
                i += 1;
            } else {
                if c < '0' || c > '9' {
                    assert(!is_numeral(digits));
                    return None;
                }
                if count == MAX_DECIMAL_DIGITS {
                    proof {
                        digit_count_grows(digits, read_so_far.len() as int);
                        assert(!is_numeral(digits));
                    }
                    return None;
                }
                count += 1;
                let digit: u32 = c as u32 - 48;
                mantissa = mantissa * 10 + digit as i128;
                if seen_point {
                    scale += 1;
                }
                i += 1;
            }
        }
        assert(body.take(i - start) =~= body);
        if count == 0 {
            return None;
        }
        proof {
            spelled_bound(digits);
            pow10_grows(digit_count(digits), 30);
        }
        Some(
            Decimal {
                mantissa: if negative {
                    -mantissa
                } else {
                    mantissa
                },
                scale,
            },
        )
    }

    /// Ten to the power of `steps`, where it fits.
    fn power_of_ten(steps: u32) -> (power: Option<i128>)
        ensures
            power is Some <==> pow10(steps as nat) <= i128::MAX,
            power matches Some(p) ==> p == pow10(steps as nat),
    {
        proof {
            thirty_digits_fit();
        }
        if steps > 38 {
            proof {
                pow10_grows(39, steps as nat);
            }
            return None;
        }
        let mut power: i128 = 1;
        let mut i: u32 = 0;
        while i < steps
            invariant
                i <= steps <= 38,
                power == pow10(i as nat),
                pow10(38) == 100_000_000_000_000_000_000_000_000_000_000_000_000,
            decreases steps - i,
        {
            proof {
                pow10_grows((i + 1) as nat, 38);
            }
            power = power * 10;
            i += 1;
        }
        proof {
            pow10_grows(steps as nat, 38);
        }
        Some(power)
    }

    /// The mantissa at a larger scale.
    fn lift(self, scale: u32) -> (mantissa: Option<i128>)
        requires
            scale >= self.scale,
        ensures
            (match mantissa {
                Some(m) => Some(m as int),
                None => None,
            }) == self.lifted(scale),
    {
        match Self::power_of_ten(scale - self.scale) {
            Some(factor) => self.mantissa.checked_mul(factor),
            None => None,
        }
    }

    /// Two decimals at a common scale.
    pub fn align(a: Decimal, b: Decimal) -> (pair: Option<(i128, i128)>)
        ensures
            (match pair {
                Some((x, y)) => Some((x as int, y as int)),
                None => None,
            }) == Self::aligned(a, b),
    {
        let scale: u32 = if a.scale >= b.scale {
            a.scale
        } else {
            b.scale
        };
        match (a.lift(scale), b.lift(scale)) {
            (Some(x), Some(y)) => Some((x, y)),
            _ => None,
        }
    }

    /// `|self - other|`, at the common scale.
    pub fn abs_difference(self, other: Decimal) -> (gap: Option<Decimal>)
        ensures
            gap == self.distance(other),
    {
        let scale: u32 = if self.scale >= other.scale {
            self.scale
        } else {
            other.scale
        };
        match Self::align(self, other) {
            Some((a, b)) => {
                let difference: Option<i128> = if a >= b {
                    a.checked_sub(b)
                } else {
                    b.checked_sub(a)
                };
                match difference {
                    Some(mantissa) => Some(Decimal { mantissa, scale }),
                    None => None,
                }
            },
            None => None,
        }
    }

    /// `self <= other`. Where it answers, the answer is that of the numbers themselves.
    pub fn le(self, other: Decimal) -> (answer: Option<bool>)
        ensures
            answer == self.at_most(other),
            answer matches Some(yes) ==> yes == self.value_at_most(other),
    {
        proof {
            self.at_most_is_by_value(other);
        }
        match Self::align(self, other) {
            Some((a, b)) => Some(a <= b),
            None => None,
        }
    }

    /// `|self| * percent / 100`. Dividing by 100 adds two to the scale, which is exact.
    pub fn percent_of(self, percent: Decimal) -> (part: Option<Decimal>)
        ensures
            part == self.share(percent),
    {
        if self.mantissa == i128::MIN {
            return None;
        }
        let size: i128 = if self.mantissa >= 0 {
            self.mantissa
        } else {
            -self.mantissa
        };
        match size.checked_mul(percent.mantissa) {
            Some(mantissa) => match self.scale.checked_add(percent.scale) {
                Some(sum) => match sum.checked_add(2) {
                    Some(scale) => Some(Decimal { mantissa, scale }),
                    None => None,
                },
                None => None,
            },
            None => None,
        }
    }

    /// At a common scale the mantissas order as the numbers do.
    pub proof fn at_most_is_by_value(self, other: Decimal)
        ensures
            self.at_most(other) matches Some(yes) ==> yes == self.value_at_most(other),
    {
        let a = self.mantissa as int;
        let b = other.mantissa as int;
        if self.scale >= other.scale {
            let d = (self.scale - other.scale) as nat;
            let low = pow10(other.scale as nat);
            pow10_adds(d, other.scale as nat);
            pow10_grows(0, other.scale as nat);
            assert(pow10(0) == 1);
            let up = pow10(d);
            assert(pow10(self.scale as nat) == up * low);
            assert((a * 1 <= b * up) == (a * low <= b * (up * low))) by (nonlinear_arith)
                requires
                    low >= 1,
            ;
        } else {
            let d = (other.scale - self.scale) as nat;
            let low = pow10(self.scale as nat);
            pow10_adds(d, self.scale as nat);
            pow10_grows(0, self.scale as nat);
            assert(pow10(0) == 1);
            let up = pow10(d);
            assert(pow10(other.scale as nat) == up * low);
            assert((a * up <= b * 1) == (a * (up * low) <= b * low)) by (nonlinear_arith)
                requires
                    low >= 1,
            ;
        }
    }
}

/// White space is trimmed from the end of a text only as far as the last character that
/// is none.
proof fn trimmed_push(s: Seq<char>, c: char)
    requires
        s.len() > 0,
        !is_white(s.last()),
        !is_white(c),
    ensures
        trimmed(s.push(c)) == trimmed(s).push(c),
        trimmed(s).len() > 0,
        trimmed(s).last() == s.last(),
    decreases s.len(),
{
    if is_white(s[0]) {
        let rest = s.skip(1);
        assert(rest.len() > 0) by {
            if rest.len() == 0 {
                assert(s.last() == s[0]);
            }
        }
        assert(rest.last() == s.last());
        trimmed_push(rest, c);
        assert(s.push(c).skip(1) =~= rest.push(c));
        assert(s.push(c)[0] == s[0]);
    } else {
        assert(s.push(c)[0] == s[0]);
        assert(s.push(c).last() == c);
        assert(trimmed_start(s.push(c)) == s.push(c));
        assert(trimmed_start(s) == s);
    }
}

/// A zero after the last place changes how a number is written, not the number: `0.5`
/// and `0.50` are the same.
pub proof fn trailing_zero_keeps_value(raw: Seq<char>)
    requires
        raw.len() > 0,
        is_digit(raw.last()),
        raw.contains('.'),
        read(raw) is Some,
        read(raw.push('0')) is Some,
    ensures
        (read(raw.push('0'))->0).same_value(read(raw)->0),
{
    let text = trimmed(raw);
    let longer = trimmed(raw.push('0'));
    trimmed_push(raw, '0');
    let signed = text.len() > 0 && (text[0] == '-' || text[0] == '+');
    assert(longer == text.push('0'));
    let body = if signed {
        text.skip(1)
    } else {
        text
    };
    let digits = without_separators(body);
    let keep = |c: char| c != ',' && c != '_';
    reveal(Seq::filter);
    assert(longer[0] == text[0]);
    assert(if signed {
        longer.skip(1) =~= body.push('0')
    } else {
        longer =~= body.push('0')
    });
    assert(body.push('0').drop_last() =~= body);
    let more = without_separators(body.push('0'));
    assert(more == digits.push('0'));
    assert(more.drop_last() =~= digits);
    // The point is among the digits.
    point_survives(raw);
    assert(digits.contains('.'));
    let k = choose|k: int| 0 <= k < digits.len() && digits[k] == '.';
    assert(more[k] == '.');
    assert(more.contains('.'));
    assert(places(more) == places(digits) + 1);
    assert(spelled(more) == spelled(digits) * 10);
    spelled_bound(digits);
    spelled_bound(more);
    read_bound(raw);
    read_bound(raw.push('0'));
    let a = read(raw.push('0'))->0;
    let b = read(raw)->0;
    pow10_grows(digit_count(digits), 30);
    pow10_grows(digit_count(more), 30);
    thirty_digits_fit();
    assert(a.mantissa == b.mantissa * 10);
    assert(a.scale == b.scale + 1);
    assert(pow10(a.scale as nat) == 10 * pow10(b.scale as nat));
    let p = pow10(b.scale as nat);
    let m = b.mantissa as int;
    assert((m * 10) * p == m * (10 * p)) by (nonlinear_arith);
}

/// A decimal point in what is written is among the digits that are read.
proof fn point_survives(raw: Seq<char>)
    requires
        raw.contains('.'),
    ensures
        ({
            let text = trimmed(raw);
            let signed = text.len() > 0 && (text[0] == '-' || text[0] == '+');
            without_separators(
                if signed {
                    text.skip(1)
                } else {
                    text
                },
            ).contains('.')
        }),
{
    trimmed_keeps(raw, '.');
    let text = trimmed(raw);
    let signed = text.len() > 0 && (text[0] == '-' || text[0] == '+');
    let body = if signed {
        text.skip(1)
    } else {
        text
    };
    let k = choose|k: int| 0 <= k < text.len() && text[k] == '.';
    if signed {
        assert(body[k - 1] == '.');
    }
    assert(body.contains('.'));
    let m = choose|m: int| 0 <= m < body.len() && body[m] == '.';
    let keep = |c: char| c != ',' && c != '_';
    body.lemma_filter_contains(keep, m);
}

/// Trimming keeps every character that is not white space.
proof fn trimmed_keeps(s: Seq<char>, c: char)
    requires
        s.contains(c),
        !is_white(c),
    ensures
        trimmed(s).contains(c),
{
    trimmed_start_keeps(s, c);
    trimmed_end_keeps(trimmed_start(s), c);
}

proof fn trimmed_start_keeps(s: Seq<char>, c: char)
    requires
        s.contains(c),
        !is_white(c),
    ensures
        trimmed_start(s).contains(c),
    decreases s.len(),
{
    if s.len() > 0 && is_white(s[0]) {
        let k = choose|k: int| 0 <= k < s.len() && s[k] == c;
        assert(s.skip(1)[k - 1] == c);
        trimmed_start_keeps(s.skip(1), c);
    }
}

proof fn trimmed_end_keeps(s: Seq<char>, c: char)
    requires
        s.contains(c),
        !is_white(c),
    ensures
        trimmed_end(s).contains(c),
    decreases s.len(),
{
    if s.len() > 0 && is_white(s.last()) {
        let k = choose|k: int| 0 <= k < s.len() && s[k] == c;
        assert(s.drop_last()[k] == c);
        trimmed_end_keeps(s.drop_last(), c);
    }
}

/// What a filter keeps of the first part of a text comes first in what it keeps of all.
proof fn lead_in(s: Seq<char>, keep: spec_fn(char) -> bool, upto: int)
    requires
        0 <= upto <= s.len(),
    ensures
        s.take(upto).filter(keep).len() <= s.filter(keep).len(),
        forall|k: int|
            0 <= k < s.take(upto).filter(keep).len() ==> #[trigger] s.take(upto).filter(keep)[k]
                == s.filter(keep)[k],
        s.filter(keep).take(s.take(upto).filter(keep).len() as int) == s.take(upto).filter(keep),
{
    Seq::filter_distributes_over_add(s.take(upto), s.skip(upto), keep);
    assert(s =~= s.take(upto) + s.skip(upto));
    assert(s.filter(keep).take(s.take(upto).filter(keep).len() as int) =~= s.take(upto).filter(
        keep,
    ));
}

/// A longer text has at least as many digits.
proof fn digit_count_grows(s: Seq<char>, upto: int)
    requires
        0 <= upto <= s.len(),
    ensures
        digit_count(s.take(upto)) <= digit_count(s),
    decreases s.len(),
{
    if upto < s.len() {
        digit_count_grows(s.drop_last(), upto);
        assert(s.drop_last().take(upto) =~= s.take(upto));
    } else {
        assert(s.take(upto) =~= s);
    }
}

/// Ten to the power of `n`, as arithmetic has it.
pub proof fn pow10_is_ten_to_the_power(n: nat)
    ensures
        pow10(n) == vstd::arithmetic::power::pow(10, n),
    decreases n,
{
    reveal(vstd::arithmetic::power::pow);
    if n > 0 {
        pow10_is_ten_to_the_power((n - 1) as nat);
    }
}

proof fn trimmed_from(s: Seq<char>, c: char)
    requires
        trimmed(s).contains(c),
    ensures
        s.contains(c),
{
    let start = trimmed_start(s);
    trimmed_end_from(start, c);
    trimmed_start_from(s, c);
}

proof fn trimmed_start_from(s: Seq<char>, c: char)
    requires
        trimmed_start(s).contains(c),
    ensures
        s.contains(c),
    decreases s.len(),
{
    if s.len() > 0 && is_white(s[0]) {
        trimmed_start_from(s.skip(1), c);
        let k = choose|k: int| 0 <= k < s.skip(1).len() && s.skip(1)[k] == c;
        assert(s[k + 1] == c);
    }
}

proof fn trimmed_end_from(s: Seq<char>, c: char)
    requires
        trimmed_end(s).contains(c),
    ensures
        s.contains(c),
    decreases s.len(),
{
    if s.len() > 0 && is_white(s.last()) {
        trimmed_end_from(s.drop_last(), c);
        let k = choose|k: int| 0 <= k < s.drop_last().len() && s.drop_last()[k] == c;
        assert(s[k] == c);
    }
}

/// The digits that are read hold a point only where what is written does.
proof fn point_comes_from(raw: Seq<char>)
    requires
        ({
            let text = trimmed(raw);
            let signed = text.len() > 0 && (text[0] == '-' || text[0] == '+');
            without_separators(
                if signed {
                    text.skip(1)
                } else {
                    text
                },
            ).contains('.')
        }),
    ensures
        raw.contains('.'),
{
    let text = trimmed(raw);
    let signed = text.len() > 0 && (text[0] == '-' || text[0] == '+');
    let body = if signed {
        text.skip(1)
    } else {
        text
    };
    let keep = |c: char| c != ',' && c != '_';
    let digits = body.filter(keep);
    body.lemma_filter_contains_rev(keep, '.');
    let k = choose|k: int| 0 <= k < body.len() && body[k] == '.';
    if signed {
        assert(text[k + 1] == '.');
    }
    assert(text.contains('.'));
    trimmed_from(raw, '.');
}

/// A number is read place by place: one more digit makes it ten times the number and that
/// digit, towards the side its sign says, with one more place where there is a point; a point
/// behind it changes nothing.
pub proof fn a_number_is_read_place_by_place(raw: Seq<char>, c: char)
    requires
        raw.len() > 0,
        !is_white(raw.last()),
        read(raw) is Some,
        read(raw.push(c)) is Some,
    ensures
        ({
            let before = read(raw)->0;
            let after = read(raw.push(c))->0;
            let negative = trimmed(raw)[0] == '-';
            &&& '0' <= c && c <= '9' && negative ==> after.mantissa == 10 * before.mantissa - (
            c as int - 48)
            &&& '0' <= c && c <= '9' && !negative ==> after.mantissa == 10 * before.mantissa + (
            c as int - 48)
            &&& '0' <= c && c <= '9' && raw.contains('.') ==> after.scale == before.scale + 1
            &&& '0' <= c && c <= '9' && !raw.contains('.') ==> after.scale == 0 && before.scale == 0
            &&& c == '.' ==> after == before
        }),
{
    if ('0' <= c && c <= '9') || c == '.' {
        let text = trimmed(raw);
        let longer = trimmed(raw.push(c));
        trimmed_push(raw, c);
        assert(longer == text.push(c));
        assert(longer[0] == text[0]);
        let signed = text.len() > 0 && (text[0] == '-' || text[0] == '+');
        let body = if signed {
            text.skip(1)
        } else {
            text
        };
        let digits = without_separators(body);
        reveal(Seq::filter);
        assert(if signed {
            longer.skip(1) =~= body.push(c)
        } else {
            longer =~= body.push(c)
        });
        assert(body.push(c).drop_last() =~= body);
        let more = without_separators(body.push(c));
        assert(more == digits.push(c));
        assert(more.drop_last() =~= digits);
        assert(more.last() == c);
        if raw.contains('.') {
            point_survives(raw);
        }
        if digits.contains('.') {
            point_comes_from(raw);
            let k = choose|k: int| 0 <= k < digits.len() && digits[k] == '.';
            assert(more[k] == '.');
            assert(more.contains('.'));
            assert(more[k] == '.' && more[digits.len() as int] == c);
        }
        if more.contains('.') && c != '.' {
            let k = choose|k: int| 0 <= k < more.len() && more[k] == '.';
            assert(digits[k] == '.');
            assert(digits.contains('.'));
        }
        spelled_bound(digits);
        spelled_bound(more);
        pow10_grows(digit_count(digits), 30);
        pow10_grows(digit_count(more), 30);
        thirty_digits_fit();
        assert(places(more) == if c == '.' || !digits.contains('.') {
            0
        } else {
            places(digits) + 1
        });
        if c == '.' {
            assert(!digits.contains('.'));
            assert(places(digits) == 0);
        }
    }
}

/// How a number starts: a digit stands for itself, behind a point for as many tenths.
pub proof fn a_number_starts_with_a_digit(c: char)
    requires
        '0' <= c,
        c <= '9',
    ensures
        read(seq![c]) == Some(Decimal { mantissa: (c as int - 48) as i128, scale: 0 }),
        read(seq!['.', c]) == Some(Decimal { mantissa: (c as int - 48) as i128, scale: 1 }),
{
    reveal(Seq::filter);
    let one = seq![c];
    let two = seq!['.', c];
    assert(trimmed(one) == one);
    assert(trimmed(two) == two);
    assert(one.drop_last() =~= seq![]);
    assert(two.drop_last() =~= seq!['.']);
    assert(seq!['.'].drop_last() =~= seq![]);
    assert(without_separators(one) =~= one);
    let keep = |x: char| x != ',' && x != '_';
    let point = seq!['.'];
    assert(point.drop_last().filter(keep) =~= seq![]);
    assert(point.last() == '.');
    assert(point.filter(keep) =~= point);
    assert(two.drop_last() =~= point);
    assert(two.last() == c);
    assert(without_separators(two) =~= point.push(c));
    assert(point.push(c) =~= two);
    assert(two[0] == '.');
    assert(two.contains('.'));
    reveal_with_fuel(spelled, 4);
    reveal_with_fuel(digit_count, 4);
    reveal_with_fuel(places, 4);
    assert(!one.contains('.'));
    assert(is_numeral(one));
    assert(is_numeral(two));
}

proof fn unsigned_trim(s: Seq<char>, sign: char)
    requires
        s.len() > 0,
        !is_white(s[0]),
        !is_white(sign),
    ensures
        trimmed(seq![sign] + s) == seq![sign] + trimmed(s),
        trimmed(s).len() > 0,
        trimmed(s)[0] == s[0],
    decreases s.len(),
{
    let all = seq![sign] + s;
    assert(all[0] == sign);
    assert(all.last() == s.last());
    if is_white(s.last()) {
        let init = s.drop_last();
        assert(init.len() > 0) by {
            if init.len() == 0 {
                assert(s.last() == s[0]);
            }
        }
        assert(init[0] == s[0]);
        unsigned_trim(init, sign);
        assert(all.drop_last() =~= seq![sign] + init);
        assert((seq![sign] + init)[0] == sign);
    }
}

/// A minus sign negates the number behind it; a plus sign changes nothing.
pub proof fn a_sign_stands_before_the_number(s: Seq<char>)
    requires
        s.len() > 0,
        !is_white(s[0]),
        s[0] != '-',
        s[0] != '+',
    ensures
        read(seq!['+'] + s) == read(s),
        read(seq!['-'] + s) is Some <==> read(s) is Some,
        read(s) matches Some(d) ==> read(seq!['-'] + s)->0.mantissa == -d.mantissa && read(
            seq!['-'] + s,
        )->0.scale == d.scale,
{
    unsigned_trim(s, '+');
    unsigned_trim(s, '-');
    let text = trimmed(s);
    assert((seq!['+'] + text).skip(1) =~= text);
    assert((seq!['-'] + text).skip(1) =~= text);
    read_bound(s);
    thirty_digits_fit();
    if is_numeral(without_separators(text)) {
        spelled_bound(without_separators(text));
        pow10_grows(digit_count(without_separators(text)), 30);
    }
}

/// White space around a number is not part of it, and separators within it are not either.
pub proof fn only_the_digits_count(
    left: Seq<char>,
    a: Seq<char>,
    separator: char,
    b: Seq<char>,
    right: Seq<char>,
)
    requires
        forall|i: int| 0 <= i < left.len() ==> is_white(#[trigger] left[i]),
        forall|i: int| 0 <= i < right.len() ==> is_white(#[trigger] right[i]),
        a.len() > 0,
        !is_white(a[0]),
        !is_white(a.last()),
        b.len() > 0 ==> !is_white(b.last()),
        separator == ',' || separator == '_',
    ensures
        read(left + (a + b) + right) == read(a + b),
        read(a + seq![separator] + b) == read(a + b),
{
    let plain = a + b;
    let parted = a + seq![separator] + b;
    trimming_takes_white_ends(left, plain, right);
    assert(seq![] + plain + seq![] =~= plain);
    trimming_takes_white_ends(seq![], plain, seq![]);
    assert(seq![] + parted + seq![] =~= parted);
    trimming_takes_white_ends(seq![], parted, seq![]);
    let keep = |c: char| c != ',' && c != '_';
    let from = if a[0] == '-' || a[0] == '+' {
        1int
    } else {
        0int
    };
    let rest = a.skip(from);
    assert(plain.skip(from) =~= rest + b);
    assert(parted.skip(from) =~= rest + (seq![separator] + b));
    assert(plain.skip(0) =~= plain && parted.skip(0) =~= parted);
    Seq::filter_distributes_over_add(rest, b, keep);
    Seq::filter_distributes_over_add(rest, seq![separator] + b, keep);
    Seq::filter_distributes_over_add(seq![separator], b, keep);
    reveal(Seq::filter);
    assert(seq![separator].drop_last() =~= seq![]);
    assert(seq![separator].filter(keep) =~= seq![]);
    assert((seq![separator] + b).filter(keep) =~= b.filter(keep));
}

spec fn is_written(s: Seq<char>) -> bool {
    forall|i: int|
        0 <= i < s.len() ==> ('0' <= #[trigger] s[i] && s[i] <= '9') || s[i] == '.' || s[i] == ','
            || s[i] == '_'
}

proof fn digits_are_counted(s: Seq<char>)
    ensures
        is_written(s) ==> digit_count(without_separators(s)) == s.filter(
            |c: char| '0' <= c && c <= '9',
        ).len(),
        without_separators(s).filter(|c: char| c == '.').len() == s.filter(|c: char| c == '.').len(),
        is_written(s) <==> forall|i: int|
            0 <= i < without_separators(s).len() ==> #[trigger] without_separators(s)[i] == '.'
                || is_digit(without_separators(s)[i]),
    decreases s.len(),
{
    reveal(Seq::filter);
    if s.len() > 0 {
        let init = s.drop_last();
        let c = s.last();
        digits_are_counted(init);
        let before = without_separators(init);
        let all = without_separators(s);
        if c == ',' || c == '_' {
            assert(all == before);
        } else {
            assert(all == before.push(c));
            assert(all.drop_last() =~= before);
        }
        assert(s[s.len() - 1] == c);
        if is_written(s) {
            assert forall|i: int| 0 <= i < init.len() implies ('0' <= #[trigger] init[i] && init[i]
                <= '9') || init[i] == '.' || init[i] == ',' || init[i] == '_' by {
                assert(s[i] == init[i]);
            }
            assert(is_written(init));
            assert forall|i: int| 0 <= i < all.len() implies #[trigger] all[i] == '.' || is_digit(
                all[i],
            ) by {
                if i < before.len() {
                    assert(before[i] == all[i]);
                }
            }
        }
        if forall|i: int| 0 <= i < all.len() ==> #[trigger] all[i] == '.' || is_digit(all[i]) {
            assert forall|i: int| 0 <= i < before.len() implies #[trigger] before[i] == '.'
                || is_digit(before[i]) by {
                assert(all[i] == before[i]);
            }
            assert(is_written(init));
            if c != ',' && c != '_' {
                assert(all[before.len() as int] == c);
            }
            assert forall|i: int| 0 <= i < s.len() implies ('0' <= #[trigger] s[i] && s[i] <= '9')
                || s[i] == '.' || s[i] == ',' || s[i] == '_' by {
                if i < init.len() {
                    assert(init[i] == s[i]);
                }
            }
        }
    }
}

proof fn one_point(s: Seq<char>)
    ensures
        s.filter(|c: char| c == '.').len() == 0 <==> !s.contains('.'),
        s.filter(|c: char| c == '.').len() <= 1 <==> forall|i: int, j: int|
            #![trigger s[i], s[j]]
            0 <= i < j < s.len() ==> s[i] != '.' || s[j] != '.',
    decreases s.len(),
{
    reveal(Seq::filter);
    if s.len() > 0 {
        let init = s.drop_last();
        one_point(init);
        if init.contains('.') {
            let k = choose|k: int| 0 <= k < init.len() && init[k] == '.';
            assert(s[k] == '.');
            if s.last() == '.' {
                assert(s[k] == '.' && s[s.len() - 1] == '.');
            }
        }
        if s.contains('.') && s.last() != '.' {
            let k = choose|k: int| 0 <= k < s.len() && s[k] == '.';
            assert(init[k] == '.');
        }
        if s.last() == '.' {
            assert(s[s.len() - 1] == '.');
        }
        if forall|i: int, j: int|
            #![trigger s[i], s[j]]
            0 <= i < j < s.len() ==> s[i] != '.' || s[j] != '.' {
            assert forall|i: int, j: int|
                #![trigger init[i], init[j]]
                0 <= i < j < init.len() implies init[i] != '.' || init[j] != '.' by {
                assert(s[i] != '.' || s[j] != '.');
            }
        }
        if s.filter(|c: char| c == '.').len() <= 1 {
            assert forall|i: int, j: int|
                #![trigger s[i], s[j]]
                0 <= i < j < s.len() implies s[i] != '.' || s[j] != '.' by {
                if j < init.len() {
                    assert(init[i] != '.' || init[j] != '.');
                } else if s[j] == '.' && s[i] == '.' {
                    assert(init[i] == '.');
                    assert(init.contains('.'));
                }
            }
        }
    }
}

/// What is a number: from one to thirty digits, at most one point, and nothing else but
/// separators. A text that does not start with a sign or with white space, and does not end
/// with white space, is read exactly when it is one.
pub proof fn thirty_digits_and_a_point_are_a_number(s: Seq<char>)
    requires
        s.len() > 0,
        !is_white(s[0]),
        !is_white(s.last()),
        s[0] != '-',
        s[0] != '+',
    ensures
        read(s) is Some <==> {
            &&& forall|i: int|
                0 <= i < s.len() ==> ('0' <= #[trigger] s[i] && s[i] <= '9') || s[i] == '.' || s[i]
                    == ',' || s[i] == '_'
            &&& 1 <= s.filter(|c: char| '0' <= c && c <= '9').len() <= 30
            &&& s.filter(|c: char| c == '.').len() <= 1
        },
{
    assert(seq![] + s + seq![] =~= s);
    trimming_takes_white_ends(seq![], s, seq![]);
    let digits = without_separators(s);
    digits_are_counted(s);
    one_point(digits);
}

} // verus!
