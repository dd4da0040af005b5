//! Decimal text of 32-bit signed integers: reading a token the way `str::parse::<i32>` does,
//! and writing a value the way `{}` formatting does.
use vstd::prelude::*;

verus! {

/// An ASCII decimal digit.
pub open spec fn is_digit(c: char) -> bool {
    48 <= (c as u32) <= 57
}

/// The value of an ASCII decimal digit.
pub open spec fn digit_value(c: char) -> int {
    (c as u32) - 48
}

/// Every character is an ASCII decimal digit.
pub open spec fn all_digits(s: Seq<char>) -> bool {
    forall|i: int| 0 <= i < s.len() ==> #[trigger] is_digit(s[i])
}

/// The number that a run of decimal digits denotes, most significant digit first.
pub open spec fn digits_value(s: Seq<char>) -> int
    decreases s.len(),
{
    if s.len() == 0 {
        0
    } else {
        digits_value(s.drop_last()) * 10 + digit_value(s.last())
    }
}

/// True when `v` fits in an `i32`.
pub open spec fn fits_i32(v: int) -> bool {
    i32::MIN <= v <= i32::MAX
}

/// The digits of a token once an optional leading `+` or `-` is taken off.
pub open spec fn unsigned_part(t: Seq<char>) -> Seq<char> {
    if t.len() > 0 && (t[0] == '+' || t[0] == '-') {
        t.drop_first()
    } else {
        t
    }
}

/// What reading a token as an `i32` gives: an optional sign followed by at least one ASCII
/// digit, whose value fits in an `i32`; anything else is refused.
pub open spec fn parse_i32(t: Seq<char>) -> Option<int> {
    let digits = unsigned_part(t);
    if t.len() == 0 || digits.len() == 0 || !all_digits(digits) {
        None
    } else {
        let v = if t[0] == '-' {
            -digits_value(digits)
        } else {
            digits_value(digits)
        };
        if fits_i32(v) {
            Some(v)
        } else {
            None
        }
    }
}

/// The character of a decimal digit value.
pub open spec fn digit_char(d: int) -> char {
    (d + 48) as char
}

/// The decimal digits of a natural number, without leading zeros.
pub open spec fn nat_digits(n: nat) -> Seq<char>
    decreases n,
{
    if n < 10 {
        seq![digit_char(n as int)]
    } else {
        nat_digits(n / 10).push(digit_char((n % 10) as int))
    }
}

/// The decimal text of an integer: a `-` before the digits of its magnitude when negative.
pub open spec fn decimal(n: int) -> Seq<char> {
    if n < 0 {
        seq!['-'] + nat_digits((-n) as nat)
    } else {
        nat_digits(n as nat)
    }
}

proof fn lemma_digits_value_nonneg(s: Seq<char>)
    requires
        all_digits(s),
    ensures
        digits_value(s) >= 0,
    decreases s.len(),
{
    if s.len() > 0 {
        assert(is_digit(s[s.len() - 1]));
        lemma_digits_value_nonneg(s.drop_last());
    }
}

/// The value of a run of digits never shrinks as digits are added at its end.
proof fn lemma_digits_value_prefix(s: Seq<char>, j: int, k: int)
    requires
        all_digits(s),
        0 <= j <= k <= s.len(),
    ensures
        digits_value(s.take(j)) <= digits_value(s.take(k)),
    decreases k - j,
{
    if j < k {
        lemma_digits_value_prefix(s, j, k - 1);
        let p = s.take(k);
        assert(p.drop_last() =~= s.take(k - 1));
        assert(is_digit(s[k - 1]));
        assert(all_digits(s.take(k - 1)));
        lemma_digits_value_nonneg(s.take(k - 1));
    }
}

proof fn lemma_digit_char(d: int)
    requires
        0 <= d <= 9,
    ensures
        is_digit(digit_char(d)),
        digit_value(digit_char(d)) == d,
        digit_char(d) != '+',
        digit_char(d) != '-',
{
    assert((d + 48) as char as u32 == d + 48);
}

proof fn lemma_nat_digits(n: nat)
    ensures
        nat_digits(n).len() >= 1,
        all_digits(nat_digits(n)),
        digits_value(nat_digits(n)) == n,
        nat_digits(n)[0] != '+',
        nat_digits(n)[0] != '-',
    decreases n,
{
    if n < 10 {
        lemma_digit_char(n as int);
        let s = nat_digits(n);
        assert(s.drop_last() =~= Seq::<char>::empty());
        assert(digits_value(Seq::<char>::empty()) == 0);
    } else {
        lemma_nat_digits(n / 10);
        lemma_digit_char((n % 10) as int);
        let s = nat_digits(n);
        assert(s.drop_last() =~= nat_digits(n / 10));
        assert forall|i: int| 0 <= i < s.len() implies #[trigger] is_digit(s[i]) by {
            if i < s.len() - 1 {
                assert(s[i] == nat_digits(n / 10)[i]);
            }
        }
    }
}

/// The decimal text of an integer is never empty.
pub proof fn lemma_decimal_nonempty(n: int)
    ensures
        decimal(n).len() > 0,
{
    if n < 0 {
        lemma_nat_digits((-n) as nat);
    } else {
        lemma_nat_digits(n as nat);
    }
}

/// Reading back the decimal text of any `i32` gives that value.
pub proof fn law_decimal_reads_back(n: int)
    requires
        fits_i32(n),
    ensures
        parse_i32(decimal(n)) == Some(n),
{
    if n < 0 {
        lemma_nat_digits((-n) as nat);
        let t = decimal(n);
        assert(unsigned_part(t) =~= nat_digits((-n) as nat));
    } else {
        lemma_nat_digits(n as nat);
    }
}

/// Reads the characters `text[start..end]` as an `i32`, as `str::parse::<i32>` does.
pub fn parse_i32_span(text: &[char], start: usize, end: usize) -> (r: Option<i32>)
    requires
        start <= end <= text@.len(),
    ensures
        match r {
            Some(v) => parse_i32(text@.subrange(start as int, end as int)) == Some(v as int),
            None => parse_i32(text@.subrange(start as int, end as int)) is None,
        },
{
    let ghost t = text@.subrange(start as int, end as int);
    if start == end {
        return None;
    }
    let first = text[start];
    let negative = first == '-';
    let signed = first == '+' || first == '-';
    let digits_start: usize = if signed {
        start + 1
    } else {
        start
    };
    let ghost digits = unsigned_part(t);
    assert(digits =~= text@.subrange(digits_start as int, end as int));
    if digits_start == end {
        return None;
    }
    let mut acc: i64 = 0;
    let mut i: usize = digits_start;
    while i < end
        invariant
            start <= digits_start < end <= text@.len(),
            digits_start <= i <= end,
            t == text@.subrange(start as int, end as int),
            t.len() > 0,
            negative == (t[0] == '-'),
            digits == unsigned_part(t),
            digits == text@.subrange(digits_start as int, end as int),
            0 <= acc <= 2147483648,
            acc == digits_value(digits.take(i - digits_start)),
            all_digits(digits.take(i - digits_start)),
        decreases end - i,
    {
        let c = text[i];
        let code = c as u32;
        if code < 48 || code > 57 {
            proof {
                assert(digits[i - digits_start] == c);
                assert(!is_digit(digits[i - digits_start]));
            }
            return None;
        }
        let ghost k = i - digits_start;
        proof {
            let p = digits.take(k + 1);
            assert(p.drop_last() =~= digits.take(k));
            assert(p.last() == c);
            assert(all_digits(p)) by {
                assert forall|j: int| 0 <= j < p.len() implies #[trigger] is_digit(p[j]) by {
                    if j < k {
                        assert(p[j] == digits.take(k)[j]);
                    }
                }
            }
        }
        acc = acc * 10 + (code - 48) as i64;
        if acc > 2147483648 {
            proof {
                if all_digits(digits) {
                    lemma_digits_value_prefix(digits, k + 1, digits.len() as int);
                    assert(digits.take(digits.len() as int) =~= digits);
                }
            }
            return None;
        }
        i = i + 1;
    }
    proof {
        assert(digits.take(digits.len() as int) =~= digits);
    }
    if negative {
        let v: i64 = -acc;
        Some(v as i32)
    } else if acc > 2147483647 {
        None
    } else {
        Some(acc as i32)
    }
}

/// Appends the decimal digits of `m` to `out`.
fn push_digits(out: &mut Vec<char>, m: u32)
    ensures
        final(out)@ == old(out)@ + nat_digits(m as nat),
    decreases m,
{
    if m >= 10 {
        push_digits(out, m / 10);
    }
    let d: u8 = (m % 10) as u8;
    let c: char = (48u8 + d) as char;
    proof {
        assert(c == digit_char((m % 10) as int));
    }
    out.push(c);
    proof {
        if m >= 10 {
            assert(nat_digits(m as nat) == nat_digits((m / 10) as nat).push(digit_char((m % 10) as int)));
        }
    }
}

/// The decimal text of `n`, as `{}` formatting writes it.
pub fn format_i32(n: i32) -> (r: Vec<char>)
    ensures
        r@ == decimal(n as int),
{
    let mut out: Vec<char> = Vec::new();
    if n < 0 {
        out.push('-');
        let magnitude: u32 = (-(n as i64)) as u32;
        push_digits(&mut out, magnitude);
        assert(out@ =~= seq!['-'] + nat_digits((-(n as int)) as nat));
    } else {
        push_digits(&mut out, n as u32);
        assert(out@ =~= nat_digits(n as nat));
    }
    out
}

} // verus!
