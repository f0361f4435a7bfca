//! Text normalization: the case folding used to match ingredient names.

use vstd::prelude::*;

verus! {

/// The characters that Unicode lowercasing produces for the given
/// characters. The result is a function of the characters alone; what it is
/// on given values is deliberately left unstated, and callers' contracts
/// speak of this name.
pub uninterp spec fn lower_of(s: Seq<char>) -> Seq<char>;

/// Relies on `str::to_lowercase`: the result depends on the input
/// characters alone, and lowercasing an empty string yields an empty string.
#[verifier::external_body]
pub(crate) fn lowercase(s: &str) -> (r: String)
    ensures
        r@ == lower_of(s@),
        s@.len() == 0 ==> r@.len() == 0,
{
    s.to_lowercase()
}

/// Whether two string slices hold the same characters.
pub fn str_eq(a: &str, b: &str) -> (r: bool)
    ensures
        r == (a@ == b@),
{
    let an = a.unicode_len();
    let bn = b.unicode_len();
    if an != bn {
        proof {
            assert(a@ != b@);
        }
        return false;
    }
    let mut i: usize = 0;
    while i < an
        invariant
            an == a@.len(),
            an == b@.len(),
            i <= an,
            forall|j: int| 0 <= j < i ==> a@[j] == b@[j],
        decreases an - i,
    {
        if a.get_char(i) != b.get_char(i) {
            proof {
                assert(a@[i as int] != b@[i as int]);
            }
            return false;
        }
        i += 1;
    }
    proof {
        assert(a@ =~= b@);
    }
    true
}

/// The decimal digit character for a value below ten.
pub open spec fn digit_char(d: int) -> char {
    if d == 0 {
        '0'
    } else if d == 1 {
        '1'
    } else if d == 2 {
        '2'
    } else if d == 3 {
        '3'
    } else if d == 4 {
        '4'
    } else if d == 5 {
        '5'
    } else if d == 6 {
        '6'
    } else if d == 7 {
        '7'
    } else if d == 8 {
        '8'
    } else {
        '9'
    }
}

/// The decimal digits of a number, most significant first.
pub open spec fn decimal_digits(v: int) -> Seq<char>
    decreases v,
{
    if v < 10 {
        seq![digit_char(v)]
    } else {
        decimal_digits(v / 10).push(digit_char(v % 10))
    }
}

fn digit_str(d: u64) -> (r: &'static str)
    requires
        d < 10,
    ensures
        r@ =~= seq![digit_char(d as int)],
{
    proof {
        reveal_strlit("0");
        reveal_strlit("1");
        reveal_strlit("2");
        reveal_strlit("3");
        reveal_strlit("4");
        reveal_strlit("5");
        reveal_strlit("6");
        reveal_strlit("7");
        reveal_strlit("8");
        reveal_strlit("9");
    }
    match d {
        0 => "0",
        1 => "1",
        2 => "2",
        3 => "3",
        4 => "4",
        5 => "5",
        6 => "6",
        7 => "7",
        8 => "8",
        _ => "9",
    }
}

/// The number written in decimal.
pub fn u64_to_string(v: u64) -> (r: String)
    ensures
        r@ == decimal_digits(v as int),
    decreases v,
{
    if v < 10 {
        String::from_str(digit_str(v))
    } else {
        let mut r = u64_to_string(v / 10);
        r.append(digit_str(v % 10));
        proof {
            assert(r@ =~= decimal_digits(v as int / 10).push(digit_char(v as int % 10)));
        }
        r
    }
}

/// Whether a character is a decimal digit.
pub open spec fn is_digit(c: char) -> bool {
    c == '0' || c == '1' || c == '2' || c == '3' || c == '4' || c == '5' || c == '6' || c == '7'
        || c == '8' || c == '9'
}

/// The value of a decimal digit character; meaningful only for digits.
pub open spec fn digit_value(c: char) -> int {
    if c == '0' {
        0
    } else if c == '1' {
        1
    } else if c == '2' {
        2
    } else if c == '3' {
        3
    } else if c == '4' {
        4
    } else if c == '5' {
        5
    } else if c == '6' {
        6
    } else if c == '7' {
        7
    } else if c == '8' {
        8
    } else {
        9
    }
}

/// Whether every character of the sequence is a decimal digit.
pub open spec fn all_digits(s: Seq<char>) -> bool {
    forall|j: int| 0 <= j < s.len() ==> is_digit(#[trigger] s[j])
}

/// The number a sequence of decimal digit characters denotes.
pub open spec fn digits_value(s: Seq<char>) -> int
    decreases s.len(),
{
    if s.len() == 0 {
        0
    } else {
        digits_value(s.drop_last()) * 10 + digit_value(s.last())
    }
}

/// A digit string's value only grows as more digits follow.
pub proof fn lemma_digits_value_prefix(s: Seq<char>, i: int)
    requires
        0 <= i <= s.len(),
        all_digits(s),
    ensures
        digits_value(s.subrange(0, i)) <= digits_value(s),
    decreases s.len() - i,
{
    if i < s.len() {
        lemma_digits_value_prefix(s, i + 1);
        let p = s.subrange(0, i);
        let p1 = s.subrange(0, i + 1);
        assert(p1.drop_last() =~= p);
        assert(digits_value(p1) == digits_value(p) * 10 + digit_value(s[i]));
        assert(digits_value(p) >= 0) by {
            lemma_digits_value_nonneg(p);
        }
        assert(digit_value(s[i]) >= 0);
    } else {
        assert(s.subrange(0, i) =~= s);
    }
}

/// A digit string's value is never negative.
pub proof fn lemma_digits_value_nonneg(s: Seq<char>)
    ensures
        digits_value(s) >= 0,
    decreases s.len(),
{
    if s.len() > 0 {
        lemma_digits_value_nonneg(s.drop_last());
    }
}

fn digit_of(c: char) -> (r: Option<u64>)
    ensures
        match r {
            Some(d) => is_digit(c) && d as int == digit_value(c) && d < 10,
            None => !is_digit(c),
        },
{
    match c {
        '0' => Some(0),
        '1' => Some(1),
        '2' => Some(2),
        '3' => Some(3),
        '4' => Some(4),
        '5' => Some(5),
        '6' => Some(6),
        '7' => Some(7),
        '8' => Some(8),
        '9' => Some(9),
        _ => None,
    }
}

/// Parses a nonempty all-digit string into the number it denotes. Yields
/// nothing when the string is empty, holds any other character, or denotes
/// a number too large to represent.
pub fn parse_u64(s: &str) -> (r: Option<u64>)
    ensures
        match r {
            Some(v) => s@.len() > 0 && all_digits(s@) && v as int == digits_value(s@),
            None => s@.len() == 0 || !all_digits(s@) || digits_value(s@) > u64::MAX,
        },
{
    let n = s.unicode_len();
    if n == 0 {
        return None;
    }
    let mut v: u64 = 0;
    let mut i: usize = 0;
    while i < n
        invariant
            n == s@.len(),
            i <= n,
            all_digits(s@.subrange(0, i as int)),
            v as int == digits_value(s@.subrange(0, i as int)),
        decreases n - i,
    {
        let c = s.get_char(i);
        proof {
            assert(s@.subrange(0, i as int + 1).drop_last() =~= s@.subrange(0, i as int));
            assert(s@.subrange(0, i as int + 1).last() == c);
        }
        let d = match digit_of(c) {
            Some(d) => d,
            None => {
                return None;
            },
        };
        let scaled = match v.checked_mul(10) {
            Some(scaled) => scaled,
            None => {
                proof {
                    lemma_parse_overflow(s@, i as int);
                }
                return None;
            },
        };
        let next = match scaled.checked_add(d) {
            Some(next) => next,
            None => {
                proof {
                    lemma_parse_overflow(s@, i as int);
                }
                return None;
            },
        };
        v = next;
        i += 1;
    }
    proof {
        assert(s@.subrange(0, n as int) =~= s@);
    }
    Some(v)
}

/// A power of ten.
pub open spec fn pow10(k: int) -> int
    decreases k,
{
    if k <= 0 {
        1
    } else {
        10 * pow10(k - 1)
    }
}

/// The value of a fraction-digit string in hundred-thousandths: its first
/// five digits, right-padded with zeros.
pub open spec fn frac_scaled(fr: Seq<char>) -> int {
    if fr.len() >= 5 {
        digits_value(fr.subrange(0, 5))
    } else {
        digits_value(fr) * pow10(5 - fr.len())
    }
}

/// The fixed-point value a plain decimal string denotes, in
/// hundred-thousandths: a digit string, optionally with one point somewhere
/// in it (digits may be absent on one side of the point, not both), of
/// which the first five fraction digits count. `None` for any other shape —
/// signs and exponent forms among them — or when the value does not fit.
pub open spec fn fixed_value(s: Seq<char>) -> Option<u64> {
    if exists|d: int| 0 <= d < s.len() && s[d] == '.' {
        let d = choose|d: int| 0 <= d < s.len() && s[d] == '.';
        let intpart = s.subrange(0, d);
        let frac = s.subrange(d + 1, s.len() as int);
        if intpart.len() + frac.len() > 0 && all_digits(intpart) && all_digits(frac) && (
        forall|j: int| d < j < s.len() ==> s[j] != '.') && digits_value(intpart) * 100000
            + frac_scaled(frac) <= u64::MAX {
            Some((digits_value(intpart) * 100000 + frac_scaled(frac)) as u64)
        } else {
            None
        }
    } else {
        if s.len() > 0 && all_digits(s) && digits_value(s) * 100000 <= u64::MAX {
            Some((digits_value(s) * 100000) as u64)
        } else {
            None
        }
    }
}

/// Parses a plain decimal string into hundred-thousandths of a unit:
/// exactly the denotation `fixed_value` gives it.
pub fn parse_fixed(s: &str) -> (r: Option<u64>)
    ensures
        r == fixed_value(s@),
{
    let n = s.unicode_len();

    // Find the decimal point, if any; a second one fails the parse.
    let mut dot: Option<usize> = None;
    let mut i: usize = 0;
    while i < n
        invariant
            n == s@.len(),
            i <= n,
            match dot {
                Some(d) => d < i && s@[d as int] == '.' && (forall|j: int|
                    0 <= j < i && j != d ==> s@[j] != '.'),
                None => forall|j: int| 0 <= j < i ==> s@[j] != '.',
            },
        decreases n - i,
    {
        if s.get_char(i) == '.' {
            match dot {
                Some(prev) => {
                    proof {
                        let d0 = choose|d: int| 0 <= d < s@.len() && s@[d] == '.';
                        assert(s@[prev as int] == '.' && s@[i as int] == '.');
                        if d0 > prev {
                            assert(s@.subrange(0, d0)[prev as int] == '.');
                            assert(!is_digit(s@.subrange(0, d0)[prev as int]));
                            assert(!all_digits(s@.subrange(0, d0)));
                        } else {
                            assert(d0 < (i as int) && (i as int) < s@.len());
                        }
                        assert(fixed_value(s@) is None);
                    }
                    return None;
                },
                None => {
                    dot = Some(i);
                },
            }
        }
        i += 1;
    }

    match dot {
        None => {
            proof {
                assert(!(exists|d: int| 0 <= d < s@.len() && s@[d] == '.'));
            }
            let v = match parse_u64(s) {
                Some(v) => v,
                None => {
                    proof {
                        if s@.len() > 0 && all_digits(s@) {
                            assert(digits_value(s@) > u64::MAX);
                            assert(digits_value(s@) * 100000 > u64::MAX) by (nonlinear_arith)
                                requires
                                    digits_value(s@) > u64::MAX,
                            ;
                        }
                    }
                    return None;
                },
            };
            match v.checked_mul(100000) {
                Some(r) => Some(r),
                None => None,
            }
        },
        Some(d) => {
            proof {
                assert(s@[d as int] == '.');
                let d0 = choose|d0: int| 0 <= d0 < s@.len() && s@[d0] == '.';
                assert(d0 == d as int);
            }
            if n == 1 {
                // Nothing but the point itself.
                proof {
                    assert(s@.subrange(0, d as int).len() + s@.subrange(
                        d as int + 1,
                        n as int,
                    ).len() == 0);
                }
                return None;
            }
            let ghost intview = s@.subrange(0, d as int);
            let ghost fracview = s@.subrange(d as int + 1, n as int);
            let iv = if d == 0 {
                proof {
                    assert(intview =~= Seq::<char>::empty());
                    assert(digits_value(intview) == 0);
                }
                0u64
            } else {
                let intpart = s.substring_char(0, d);
                proof {
                    assert(intpart@ == intview);
                }
                match parse_u64(intpart) {
                    Some(iv) => iv,
                    None => {
                        proof {
                            if all_digits(intview) {
                                assert(digits_value(intview) > u64::MAX);
                                lemma_frac_scaled_nonneg(fracview);
                                assert(digits_value(intview) * 100000 + frac_scaled(fracview)
                                    > u64::MAX) by (nonlinear_arith)
                                    requires
                                        digits_value(intview) > u64::MAX,
                                        frac_scaled(fracview) >= 0,
                                ;
                            }
                        }
                        return None;
                    },
                }
            };
            let fv = if d + 1 >= n {
                proof {
                    assert(fracview =~= Seq::<char>::empty());
                    assert(digits_value(fracview) == 0);
                    assert(frac_scaled(fracview) == 0);
                }
                0u64
            } else {
                let frac = s.substring_char(d + 1, n);
                proof {
                    assert(frac@ == fracview);
                }
                match parse_frac_scaled(frac) {
                    Some(fv) => fv,
                    None => {
                        return None;
                    },
                }
            };
            let scaled = match iv.checked_mul(100000) {
                Some(scaled) => scaled,
                None => {
                    proof {
                        lemma_frac_scaled_nonneg(fracview);
                    }
                    return None;
                },
            };
            match scaled.checked_add(fv) {
                Some(r) => Some(r),
                None => None,
            }
        },
    }
}

/// A fraction's scaled value is never negative.
proof fn lemma_frac_scaled_nonneg(fr: Seq<char>)
    ensures
        frac_scaled(fr) >= 0,
{
    if fr.len() >= 5 {
        lemma_digits_value_nonneg(fr.subrange(0, 5));
    } else {
        lemma_digits_value_nonneg(fr);
        assert(pow10(5 - fr.len()) >= 1) by {
            lemma_pow10_positive(5 - fr.len());
        }
        assert(digits_value(fr) * pow10(5 - fr.len()) >= 0) by (nonlinear_arith)
            requires
                digits_value(fr) >= 0,
                pow10(5 - fr.len()) >= 1,
        ;
    }
}

proof fn lemma_pow10_bounded(k: int)
    requires
        0 <= k <= 5,
    ensures
        1 <= pow10(k) <= 100000,
{
    reveal_with_fuel(pow10, 7);
    assert(pow10(0) == 1);
    assert(pow10(1) == 10);
    assert(pow10(2) == 100);
    assert(pow10(3) == 1000);
    assert(pow10(4) == 10000);
    assert(pow10(5) == 100000);
}

proof fn lemma_pow10_positive(k: int)
    ensures
        pow10(k) >= 1,
    decreases (if k < 0 {
        0int
    } else {
        k
    }),
{
    if k > 0 {
        lemma_pow10_positive(k - 1);
    }
}

/// The first five fraction digits, scaled to hundred-thousandths; `None`
/// when the string is empty or holds a non-digit.
fn parse_frac_scaled(fr: &str) -> (r: Option<u64>)
    ensures
        match r {
            Some(v) => fr@.len() > 0 && all_digits(fr@) && v as int == frac_scaled(fr@) && v
                <= 99999,
            None => fr@.len() == 0 || !all_digits(fr@),
        },
{
    let n = fr.unicode_len();
    if n == 0 {
        return None;
    }

    // Every character must be a digit, even past the five that count.
    let mut i: usize = 0;
    while i < n
        invariant
            n == fr@.len(),
            i <= n,
            all_digits(fr@.subrange(0, i as int)),
        decreases n - i,
    {
        let c = fr.get_char(i);
        proof {
            assert(fr@.subrange(0, i as int + 1).drop_last() =~= fr@.subrange(0, i as int));
        }
        if digit_of(c).is_none() {
            proof {
                assert(!is_digit(fr@[i as int]));
            }
            return None;
        }
        i += 1;
    }
    proof {
        assert(fr@.subrange(0, n as int) =~= fr@);
    }

    let counted = if n >= 5 {
        5
    } else {
        n
    };
    let mut v: u64 = 0;
    let mut k: usize = 0;
    while k < counted
        invariant
            n == fr@.len(),
            all_digits(fr@),
            counted == (if n >= 5 {
                5int
            } else {
                n as int
            }),
            k <= counted,
            v as int == digits_value(fr@.subrange(0, k as int)),
            v as int <= pow10(k as int) - 1,
        decreases counted - k,
    {
        let c = fr.get_char(k);
        let d = match digit_of(c) {
            Some(d) => d,
            None => {
                proof {
                    assert(is_digit(fr@[k as int]));
                    assert(false);
                }
                0
            },
        };
        proof {
            assert(fr@.subrange(0, k as int + 1).drop_last() =~= fr@.subrange(0, k as int));
            assert(fr@.subrange(0, k as int + 1).last() == fr@[k as int]);
            lemma_digits_value_nonneg(fr@.subrange(0, k as int));
            assert(pow10(k as int + 1) == 10 * pow10(k as int));
            lemma_pow10_bounded(k as int + 1);
        }
        v = v * 10 + d;
        k += 1;
    }
    proof {
        lemma_pow10_bounded(counted as int);
    }

    if n >= 5 {
        proof {
            assert(fr@.subrange(0, 5) == fr@.subrange(0, counted as int));
        }
        Some(v)
    } else {
        proof {
            assert(fr@.subrange(0, counted as int) =~= fr@);
            assert(pow10(0) == 1);
            assert((v as int) * 1 == v as int);
        }
        let mut pad: usize = n;
        let mut w: u64 = v;
        while pad < 5
            invariant
                n == fr@.len(),
                all_digits(fr@),
                n < 5,
                n <= pad <= 5,
                v as int == digits_value(fr@),
                v <= 99999,
                w as int == digits_value(fr@) * pow10(pad - n),
                w <= 99999,
            decreases 5 - pad,
        {
            proof {
                lemma_digits_value_nonneg(fr@);
                lemma_digits_small(fr@);
                assert(digits_value(fr@) * pow10(pad + 1 - n) == (digits_value(fr@) * pow10(
                    pad - n,
                )) * 10) by (nonlinear_arith)
                    requires
                        pow10(pad + 1 - n) == 10 * pow10(pad - n),
                ;
                assert(digits_value(fr@) * pow10(pad + 1 - n) <= 99999) by {
                    lemma_scaled_small(fr@, pad + 1 - n);
                }
            }
            w = w * 10;
            pad += 1;
        }
        Some(w)
    }
}

/// A digit string of fewer than five digits denotes less than ten thousand.
proof fn lemma_digits_small(s: Seq<char>)
    requires
        all_digits(s),
        s.len() <= 4,
    ensures
        digits_value(s) <= pow10(s.len() as int) - 1,
    decreases s.len(),
{
    if s.len() > 0 {
        assert(all_digits(s.drop_last())) by {
            assert(forall|j: int| 0 <= j < s.len() - 1 ==> s.drop_last()[j] == s[j]);
        }
        lemma_digits_small(s.drop_last());
        assert(digit_value(s.last()) <= 9);
        assert(pow10(s.len() as int) == 10 * pow10(s.len() - 1));
    }
}

/// Scaling fewer than five digits to hundred-thousandths stays below one.
proof fn lemma_scaled_small(s: Seq<char>, k: int)
    requires
        all_digits(s),
        s.len() <= 4,
        0 <= k <= 5 - s.len(),
    ensures
        digits_value(s) * pow10(k) <= 99999,
{
    lemma_digits_small(s);
    lemma_digits_value_nonneg(s);
    lemma_pow10_positive(k);
    assert(digits_value(s) * pow10(k) <= (pow10(s.len() as int) - 1) * pow10(k))
        by (nonlinear_arith)
        requires
            digits_value(s) <= pow10(s.len() as int) - 1,
            pow10(k) >= 1,
            digits_value(s) >= 0,
    ;
    assert((pow10(s.len() as int) - 1) * pow10(k) <= 99999) by {
        lemma_pow10_product(s.len() as int, k);
    }
}

proof fn lemma_pow10_product(a: int, k: int)
    requires
        0 <= a <= 4,
        0 <= k <= 5 - a,
    ensures
        (pow10(a) - 1) * pow10(k) <= 99999,
{
    reveal_with_fuel(pow10, 6);
    assert(pow10(0) == 1 && pow10(1) == 10 && pow10(2) == 100 && pow10(3) == 1000 && pow10(4)
        == 10000 && pow10(5) == 100000);
    assert((pow10(a) - 1) * pow10(k) <= pow10(a) * pow10(k) - 1) by (nonlinear_arith)
        requires
            pow10(k) >= 1,
    ;
    assert(pow10(a) * pow10(k) <= 100000) by (nonlinear_arith)
        requires
            0 <= a <= 4,
            0 <= k <= 5 - a,
            pow10(0) == 1 && pow10(1) == 10 && pow10(2) == 100 && pow10(3) == 1000 && pow10(4)
                == 10000 && pow10(5) == 100000,
            pow10(a) >= 1,
            pow10(k) >= 1,
    ;
}

/// When one more digit no longer fits, the whole string's value does not
/// fit either (unless some later character is not a digit at all).
proof fn lemma_parse_overflow(s: Seq<char>, i: int)
    requires
        0 <= i < s.len(),
        all_digits(s.subrange(0, i)),
        is_digit(s[i]),
        digits_value(s.subrange(0, i)) * 10 + digit_value(s[i]) > u64::MAX,
    ensures
        !all_digits(s) || digits_value(s) > u64::MAX,
{
    if all_digits(s) {
        assert(s.subrange(0, i + 1).drop_last() =~= s.subrange(0, i));
        assert(s.subrange(0, i + 1).last() == s[i]);
        assert(digits_value(s.subrange(0, i + 1)) > u64::MAX);
        lemma_digits_value_prefix(s, i + 1);
    }
}

} // verus!
