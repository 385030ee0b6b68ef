//! Exact decimal quantities.
//!
//! A usage quantity is a non-negative decimal number. It is held exactly as
//! a mantissa and a power-of-ten scale: the value is
//! `mantissa / 10^scale`. All unit conversions the exporter performs
//! (dividing by 1000, 1_000_000 or 1024, multiplying by 1024) keep such a
//! value exact, because `1/1024 == 5^10 / 10^10`.
//!
//! This module holds the grammar of a plain numeric string, the verified
//! parser from such a string to a `Quantity`, and the verified formatter
//! that prints a `Quantity` back as a decimal numeral.

use vstd::prelude::*;
use vstd::string::*;

verus! {

/// `10^k`.
pub open spec fn pow10(k: nat) -> nat
    decreases k,
{
    if k == 0 {
        1
    } else {
        10 * pow10((k - 1) as nat)
    }
}

/// `10^29`, the largest power of ten below the parser's mantissa cap.
pub const POW10_29: u128 = 100_000_000_000_000_000_000_000_000_000;

/// `10^30`: parsed mantissas stay strictly below this bound.
pub const POW10_30: u128 = 1_000_000_000_000_000_000_000_000_000_000;

/// `10^37`: every quantity the library builds keeps its mantissa strictly
/// below this bound, so the unit conversions cannot overflow a `u128`.
pub const POW10_37: u128 = 10_000_000_000_000_000_000_000_000_000_000_000_000;

pub proof fn lemma_pow10_values()
    ensures
        pow10(10) == 10_000_000_000,
        pow10(29) == POW10_29 as nat,
        pow10(30) == POW10_30 as nat,
        pow10(37) == POW10_37 as nat,
{
    reveal_with_fuel(pow10, 40);
}

pub proof fn lemma_pow10_mono(a: nat, b: nat)
    requires
        a <= b,
    ensures
        pow10(a) <= pow10(b),
    decreases b,
{
    if a < b {
        lemma_pow10_mono(a, (b - 1) as nat);
        assert(pow10(b) == 10 * pow10((b - 1) as nat));
    }
}

/// An ASCII decimal digit.
pub open spec fn is_digit(c: char) -> bool {
    '0' <= c && c <= '9'
}

/// The numeric value of a digit character.
pub open spec fn digit_val(c: char) -> nat {
    (c as int - '0' as int) as nat
}

pub open spec fn all_digits(s: Seq<char>) -> bool {
    forall|i: int| 0 <= i < s.len() ==> is_digit(#[trigger] s[i])
}

/// The value of a digit string read as a base-ten numeral.
pub open spec fn digits_value(s: Seq<char>) -> nat
    decreases s.len(),
{
    if s.len() == 0 {
        0
    } else {
        digits_value(s.drop_last()) * 10 + digit_val(s.last())
    }
}

/// `s` splits at index `i` into digits, one dot, and digits, with at least
/// one digit on each side.
pub open spec fn dot_split_at(s: Seq<char>, i: int) -> bool {
    &&& 1 <= i
    &&& i + 1 < s.len()
    &&& s[i] == '.'
    &&& all_digits(s.subrange(0, i))
    &&& all_digits(s.subrange(i + 1, s.len() as int))
}

/// A plain numeric string: one or more digits, with at most one interior
/// decimal point.
pub open spec fn is_plain_number(s: Seq<char>) -> bool {
    (s.len() > 0 && all_digits(s)) || (exists|i: int| dot_split_at(s, i))
}

/// The index of the decimal point of a plain number that has one.
pub open spec fn spec_dot_index(s: Seq<char>) -> int {
    choose|i: int| dot_split_at(s, i)
}

/// The digits of a plain number, with the decimal point removed.
pub open spec fn digits_of(s: Seq<char>) -> Seq<char> {
    if all_digits(s) {
        s
    } else {
        s.subrange(0, spec_dot_index(s)) + s.subrange(spec_dot_index(s) + 1, s.len() as int)
    }
}

/// The mantissa a plain number denotes: its digits read as an integer.
pub open spec fn mantissa_of(s: Seq<char>) -> nat {
    digits_value(digits_of(s))
}

/// How many digits of a plain number stand after the decimal point.
pub open spec fn frac_len(s: Seq<char>) -> nat {
    if all_digits(s) {
        0
    } else {
        (s.len() - spec_dot_index(s) - 1) as nat
    }
}

/// A plain number the parser accepts: its exact value fits the machine
/// representation (mantissa below `10^30`, at most thirty fraction digits).
pub open spec fn fits(s: Seq<char>) -> bool {
    mantissa_of(s) < pow10(30) && frac_len(s) <= 30
}

/// A non-negative decimal quantity, held exactly: the value is
/// `mantissa / 10^scale`.
#[derive(Debug, Clone, Copy)]
pub struct Quantity {
    pub mantissa: u128,
    pub scale: u32,
}

impl Quantity {
    /// Every quantity the library builds satisfies this: the bounds keep
    /// all conversions and formatting free of overflow.
    pub open spec fn wf(self) -> bool {
        self.mantissa < pow10(37) && self.scale <= 40
    }

    /// The tighter bound a freshly parsed quantity satisfies.
    pub open spec fn parsed(self) -> bool {
        self.mantissa < pow10(30) && self.scale <= 30
    }

    pub proof fn lemma_parsed_wf(self)
        requires
            self.parsed(),
        ensures
            self.wf(),
    {
        lemma_pow10_mono(30, 37);
    }
}

pub proof fn lemma_dot_unique(s: Seq<char>, i: int, j: int)
    requires
        dot_split_at(s, i),
        dot_split_at(s, j),
    ensures
        i == j,
{
    if i < j {
        assert(s.subrange(i + 1, s.len() as int)[j - i - 1] == s[j]);
        assert(false);
    }
    if j < i {
        assert(s.subrange(j + 1, s.len() as int)[i - j - 1] == s[i]);
        assert(false);
    }
}

/// A character that is neither a digit nor a dot rules the string out.
pub proof fn lemma_not_plain_at(s: Seq<char>, i: int)
    requires
        0 <= i < s.len(),
        !is_digit(s[i]),
        s[i] != '.',
    ensures
        !is_plain_number(s),
{
    if is_plain_number(s) {
        if s.len() > 0 && all_digits(s) {
            assert(is_digit(s[i]));
        } else {
            let k = choose|k: int| dot_split_at(s, k);
            if i < k {
                assert(s.subrange(0, k)[i] == s[i]);
            } else {
                assert(s.subrange(k + 1, s.len() as int)[i - k - 1] == s[i]);
            }
        }
        assert(false);
    }
}

/// If a plain number holds a dot at `i`, then `i` is its split point.
pub proof fn lemma_dot_is_split(s: Seq<char>, i: int)
    requires
        0 <= i < s.len(),
        s[i] == '.',
        is_plain_number(s),
    ensures
        dot_split_at(s, i),
        spec_dot_index(s) == i,
{
    if s.len() > 0 && all_digits(s) {
        assert(is_digit(s[i]));
        assert(false);
    }
    let k = choose|k: int| dot_split_at(s, k);
    if i < k {
        assert(s.subrange(0, k)[i] == s[i]);
        assert(false);
    }
    if k < i {
        assert(s.subrange(k + 1, s.len() as int)[i - k - 1] == s[i]);
        assert(false);
    }
    let j = spec_dot_index(s);
    lemma_dot_unique(s, j, i);
}

/// Reading a longer prefix of a digit string never lowers its value.
pub proof fn lemma_digits_value_prefix(s: Seq<char>, k: int)
    requires
        0 <= k <= s.len(),
    ensures
        digits_value(s.take(k)) <= digits_value(s),
    decreases s.len() - k,
{
    if k < s.len() {
        lemma_digits_value_prefix(s, k + 1);
        assert(s.take(k + 1).drop_last() =~= s.take(k));
        assert(digits_value(s.take(k + 1)) == digits_value(s.take(k)) * 10 + digit_val(
            s.take(k + 1).last(),
        ));
    } else {
        assert(s.take(k) =~= s);
    }
}

/// Parses a plain numeric string into an exact quantity. Returns `None`
/// exactly when the string is not a plain number or its value does not fit
/// the machine representation.
pub fn parse_number(s: &str) -> (r: Option<Quantity>)
    ensures
        match r {
            Some(q) => {
                &&& is_plain_number(s@)
                &&& fits(s@)
                &&& q.mantissa as nat == mantissa_of(s@)
                &&& q.scale as nat == frac_len(s@)
                &&& q.parsed()
            },
            None => !(is_plain_number(s@) && fits(s@)),
        },
{
    proof {
        lemma_pow10_values();
    }
    let n = s.unicode_len();
    if n == 0 {
        proof {
            if is_plain_number(s@) {
                let k = choose|k: int| dot_split_at(s@, k);
            }
        }
        return None;
    }
    let mut i: usize = 0;
    let mut m: u128 = 0;
    let mut dot: Option<usize> = None;
    while i < n
        invariant
            n == s@.len(),
            0 <= i <= n,
            m < POW10_30,
            pow10(30) == POW10_30 as nat,
            pow10(29) == POW10_29 as nat,
            match dot {
                None => {
                    &&& all_digits(s@.take(i as int))
                    &&& m as nat == digits_value(s@.take(i as int))
                },
                Some(j) => {
                    &&& 1 <= j < i
                    &&& j + 1 < n
                    &&& s@[j as int] == '.'
                    &&& all_digits(s@.subrange(0, j as int))
                    &&& all_digits(s@.subrange(j + 1, i as int))
                    &&& m as nat == digits_value(
                        s@.subrange(0, j as int) + s@.subrange(j + 1, i as int),
                    )
                },
            },
        decreases n - i,
    {
        let c = s.get_char(i);
        if c == '.' {
            if i == 0 || i + 1 == n || dot.is_some() {
                proof {
                    if is_plain_number(s@) {
                        lemma_dot_is_split(s@, i as int);
                        if let Some(j) = dot {
                            lemma_dot_is_split(s@, j as int);
                            lemma_dot_unique(s@, i as int, j as int);
                        }
                    }
                }
                return None;
            }
            dot = Some(i);
            proof {
                assert(s@.subrange(0, i as int) =~= s@.take(i as int));
                assert(s@.subrange(i + 1, i + 1 as int) =~= Seq::<char>::empty());
                assert(s@.subrange(0, i as int) + s@.subrange(i + 1, i + 1 as int) =~= s@.take(
                    i as int,
                ));
            }
        } else {
            let u = c as u32;
            if u < 48 || u > 57 {
                proof {
                    lemma_not_plain_at(s@, i as int);
                }
                return None;
            }
            let d = (u - 48) as u128;
            proof {
                assert(is_digit(s@[i as int]));
                assert(digit_val(s@[i as int]) == d as nat);
            }
            if m >= POW10_29 {
                // One more digit would push the mantissa to 10^30 or past
                // it: the value does not fit.
                proof {
                    lemma_overflow_means_unfit(s@, i as int, dot, m as nat, d as nat);
                }
                return None;
            }
            proof {
                let ghost collected = match dot {
                    None => s@.take(i as int),
                    Some(j) => s@.subrange(0, j as int) + s@.subrange(j + 1, i as int),
                };
                let ghost collected2 = collected.push(s@[i as int]);
                assert(collected2.drop_last() =~= collected);
                assert(digits_value(collected2) == digits_value(collected) * 10 + d as nat);
                match dot {
                    None => {
                        assert(s@.take(i + 1 as int) =~= collected2);
                    },
                    Some(j) => {
                        assert(s@.subrange(0, j as int) + s@.subrange(j + 1, i + 1 as int)
                            =~= collected2);
                    },
                }
            }
            m = m * 10 + d;
        }
        i += 1;
    }
    match dot {
        None => {
            proof {
                assert(s@.take(n as int) =~= s@);
                assert(digits_of(s@) == s@);
            }
            Some(Quantity { mantissa: m, scale: 0 })
        },
        Some(j) => {
            proof {
                assert(s@.subrange(j + 1, n as int)[0] == s@[j + 1]);
                assert(dot_split_at(s@, j as int));
                lemma_dot_unique(s@, spec_dot_index(s@), j as int);
                assert(!all_digits(s@)) by {
                    assert(s@[j as int] == '.');
                }
                assert(digits_of(s@) == s@.subrange(0, j as int) + s@.subrange(
                    j + 1,
                    n as int,
                ));
            }
            let frac = n - j - 1;
            if frac > 30 {
                return None;
            }
            Some(Quantity { mantissa: m, scale: frac as u32 })
        },
    }
}

/// If the digits already read reach `10^29` and another digit follows, the
/// whole string's mantissa reaches `10^30`, so the value does not fit.
proof fn lemma_overflow_means_unfit(s: Seq<char>, i: int, dot: Option<usize>, m: nat, d: nat)
    requires
        0 <= i < s.len(),
        is_digit(s[i]),
        d == digit_val(s[i]),
        m >= pow10(29),
        match dot {
            None => all_digits(s.take(i)) && m == digits_value(s.take(i)),
            Some(j) => {
                &&& 1 <= j < i
                &&& s[j as int] == '.'
                &&& all_digits(s.subrange(0, j as int))
                &&& all_digits(s.subrange(j + 1, i))
                &&& m == digits_value(s.subrange(0, j as int) + s.subrange(j + 1, i))
            },
        },
    ensures
        !(is_plain_number(s) && fits(s)),
{
    if is_plain_number(s) {
        let ghost full = digits_of(s);
        let ghost upto = match dot {
            None => i,
            Some(j) => i - 1,
        };
        match dot {
            None => {
                // Any dot must lie beyond i, so the first i + 1 characters
                // of s are the first i + 1 digits of the numeral.
                if all_digits(s) {
                    assert(full.take(i) =~= s.take(i));
                    assert(full.take(i + 1) =~= s.take(i + 1));
                } else {
                    let k = spec_dot_index(s);
                    lemma_dot_is_split(s, k);
                    assert(dot_split_at(s, k));
                    if k < i {
                        assert(s.take(i)[k] == s[k]);
                        assert(is_digit(s[k]));
                        assert(false);
                    }
                    if k == i {
                        assert(is_digit(s[i]));
                        assert(false);
                    }
                    assert(full =~= s.subrange(0, k) + s.subrange(k + 1, s.len() as int));
                    assert(full.take(i) =~= s.take(i));
                    assert(full.take(i + 1) =~= s.take(i + 1));
                }
                assert(s.take(i + 1).drop_last() =~= s.take(i));
                assert(s.take(i + 1).last() == s[i]);
                assert(digits_value(full.take(upto + 1)) == m * 10 + d);
            },
            Some(j) => {
                lemma_dot_is_split(s, j as int);
                let k = spec_dot_index(s);
                lemma_dot_unique(s, k, j as int);
                assert(full =~= s.subrange(0, j as int) + s.subrange(j + 1, s.len() as int));
                assert(full.take(i - 1) =~= s.subrange(0, j as int) + s.subrange(j + 1, i));
                assert(full.take(i) =~= s.subrange(0, j as int) + s.subrange(j + 1, i + 1));
                assert(full.take(i).drop_last() =~= full.take(i - 1));
                assert(full.take(i).last() == s[i]);
                assert(digits_value(full.take(upto + 1)) == m * 10 + d);
            },
        }
        lemma_digits_value_prefix(full, upto + 1);
        assert(mantissa_of(s) >= m * 10 + d);
        assert(m * 10 >= pow10(29) * 10);
        lemma_pow10_values();
        assert(!fits(s));
    }
}

/// The character of a single decimal digit.
pub open spec fn digit_char(d: nat) -> char {
    if d == 0 {
        '0'
    } else if d == 1 {
        '1'
    } else if d == 2 {
        '2'
    } else if d == 3 {
        '3'
    } else if d == 4 {
        '4'
    } else if d == 5 {
        '5'
    } else if d == 6 {
        '6'
    } else if d == 7 {
        '7'
    } else if d == 8 {
        '8'
    } else {
        '9'
    }
}

/// The base-ten numeral of `n`, without leading zeros (`0` is `"0"`).
pub open spec fn digits_seq(n: nat) -> Seq<char>
    decreases n,
{
    if n < 10 {
        seq![digit_char(n)]
    } else {
        digits_seq(n / 10) + seq![digit_char(n % 10)]
    }
}

/// The lowest `s` decimal digits of `m`, zero-padded to exactly `s`
/// characters: the fraction part of `m / 10^s`.
pub open spec fn frac_digits_seq(m: nat, s: nat) -> Seq<char>
    decreases s,
{
    if s == 0 {
        Seq::<char>::empty()
    } else {
        frac_digits_seq(m / 10, (s - 1) as nat) + seq![digit_char(m % 10)]
    }
}

/// The shortest decimal numeral of `m / 10^s`: trailing fraction zeros are
/// dropped, and a value with no fraction left prints as a plain integer.
pub open spec fn spec_format(m: nat, s: nat) -> Seq<char>
    decreases s,
{
    if s > 0 && m % 10 == 0 {
        spec_format(m / 10, (s - 1) as nat)
    } else if s == 0 {
        digits_seq(m)
    } else {
        digits_seq(m / pow10(s)) + seq!['.'] + frac_digits_seq(m, s)
    }
}

fn digit_str(d: u8) -> (r: &'static str)
    requires
        d < 10,
    ensures
        r@ =~= seq![digit_char(d as nat)],
{
    proof {
        reveal_strlit("0");
        reveal_strlit("1");
        reveal_strlit("2");
        reveal_strlit("3");
        reveal_strlit("4");
        reveal_strlit("5");
        reveal_strlit("6");
        reveal_strlit("7");
        reveal_strlit("8");
        reveal_strlit("9");
    }
    match d {
        0 => "0",
        1 => "1",
        2 => "2",
        3 => "3",
        4 => "4",
        5 => "5",
        6 => "6",
        7 => "7",
        8 => "8",
        _ => "9",
    }
}

/// Appends the decimal numeral of `n` to `out`.
fn push_digits(n: u128, out: &mut String)
    ensures
        final(out)@ == old(out)@ + digits_seq(n as nat),
    decreases n,
{
    if n < 10 {
        out.append(digit_str(n as u8));
        assert(final(out)@ =~= old(out)@ + digits_seq(n as nat));
    } else {
        push_digits(n / 10, out);
        out.append(digit_str((n % 10) as u8));
        assert(final(out)@ =~= old(out)@ + digits_seq(n as nat));
    }
}

/// Appends the lowest `s` digits of `m`, zero-padded, to `out`.
fn push_frac_digits(m: u128, s: u32, out: &mut String)
    ensures
        final(out)@ == old(out)@ + frac_digits_seq(m as nat, s as nat),
    decreases s,
{
    if s == 0 {
        assert(final(out)@ =~= old(out)@ + frac_digits_seq(m as nat, 0));
    } else {
        push_frac_digits(m / 10, s - 1, out);
        out.append(digit_str((m % 10) as u8));
        assert(final(out)@ =~= old(out)@ + frac_digits_seq(m as nat, s as nat));
    }
}

fn pow10_u128(s: u32) -> (r: u128)
    requires
        s <= 37,
    ensures
        r as nat == pow10(s as nat),
{
    proof {
        lemma_pow10_values();
    }
    let mut r: u128 = 1;
    let mut i: u32 = 0;
    while i < s
        invariant
            0 <= i <= s <= 37,
            r as nat == pow10(i as nat),
            pow10(37) == POW10_37 as nat,
        decreases s - i,
    {
        proof {
            lemma_pow10_mono(i as nat + 1, 37);
        }
        r = r * 10;
        i += 1;
    }
    r
}

/// Prints a quantity as its shortest decimal numeral, the same text a
/// decimal-exact display of the value produces.
pub fn format_quantity(q: &Quantity) -> (r: String)
    requires
        q.wf(),
    ensures
        r@ == spec_format(q.mantissa as nat, q.scale as nat),
{
    proof {
        lemma_pow10_values();
    }
    let mut m = q.mantissa;
    let mut s = q.scale;
    while s > 0 && m % 10 == 0
        invariant
            m <= q.mantissa,
            s <= q.scale,
            spec_format(m as nat, s as nat) == spec_format(q.mantissa as nat, q.scale as nat),
        decreases s,
    {
        m = m / 10;
        s = s - 1;
    }
    let mut out = String::new();
    if s == 0 {
        push_digits(m, &mut out);
        assert(out@ =~= spec_format(m as nat, 0));
    } else {
        if s >= 38 {
            // The mantissa bound keeps the value below one here: the
            // integer part is zero.
            proof {
                lemma_pow10_mono(37, s as nat);
                vstd::arithmetic::div_mod::lemma_basic_div(m as int, pow10(s as nat) as int);
                assert(m as nat / pow10(s as nat) == 0);
                reveal_strlit("0");
            }
            out.append("0");
            assert(out@ =~= digits_seq(m as nat / pow10(s as nat)));
        } else {
            let d = pow10_u128(s);
            proof {
                lemma_pow10_mono(0, s as nat);
            }
            push_digits(m / d, &mut out);
        }
        proof {
            reveal_strlit(".");
        }
        out.append(".");
        push_frac_digits(m, s, &mut out);
        assert(out@ =~= digits_seq(m as nat / pow10(s as nat)) + seq!['.'] + frac_digits_seq(
            m as nat,
            s as nat,
        ));
        assert(out@ =~= spec_format(m as nat, s as nat));
    }
    out
}

} // verus!
