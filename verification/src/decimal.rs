//! Exact fixed-point decimal amounts.
//!
//! A numeric database column stores a price as an unscaled integer plus a
//! scale: the amount is `unscaled / 10^scale`. This module keeps that
//! representation exact instead of going through floating point.

use vstd::prelude::*;

verus! {

/// Largest scale a value may carry (the widest precision a fixed-point
/// numeric column offers); `10^38` still fits in 128 bits.
pub const MAX_SCALE: u8 = 38;

/// An exact decimal amount `unscaled / 10^scale`.
#[derive(Debug, Clone, Copy, PartialEq, Eq, Structural)]
pub struct Decimal {
    pub unscaled: i128,
    pub scale: u8,
}

/// `10^e`.
pub open spec fn pow10(e: nat) -> nat
    decreases e,
{
    if e == 0 {
        1
    } else {
        10 * pow10((e - 1) as nat)
    }
}

impl Decimal {
    /// A representable amount: the scale stays within column precision and
    /// the unscaled integer has a negation (its magnitude fits the type).
    pub open spec fn wf(self) -> bool {
        self.scale <= MAX_SCALE && self.unscaled > i128::MIN
    }

    pub fn new(unscaled: i128, scale: u8) -> (d: Decimal)
        requires
            scale <= MAX_SCALE,
            unscaled > i128::MIN,
        ensures
            d.unscaled == unscaled,
            d.scale == scale,
            d.wf(),
    {
        Decimal { unscaled, scale }
    }

    /// The zero amount.
    pub fn zero() -> (d: Decimal)
        ensures
            d.unscaled == 0,
            d.scale == 0,
            d.wf(),
    {
        Decimal { unscaled: 0, scale: 0 }
    }

    /// The magnitude of the unscaled integer.
    pub open spec fn spec_magnitude(self) -> nat {
        if self.unscaled < 0 {
            (-self.unscaled) as nat
        } else {
            self.unscaled as nat
        }
    }

    /// Digits before the decimal point, as a number.
    pub open spec fn spec_whole(self) -> nat {
        self.spec_magnitude() / pow10(self.scale as nat)
    }

    /// Digits after the decimal point, as a number.
    pub open spec fn spec_frac(self) -> nat {
        self.spec_magnitude() % pow10(self.scale as nat)
    }

    /// The canonical text of the amount: an optional minus sign, the whole
    /// part without leading zeros, and — when the scale is positive — a
    /// point followed by exactly `scale` fraction digits.
    pub open spec fn spec_text(self) -> Seq<char> {
        let sign: Seq<char> = if self.unscaled < 0 {
            seq!['-']
        } else {
            Seq::<char>::empty()
        };
        if self.scale == 0 {
            sign + spec_nat_text(self.spec_magnitude())
        } else {
            sign + spec_nat_text(self.spec_whole()) + seq!['.'] + spec_width_text(
                self.spec_frac(),
                self.scale as nat,
            )
        }
    }

    /// Renders the amount as decimal text, exactly.
    pub fn to_text(&self) -> (s: String)
        requires
            self.wf(),
        ensures
            s@ == self.spec_text(),
    {
        let divisor = pow10_u128(self.scale);
        let mag: u128 = if self.unscaled < 0 {
            (-self.unscaled) as u128
        } else {
            self.unscaled as u128
        };
        let mut s = String::new();
        if self.unscaled < 0 {
            proof {
                reveal_strlit("-");
            }
            s.append("-");
        }
        if self.scale == 0 {
            let whole_text = nat_text(mag);
            s.append(whole_text.as_str());
            proof {
                assert(s@ =~= self.spec_text());
            }
        } else {
            let whole_text = nat_text(mag / divisor);
            s.append(whole_text.as_str());
            proof {
                reveal_strlit(".");
            }
            s.append(".");
            let frac_text = width_text(mag % divisor, self.scale);
            s.append(frac_text.as_str());
            proof {
                assert(s@ =~= self.spec_text());
            }
        }
        s
    }
}

/// The decimal digits of `n`, most significant first; empty for zero.
pub open spec fn spec_digits(n: nat) -> Seq<char>
    decreases n,
{
    if n == 0 {
        Seq::<char>::empty()
    } else {
        spec_digits(n / 10).push(digit_char(n % 10))
    }
}

/// The usual text of `n`: its digits, or "0" for zero.
pub open spec fn spec_nat_text(n: nat) -> Seq<char> {
    if n == 0 {
        seq!['0']
    } else {
        spec_digits(n)
    }
}

/// The last `width` decimal digits of `n`, zero-padded to the left: how a
/// fraction of `width` digits is written.
pub open spec fn spec_width_text(n: nat, width: nat) -> Seq<char>
    decreases width,
{
    if width == 0 {
        Seq::<char>::empty()
    } else {
        spec_width_text(n / 10, (width - 1) as nat).push(digit_char(n % 10))
    }
}

/// The character of one decimal digit.
pub open spec fn digit_char(d: nat) -> char {
    if d == 0 {
        '0'
    } else if d == 1 {
        '1'
    } else if d == 2 {
        '2'
    } else if d == 3 {
        '3'
    } else if d == 4 {
        '4'
    } else if d == 5 {
        '5'
    } else if d == 6 {
        '6'
    } else if d == 7 {
        '7'
    } else if d == 8 {
        '8'
    } else {
        '9'
    }
}

/// A decimal digit character.
pub open spec fn is_digit(c: char) -> bool {
    48 <= c as u32 <= 57
}

/// The value of one digit character.
pub open spec fn digit_val(c: char) -> nat {
    (c as u32 - 48) as nat
}

/// Every character is a digit.
pub open spec fn all_digits(s: Seq<char>) -> bool {
    forall|i: int| 0 <= i < s.len() ==> is_digit(#[trigger] s[i])
}

/// The number a digit string names, most significant digit first.
pub open spec fn digits_val(s: Seq<char>) -> nat
    decreases s.len(),
{
    if s.len() == 0 {
        0
    } else {
        10 * digits_val(s.drop_last()) + digit_val(s.last())
    }
}

/// Position of the first decimal point, or -1 when there is none.
pub open spec fn first_dot(s: Seq<char>) -> int
    decreases s.len(),
{
    if s.len() == 0 {
        -1
    } else if s[0] == '.' {
        0
    } else if first_dot(s.skip(1)) < 0 {
        -1
    } else {
        1 + first_dot(s.skip(1))
    }
}

/// A leading minus sign marks a negative amount.
pub open spec fn spec_is_negative(s: Seq<char>) -> bool {
    s.len() > 0 && s[0] == '-'
}

/// The text after the optional sign.
pub open spec fn spec_body(s: Seq<char>) -> Seq<char> {
    if spec_is_negative(s) {
        s.skip(1)
    } else {
        s
    }
}

/// The shape of decimal price text: an optional minus sign, then one or
/// more digits, then optionally a point followed by one or more digits.
pub open spec fn price_shape(s: Seq<char>) -> bool {
    let b = spec_body(s);
    let k = first_dot(b);
    if k < 0 {
        b.len() > 0 && all_digits(b)
    } else {
        1 <= k && k + 1 < b.len() && all_digits(b.take(k)) && all_digits(b.skip(k + 1))
    }
}

/// How many digits follow the point; none means scale zero.
pub open spec fn spec_scale_of(s: Seq<char>) -> int {
    let b = spec_body(s);
    let k = first_dot(b);
    if k < 0 {
        0
    } else {
        b.len() - 1 - k
    }
}

/// The digits of the text with the point taken out.
pub open spec fn spec_digit_chars(s: Seq<char>) -> Seq<char> {
    let b = spec_body(s);
    let k = first_dot(b);
    if k < 0 {
        b
    } else {
        b.take(k) + b.skip(k + 1)
    }
}

/// The magnitude of the unscaled integer the text names.
pub open spec fn spec_magnitude_of(s: Seq<char>) -> nat {
    digits_val(spec_digit_chars(s))
}

/// The unscaled integer the text names.
pub open spec fn spec_unscaled_of(s: Seq<char>) -> int {
    if spec_is_negative(s) {
        -(spec_magnitude_of(s) as int)
    } else {
        spec_magnitude_of(s) as int
    }
}

/// Text a price field accepts: well-shaped, no more fraction digits than a
/// column carries, and an unscaled integer the representation can hold.
pub open spec fn price_text_ok(s: Seq<char>) -> bool {
    &&& price_shape(s)
    &&& spec_scale_of(s) <= MAX_SCALE
    &&& spec_magnitude_of(s) <= i128::MAX
}

/// What `first_dot` finds: either there is no point at all, or it names
/// the first one.
proof fn lemma_first_dot_props(s: Seq<char>)
    ensures
        first_dot(s) < 0 ==> (forall|m: int| 0 <= m < s.len() ==> s[m] != '.'),
        first_dot(s) >= 0 ==> 0 <= first_dot(s) < s.len() && s[first_dot(s)] == '.' && (forall|
            m: int,
        |
            0 <= m < first_dot(s) ==> s[m] != '.'),
    decreases s.len(),
{
    if s.len() > 0 && s[0] != '.' {
        lemma_first_dot_props(s.skip(1));
        assert forall|m: int| 0 <= m < s.len() && first_dot(s) < 0 implies s[m] != '.' by {
            if m > 0 {
                assert(s.skip(1)[m - 1] != '.');
            }
        }
        if first_dot(s) >= 0 {
            assert(s[first_dot(s)] == s.skip(1)[first_dot(s) - 1]);
            assert forall|m: int| 0 <= m < first_dot(s) implies s[m] != '.' by {
                if m > 0 {
                    assert(s.skip(1)[m - 1] != '.');
                }
            }
        }
    }
}

/// A point at `k` with none before it is the first point.
proof fn lemma_first_dot_at(s: Seq<char>, k: int)
    requires
        0 <= k < s.len(),
        s[k] == '.',
        forall|m: int| 0 <= m < k ==> s[m] != '.',
    ensures
        first_dot(s) == k,
    decreases s.len(),
{
    if k == 0 {
    } else {
        assert forall|m: int| 0 <= m < k - 1 implies s.skip(1)[m] != '.' by {
            assert(s[m + 1] != '.');
        }
        assert(s.skip(1)[k - 1] == '.');
        lemma_first_dot_at(s.skip(1), k - 1);
    }
}

/// No point anywhere means `first_dot` finds none.
proof fn lemma_first_dot_none(s: Seq<char>)
    requires
        forall|m: int| 0 <= m < s.len() ==> s[m] != '.',
    ensures
        first_dot(s) == -1,
    decreases s.len(),
{
    if s.len() > 0 {
        assert forall|m: int| 0 <= m < s.skip(1).len() implies s.skip(1)[m] != '.' by {
            assert(s[m + 1] != '.');
        }
        lemma_first_dot_none(s.skip(1));
    }
}

/// Appending digits never shrinks the number a digit string names.
proof fn lemma_digits_val_prefix(p: Seq<char>, q: Seq<char>)
    ensures
        digits_val(p + q) >= digits_val(p),
    decreases q.len(),
{
    if q.len() == 0 {
        assert(p + q =~= p);
    } else {
        assert((p + q).drop_last() =~= p + q.drop_last());
        lemma_digits_val_prefix(p, q.drop_last());
    }
}

/// At a digit: under the price shape, the digits read so far (sign and
/// point removed) are a prefix of all the digits of the text, so the
/// magnitude of the whole text is at least the number they name.
proof fn lemma_digit_prefix_bound(s: Seq<char>, j: int, dot: Option<int>, cur2: Seq<char>)
    requires
        ({
            let b = spec_body(s);
            &&& 0 <= j < b.len()
            &&& is_digit(b[j])
            &&& match dot {
                None => cur2 == b.take(j + 1) && (forall|m: int| 0 <= m < j ==> b[m] != '.'),
                Some(k0) => {
                    &&& 1 <= k0 < j
                    &&& b[k0] == '.'
                    &&& (forall|m: int| 0 <= m < k0 ==> b[m] != '.')
                    &&& cur2 == b.take(k0) + b.subrange(k0 + 1, j + 1)
                },
            }
        }),
    ensures
        price_shape(s) ==> spec_magnitude_of(s) >= digits_val(cur2),
{
    let b = spec_body(s);
    if price_shape(s) {
        lemma_first_dot_props(b);
        let k = first_dot(b);
        match dot {
            None => {
                assert(b[j] != '.');
                if k < 0 {
                    let rest = b.skip(j + 1);
                    assert(spec_digit_chars(s) =~= cur2 + rest);
                    lemma_digits_val_prefix(cur2, rest);
                } else {
                    assert(k > j);
                    let rest = b.subrange(j + 1, k) + b.skip(k + 1);
                    assert(spec_digit_chars(s) =~= cur2 + rest);
                    lemma_digits_val_prefix(cur2, rest);
                }
            },
            Some(k0) => {
                lemma_first_dot_at(b, k0);
                let rest = b.skip(j + 1);
                assert(spec_digit_chars(s) =~= cur2 + rest);
                lemma_digits_val_prefix(cur2, rest);
            },
        }
    }
}

/// A character that is neither a digit nor the point breaks the shape.
proof fn lemma_bad_char(s: Seq<char>, j: int, dot: Option<int>)
    requires
        ({
            let b = spec_body(s);
            &&& 0 <= j < b.len()
            &&& !is_digit(b[j])
            &&& b[j] != '.'
            &&& match dot {
                None => forall|m: int| 0 <= m < j ==> b[m] != '.',
                Some(k0) => 1 <= k0 < j && b[k0] == '.' && (forall|m: int|
                    0 <= m < k0 ==> b[m] != '.'),
            }
        }),
    ensures
        !price_shape(s),
{
    let b = spec_body(s);
    if price_shape(s) {
        lemma_first_dot_props(b);
        let k = first_dot(b);
        match dot {
            None => {
                if k < 0 {
                    assert(is_digit(b[j]));
                } else {
                    assert(k > j);
                    assert(b.take(k)[j] == b[j]);
                    assert(is_digit(b[j]));
                }
            },
            Some(k0) => {
                lemma_first_dot_at(b, k0);
                assert(b.skip(k0 + 1)[j - k0 - 1] == b[j]);
                assert(is_digit(b[j]));
            },
        }
    }
}

/// A second point breaks the shape.
proof fn lemma_second_dot(s: Seq<char>, j: int, k0: int)
    requires
        ({
            let b = spec_body(s);
            &&& 0 <= j < b.len()
            &&& b[j] == '.'
            &&& 1 <= k0 < j
            &&& b[k0] == '.'
            &&& (forall|m: int| 0 <= m < k0 ==> b[m] != '.')
        }),
    ensures
        !price_shape(s),
{
    let b = spec_body(s);
    if price_shape(s) {
        lemma_first_dot_at(b, k0);
        assert(b.skip(k0 + 1)[j - k0 - 1] == b[j]);
        assert(is_digit(b[j]));
        assert(('.' as u32) < 48);
    }
}

/// A point with no digit before it breaks the shape.
proof fn lemma_leading_dot(s: Seq<char>)
    requires
        spec_body(s).len() > 0,
        spec_body(s)[0] == '.',
    ensures
        !price_shape(s),
{
    let b = spec_body(s);
    if price_shape(s) {
        lemma_first_dot_at(b, 0);
    }
}

/// Reads decimal price text into an exact amount.
///
/// Returns the amount exactly when the text is well-shaped — an optional
/// minus sign, digits, optionally a point and more digits — and
/// representable; anything else, a malformed field above all, is refused
/// here, locally, before any statement could be issued.
#[verifier::rlimit(100)]
pub fn parse_price(s: &str) -> (r: Option<Decimal>)
    ensures
        r is Some <==> price_text_ok(s@),
        match r {
            Some(d) => d.wf() && d.unscaled == spec_unscaled_of(s@) && d.scale == spec_scale_of(
                s@,
            ),
            None => true,
        },
{
    let n = s.unicode_len();
    let neg = n > 0 && s.get_char(0) == '-';
    let start: usize = if neg {
        1
    } else {
        0
    };
    let ghost b = spec_body(s@);
    proof {
        assert(b =~= s@.skip(start as int));
    }
    let mut i = start;
    let mut mag: u128 = 0;
    let mut dot_at: Option<usize> = None;
    let mut whole_digits: usize = 0;
    let mut frac_digits: usize = 0;
    while i < n
        invariant
            n == s@.len(),
            neg == spec_is_negative(s@),
            start == (if neg {
                1int
            } else {
                0int
            }),
            start <= i <= n,
            b == spec_body(s@),
            b == s@.skip(start as int),
            b.len() == n - start,
            dot_at is None ==> {
                &&& whole_digits == i - start
                &&& frac_digits == 0
                &&& all_digits(b.take(i - start))
                &&& (forall|m: int| 0 <= m < i - start ==> b[m] != '.')
                &&& mag == digits_val(b.take(i - start))
            },
            dot_at matches Some(k) ==> {
                &&& 1 <= k <= i - start - 1
                &&& whole_digits == k
                &&& b[k as int] == '.'
                &&& (forall|m: int| 0 <= m < k ==> b[m] != '.')
                &&& all_digits(b.take(k as int))
                &&& all_digits(b.subrange(k as int + 1, i - start))
                &&& frac_digits == i - start - k - 1
                &&& mag == digits_val(b.take(k as int) + b.subrange(k as int + 1, i - start))
            },
        decreases n - i,
    {
        let c = s.get_char(i);
        let cu = c as u32;
        let ghost j = i - start;
        proof {
            assert(b[j as int] == s@[i as int]);
        }
        if 48 <= cu && cu <= 57 {
            let d = (cu - 48) as u128;
            let ghost cur = (match dot_at {
                None => b.take(j as int),
                Some(k) => b.take(k as int) + b.subrange(k as int + 1, j as int),
            });
            let ghost cur2 = cur.push(c);
            proof {
                assert(b[j as int] == c);
                assert(cur2.drop_last() =~= cur);
                assert(digits_val(cur2) == 10 * mag + digit_val(c));
                let dotg: Option<int> = match dot_at {
                    None => None,
                    Some(k0) => Some(k0 as int),
                };
                match dot_at {
                    None => {
                        assert(cur2 =~= b.take(j + 1));
                    },
                    Some(k0) => {
                        assert(cur2 =~= b.take(k0 as int) + b.subrange(k0 as int + 1, j + 1));
                    },
                }
                lemma_digit_prefix_bound(s@, j, dotg, cur2);
            }
            let mag10 = match mag.checked_mul(10) {
                Some(m) => m,
                None => {
                    return None;
                },
            };
            let mag2 = match mag10.checked_add(d) {
                Some(m) => m,
                None => {
                    return None;
                },
            };
            mag = mag2;
            if dot_at.is_some() {
                frac_digits = frac_digits + 1;
            } else {
                whole_digits = whole_digits + 1;
            }
            proof {
                match dot_at {
                    None => {
                        assert(b.take(j + 1) =~= cur2);
                        assert(all_digits(b.take(j + 1)));
                    },
                    Some(k0) => {
                        assert(b.take(k0 as int) + b.subrange(k0 as int + 1, j + 1) =~= cur2);
                        assert(all_digits(b.subrange(k0 as int + 1, j + 1)));
                    },
                }
            }
        } else if c == '.' {
            match dot_at {
                Some(k0) => {
                    proof {
                        lemma_second_dot(s@, j, k0 as int);
                    }
                    return None;
                },
                None => {
                    if whole_digits == 0 {
                        proof {
                            lemma_leading_dot(s@);
                        }
                        return None;
                    }
                    dot_at = Some(i - start);
                    proof {
                        assert(b.take(j as int) + b.subrange(j + 1, j + 1) =~= b.take(j as int));
                    }
                },
            }
        } else {
            proof {
                let dotg: Option<int> = match dot_at {
                    None => None,
                    Some(k0) => Some(k0 as int),
                };
                lemma_bad_char(s@, j, dotg);
            }
            return None;
        }
        i = i + 1;
    }
    if whole_digits == 0 {
        // the text is empty, or a lone minus sign
        return None;
    }
    match dot_at {
        None => {
            proof {
                lemma_first_dot_none(b);
                assert(b.take(n - start) =~= b);
            }
            if mag > (i128::MAX as u128) {
                return None;
            }
            let unscaled: i128 = if neg {
                -(mag as i128)
            } else {
                mag as i128
            };
            Some(Decimal { unscaled, scale: 0 })
        },
        Some(k0) => {
            proof {
                lemma_first_dot_at(b, k0 as int);
                assert(b.subrange(k0 as int + 1, n - start) =~= b.skip(k0 as int + 1));
            }
            if frac_digits == 0 {
                return None;
            }
            if frac_digits > (MAX_SCALE as usize) {
                return None;
            }
            if mag > (i128::MAX as u128) {
                return None;
            }
            let unscaled: i128 = if neg {
                -(mag as i128)
            } else {
                mag as i128
            };
            Some(Decimal { unscaled, scale: frac_digits as u8 })
        },
    }
}

/// A digit character reads back as its digit.
proof fn lemma_digit_char_val(d: nat)
    requires
        d < 10,
    ensures
        is_digit(digit_char(d)),
        digit_val(digit_char(d)) == d,
{
}

/// The digit string of a number holds digit characters only.
proof fn lemma_digits_all_digits(n: nat)
    ensures
        all_digits(spec_digits(n)),
        n > 0 ==> spec_digits(n).len() >= 1,
    decreases n,
{
    if n > 0 {
        lemma_digits_all_digits(n / 10);
        lemma_digit_char_val(n % 10);
        let s = spec_digits(n);
        let sub = spec_digits(n / 10);
        assert forall|i: int| 0 <= i < s.len() implies is_digit(#[trigger] s[i]) by {
            if i < sub.len() {
                assert(s[i] == sub[i]);
            } else {
                assert(s[i] == digit_char(n % 10));
            }
        }
    }
}

/// The digit string of a number names the number back.
proof fn lemma_digits_name_value(n: nat)
    ensures
        digits_val(spec_digits(n)) == n,
    decreases n,
{
    if n > 0 {
        lemma_digits_name_value(n / 10);
        lemma_digit_char_val(n % 10);
        let s = spec_digits(n);
        assert(s.drop_last() =~= spec_digits(n / 10));
        assert(s.last() == digit_char(n % 10));
        vstd::arithmetic::div_mod::lemma_fundamental_div_mod(n as int, 10);
    }
}

/// A zero-padded fraction holds digit characters only, exactly `width` of
/// them.
proof fn lemma_width_all_digits(n: nat, width: nat)
    ensures
        all_digits(spec_width_text(n, width)),
        spec_width_text(n, width).len() == width,
    decreases width,
{
    if width > 0 {
        lemma_width_all_digits(n / 10, (width - 1) as nat);
        lemma_digit_char_val(n % 10);
        let s = spec_width_text(n, width);
        let sub = spec_width_text(n / 10, (width - 1) as nat);
        assert forall|i: int| 0 <= i < s.len() implies is_digit(#[trigger] s[i]) by {
            if i < sub.len() {
                assert(s[i] == sub[i]);
            } else {
                assert(s[i] == digit_char(n % 10));
            }
        }
    }
}

/// A zero-padded fraction names the number back, modulo its width.
proof fn lemma_width_text_names_value(n: nat, width: nat)
    ensures
        digits_val(spec_width_text(n, width)) == n % pow10(width),
    decreases width,
{
    let p = pow10(width);
    if width == 0 {
        assert(n % 1 == 0) by (nonlinear_arith);
    } else {
        let sub_p = pow10((width - 1) as nat);
        lemma_width_text_names_value(n / 10, (width - 1) as nat);
        lemma_digit_char_val(n % 10);
        let s = spec_width_text(n, width);
        assert(s.drop_last() =~= spec_width_text(n / 10, (width - 1) as nat));
        assert(s.last() == digit_char(n % 10));
        assert(digits_val(s) == 10 * ((n / 10) % sub_p) + n % 10);
        lemma_pow10_increases(0, (width - 1) as nat);
        vstd::arithmetic::div_mod::lemma_fundamental_div_mod(n as int, 10);
        vstd::arithmetic::div_mod::lemma_fundamental_div_mod((n / 10) as int, sub_p as int);
        let q = (n / 10) as int / (sub_p as int);
        let r: int = 10 * (((n / 10) % sub_p) as int) + ((n % 10) as int);
        assert(n as int == q * (p as int) + r) by (nonlinear_arith)
            requires
                p == 10 * sub_p,
                sub_p >= 1,
                n as int == 10 * ((n as int) / 10) + (n as int) % 10,
                (n / 10) as int == (sub_p as int) * q + ((n / 10) as int) % (sub_p as int),
                (n / 10) as int % (sub_p as int) == ((n / 10) % sub_p) as int,
                (n as int) / 10 == ((n / 10) as int),
                (n as int) % 10 == (n % 10) as int,
                r == 10 * ((n / 10) % sub_p) + n % 10,
        ;
        assert(0 <= r < p as int) by (nonlinear_arith)
            requires
                p == 10 * sub_p,
                sub_p >= 1,
                ((n / 10) % sub_p) < sub_p,
                r == 10 * ((n / 10) % sub_p) + n % 10,
                (n % 10) < 10,
        ;
        vstd::arithmetic::div_mod::lemma_fundamental_div_mod_converse(n as int, p as int, q, r);
    }
}

/// Digit strings concatenate the way place value does.
proof fn lemma_digits_val_concat(p: Seq<char>, q: Seq<char>)
    ensures
        digits_val(p + q) == digits_val(p) * pow10(q.len()) + digits_val(q),
    decreases q.len(),
{
    if q.len() == 0 {
        assert(p + q =~= p);
        assert(digits_val(p) * 1 == digits_val(p)) by (nonlinear_arith);
    } else {
        lemma_digits_val_concat(p, q.drop_last());
        assert((p + q).drop_last() =~= p + q.drop_last());
        assert((p + q).last() == q.last());
        let a = digits_val(p) as int;
        let w = pow10((q.len() - 1) as nat) as int;
        assert(10 * (a * w + digits_val(q.drop_last())) + digit_val(q.last()) == a * (10 * w) + (10
            * digits_val(q.drop_last()) + digit_val(q.last()))) by (nonlinear_arith);
    }
}

/// The usual text of a number holds one or more digit characters and
/// names the number back.
proof fn lemma_nat_text_facts(n: nat)
    ensures
        all_digits(spec_nat_text(n)),
        spec_nat_text(n).len() >= 1,
        digits_val(spec_nat_text(n)) == n,
{
    if n == 0 {
        let s = spec_nat_text(0);
        lemma_digit_char_val(0);
        assert(s[0] == '0');
        assert(s.last() == '0');
        assert(s.drop_last() =~= Seq::<char>::empty());
        assert(digits_val(Seq::<char>::empty()) == 0);
        assert(digits_val(s) == 10 * digits_val(s.drop_last()) + digit_val(s.last()));
    } else {
        lemma_digits_all_digits(n);
        lemma_digits_name_value(n);
    }
}

/// A string of digit characters has no point in it.
proof fn lemma_digits_have_no_dot(s: Seq<char>)
    requires
        all_digits(s),
    ensures
        forall|m: int| 0 <= m < s.len() ==> s[m] != '.',
{
    assert forall|m: int| 0 <= m < s.len() implies s[m] != '.' by {
        assert(is_digit(s[m]));
        assert(('.' as u32) < 48);
    }
}

/// Rendering an amount and reading the text back names the amount again,
/// exactly: the canonical text is accepted, and it carries the same
/// unscaled integer and the same scale.
pub proof fn lemma_text_round_trip(d: Decimal)
    requires
        d.wf(),
    ensures
        price_text_ok(d.spec_text()),
        spec_unscaled_of(d.spec_text()) == d.unscaled,
        spec_scale_of(d.spec_text()) == d.scale,
{
    let t = d.spec_text();
    let mag = d.spec_magnitude();
    let neg = d.unscaled < 0;
    assert(mag <= i128::MAX);
    if d.scale == 0 {
        let body = spec_nat_text(mag);
        lemma_nat_text_facts(mag);
        if neg {
            assert(t[0] == '-');
            assert(spec_body(t) =~= body);
        } else {
            assert(t =~= body);
            assert(is_digit(body[0]));
            assert(('-' as u32) < 48);
            assert(!spec_is_negative(t));
        }
        let b = spec_body(t);
        lemma_digits_have_no_dot(b);
        lemma_first_dot_none(b);
        assert(price_shape(t));
        assert(spec_digit_chars(t) == b);
        assert(spec_magnitude_of(t) == mag);
        assert(spec_scale_of(t) == 0);
    } else {
        let scale = d.scale as nat;
        let p = pow10(scale);
        let whole = d.spec_whole();
        let frac = d.spec_frac();
        let wt = spec_nat_text(whole);
        let ft = spec_width_text(frac, scale);
        lemma_nat_text_facts(whole);
        lemma_width_all_digits(frac, scale);
        lemma_width_text_names_value(frac, scale);
        lemma_pow10_increases(0, scale);
        vstd::arithmetic::div_mod::lemma_mod_pos_bound(mag as int, p as int);
        vstd::arithmetic::div_mod::lemma_small_mod(frac, p);
        assert(digits_val(ft) == frac);
        let body = wt + seq!['.'] + ft;
        if neg {
            assert(t[0] == '-');
            assert(spec_body(t) =~= body);
        } else {
            assert(t =~= body);
            assert(body[0] == wt[0]);
            assert(is_digit(wt[0]));
            assert(('-' as u32) < 48);
            assert(!spec_is_negative(t));
        }
        let b = spec_body(t);
        assert(b =~= body);
        let k = wt.len() as int;
        assert(b[k] == '.');
        lemma_digits_have_no_dot(wt);
        assert forall|m: int| 0 <= m < k implies b[m] != '.' by {
            assert(b[m] == wt[m]);
        }
        lemma_first_dot_at(b, k);
        assert(b.take(k) =~= wt);
        assert(b.skip(k + 1) =~= ft);
        assert(price_shape(t));
        assert(spec_scale_of(t) == ft.len());
        assert(spec_digit_chars(t) =~= wt + ft);
        lemma_digits_val_concat(wt, ft);
        assert(spec_magnitude_of(t) == whole * p + frac);
        vstd::arithmetic::div_mod::lemma_fundamental_div_mod(mag as int, p as int);
        assert(whole * p == p * whole) by (nonlinear_arith);
        assert(spec_magnitude_of(t) == mag);
    }
}

/// `10^e` is monotone in the exponent.
proof fn lemma_pow10_increases(a: nat, b: nat)
    requires
        a <= b,
    ensures
        pow10(a) <= pow10(b),
    decreases b,
{
    if a < b {
        lemma_pow10_increases(a, (b - 1) as nat);
    }
}

/// `10^38` fits comfortably in 128 bits.
proof fn lemma_pow10_38_bound()
    ensures
        pow10(38) < u128::MAX,
{
    reveal_with_fuel(pow10, 40);
    assert(pow10(38) == 100000000000000000000000000000000000000);
}

/// `10^e` for scales a column can carry.
fn pow10_u128(e: u8) -> (r: u128)
    requires
        e <= MAX_SCALE,
    ensures
        r == pow10(e as nat),
        r >= 1,
{
    let mut r: u128 = 1;
    let mut i: u8 = 0;
    while i < e
        invariant
            0 <= i <= e,
            e <= MAX_SCALE,
            r == pow10(i as nat),
        decreases e - i,
    {
        proof {
            lemma_pow10_increases(i as nat + 1, 38);
            lemma_pow10_38_bound();
        }
        r = r * 10;
        i = i + 1;
    }
    proof {
        lemma_pow10_increases(0, e as nat);
    }
    r
}

/// One digit as a string slice.
fn digit_str(d: u128) -> (s: &'static str)
    requires
        d < 10,
    ensures
        s@ =~= seq![digit_char(d as nat)],
{
    proof {
        reveal_strlit("0");
        reveal_strlit("1");
        reveal_strlit("2");
        reveal_strlit("3");
        reveal_strlit("4");
        reveal_strlit("5");
        reveal_strlit("6");
        reveal_strlit("7");
        reveal_strlit("8");
        reveal_strlit("9");
    }
    if d == 0 {
        "0"
    } else if d == 1 {
        "1"
    } else if d == 2 {
        "2"
    } else if d == 3 {
        "3"
    } else if d == 4 {
        "4"
    } else if d == 5 {
        "5"
    } else if d == 6 {
        "6"
    } else if d == 7 {
        "7"
    } else if d == 8 {
        "8"
    } else {
        "9"
    }
}

/// The digits of `n`, most significant first; empty for zero.
fn digits_text(n: u128) -> (s: String)
    ensures
        s@ == spec_digits(n as nat),
    decreases n,
{
    if n == 0 {
        String::new()
    } else {
        let mut s = digits_text(n / 10);
        s.append(digit_str(n % 10));
        proof {
            assert(s@ =~= spec_digits(n as nat));
        }
        s
    }
}

/// The usual text of `n`.
fn nat_text(n: u128) -> (s: String)
    ensures
        s@ == spec_nat_text(n as nat),
{
    if n == 0 {
        proof {
            reveal_strlit("0");
        }
        let s: String = "0".to_owned();
        proof {
            assert(s@ =~= spec_nat_text(0));
        }
        s
    } else {
        digits_text(n)
    }
}

/// The last `width` digits of `n`, zero-padded to the left.
fn width_text(n: u128, width: u8) -> (s: String)
    ensures
        s@ == spec_width_text(n as nat, width as nat),
    decreases width,
{
    if width == 0 {
        String::new()
    } else {
        let mut s = width_text(n / 10, width - 1);
        s.append(digit_str(n % 10));
        proof {
            assert(s@ =~= spec_width_text(n as nat, width as nat));
        }
        s
    }
}

} // verus!

