//! Exact decimal numbers: read from decimal notation, with or without an
//! exponent, and written out in plain notation.

use vstd::prelude::*;
use vstd::string::*;

use crate::text::{first_index, lemma_first_index, lemma_first_index_at};

verus! {

/// Ten to the power `n`.
pub open spec fn pow10(n: nat) -> nat
    decreases n,
{
    if n == 0 {
        1
    } else {
        10 * pow10((n - 1) as nat)
    }
}

/// The number that a sequence of decimal digits denotes, most significant
/// digit first. The empty sequence denotes zero.
pub open spec fn numeral_value(digits: Seq<u8>) -> nat
    decreases digits.len(),
{
    if digits.len() == 0 {
        0
    } else {
        10 * numeral_value(digits.drop_last()) + digits.last() as nat
    }
}

/// Whether `c` is one of the characters `0` to `9`.
pub open spec fn is_digit(c: char) -> bool {
    '0' <= c && c <= '9'
}

/// Whether every character of `text` is a decimal digit.
pub open spec fn all_digits(text: Seq<char>) -> bool {
    forall|i: int| 0 <= i < text.len() ==> is_digit(#[trigger] text[i])
}

/// The digit that the character `c` stands for.
pub open spec fn digit_value(c: char) -> u8 {
    (c as u8 - '0' as u8) as u8
}

/// The digits that the characters of `text` stand for.
pub open spec fn digit_values(text: Seq<char>) -> Seq<u8> {
    Seq::new(text.len(), |i: int| digit_value(text[i]))
}

/// Index of the first `.` in `text`, or the length of `text` where it has none.
pub open spec fn point_position(text: Seq<char>) -> int {
    first_index(text, '.')
}

/// A decimal number: `mantissa / 10^scale`, negated where `negative` is set.
/// The scale is negative where an exponent moves the point past the last
/// digit.
///
/// A negative zero is kept apart from zero, as the text it came from wrote it.
pub struct Numeral {
    pub negative: bool,
    pub mantissa: nat,
    pub scale: int,
}

/// Most zeros that are added to the digits of a number to write it out. No
/// number that a float of 64 bits tells from zero and from infinity needs as
/// many.
pub const PADDING_LIMIT: usize = 1024;

impl Numeral {
    /// Whether the number is greater than zero.
    pub open spec fn is_positive(self) -> bool {
        !self.negative && self.mantissa > 0
    }

    /// Whether the number is zero, of either sign.
    pub open spec fn is_zero(self) -> bool {
        self.mantissa == 0
    }

    /// The number as a count of units of `10^-places`, for `places >= scale`.
    pub open spec fn units(self, places: int) -> int
        recommends
            places >= self.scale,
    {
        let magnitude = self.mantissa * pow10((places - self.scale) as nat);
        if self.negative {
            -magnitude
        } else {
            magnitude as int
        }
    }

    /// Whether two numerals denote the same number with the same sign.
    pub open spec fn same_value(self, other: Numeral) -> bool {
        let low = if self.scale <= other.scale {
            self.scale
        } else {
            other.scale
        };
        &&& self.negative == other.negative
        &&& self.mantissa * pow10((other.scale - low) as nat) == other.mantissa * pow10(
            (self.scale - low) as nat,
        )
    }

    /// Number of zeros that plain notation adds to the digits of the
    /// mantissa: after its last digit where the scale is negative, or between
    /// the point and its first digit where the scale is greater than the
    /// number of its digits. Zero is written without any.
    pub open spec fn padding(self) -> int {
        let width = natural_text(self.mantissa).len();
        if self.mantissa == 0 {
            0
        } else if self.scale < 0 {
            -self.scale
        } else if self.scale > width {
            self.scale - width
        } else {
            0
        }
    }

    /// Whether the number is written out in plain notation: it is, unless
    /// that took more than [`PADDING_LIMIT`] added zeros.
    pub open spec fn writable(self) -> bool {
        self.padding() <= PADDING_LIMIT
    }
}

/// Whether `text` starts with a sign character.
pub open spec fn has_sign(text: Seq<char>) -> bool {
    text.len() > 0 && (text[0] == '-' || text[0] == '+')
}

/// What follows the sign of `text`, or `text` where it has no sign.
pub open spec fn unsigned_part(text: Seq<char>) -> Seq<char> {
    if has_sign(text) {
        text.drop_first()
    } else {
        text
    }
}

/// Whether `c` opens an exponent.
pub open spec fn is_exponent_mark(c: char) -> bool {
    c == 'e' || c == 'E'
}

/// Index of the first `e` or `E` in `text`, or the length of `text` where it
/// has neither.
pub open spec fn exponent_position(text: Seq<char>) -> int {
    let lower = first_index(text, 'e');
    let upper = first_index(text, 'E');
    if lower <= upper {
        lower
    } else {
        upper
    }
}

/// What stands before the exponent of an unsigned text.
pub open spec fn significand(body: Seq<char>) -> Seq<char> {
    body.take(exponent_position(body))
}

/// What stands after the `e` or `E` of an unsigned text; nothing where it
/// has neither.
pub open spec fn exponent_part(body: Seq<char>) -> Seq<char> {
    if exponent_position(body) < body.len() {
        body.skip(exponent_position(body) + 1)
    } else {
        Seq::empty()
    }
}

/// Whether `text` is an exponent: an optional sign, then one digit or more.
pub open spec fn is_exponent_text(text: Seq<char>) -> bool {
    unsigned_part(text).len() > 0 && all_digits(unsigned_part(text))
}

/// The whole number that an exponent denotes; zero for the empty text.
pub open spec fn exponent_of(text: Seq<char>) -> int {
    let magnitude = numeral_value(digit_values(unsigned_part(text)));
    if has_sign(text) && text[0] == '-' {
        -magnitude
    } else {
        magnitude as int
    }
}

/// The digits before the point of a significand.
pub open spec fn integer_digits(body: Seq<char>) -> Seq<char> {
    body.take(point_position(body))
}

/// The digits after the point of a significand; none where it has no point.
pub open spec fn fraction_digits(body: Seq<char>) -> Seq<char> {
    if point_position(body) < body.len() {
        body.skip(point_position(body) + 1)
    } else {
        Seq::empty()
    }
}

/// Whether `body` is a significand: digits with at most one point among
/// them, and at least one digit.
pub open spec fn is_significand(body: Seq<char>) -> bool {
    &&& all_digits(integer_digits(body))
    &&& all_digits(fraction_digits(body))
    &&& integer_digits(body).len() + fraction_digits(body).len() > 0
}

/// Whether `text` is a number in decimal notation: an optional sign, then
/// digits with at most one point among them, at least one digit, and after
/// them an optional exponent, which is an `e` or `E`, an optional sign and
/// one digit or more.
pub open spec fn is_decimal_text(text: Seq<char>) -> bool {
    let body = unsigned_part(text);
    &&& is_significand(significand(body))
    &&& exponent_position(body) < body.len() ==> is_exponent_text(exponent_part(body))
}

/// The number that `text` denotes in decimal notation, if it is one: its
/// digits as the mantissa, and as the scale the number of digits after the
/// point less the exponent.
///
/// The words that a float reader takes for infinity and for what is no
/// number (`inf`, `infinity`, `nan`) denote no number here: an exact decimal
/// cannot hold them.
pub open spec fn numeral_of(text: Seq<char>) -> Option<Numeral> {
    let body = unsigned_part(text);
    let digits = significand(body);
    if is_decimal_text(text) {
        Some(
            Numeral {
                negative: text[0] == '-',
                mantissa: numeral_value(
                    digit_values(integer_digits(digits) + fraction_digits(digits)),
                ),
                scale: fraction_digits(digits).len() - exponent_of(exponent_part(body)),
            },
        )
    } else {
        None
    }
}

/// The character that writes the digit `d`.
pub open spec fn digit_char(d: u8) -> char {
    (d + 48) as char
}

/// The characters that write the digits of `digits`, one for one.
pub open spec fn digit_chars(digits: Seq<u8>) -> Seq<char> {
    Seq::new(digits.len(), |i: int| digit_char(digits[i]))
}

/// A natural number written in decimal, without leading zeros.
pub open spec fn natural_text(n: nat) -> Seq<char>
    decreases n,
{
    if n < 10 {
        seq![digit_char(n as u8)]
    } else {
        natural_text(n / 10).push(digit_char((n % 10) as u8))
    }
}

/// The last `places` decimal digits of `f`, written with leading zeros.
pub open spec fn padded_text(f: nat, places: nat) -> Seq<char>
    decreases places,
{
    if places == 0 {
        Seq::empty()
    } else {
        padded_text(f / 10, (places - 1) as nat).push(digit_char((f % 10) as u8))
    }
}

/// The fraction `f / 10^places` written as the digits after a point, without
/// trailing zeros; empty where the fraction is zero.
pub open spec fn fraction_text(f: nat, places: nat) -> Seq<char>
    decreases places,
{
    if places == 0 {
        Seq::empty()
    } else if f % 10 == 0 {
        fraction_text(f / 10, (places - 1) as nat)
    } else {
        padded_text(f, places)
    }
}

/// The shortest plain notation of `mantissa / 10^places`: a `-` where it is
/// negative, the whole part without leading zeros, and, where the fraction is
/// not zero, a point and the fraction without trailing zeros.
pub open spec fn plain_text(negative: bool, mantissa: nat, places: nat) -> Seq<char> {
    let whole = mantissa / pow10(places);
    let part = mantissa % pow10(places);
    let sign = if negative {
        seq!['-']
    } else {
        Seq::empty()
    };
    let fraction = if part == 0 {
        Seq::empty()
    } else {
        seq!['.'] + fraction_text(part, places)
    };
    sign + natural_text(whole) + fraction
}

/// The shortest plain notation of a numeral, without an exponent.
pub open spec fn numeral_text(n: Numeral) -> Seq<char> {
    if n.scale >= 0 {
        plain_text(n.negative, n.mantissa, n.scale as nat)
    } else {
        plain_text(n.negative, n.mantissa * pow10((-n.scale) as nat), 0)
    }
}

/// Number of digits of `digits` up to and including its last digit that is
/// not zero.
pub open spec fn significant_length(digits: Seq<u8>) -> nat
    decreases digits.len(),
{
    if digits.len() == 0 {
        0
    } else if digits.last() != 0 {
        digits.len()
    } else {
        significant_length(digits.drop_last())
    }
}

/// An exact decimal number of any length.
#[derive(Debug)]
pub struct Decimal {
    negative: bool,
    digits: Vec<u8>,
    point: usize,
    lowered: bool,
    exponent: Vec<u8>,
}

/// The whole number that the digits of an exponent denote, taken below zero
/// where `lowered` is set.
pub open spec fn signed_value(lowered: bool, digits: Seq<u8>) -> int {
    if lowered {
        -numeral_value(digits)
    } else {
        numeral_value(digits) as int
    }
}

impl View for Decimal {
    type V = Numeral;

    closed spec fn view(&self) -> Numeral {
        Numeral {
            negative: self.negative,
            mantissa: numeral_value(self.digits@),
            scale: self.point - signed_value(self.lowered, self.exponent@),
        }
    }
}

impl Decimal {
    /// Every stored digit is below ten, there is at least one digit, and the
    /// point lies within the digits.
    #[verifier::type_invariant]
    spec fn well_formed(&self) -> bool {
        &&& digits_in_range(self.digits@)
        &&& digits_in_range(self.exponent@)
        &&& self.digits@.len() >= 1
        &&& self.point <= self.digits@.len()
    }

    /// Reads a number in decimal notation: an optional sign, then digits with
    /// at most one point among them, then an optional exponent. Anything
    /// else, a space or a word for infinity included, is no number.
    pub fn parse(text: &str) -> (result: Option<Decimal>)
        ensures
            match result {
                Some(d) => numeral_of(text@) == Some(d@),
                None => numeral_of(text@) is None,
            },
    {
        if !text.is_ascii() {
            proof {
                if is_decimal_text(text@) {
                    lemma_decimal_text_is_ascii(text@);
                }
            }
            return None;
        }
        let bytes = text.as_bytes();
        let n = bytes.len();
        proof {
            is_ascii_spec_bytes(text);
        }
        let mut negative = false;
        let mut start: usize = 0;
        if n > 0 {
            if bytes[0] == 45 {
                negative = true;
                start = 1;
            } else if bytes[0] == 43 {
                start = 1;
            }
        }
        let ghost body = unsigned_part(text@);
        assert(body =~= text@.skip(start as int));
        let (digits, whole, end, pointed) = take_significand(text, bytes, start);
        let ghost mark = end - start;
        if end < n && bytes[end] != 101 && bytes[end] != 69 {
            proof {
                lemma_stray_in_significand(body, whole - start, mark, pointed);
            }
            return None;
        }
        proof {
            lemma_scanned_significand(body, whole - start, mark, pointed);
        }
        let mut lowered = false;
        let mut exponent: Vec<u8> = Vec::new();
        if end < n {
            assert(exponent_part(body) =~= text@.skip(end + 1));
            match take_exponent(text, bytes, end + 1) {
                Some((below, found)) => {
                    lowered = below;
                    exponent = found;
                },
                None => {
                    return None;
                },
            }
        } else {
            assert(digit_values(unsigned_part(exponent_part(body))) =~= exponent@);
        }
        if digits.len() == 0 {
            return None;
        }
        let point = if pointed {
            end - whole - 1
        } else {
            0
        };
        assert(point == fraction_digits(significand(body)).len());
        Some(Decimal { negative, digits, point, lowered, exponent })
    }

    /// Whether the number is zero, of either sign.
    pub fn is_zero(&self) -> (zero: bool)
        ensures
            zero == self@.is_zero(),
    {
        let mut i: usize = 0;
        while i < self.digits.len()
            invariant
                i <= self.digits@.len(),
                forall|k: int| 0 <= k < i ==> #[trigger] self.digits@[k] == 0,
            decreases self.digits@.len() - i,
        {
            if self.digits[i] != 0 {
                proof {
                    lemma_numeral_zero(self.digits@);
                }
                return false;
            }
            i += 1;
        }
        proof {
            lemma_numeral_zero(self.digits@);
        }
        true
    }

    /// Whether the number is greater than zero.
    pub fn is_positive(&self) -> (positive: bool)
        ensures
            positive == self@.is_positive(),
    {
        !self.negative && !self.is_zero()
    }

    /// This number times `k` tenths, exactly.
    pub fn tenths(&self, k: u8) -> (product: Decimal)
        ensures
            product@.negative == self@.negative,
            product@.mantissa == self@.mantissa * k,
            product@.scale == self@.scale + 1,
    {
        proof {
            use_type_invariant(self);
        }
        let len = self.digits.len();
        let mut out: Vec<u8> = Vec::new();
        out.push(0);
        out.push(0);
        out.push(0);
        let mut j: usize = 0;
        while j < len
            invariant
                j <= len,
                len == self.digits@.len(),
                out@.len() == j + 3,
                forall|i: int| 0 <= i < out@.len() ==> #[trigger] out@[i] == 0,
            decreases len - j,
        {
            out.push(0);
            j += 1;
        }
        let mut carry: u32 = 0;
        let mut i: usize = len;
        let total = out.len();
        proof {
            assert(self.digits@.skip(len as int) =~= Seq::<u8>::empty());
            assert(out@.skip(len + 3) =~= Seq::<u8>::empty());
            assert(numeral_value(Seq::<u8>::empty()) * k == 0 + carry * pow10(0))
                by (nonlinear_arith)
                requires
                    carry == 0,
                    numeral_value(Seq::<u8>::empty()) == 0,
            ;
        }
        while i > 0
            invariant
                i <= len,
                len == self.digits@.len(),
                out@.len() == len + 3,
                total == len + 3,
                digits_in_range(self.digits@),
                carry <= 254,
                digits_in_range(out@),
                numeral_value(self.digits@.skip(i as int)) * k == carry * pow10((len - i) as nat)
                    + numeral_value(out@.skip(i + 3)),
            decreases i,
        {
            let ghost tail_in = self.digits@.skip(i as int);
            let ghost tail_out = out@.skip(i + 3);
            i -= 1;
            let d = self.digits[i];
            assert(d * k <= 2295) by (nonlinear_arith)
                requires
                    d < 10,
                    k <= 255,
            ;
            let t: u32 = d as u32 * k as u32 + carry;
            let low = (t % 10) as u8;
            out.set(i + 3, low);
            proof {
                let places = (len - i - 1) as nat;
                let p = pow10(places);
                assert(self.digits@.skip(i as int) =~= seq![d] + tail_in);
                assert(out@.skip(i + 3) =~= seq![low] + tail_out);
                lemma_numeral_concat(seq![d], tail_in);
                lemma_numeral_concat(seq![low], tail_out);
                lemma_numeral_single(d);
                lemma_numeral_single(low);
                assert(pow10((len - i) as nat) == 10 * p);
                assert((d * p + numeral_value(tail_in)) * k == (t / 10) * (10 * p) + (low * p
                    + numeral_value(tail_out))) by (nonlinear_arith)
                    requires
                        numeral_value(tail_in) * k == carry * p + numeral_value(tail_out),
                        t == d * k + carry,
                        t == 10 * (t / 10) + low,
                ;
            }
            carry = t / 10;
        }
        let ghost low_digits = out@.skip(3);
        out.set(0, (carry / 100) as u8);
        out.set(1, (carry / 10 % 10) as u8);
        out.set(2, (carry % 10) as u8);
        proof {
            let hundreds = (carry / 100) as u8;
            let tens = (carry / 10 % 10) as u8;
            let ones = (carry % 10) as u8;
            let head = seq![hundreds, tens, ones];
            let tail = out@.skip(3);
            assert(tail =~= low_digits);
            assert(out@ =~= head + tail);
            assert(self.digits@.skip(0) =~= self.digits@);
            lemma_numeral_concat(head, tail);
            lemma_numeral_single(hundreds);
            assert(head.drop_last() =~= seq![hundreds, tens]);
            assert(head.drop_last().drop_last() =~= seq![hundreds]);
            assert(numeral_value(head) == 10 * numeral_value(head.drop_last()) + ones);
            assert(numeral_value(head.drop_last()) == 10 * numeral_value(seq![hundreds]) + tens);
            assert(numeral_value(head) == carry);
        }
        let exponent = copy_digits(&self.exponent);
        Decimal {
            negative: self.negative,
            digits: out,
            point: self.point + 1,
            lowered: self.lowered,
            exponent,
        }
    }

    /// The exponent without its sign, where it is below ten to the power of
    /// twenty-five.
    fn small_exponent(&self) -> (value: Option<u128>)
        ensures
            match value {
                Some(found) => found == numeral_value(self.exponent@) && found < pow10(25),
                None => numeral_value(self.exponent@) >= pow10(25),
            },
    {
        proof {
            use_type_invariant(self);
            lemma_pow10_values();
        }
        let len = self.exponent.len();
        let mut first: usize = 0;
        while first < len && self.exponent[first] == 0
            invariant
                first <= len,
                len == self.exponent@.len(),
                forall|i: int| 0 <= i < first ==> #[trigger] self.exponent@[i] == 0,
            decreases len - first,
        {
            first += 1;
        }
        let ghost shown = self.exponent@.skip(first as int);
        proof {
            lemma_leading_zeros(self.exponent@, first as int);
            assert forall|i: int| 0 <= i < shown.len() implies #[trigger] shown[i] < 10 by {
                assert(shown[i] == self.exponent@[first + i]);
            }
        }
        if len - first > 25 {
            proof {
                lemma_numeral_floor(shown);
                lemma_pow10_grows(25, (shown.len() - 1) as nat);
            }
            return None;
        }
        let mut value: u128 = 0;
        let mut i: usize = first;
        assert(shown.take(0) =~= Seq::<u8>::empty());
        while i < len
            invariant
                first <= i <= len,
                len == self.exponent@.len(),
                len - first <= 25,
                shown == self.exponent@.skip(first as int),
                digits_in_range(shown),
                value == numeral_value(shown.take(i - first)),
            decreases len - i,
        {
            proof {
                let taken = shown.take(i - first);
                assert forall|k: int| 0 <= k < taken.len() implies #[trigger] taken[k] < 10 by {
                    assert(taken[k] == shown[k]);
                }
                lemma_numeral_bound(taken);
                lemma_pow10_grows(taken.len(), 24);
                lemma_pow10_values();
                assert(shown.take(i + 1 - first) =~= taken.push(self.exponent@[i as int]));
                lemma_numeral_push(taken, self.exponent@[i as int]);
                assert(shown[i - first] == self.exponent@[i as int]);
            }
            value = value * 10 + self.exponent[i] as u128;
            i += 1;
        }
        proof {
            assert(shown.take(len - first) =~= shown);
            lemma_numeral_bound(shown);
            lemma_pow10_grows(shown.len(), 25);
        }
        Some(value)
    }

    /// The zeros to add before and after the stored digits, and the number
    /// of digits after the point, for writing the number out; nothing where
    /// it is not written out.
    fn room(&self) -> (room: Option<(usize, usize, usize)>)
        ensures
            self@.mantissa > 0 ==> match room {
                Some((before, after, places)) => {
                    &&& self@.writable()
                    &&& before <= PADDING_LIMIT
                    &&& after <= PADDING_LIMIT
                    &&& self@.scale < 0 ==> before == 0 && after == -self@.scale && places == 0
                    &&& 0 <= self@.scale <= self.digits@.len() ==> before == 0 && after == 0
                        && places == self@.scale
                    &&& self@.scale > self.digits@.len() ==> before == self@.scale
                        - self.digits@.len() && after == 0 && places == 0
                },
                None => !self@.writable(),
            },
    {
        proof {
            use_type_invariant(self);
            lemma_pow10_values();
        }
        let len = self.digits.len();
        let mut first: usize = 0;
        while first < len && self.digits[first] == 0
            invariant
                first <= len,
                len == self.digits@.len(),
                forall|i: int| 0 <= i < first ==> #[trigger] self.digits@[i] == 0,
            decreases len - first,
        {
            first += 1;
        }
        let width: usize = if first == len {
            1
        } else {
            len - first
        };
        proof {
            lemma_whole_text(self.digits@, first as int);
            assert(natural_text(numeral_value(self.digits@)).len() == width);
        }
        proof {
            assert(self@.scale == self.point - signed_value(self.lowered, self.exponent@));
            assert(self@.mantissa == numeral_value(self.digits@));
            assert(self@.padding() == if self@.mantissa == 0 {
                0
            } else if self@.scale < 0 {
                -self@.scale
            } else if self@.scale > width {
                self@.scale - width
            } else {
                0
            });
        }
        let exponent = match self.small_exponent() {
            Some(found) => found,
            None => {
                return None;
            },
        };
        if !self.lowered && exponent > self.point as u128 {
            let after = exponent - self.point as u128;
            if after <= PADDING_LIMIT as u128 {
                return Some((0, after as usize, 0));
            } else {
                return None;
            }
        }
        let scale: u128 = if self.lowered {
            self.point as u128 + exponent
        } else {
            self.point as u128 - exponent
        };
        if scale > width as u128 + PADDING_LIMIT as u128 {
            None
        } else if scale <= len as u128 {
            Some((0, 0, scale as usize))
        } else {
            Some(((scale - len as u128) as usize, 0, 0))
        }
    }

    /// Whether the number is below zero, or a zero written with a `-`.
    pub fn is_negative(&self) -> (negative: bool)
        ensures
            negative == self@.negative,
    {
        self.negative
    }

    /// Whether the exponent moves the point past the last digit, so that the
    /// number is a whole number with zeros after its digits.
    pub fn is_raised(&self) -> (raised: bool)
        ensures
            raised == (self@.scale < 0),
    {
        proof {
            lemma_pow10_values();
        }
        match self.small_exponent() {
            Some(exponent) => !self.lowered && exponent > self.point as u128,
            None => !self.lowered,
        }
    }

    /// Whether the number is written out in plain notation.
    pub fn is_writable(&self) -> (writable: bool)
        ensures
            writable == self@.writable(),
    {
        self.is_zero() || self.room().is_some()
    }

    /// Writes the number in its shortest plain notation, without an
    /// exponent. A number that is not written out, because that took more
    /// than [`PADDING_LIMIT`] added zeros, has no text.
    pub fn to_text(&self) -> (text: Option<String>)
        ensures
            match text {
                Some(written) => self@.writable() && written@ == numeral_text(self@),
                None => !self@.writable(),
            },
    {
        proof {
            use_type_invariant(self);
        }
        if self.is_zero() {
            proof {
                lemma_zero_text(self@);
                reveal_strlit("-0");
                reveal_strlit("0");
            }
            let text = if self.negative {
                "-0".to_owned()
            } else {
                "0".to_owned()
            };
            assert(text@ =~= numeral_text(self@));
            return Some(text);
        }
        let (before, after, scale) = match self.room() {
            Some(room) => room,
            None => {
                return None;
            },
        };
        let mut plain: Vec<u8> = Vec::new();
        let mut i: usize = 0;
        while i < before
            invariant
                i <= before,
                plain@ == zeros(i as nat),
            decreases before - i,
        {
            plain.push(0);
            assert(plain@ =~= zeros((i + 1) as nat));
            i += 1;
        }
        let mut j: usize = 0;
        while j < self.digits.len()
            invariant
                j <= self.digits@.len(),
                plain@ == zeros(before as nat) + self.digits@.take(j as int),
            decreases self.digits@.len() - j,
        {
            plain.push(self.digits[j]);
            assert(plain@ =~= zeros(before as nat) + self.digits@.take(j + 1));
            j += 1;
        }
        assert(self.digits@.take(self.digits@.len() as int) =~= self.digits@);
        let places = if before > 0 {
            plain.len()
        } else {
            scale
        };
        let mut k: usize = 0;
        assert(plain@ =~= zeros(before as nat) + self.digits@ + zeros(0));
        while k < after
            invariant
                k <= after,
                plain@ == zeros(before as nat) + self.digits@ + zeros(k as nat),
            decreases after - k,
        {
            plain.push(0);
            assert(plain@ =~= zeros(before as nat) + self.digits@ + zeros((k + 1) as nat));
            k += 1;
        }
        proof {
            lemma_padded_digits(self.digits@, before as nat, after as nat);
            let mantissa = numeral_value(self.digits@);
            assert(self@.mantissa == mantissa);
            assert(self@.negative == self.negative);
            assert(plain@.len() == before + self.digits@.len() + after);
            if after == 0 {
                assert(mantissa * pow10(0) == mantissa) by (nonlinear_arith)
                    requires
                        pow10(0) == 1,
                ;
                assert(places == self@.scale);
            } else {
                assert(self@.scale == -after);
                assert(places == 0);
            }
        }
        Some(write_plain(self.negative, &plain, places))
    }
}

/// Zero is written as a single `0`, after a `-` where it is negative.
pub proof fn lemma_zero_text(n: Numeral)
    requires
        n.mantissa == 0,
    ensures
        numeral_text(n) == if n.negative {
            seq!['-', '0']
        } else {
            seq!['0']
        },
{
    let places = if n.scale >= 0 {
        n.scale as nat
    } else {
        0
    };
    lemma_pow10_positive(places);
    vstd::arithmetic::div_mod::lemma_fundamental_div_mod_converse(0, pow10(places) as int, 0, 0);
    if n.scale < 0 {
        assert(n.mantissa * pow10((-n.scale) as nat) == 0) by (nonlinear_arith)
            requires
                n.mantissa == 0,
        ;
    }
    assert(natural_text(0) =~= seq!['0']);
    assert(numeral_text(n) =~= if n.negative {
        seq!['-', '0']
    } else {
        seq!['0']
    });
}

/// A run of `n` zeros.
pub open spec fn zeros(n: nat) -> Seq<u8> {
    Seq::new(n, |i: int| 0u8)
}

/// Zeros before the digits of a numeral leave its value as it is, and each
/// zero after them multiplies it by ten.
pub proof fn lemma_padded_digits(digits: Seq<u8>, before: nat, after: nat)
    requires
        digits_in_range(digits),
    ensures
        digits_in_range(zeros(before) + digits + zeros(after)),
        numeral_value(zeros(before) + digits + zeros(after)) == numeral_value(digits) * pow10(
            after,
        ),
{
    let front = zeros(before) + digits;
    lemma_leading_zeros(front, before as int);
    assert(front.skip(before as int) =~= digits);
    lemma_numeral_concat(front, zeros(after));
    lemma_numeral_zero(zeros(after));
}

/// Writes `mantissa / 10^places` in plain notation from the digits of the
/// mantissa.
fn write_plain(negative: bool, digits: &Vec<u8>, places: usize) -> (text: String)
    requires
        digits_in_range(digits@),
        places <= digits@.len(),
    ensures
        text@ == plain_text(negative, numeral_value(digits@), places as nat),
{
    let len = digits.len();
    let whole = len - places;
    let mut text = String::new();
    if negative {
        text.append("-");
        proof {
            reveal_strlit("-");
        }
    }
    let mut first: usize = 0;
    while first < whole && digits[first] == 0
        invariant
            first <= whole <= digits@.len(),
            forall|i: int| 0 <= i < first ==> #[trigger] digits@[i] == 0,
        decreases whole - first,
    {
        first += 1;
    }
    if first == whole {
        text.append("0");
        proof {
            reveal_strlit("0");
        }
    } else {
        append_digits(&mut text, digits, first, whole);
    }
    let mut last = len;
    while last > whole && digits[last - 1] == 0
        invariant
            whole <= last <= len,
            len == digits@.len(),
            forall|i: int| last <= i < len ==> #[trigger] digits@[i] == 0,
        decreases last,
    {
        last -= 1;
    }
    if last > whole {
        text.append(".");
        proof {
            reveal_strlit(".");
        }
        append_digits(&mut text, digits, whole, last);
    }
    proof {
        lemma_shortest_notation(negative, digits@, places as nat, first as int, last as int);
        assert(text@ =~= shortest_notation(
            negative,
            digits@,
            places as nat,
            first as int,
            last as int,
        ));
    }
    text
}

/// Appends the characters of the digits `digits[from..to]` to `text`.
fn append_digits(text: &mut String, digits: &Vec<u8>, from: usize, to: usize)
    requires
        from <= to <= digits@.len(),
        digits_in_range(digits@),
    ensures
        final(text)@ == old(text)@ + digit_chars(digits@.subrange(from as int, to as int)),
{
    let ghost before = text@;
    let mut j = from;
    assert(text@ =~= before + digit_chars(digits@.subrange(from as int, j as int)));
    while j < to
        invariant
            from <= j <= to <= digits@.len(),
            digits_in_range(digits@),
            text@ == before + digit_chars(digits@.subrange(from as int, j as int)),
        decreases to - j,
    {
        text.append(digit_text(digits[j]));
        proof {
            assert(digits@.subrange(from as int, j + 1) =~= digits@.subrange(
                from as int,
                j as int,
            ).push(digits@[j as int]));
            assert(text@ =~= before + digit_chars(digits@.subrange(from as int, j + 1)));
        }
        j += 1;
    }
}

/// Scans `text` from `start` on for digits with at most one point among
/// them: the digits, where those before the point end, where all of them
/// end, and whether there is a point.
fn take_significand(text: &str, bytes: &[u8], start: usize) -> (found: (Vec<u8>, usize, usize, bool))
    requires
        is_ascii(text),
        bytes@.len() == text@.len(),
        forall|k: int| 0 <= k < text@.len() ==> bytes@[k] == #[trigger] text@[k] as u8,
        start <= text@.len(),
    ensures
        start <= found.1 <= found.2 <= text@.len(),
        scanned(text@.skip(start as int), found.1 - start, found.2 - start, found.3),
        digits_in_range(found.0@),
        found.0@ == digit_values(
            text@.skip(start as int).take(found.1 - start) + scanned_fraction(
                text@.skip(start as int),
                found.1 - start,
                found.2 - start,
                found.3,
            ),
        ),
        found.3 ==> found.2 > found.1,
{
    let n = bytes.len();
    let ghost body = text@.skip(start as int);
    let mut digits: Vec<u8> = Vec::new();
    let whole = take_digits(text, bytes, start, &mut digits);
    let ghost before = text@.subrange(start as int, whole as int);
    assert(before =~= body.take(whole - start));
    assert(digits@ =~= digit_values(before));
    if whole < n && bytes[whole] == 46 {
        let end = take_digits(text, bytes, whole + 1, &mut digits);
        let ghost after = text@.subrange(whole + 1, end as int);
        proof {
            assert(after =~= body.subrange(whole - start + 1, end - start));
            lemma_digit_values_concat(before, after);
            if end < n {
                assert(body[end - start] == text@[end as int]);
            }
        }
        (digits, whole, end, true)
    } else {
        proof {
            assert(before + Seq::<char>::empty() =~= before);
            if whole < n {
                assert(body[whole - start] == text@[whole as int]);
            }
        }
        (digits, whole, whole, false)
    }
}

/// Reads the exponent that `text` holds from `from` on: whether it is below
/// zero, and its digits.
fn take_exponent(text: &str, bytes: &[u8], from: usize) -> (exponent: Option<(bool, Vec<u8>)>)
    requires
        is_ascii(text),
        bytes@.len() == text@.len(),
        forall|k: int| 0 <= k < text@.len() ==> bytes@[k] == #[trigger] text@[k] as u8,
        from <= text@.len(),
    ensures
        match exponent {
            Some((lowered, digits)) => {
                &&& is_exponent_text(text@.skip(from as int))
                &&& digits_in_range(digits@)
                &&& exponent_of(text@.skip(from as int)) == signed_value(lowered, digits@)
            },
            None => !is_exponent_text(text@.skip(from as int)),
        },
{
    let n = bytes.len();
    let ghost written = text@.skip(from as int);
    let mut lowered = false;
    let mut at = from;
    if at < n {
        if bytes[at] == 45 {
            lowered = true;
            at += 1;
        } else if bytes[at] == 43 {
            at += 1;
        }
    }
    assert(unsigned_part(written) =~= text@.skip(at as int));
    let mut digits: Vec<u8> = Vec::new();
    let stop = take_digits(text, bytes, at, &mut digits);
    assert(digits@ =~= digit_values(text@.subrange(at as int, stop as int)));
    if stop < n {
        assert(unsigned_part(written)[stop - at] == text@[stop as int]);
        return None;
    }
    if stop == at {
        return None;
    }
    assert(unsigned_part(written) =~= text@.subrange(at as int, stop as int));
    Some((lowered, digits))
}

/// A copy of a list of digits.
fn copy_digits(digits: &Vec<u8>) -> (copy: Vec<u8>)
    ensures
        copy@ == digits@,
{
    let mut copy: Vec<u8> = Vec::new();
    let mut i: usize = 0;
    while i < digits.len()
        invariant
            i <= digits@.len(),
            copy@ == digits@.take(i as int),
        decreases digits@.len() - i,
    {
        copy.push(digits[i]);
        assert(copy@ =~= digits@.take(i + 1));
        i += 1;
    }
    assert(digits@.take(digits@.len() as int) =~= digits@);
    copy
}

/// Appends to `digits` the digits that `text` holds from `from` on, and
/// returns the index after the last of them.
fn take_digits(text: &str, bytes: &[u8], from: usize, digits: &mut Vec<u8>) -> (to: usize)
    requires
        is_ascii(text),
        bytes@.len() == text@.len(),
        forall|k: int| 0 <= k < text@.len() ==> bytes@[k] == #[trigger] text@[k] as u8,
        from <= text@.len(),
        digits_in_range(old(digits)@),
    ensures
        from <= to <= text@.len(),
        all_digits(text@.subrange(from as int, to as int)),
        to < text@.len() ==> !is_digit(text@[to as int]),
        final(digits)@ == old(digits)@ + digit_values(text@.subrange(from as int, to as int)),
        digits_in_range(final(digits)@),
{
    let n = bytes.len();
    let mut i = from;
    assert(digits@ =~= old(digits)@ + digit_values(text@.subrange(from as int, i as int)));
    while i < n && 48 <= bytes[i] && bytes[i] <= 57
        invariant
            from <= i <= n,
            n == text@.len(),
            bytes@.len() == n,
            is_ascii(text),
            forall|k: int| 0 <= k < n ==> bytes@[k] == #[trigger] text@[k] as u8,
            all_digits(text@.subrange(from as int, i as int)),
            digits@ == old(digits)@ + digit_values(text@.subrange(from as int, i as int)),
            digits_in_range(digits@),
        decreases n - i,
    {
        let ghost so_far = digits@;
        digits.push(bytes[i] - 48);
        proof {
            assert(is_digit(text@[i as int]));
            assert(text@.subrange(from as int, i + 1) =~= text@.subrange(from as int, i as int).push(
                text@[i as int],
            ));
            assert(digits@ =~= old(digits)@ + digit_values(text@.subrange(from as int, i + 1)));
        }
        i += 1;
    }
    proof {
        if i < n {
            assert(bytes@[i as int] == text@[i as int] as u8);
        }
    }
    i
}

/// The one-character text that writes the digit `d`.
fn digit_text(d: u8) -> (text: &'static str)
    requires
        d < 10,
    ensures
        text@ == seq![digit_char(d)],
{
    proof {
        reveal_strlit("0");
        reveal_strlit("1");
        reveal_strlit("2");
        reveal_strlit("3");
        reveal_strlit("4");
        reveal_strlit("5");
        reveal_strlit("6");
        reveal_strlit("7");
        reveal_strlit("8");
        reveal_strlit("9");
    }
    let text = match d {
        0 => "0",
        1 => "1",
        2 => "2",
        3 => "3",
        4 => "4",
        5 => "5",
        6 => "6",
        7 => "7",
        8 => "8",
        _ => "9",
    };
    assert(text@ =~= seq![digit_char(d)]);
    text
}

/// The first point of a text lies within it, and nothing before it is a point.
pub proof fn lemma_point_position(text: Seq<char>)
    ensures
        0 <= point_position(text) <= text.len(),
        point_position(text) < text.len() ==> text[point_position(text)] == '.',
        forall|j: int| 0 <= j < point_position(text) ==> #[trigger] text[j] != '.',
{
    lemma_first_index(text, '.');
}

/// A position with no point before it, which holds a point or is the end of
/// the text, is the position of the first point.
pub proof fn lemma_point_position_at(text: Seq<char>, p: int)
    requires
        0 <= p <= text.len(),
        forall|j: int| 0 <= j < p ==> #[trigger] text[j] != '.',
        p < text.len() ==> text[p] == '.',
    ensures
        point_position(text) == p,
{
    lemma_first_index_at(text, '.', p);
}

/// Where digits run up to a point or to the end of an unsigned text, they are
/// its integer digits, and what follows the point are its fraction digits.
pub proof fn lemma_decimal_parts(body: Seq<char>, p: int)
    requires
        0 <= p <= body.len(),
        all_digits(body.take(p)),
        p < body.len() ==> body[p] == '.',
    ensures
        point_position(body) == p,
        integer_digits(body) == body.take(p),
        fraction_digits(body) == if p < body.len() {
            body.skip(p + 1)
        } else {
            Seq::empty()
        },
{
    assert forall|j: int| 0 <= j < p implies #[trigger] body[j] != '.' by {
        assert(is_digit(body.take(p)[j]));
    }
    lemma_point_position_at(body, p);
}

/// An unsigned text in which digits run up to a character that is neither a
/// digit nor a point is no number.
pub proof fn lemma_stray_character(body: Seq<char>, p: int)
    requires
        0 <= p < body.len(),
        all_digits(body.take(p)),
        !is_digit(body[p]),
        body[p] != '.',
    ensures
        !all_digits(integer_digits(body)),
{
    assert forall|j: int| 0 <= j < p implies #[trigger] body[j] != '.' by {
        assert(is_digit(body.take(p)[j]));
    }
    lemma_point_position(body);
    let q = point_position(body);
    if q <= p {
        assert(q == p || body[q] == '.');
    }
    assert(integer_digits(body)[p] == body[p]);
}

/// The exponent of an unsigned text begins within it at an `e` or `E`, and
/// nothing before it is one.
pub proof fn lemma_exponent_position(body: Seq<char>)
    ensures
        0 <= exponent_position(body) <= body.len(),
        exponent_position(body) < body.len() ==> is_exponent_mark(
            body[exponent_position(body)],
        ),
        forall|j: int| 0 <= j < exponent_position(body) ==> !is_exponent_mark(#[trigger] body[j]),
{
    lemma_first_index(body, 'e');
    lemma_first_index(body, 'E');
}

/// A position with no `e` or `E` before it, which holds one or is the end of
/// the text, is where the exponent begins.
pub proof fn lemma_exponent_position_at(body: Seq<char>, p: int)
    requires
        0 <= p <= body.len(),
        forall|j: int| 0 <= j < p ==> !is_exponent_mark(#[trigger] body[j]),
        p < body.len() ==> is_exponent_mark(body[p]),
    ensures
        exponent_position(body) == p,
{
    lemma_first_index(body, 'e');
    lemma_first_index(body, 'E');
    let lower = first_index(body, 'e');
    let upper = first_index(body, 'E');
    if lower < p {
        assert(is_exponent_mark(body[lower]));
    }
    if upper < p {
        assert(is_exponent_mark(body[upper]));
    }
    if p < body.len() {
        if lower > p && upper > p {
            assert(body[p] != 'e' && body[p] != 'E');
        }
    }
}

/// What a scan of an unsigned text for its digits finds: digits up to `p`,
/// then, where `pointed`, a point and digits up to `mark`, and at `mark` the
/// end of the text or a character that is no digit and no second point.
pub open spec fn scanned(body: Seq<char>, p: int, mark: int, pointed: bool) -> bool {
    &&& 0 <= p <= mark <= body.len()
    &&& all_digits(body.take(p))
    &&& pointed ==> p < mark && body[p] == '.' && all_digits(body.subrange(p + 1, mark))
    &&& !pointed ==> p == mark && (mark < body.len() ==> body[mark] != '.')
    &&& mark < body.len() ==> !is_digit(body[mark])
}

/// The digits after the point that a scan found.
pub open spec fn scanned_fraction(body: Seq<char>, p: int, mark: int, pointed: bool) -> Seq<
    char,
> {
    if pointed {
        body.subrange(p + 1, mark)
    } else {
        Seq::empty()
    }
}

/// A scan finds nothing that opens an exponent.
proof fn lemma_scanned_marks(body: Seq<char>, p: int, mark: int, pointed: bool)
    requires
        scanned(body, p, mark, pointed),
    ensures
        forall|j: int| 0 <= j < mark ==> !is_exponent_mark(#[trigger] body[j]),
{
    assert forall|j: int| 0 <= j < mark implies !is_exponent_mark(#[trigger] body[j]) by {
        if j < p {
            assert(is_digit(body.take(p)[j]));
        } else if j > p {
            assert(is_digit(body.subrange(p + 1, mark)[j - p - 1]));
        }
    }
}

/// Where a scan ends at the end of the text or at an `e` or `E`, the
/// significand is what was scanned.
pub proof fn lemma_scanned_significand(body: Seq<char>, p: int, mark: int, pointed: bool)
    requires
        scanned(body, p, mark, pointed),
        mark < body.len() ==> is_exponent_mark(body[mark]),
    ensures
        exponent_position(body) == mark,
        integer_digits(significand(body)) == body.take(p),
        fraction_digits(significand(body)) == scanned_fraction(body, p, mark, pointed),
{
    lemma_scanned_marks(body, p, mark, pointed);
    lemma_exponent_position_at(body, mark);
    let s = significand(body);
    assert(s.take(p) =~= body.take(p));
    if pointed {
        assert(s[p] == body[p]);
    }
    lemma_decimal_parts(s, p);
    assert(fraction_digits(s) =~= scanned_fraction(body, p, mark, pointed));
}

/// Where a scan ends at a character that does not open an exponent, the
/// text is no number.
pub proof fn lemma_stray_in_significand(body: Seq<char>, p: int, mark: int, pointed: bool)
    requires
        scanned(body, p, mark, pointed),
        mark < body.len(),
        !is_exponent_mark(body[mark]),
    ensures
        !is_significand(significand(body)),
{
    lemma_scanned_marks(body, p, mark, pointed);
    lemma_exponent_position(body);
    let q = exponent_position(body);
    if q <= mark {
        assert(is_exponent_mark(body[q]));
    }
    let s = significand(body);
    assert(s.take(p) =~= body.take(p));
    assert(s[mark] == body[mark]);
    if pointed {
        assert(s[p] == body[p]);
        lemma_decimal_parts(s, p);
        assert(fraction_digits(s)[mark - p - 1] == s[mark]);
    } else {
        lemma_stray_character(s, p);
    }
}

/// Whether `c` can stand in a decimal text: a digit, a point, a sign, or
/// the `e` or `E` of an exponent.
pub open spec fn is_decimal_char(c: char) -> bool {
    is_digit(c) || c == '.' || c == '+' || c == '-' || c == 'e' || c == 'E'
}

/// A decimal text holds digits, points, signs and exponent marks only.
pub proof fn lemma_decimal_text_alphabet(text: Seq<char>)
    requires
        is_decimal_text(text),
    ensures
        forall|i: int| 0 <= i < text.len() ==> is_decimal_char(#[trigger] text[i]),
{
    let body = unsigned_part(text);
    let q = exponent_position(body);
    let s = significand(body);
    let x = exponent_part(body);
    let p = point_position(s);
    let shift: int = if has_sign(text) {
        1
    } else {
        0
    };
    lemma_exponent_position(body);
    lemma_point_position(s);
    assert forall|i: int| 0 <= i < text.len() implies is_decimal_char(#[trigger] text[i]) by {
        if i >= shift {
            let k = i - shift;
            assert(body[k] == text[i]);
            if k < q {
                assert(s[k] == body[k]);
                if k < p {
                    assert(integer_digits(s)[k] == s[k]);
                } else if k > p {
                    assert(fraction_digits(s)[k - p - 1] == s[k]);
                }
            } else if k > q {
                let m = k - q - 1;
                assert(x[m] == body[k]);
                if has_sign(x) {
                    if m > 0 {
                        assert(unsigned_part(x)[m - 1] == x[m]);
                    }
                } else {
                    assert(unsigned_part(x)[m] == x[m]);
                }
            }
        }
    }
}

/// A text with a character outside ASCII is no decimal text.
pub proof fn lemma_decimal_text_is_ascii(text: Seq<char>)
    requires
        is_decimal_text(text),
    ensures
        vstd::utf8::is_ascii_chars(text),
{
    lemma_decimal_text_alphabet(text);
    assert forall|i: int| 0 <= i < text.len() implies '\0' <= #[trigger] text[i] <= '\u{7f}' by {
        assert(is_decimal_char(text[i]));
    }
}

/// Ten to any power is at least one.
pub proof fn lemma_pow10_positive(n: nat)
    ensures
        pow10(n) >= 1,
    decreases n,
{
    if n > 0 {
        lemma_pow10_positive((n - 1) as nat);
    }
}

/// Ten to the powers that bound an exponent read as a machine number.
pub proof fn lemma_pow10_values()
    ensures
        pow10(0) == 1,
        pow10(24) == 1_000_000_000_000_000_000_000_000,
        pow10(25) == 10_000_000_000_000_000_000_000_000,
{
    reveal_with_fuel(pow10, 26);
}

/// A greater power of ten is no smaller.
pub proof fn lemma_pow10_grows(a: nat, b: nat)
    requires
        a <= b,
    ensures
        pow10(a) <= pow10(b),
    decreases b,
{
    if a < b {
        lemma_pow10_grows(a, (b - 1) as nat);
    }
}

/// A numeral whose first digit is not zero is at least ten to the power of
/// the number of digits after it.
pub proof fn lemma_numeral_floor(digits: Seq<u8>)
    requires
        digits.len() > 0,
        digits[0] != 0,
    ensures
        numeral_value(digits) >= pow10((digits.len() - 1) as nat),
    decreases digits.len(),
{
    if digits.len() == 1 {
        lemma_numeral_single(digits[0]);
        assert(digits =~= seq![digits[0]]);
    } else {
        let front = digits.drop_last();
        assert(front[0] == digits[0]);
        lemma_numeral_floor(front);
    }
}

/// Powers of ten multiply by adding their exponents.
pub proof fn lemma_pow10_adds(a: nat, b: nat)
    ensures
        pow10(a + b) == pow10(a) * pow10(b),
    decreases a,
{
    if a > 0 {
        lemma_pow10_adds((a - 1) as nat, b);
        assert(pow10(a + b) == 10 * pow10((a + b - 1) as nat));
        assert(10 * (pow10((a - 1) as nat) * pow10(b)) == (10 * pow10((a - 1) as nat)) * pow10(b))
            by (nonlinear_arith);
    } else {
        assert(pow10(a) * pow10(b) == pow10(b)) by (nonlinear_arith)
            requires
                pow10(a) == 1,
        ;
    }
}

/// Whether every element of `digits` is a decimal digit.
pub open spec fn digits_in_range(digits: Seq<u8>) -> bool {
    forall|i: int| 0 <= i < digits.len() ==> #[trigger] digits[i] < 10
}

/// Digits put one after the other denote the first number shifted left by the
/// length of the second, plus the second.
pub proof fn lemma_numeral_concat(a: Seq<u8>, b: Seq<u8>)
    ensures
        numeral_value(a + b) == numeral_value(a) * pow10(b.len()) + numeral_value(b),
    decreases b.len(),
{
    if b.len() == 0 {
        assert(a + b =~= a);
        assert(numeral_value(a) * pow10(b.len()) == numeral_value(a)) by (nonlinear_arith)
            requires
                pow10(b.len()) == 1,
        ;
    } else {
        let front = b.drop_last();
        lemma_numeral_concat(a, front);
        assert((a + b).drop_last() =~= a + front);
        assert((a + b).last() == b.last());
        let va = numeral_value(a);
        let p = pow10(front.len());
        assert(pow10(b.len()) == 10 * p);
        assert(10 * (va * p + numeral_value(front)) == va * (10 * p) + 10 * numeral_value(front))
            by (nonlinear_arith);
    }
}

/// A single digit denotes itself.
pub proof fn lemma_numeral_single(d: u8)
    ensures
        numeral_value(seq![d]) == d,
{
    assert(seq![d].drop_last() =~= Seq::<u8>::empty());
    reveal_with_fuel(numeral_value, 2);
}

/// A numeral of `n` digits is below `10^n`.
pub proof fn lemma_numeral_bound(digits: Seq<u8>)
    requires
        digits_in_range(digits),
    ensures
        numeral_value(digits) < pow10(digits.len()),
    decreases digits.len(),
{
    if digits.len() > 0 {
        let front = digits.drop_last();
        assert forall|i: int| 0 <= i < front.len() implies #[trigger] front[i] < 10 by {
            assert(front[i] == digits[i]);
        }
        lemma_numeral_bound(front);
    }
}

/// A numeral is zero exactly when all its digits are.
pub proof fn lemma_numeral_zero(digits: Seq<u8>)
    ensures
        numeral_value(digits) == 0 <==> forall|i: int|
            0 <= i < digits.len() ==> #[trigger] digits[i] == 0,
    decreases digits.len(),
{
    if digits.len() > 0 {
        let front = digits.drop_last();
        lemma_numeral_zero(front);
        if numeral_value(digits) == 0 {
            assert forall|i: int| 0 <= i < digits.len() implies #[trigger] digits[i] == 0 by {
                if i < front.len() {
                    assert(front[i] == digits[i]);
                }
            }
        }
        if forall|i: int| 0 <= i < digits.len() ==> #[trigger] digits[i] == 0 {
            assert forall|i: int| 0 <= i < front.len() implies #[trigger] front[i] == 0 by {
                assert(front[i] == digits[i]);
            }
            assert(digits.last() == digits[digits.len() - 1]);
        }
    }
}

/// Zeros in front of a numeral do not change what it denotes.
pub proof fn lemma_leading_zeros(digits: Seq<u8>, zeros: int)
    requires
        0 <= zeros <= digits.len(),
        forall|i: int| 0 <= i < zeros ==> #[trigger] digits[i] == 0,
    ensures
        numeral_value(digits) == numeral_value(digits.skip(zeros)),
{
    let front = digits.take(zeros);
    let back = digits.skip(zeros);
    assert(digits =~= front + back);
    lemma_numeral_concat(front, back);
    lemma_numeral_zero(front);
    assert(numeral_value(front) * pow10(back.len()) == 0) by (nonlinear_arith)
        requires
            numeral_value(front) == 0,
    ;
}

/// A numeral without a leading zero is the decimal notation of its value.
pub proof fn lemma_natural_text(digits: Seq<u8>)
    requires
        digits_in_range(digits),
        digits.len() >= 1,
        digits[0] != 0 || digits.len() == 1,
    ensures
        natural_text(numeral_value(digits)) == digit_chars(digits),
    decreases digits.len(),
{
    let front = digits.drop_last();
    if digits.len() == 1 {
        assert(front =~= Seq::<u8>::empty());
        assert(numeral_value(front) == 0);
        assert(natural_text(numeral_value(digits)) =~= digit_chars(digits));
    } else {
        assert(front[0] == digits[0]);
        assert forall|i: int| 0 <= i < front.len() implies #[trigger] front[i] < 10 by {
            assert(front[i] == digits[i]);
        }
        lemma_numeral_zero(front);
        lemma_natural_text(front);
        let v = numeral_value(digits);
        assert(v >= 10);
        assert(v / 10 == numeral_value(front));
        assert(v % 10 == digits.last());
        assert(natural_text(v) =~= digit_chars(digits));
    }
}

/// The digits of a numeral are its value written with leading zeros.
pub proof fn lemma_padded_text(digits: Seq<u8>)
    requires
        digits_in_range(digits),
    ensures
        padded_text(numeral_value(digits), digits.len()) == digit_chars(digits),
    decreases digits.len(),
{
    if digits.len() == 0 {
        assert(padded_text(numeral_value(digits), digits.len()) =~= digit_chars(digits));
    } else {
        let front = digits.drop_last();
        assert forall|i: int| 0 <= i < front.len() implies #[trigger] front[i] < 10 by {
            assert(front[i] == digits[i]);
        }
        lemma_padded_text(front);
        let v = numeral_value(digits);
        assert(v / 10 == numeral_value(front));
        assert(v % 10 == digits.last());
        assert(padded_text(v, digits.len()) =~= digit_chars(digits));
    }
}

/// The digits of a numeral up to its last digit that is not zero are its
/// value written as a fraction.
pub proof fn lemma_fraction_text(digits: Seq<u8>)
    requires
        digits_in_range(digits),
    ensures
        significant_length(digits) <= digits.len(),
        fraction_text(numeral_value(digits), digits.len()) == digit_chars(
            digits.take(significant_length(digits) as int),
        ),
    decreases digits.len(),
{
    if digits.len() == 0 {
        assert(fraction_text(numeral_value(digits), digits.len()) =~= digit_chars(
            digits.take(significant_length(digits) as int),
        ));
    } else {
        let front = digits.drop_last();
        assert forall|i: int| 0 <= i < front.len() implies #[trigger] front[i] < 10 by {
            assert(front[i] == digits[i]);
        }
        let v = numeral_value(digits);
        assert(v / 10 == numeral_value(front));
        assert(v % 10 == digits.last());
        if digits.last() == 0 {
            lemma_fraction_text(front);
            assert(digits.take(significant_length(digits) as int) =~= front.take(
                significant_length(front) as int,
            ));
        } else {
            lemma_padded_text(digits);
            assert(digits.take(digits.len() as int) =~= digits);
        }
    }
}

/// The position after the last digit that is not zero is the significant
/// length.
pub proof fn lemma_significant_length(digits: Seq<u8>, end: int)
    requires
        0 <= end <= digits.len(),
        forall|i: int| end <= i < digits.len() ==> #[trigger] digits[i] == 0,
        end > 0 ==> digits[end - 1] != 0,
    ensures
        significant_length(digits) == end,
    decreases digits.len(),
{
    if digits.len() > 0 && end < digits.len() {
        let front = digits.drop_last();
        assert(digits.last() == digits[digits.len() - 1]);
        assert forall|i: int| end <= i < front.len() implies #[trigger] front[i] == 0 by {
            assert(front[i] == digits[i]);
        }
        if end > 0 {
            assert(front[end - 1] == digits[end - 1]);
        }
        lemma_significant_length(front, end);
    }
}

/// The whole part of a number is written from its first digit that is not
/// zero, or as a single zero where it has none.
pub proof fn lemma_whole_text(head: Seq<u8>, first: int)
    requires
        digits_in_range(head),
        0 <= first <= head.len(),
        forall|i: int| 0 <= i < first ==> #[trigger] head[i] == 0,
        first < head.len() ==> head[first] != 0,
    ensures
        natural_text(numeral_value(head)) == if first == head.len() {
            seq!['0']
        } else {
            digit_chars(head.skip(first))
        },
{
    lemma_leading_zeros(head, first);
    if first == head.len() {
        lemma_numeral_zero(head);
        assert(natural_text(0) =~= seq!['0']);
    } else {
        let shown = head.skip(first);
        assert forall|i: int| 0 <= i < shown.len() implies #[trigger] shown[i] < 10 by {
            assert(shown[i] == head[first + i]);
        }
        assert(shown[0] == head[first]);
        lemma_natural_text(shown);
    }
}

/// The fraction of a number is written up to its last digit that is not zero,
/// and is zero exactly where it has none.
pub proof fn lemma_part_text(tail: Seq<u8>, end: int)
    requires
        digits_in_range(tail),
        0 <= end <= tail.len(),
        forall|i: int| end <= i < tail.len() ==> #[trigger] tail[i] == 0,
        end > 0 ==> tail[end - 1] != 0,
    ensures
        (numeral_value(tail) == 0) == (end == 0),
        fraction_text(numeral_value(tail), tail.len()) == digit_chars(tail.take(end)),
{
    lemma_significant_length(tail, end);
    lemma_fraction_text(tail);
    lemma_numeral_zero(tail);
}

/// A number written from the digits that denote it: a `-` where it is
/// negative, the digits before the point from index `first` on, or a zero
/// where there are none, and, where `last` lies after the point, a point and
/// the digits after it up to index `last`.
pub open spec fn shortest_notation(
    negative: bool,
    digits: Seq<u8>,
    scale: nat,
    first: int,
    last: int,
) -> Seq<char> {
    let whole = digits.len() - scale;
    let sign = if negative {
        seq!['-']
    } else {
        Seq::empty()
    };
    let head = if first == whole {
        seq!['0']
    } else {
        digit_chars(digits.subrange(first, whole))
    };
    let tail = if last > whole {
        seq!['.'] + digit_chars(digits.subrange(whole, last))
    } else {
        Seq::empty()
    };
    sign + head + tail
}

/// Written from its first digit that is not zero to its last digit that is
/// not zero, a number has its shortest notation.
pub proof fn lemma_shortest_notation(
    negative: bool,
    digits: Seq<u8>,
    scale: nat,
    first: int,
    last: int,
)
    requires
        digits_in_range(digits),
        scale <= digits.len(),
        0 <= first <= digits.len() - scale <= last <= digits.len(),
        forall|i: int| 0 <= i < first ==> #[trigger] digits[i] == 0,
        first < digits.len() - scale ==> digits[first] != 0,
        forall|i: int| last <= i < digits.len() ==> #[trigger] digits[i] == 0,
        last > digits.len() - scale ==> digits[last - 1] != 0,
    ensures
        plain_text(negative, numeral_value(digits), scale) == shortest_notation(
            negative,
            digits,
            scale,
            first,
            last,
        ),
{
    let whole = digits.len() - scale;
    let head = digits.take(whole);
    let tail = digits.skip(whole);
    assert forall|i: int| 0 <= i < head.len() implies #[trigger] head[i] < 10 by {
        assert(head[i] == digits[i]);
    }
    assert forall|i: int| 0 <= i < tail.len() implies #[trigger] tail[i] < 10 by {
        assert(tail[i] == digits[whole + i]);
    }
    lemma_numeral_split(digits, scale);
    lemma_whole_text(head, first);
    assert forall|i: int| last - whole <= i < tail.len() implies #[trigger] tail[i] == 0 by {
        assert(tail[i] == digits[whole + i]);
    }
    if last > whole {
        assert(tail[last - whole - 1] == digits[last - 1]);
    }
    lemma_part_text(tail, last - whole);
    assert(head.skip(first) =~= digits.subrange(first, whole));
    assert(tail.take(last - whole) =~= digits.subrange(whole, last));
}

/// The digits before and after the point denote the whole part and the
/// fraction of the number.
pub proof fn lemma_numeral_split(digits: Seq<u8>, scale: nat)
    requires
        digits_in_range(digits),
        scale <= digits.len(),
    ensures
        numeral_value(digits) / pow10(scale) == numeral_value(digits.take(digits.len() - scale)),
        numeral_value(digits) % pow10(scale) == numeral_value(digits.skip(digits.len() - scale)),
{
    let front = digits.take(digits.len() - scale);
    let back = digits.skip(digits.len() - scale);
    assert(digits =~= front + back);
    lemma_numeral_concat(front, back);
    assert forall|i: int| 0 <= i < back.len() implies #[trigger] back[i] < 10 by {
        assert(back[i] == digits[digits.len() - scale + i]);
    }
    lemma_numeral_bound(back);
    lemma_pow10_positive(scale);
    vstd::arithmetic::div_mod::lemma_fundamental_div_mod_converse(
        numeral_value(digits) as int,
        pow10(scale) as int,
        numeral_value(front) as int,
        numeral_value(back) as int,
    );
}

/// The character of a digit is a digit character and stands for that digit.
pub proof fn lemma_digit_char(d: u8)
    requires
        d < 10,
    ensures
        is_digit(digit_char(d)),
        digit_value(digit_char(d)) == d,
{
}

/// Appending a digit to a numeral multiplies it by ten and adds the digit.
pub proof fn lemma_numeral_push(digits: Seq<u8>, d: u8)
    ensures
        numeral_value(digits.push(d)) == 10 * numeral_value(digits) + d,
{
    assert(digits.push(d).drop_last() =~= digits);
}

/// The decimal notation of a natural number has at least one character, all
/// of them digits, and denotes that number.
pub proof fn lemma_natural_text_denotes(n: nat)
    ensures
        natural_text(n).len() >= 1,
        all_digits(natural_text(n)),
        numeral_value(digit_values(natural_text(n))) == n,
    decreases n,
{
    if n < 10 {
        lemma_digit_char(n as u8);
        assert(digit_values(natural_text(n)) =~= seq![n as u8]);
        lemma_numeral_single(n as u8);
    } else {
        let front = natural_text(n / 10);
        let last = (n % 10) as u8;
        lemma_natural_text_denotes(n / 10);
        lemma_digit_char(last);
        assert(digit_values(natural_text(n)) =~= digit_values(front).push(last));
        lemma_numeral_push(digit_values(front), last);
        assert forall|i: int| 0 <= i < natural_text(n).len() implies is_digit(
            #[trigger] natural_text(n)[i],
        ) by {
            if i < front.len() {
                assert(natural_text(n)[i] == front[i]);
            }
        }
    }
}

/// The remainder by ten times `q` is ten times the remainder of the tenth by
/// `q`, plus the last digit.
proof fn lemma_mod_tenfold(f: nat, q: nat)
    requires
        q > 0,
    ensures
        f % (10 * q) == 10 * ((f / 10) % q) + f % 10,
{
    let tenth = f / 10;
    let r = 10 * (tenth % q) + f % 10;
    assert(tenth == q * (tenth / q) + tenth % q) by {
        vstd::arithmetic::div_mod::lemma_fundamental_div_mod(tenth as int, q as int);
    }
    let a = tenth / q;
    let b = tenth % q;
    let last = f % 10;
    assert(f == a * (10 * q) + r) by (nonlinear_arith)
        requires
            f == 10 * tenth + last,
            tenth == q * a + b,
            r == 10 * b + last,
    ;
    assert(0 <= b < q) by {
        vstd::arithmetic::div_mod::lemma_mod_bound(tenth as int, q as int);
    }
    vstd::arithmetic::div_mod::lemma_fundamental_div_mod_converse(
        f as int,
        (10 * q) as int,
        (tenth / q) as int,
        r as int,
    );
}

/// A number written with leading zeros in `places` digits has that many
/// characters, all of them digits, and denotes its last `places` digits.
pub proof fn lemma_padded_text_denotes(f: nat, places: nat)
    ensures
        padded_text(f, places).len() == places,
        all_digits(padded_text(f, places)),
        numeral_value(digit_values(padded_text(f, places))) == f % pow10(places),
    decreases places,
{
    if places == 0 {
        assert(digit_values(padded_text(f, places)) =~= Seq::<u8>::empty());
    } else {
        let front = padded_text(f / 10, (places - 1) as nat);
        let last = (f % 10) as u8;
        lemma_padded_text_denotes(f / 10, (places - 1) as nat);
        lemma_digit_char(last);
        assert(digit_values(padded_text(f, places)) =~= digit_values(front).push(last));
        lemma_numeral_push(digit_values(front), last);
        lemma_pow10_positive((places - 1) as nat);
        lemma_mod_tenfold(f, pow10((places - 1) as nat));
        assert forall|i: int| 0 <= i < padded_text(f, places).len() implies is_digit(
            #[trigger] padded_text(f, places)[i],
        ) by {
            if i < front.len() {
                assert(padded_text(f, places)[i] == front[i]);
            }
        }
    }
}

/// A fraction written without trailing zeros has at most `places` digits and
/// denotes the fraction: shifted back to `places` digits, it is `f`.
pub proof fn lemma_fraction_text_denotes(f: nat, places: nat)
    requires
        f < pow10(places),
    ensures
        fraction_text(f, places).len() <= places,
        all_digits(fraction_text(f, places)),
        numeral_value(digit_values(fraction_text(f, places))) * pow10(
            (places - fraction_text(f, places).len()) as nat,
        ) == f,
    decreases places,
{
    let shown = fraction_text(f, places);
    if places == 0 {
        assert(digit_values(shown) =~= Seq::<u8>::empty());
        assert(0 * pow10(0) == 0) by (nonlinear_arith);
    } else if f % 10 == 0 {
        lemma_fraction_text_denotes(f / 10, (places - 1) as nat);
        let value = numeral_value(digit_values(shown));
        let low = pow10((places - 1 - shown.len()) as nat);
        assert(pow10((places - shown.len()) as nat) == 10 * low);
        assert(value * (10 * low) == 10 * (value * low)) by (nonlinear_arith);
    } else {
        lemma_padded_text_denotes(f, places);
        vstd::arithmetic::div_mod::lemma_small_mod(f, pow10(places));
        assert(f * pow10(0) == f) by (nonlinear_arith)
            requires
                pow10(0) == 1,
        ;
    }
}

/// The digits of a text put after those of another are the digits of both.
pub proof fn lemma_digit_values_concat(a: Seq<char>, b: Seq<char>)
    ensures
        digit_values(a + b) == digit_values(a) + digit_values(b),
{
    assert(digit_values(a + b) =~= digit_values(a) + digit_values(b));
}

/// A number whose scale lies within the limit of added zeros, on either
/// side, is written out.
pub proof fn lemma_small_scale_is_writable(n: Numeral)
    requires
        -PADDING_LIMIT <= n.scale <= PADDING_LIMIT,
    ensures
        n.writable(),
{
}

/// Plain notation is a decimal text without an exponent, and it denotes the
/// number that was written: the same sign, and a mantissa that comes to the
/// one written when it is shifted back to the same number of places.
pub proof fn lemma_plain_round_trip(negative: bool, mantissa: nat, places: nat)
    ensures
        numeral_of(plain_text(negative, mantissa, places)) matches Some(read) && read.negative
            == negative && 0 <= read.scale <= places && read.mantissa * pow10(
            (places - read.scale) as nat,
        ) == mantissa,
{
    let base = pow10(places);
    lemma_pow10_positive(places);
    let whole = mantissa / base;
    let part = mantissa % base;
    assert(mantissa == base * whole + part && part < base) by {
        vstd::arithmetic::div_mod::lemma_fundamental_div_mod(mantissa as int, base as int);
        vstd::arithmetic::div_mod::lemma_mod_bound(mantissa as int, base as int);
    }
    let head = natural_text(whole);
    let shown = if part == 0 {
        Seq::<char>::empty()
    } else {
        fraction_text(part, places)
    };
    let fraction = if part == 0 {
        Seq::<char>::empty()
    } else {
        seq!['.'] + shown
    };
    let sign = if negative {
        seq!['-']
    } else {
        Seq::<char>::empty()
    };
    let text = plain_text(negative, mantissa, places);
    assert(text == sign + head + fraction);
    lemma_natural_text_denotes(whole);
    if part != 0 {
        lemma_fraction_text_denotes(part, places);
    }
    assert(all_digits(shown));
    let body = head + fraction;
    assert(is_digit(head[0]));
    if negative {
        assert(text[0] == '-');
        assert(unsigned_part(text) =~= body);
    } else {
        assert(text =~= body);
        assert(text[0] == head[0]);
        assert(!has_sign(text));
    }
    assert forall|j: int| 0 <= j < body.len() implies !is_exponent_mark(#[trigger] body[j]) by {
        if j < head.len() {
            assert(is_digit(head[j]));
        } else if j > head.len() {
            assert(is_digit(shown[j - head.len() - 1]));
        }
    }
    lemma_exponent_position_at(body, body.len() as int);
    assert(significand(body) =~= body);
    assert(digit_values(unsigned_part(exponent_part(body))) =~= Seq::<u8>::empty());
    assert(exponent_of(exponent_part(body)) == 0);
    assert forall|j: int| 0 <= j < head.len() implies #[trigger] body[j] != '.' by {
        assert(is_digit(head[j]));
    }
    lemma_point_position_at(body, head.len() as int);
    assert(integer_digits(body) =~= head);
    assert(fraction_digits(body) =~= shown);
    assert(is_decimal_text(text));
    let read = numeral_of(text)->0;
    assert(read.negative == negative);
    assert(read.scale == shown.len());
    lemma_digit_values_concat(head, shown);
    lemma_numeral_concat(digit_values(head), digit_values(shown));
    let value = numeral_value(digit_values(shown));
    let up = pow10(shown.len());
    let down = pow10((places - shown.len()) as nat);
    assert(read.mantissa == whole * up + value);
    assert(value * down == part) by {
        if part == 0 {
            assert(digit_values(shown) =~= Seq::<u8>::empty());
            assert(0 * down == 0) by (nonlinear_arith);
        }
    }
    lemma_pow10_adds((places - shown.len()) as nat, shown.len());
    assert(base == down * up);
    assert((whole * up + value) * down == base * whole + part) by (nonlinear_arith)
        requires
            base == down * up,
            value * down == part,
    ;
}

/// Writing a number and reading it back gives the same number: the plain
/// notation of a numeral is a decimal text, and it denotes a numeral of the
/// same sign and value.
pub proof fn lemma_text_round_trip(n: Numeral)
    ensures
        numeral_of(numeral_text(n)) matches Some(read) && read.same_value(n),
{
    if n.scale >= 0 {
        lemma_plain_round_trip(n.negative, n.mantissa, n.scale as nat);
        let read = numeral_of(numeral_text(n))->0;
        assert(n.mantissa * pow10(0) == n.mantissa) by (nonlinear_arith)
            requires
                pow10(0) == 1,
        ;
    } else {
        let raised = n.mantissa * pow10((-n.scale) as nat);
        lemma_plain_round_trip(n.negative, raised, 0);
        let read = numeral_of(numeral_text(n))->0;
        assert(read.mantissa * pow10(0) == read.mantissa) by (nonlinear_arith)
            requires
                pow10(0) == 1,
        ;
    }
}

} // verus!
