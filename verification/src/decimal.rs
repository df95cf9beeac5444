//! Exact decimal prices and how they are read from text.
//!
//! The source writes prices with a comma as the decimal separator. A price is
//! read by rewriting each comma to a full stop, turning away text that is
//! empty, holds anything but digits, signs and full stops, or holds more than
//! one full stop, and handing the rest to `rust_decimal`, which decides what
//! is a decimal literal and which number it denotes.

use crate::error::MalformedNumber;
use std::str::FromStr;
use vstd::prelude::*;
use vstd::string::*;

verus! {

/// The largest scale of a price: the number of digits after the separator.
pub const MAX_SCALE: u32 = 28;

/// The largest magnitude of a price's mantissa: 96 bits.
pub const MAX_MANTISSA: i128 = 79_228_162_514_264_337_593_543_950_335;

/// The number `mantissa / 10^scale`.
pub struct DecimalValue {
    pub mantissa: int,
    pub scale: int,
}

impl DecimalValue {
    /// Whether a [`Price`] can hold this number.
    pub open spec fn representable(self) -> bool {
        &&& -MAX_MANTISSA <= self.mantissa <= MAX_MANTISSA
        &&& 0 <= self.scale <= MAX_SCALE
    }
}

/// `rust_decimal::Error`: why a text is no number. It is passed on unread.
#[verifier::external_type_specification]
#[verifier::external_body]
pub struct ExDecimalError(rust_decimal::Error);

/// What `rust_decimal` reads from `text`: the mantissa and the scale of the
/// number, or `None` where it takes the text for no number.
pub uninterp spec fn decimal_literal(text: Seq<char>) -> Option<(int, int)>;

/// The number that `text` denotes, if it is a decimal literal.
pub open spec fn decimal_value(text: Seq<char>) -> Option<DecimalValue> {
    match decimal_literal(text) {
        Some((mantissa, scale)) => Some(DecimalValue { mantissa, scale }),
        None => None,
    }
}

/// `raw` with each comma rewritten to a full stop.
pub open spec fn with_dot_separator(raw: Seq<char>) -> Seq<char> {
    raw.map_values(|c: char| if c == ',' { '.' } else { c })
}

/// Whether `c` is one of the ten decimal digits.
pub open spec fn is_digit(c: char) -> bool {
    '0' <= c <= '9'
}

/// Whether `c` may stand in a decimal number: a digit, a sign or the full
/// stop.
pub open spec fn is_numeric(c: char) -> bool {
    is_digit(c) || c == '.' || c == '-' || c == '+'
}

/// Whether `text` can be a decimal number at all: it is not empty, holds
/// nothing but digits, signs and the full stop, and has the full stop at
/// most once.
pub open spec fn is_numeric_text(text: Seq<char>) -> bool {
    &&& text.len() > 0
    &&& forall|i: int| 0 <= i < text.len() ==> is_numeric(#[trigger] text[i])
    &&& forall|i: int, j: int|
        0 <= i < j < text.len() ==> !(#[trigger] text[i] == '.' && #[trigger] text[j] == '.')
}

/// The number that a price field denotes, whichever separator it uses:
/// with commas rewritten, the field must be numeric text, and `rust_decimal`
/// must read it as a number.
pub open spec fn normalized(raw: Seq<char>) -> Option<DecimalValue> {
    let text = with_dot_separator(raw);
    if is_numeric_text(text) {
        decimal_value(text)
    } else {
        None
    }
}

/// Calls `<rust_decimal::Decimal as FromStr>::from_str` and takes the
/// mantissa and the scale of the number it returns. The contract claims that
/// the outcome depends on the text alone, and that the mantissa fits in 96
/// bits with a scale of at most 28, as the crate documents of every
/// `Decimal`.
#[verifier::external_body]
fn parse_decimal(text: &str) -> (r: Result<Price, rust_decimal::Error>)
    ensures
        r is Ok <==> decimal_literal(text@) is Some,
        r matches Ok(p) ==> decimal_value(text@) == Some(p@) && p@.representable(),
{
    match rust_decimal::Decimal::from_str(text) {
        Ok(d) => Ok(Price { mantissa: d.mantissa(), scale: d.scale() }),
        Err(e) => Err(e),
    }
}

/// Calls `str::replace` with a character as the pattern. The contract claims
/// that each occurrence of `from` becomes `to` and every other character
/// stays where it is.
#[verifier::external_body]
fn replace_char(text: &str, from: char, to: char) -> (r: String)
    ensures
        r@ == text@.map_values(|c: char| if c == from { to } else { c }),
{
    let mut buf = [0u8; 4];
    text.replace(from, to.encode_utf8(&mut buf))
}

/// An exact decimal number: `mantissa / 10^scale`.
#[derive(Clone, Copy, Debug, PartialEq, Eq, Hash)]
pub struct Price {
    mantissa: i128,
    scale: u32,
}

impl View for Price {
    type V = DecimalValue;

    closed spec fn view(&self) -> DecimalValue {
        DecimalValue { mantissa: self.mantissa as int, scale: self.scale as int }
    }
}

impl Price {
    #[verifier::type_invariant]
    spec fn finite(self) -> bool {
        self@.representable()
    }

    /// The price `mantissa / 10^scale`, if it can be held.
    pub fn new(mantissa: i128, scale: u32) -> (r: Option<Price>)
        ensures
            r is Some <==> (DecimalValue { mantissa: mantissa as int, scale: scale as int })
                .representable(),
            r matches Some(p) ==> p@ == (DecimalValue {
                mantissa: mantissa as int,
                scale: scale as int,
            }),
    {
        if -MAX_MANTISSA <= mantissa && mantissa <= MAX_MANTISSA && scale <= MAX_SCALE {
            Some(Price { mantissa, scale })
        } else {
            None
        }
    }

    /// The digits of the price as an integer.
    pub fn mantissa(&self) -> (m: i128)
        ensures
            m == self@.mantissa,
            -MAX_MANTISSA <= m <= MAX_MANTISSA,
    {
        proof {
            use_type_invariant(self);
        }
        self.mantissa
    }

    /// How many of the digits stand after the separator.
    pub fn scale(&self) -> (s: u32)
        ensures
            s == self@.scale,
            s <= MAX_SCALE,
    {
        proof {
            use_type_invariant(self);
        }
        self.scale
    }
}

/// Tells whether `text` is numeric text.
pub fn check_numeric_text(text: &str) -> (ok: bool)
    ensures
        ok == is_numeric_text(text@),
{
    broadcast use is_ascii_spec_bytes;

    let ghost whole = text@;
    if !text.is_ascii() {
        proof {
            let i = choose|i: int|
                0 <= i < whole.len() && !('\0' <= #[trigger] whole[i] <= '\u{7f}');
            assert(!is_numeric(whole[i]));
        }
        return false;
    }
    let n: usize = text.unicode_len();
    if n == 0 {
        return false;
    }
    let mut seen_stop: bool = false;
    let ghost mut stop_at: int = 0;
    let mut i: usize = 0;
    while i < n
        invariant
            i <= n,
            n == whole.len(),
            whole == text@,
            is_ascii(text),
            forall|k: int| 0 <= k < i ==> is_numeric(#[trigger] whole[k]),
            seen_stop ==> 0 <= stop_at < i && whole[stop_at] == '.',
            !seen_stop ==> forall|k: int| 0 <= k < i ==> #[trigger] whole[k] != '.',
            forall|a: int, b: int|
                0 <= a < b < i ==> !(#[trigger] whole[a] == '.' && #[trigger] whole[b] == '.'),
        decreases n - i,
    {
        let b: u8 = text.get_ascii(i);
        let ghost c = whole[i as int];
        assert(c as u8 == b);
        assert('\0' <= c <= '\u{7f}');
        if b == 46u8 {
            if seen_stop {
                assert(whole[stop_at] == '.' && whole[i as int] == '.');
                return false;
            }
            seen_stop = true;
            proof {
                stop_at = i as int;
            }
        } else if !((48u8 <= b && b <= 57u8) || b == 45u8 || b == 43u8) {
            assert(!is_numeric(whole[i as int]));
            return false;
        }
        i = i + 1;
    }
    true
}

/// Reads a price field. The field may write its fraction after a comma or
/// after a full stop. It is malformed if it is empty, holds anything but
/// digits, signs and separators, holds more than one separator, or is
/// otherwise no decimal literal.
pub fn deserialize_decimal(raw: &str) -> (r: Result<Price, MalformedNumber>)
    ensures
        match r {
            Ok(p) => normalized(raw@) == Some(p@),
            Err(_) => normalized(raw@) is None,
        },
{
    let text = replace_char(raw, ',', '.');
    if !check_numeric_text(text.as_str()) {
        return Err(MalformedNumber);
    }
    match parse_decimal(text.as_str()) {
        Ok(p) => Ok(p),
        Err(_) => Err(MalformedNumber),
    }
}

/// Two fields that differ only in which separator they use denote the same
/// number, or are both malformed.
pub proof fn lemma_separator_is_immaterial(a: Seq<char>, b: Seq<char>)
    requires
        with_dot_separator(a) == with_dot_separator(b),
    ensures
        normalized(a) == normalized(b),
{
}

/// A field with two separators, of either kind, is malformed.
pub proof fn lemma_two_separators_are_malformed(raw: Seq<char>, i: int, j: int)
    requires
        0 <= i < j < raw.len(),
        raw[i] == ',' || raw[i] == '.',
        raw[j] == ',' || raw[j] == '.',
    ensures
        normalized(raw) is None,
{
    let text = with_dot_separator(raw);
    assert(text[i] == '.' && text[j] == '.');
}

/// An empty field is malformed, and so is a field that holds a character
/// other than a digit, a sign or a separator.
pub proof fn lemma_non_numeric_is_malformed(raw: Seq<char>)
    requires
        raw.len() == 0 || exists|i: int|
            0 <= i < raw.len() && !is_numeric(#[trigger] raw[i]) && raw[i] != ',',
    ensures
        normalized(raw) is None,
{
    if raw.len() > 0 {
        let i = choose|i: int| 0 <= i < raw.len() && !is_numeric(#[trigger] raw[i]) && raw[i] != ',';
        assert(with_dot_separator(raw)[i] == raw[i]);
    }
}

} // verus!
