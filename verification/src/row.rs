//! One record of the payload, read as a price observation.
//!
//! A record has three fields: the sample's time in seconds from the epoch,
//! the same time written for people (not read), and the price.

use crate::decimal::{deserialize_decimal, is_digit, normalized, DecimalValue, Price};
use crate::error::MalformedRow;
use crate::time::{is_instant, Instant, MIN_EPOCH_SECONDS};
use vstd::prelude::*;
use vstd::string::*;

verus! {

/// A price sampled at a point in time, as plain numbers.
pub struct Observation {
    pub at: int,
    pub price: DecimalValue,
}

/// A price sampled at a point in time.
#[derive(Clone, Copy, Debug, PartialEq, Eq)]
pub struct PriceObservation {
    pub timestamp: Instant,
    pub price: Price,
}

impl View for PriceObservation {
    type V = Observation;

    open spec fn view(&self) -> Observation {
        Observation { at: self.timestamp@, price: self.price@ }
    }
}

/// The number that a run of decimal digits denotes; 0 for the empty run.
pub open spec fn digits_value(digits: Seq<char>) -> int
    decreases digits.len(),
{
    if digits.len() == 0 {
        0
    } else {
        10 * digits_value(digits.drop_last()) + (digits.last() as int - '0' as int)
    }
}

/// Whether every character of `s` is a decimal digit.
pub open spec fn all_digits(s: Seq<char>) -> bool {
    forall|i: int| 0 <= i < s.len() ==> is_digit(#[trigger] s[i])
}

/// How many characters of `text` are its sign: one if it starts with `+` or
/// `-`, else none.
pub open spec fn sign_len(text: Seq<char>) -> int {
    if text.len() > 0 && (text[0] == '-' || text[0] == '+') {
        1
    } else {
        0
    }
}

/// The integer that `text` denotes: an optional sign and then one or more
/// decimal digits, nothing before, between or after them.
pub open spec fn integer_literal(text: Seq<char>) -> Option<int> {
    let digits = text.subrange(sign_len(text), text.len() as int);
    if digits.len() == 0 || !all_digits(digits) {
        None
    } else if text[0] == '-' {
        Some(-digits_value(digits))
    } else {
        Some(digits_value(digits))
    }
}

/// The calendar instant that a timestamp field names, in seconds from the
/// epoch.
pub open spec fn epoch_seconds_of(text: Seq<char>) -> Option<int> {
    match integer_literal(text) {
        Some(secs) => if is_instant(secs) {
            Some(secs)
        } else {
            None
        },
        None => None,
    }
}

/// The text of each field of a record.
pub open spec fn field_texts(record: Seq<String>) -> Seq<Seq<char>> {
    record.map_values(|field: String| field@)
}

/// What a record's fields are read as: the observation, or the first fault
/// found, looking at the field count, then the timestamp, then the price.
pub open spec fn parsed_row(fields: Seq<Seq<char>>) -> Result<Observation, MalformedRow> {
    if fields.len() != 3 {
        Err(MalformedRow::FieldCount)
    } else if epoch_seconds_of(fields[0]) is None {
        Err(MalformedRow::Timestamp)
    } else if normalized(fields[2]) is None {
        Err(MalformedRow::Price)
    } else {
        Ok(Observation { at: epoch_seconds_of(fields[0])->0, price: normalized(fields[2])->0 })
    }
}

proof fn lemma_digits_value_extends(digits: Seq<char>, k: int)
    requires
        all_digits(digits),
        0 <= k <= digits.len(),
    ensures
        0 <= digits_value(digits.subrange(0, k)) <= digits_value(digits),
    decreases digits.len() - k,
{
    let prefix = digits.subrange(0, k);
    if k == digits.len() {
        assert(prefix =~= digits);
        lemma_digits_value_nonnegative(digits);
    } else {
        let longer = digits.subrange(0, k + 1);
        assert(longer.drop_last() =~= prefix);
        assert(is_digit(digits[k]));
        assert(longer.last() == digits[k]);
        lemma_digits_value_extends(digits, k + 1);
        assert(all_digits(prefix)) by {
            assert forall|i: int| 0 <= i < prefix.len() implies is_digit(#[trigger] prefix[i]) by {
                assert(prefix[i] == digits[i]);
            }
        }
        lemma_digits_value_nonnegative(prefix);
    }
}

proof fn lemma_digits_value_nonnegative(digits: Seq<char>)
    requires
        all_digits(digits),
    ensures
        0 <= digits_value(digits),
    decreases digits.len(),
{
    if digits.len() > 0 {
        let front = digits.drop_last();
        assert forall|i: int| 0 <= i < front.len() implies is_digit(#[trigger] front[i]) by {
            assert(front[i] == digits[i]);
        }
        lemma_digits_value_nonnegative(front);
        assert(is_digit(digits[digits.len() - 1]));
    }
}

/// Reads a timestamp field: an integer count of seconds from the epoch that
/// names a calendar instant.
pub fn parse_epoch_seconds(text: &str) -> (r: Option<Instant>)
    ensures
        match r {
            Some(t) => epoch_seconds_of(text@) == Some(t@),
            None => epoch_seconds_of(text@) is None,
        },
{
    broadcast use is_ascii_spec_bytes;

    let ghost whole = text@;
    if !text.is_ascii() {
        proof {
            let i = choose|i: int| 0 <= i < whole.len() && !('\0' <= #[trigger] whole[i] <= '\u{7f}');
            let from = sign_len(whole);
            let digits = whole.subrange(from, whole.len() as int);
            if i >= from {
                assert(digits[i - from] == whole[i]);
                assert(!is_digit(digits[i - from]));
            }
        }
        return None;
    }
    let n: usize = text.unicode_len();
    if n == 0 {
        return None;
    }
    let first: u8 = text.get_ascii(0);
    assert(whole[0] as u8 == first);
    assert('\0' <= whole[0] <= '\u{7f}');
    let negative: bool = first == 45u8;
    let start: usize = if first == 45u8 || first == 43u8 {
        1
    } else {
        0
    };
    assert(start == sign_len(whole));
    assert(negative == (whole[0] == '-'));
    if start == n {
        return None;
    }
    let ghost digits = whole.subrange(start as int, n as int);
    let mut magnitude: i64 = 0;
    let mut i: usize = start;
    while i < n
        invariant
            start <= i <= n,
            n == whole.len(),
            whole == text@,
            start == sign_len(whole),
            is_ascii(text),
            digits == whole.subrange(start as int, n as int),
            all_digits(digits.subrange(0, i - start)),
            magnitude == digits_value(digits.subrange(0, i - start)),
            0 <= magnitude <= -MIN_EPOCH_SECONDS,
        decreases n - i,
    {
        let b: u8 = text.get_ascii(i);
        let ghost c = whole[i as int];
        assert(c as u8 == b);
        assert('\0' <= c <= '\u{7f}');
        assert(digits[i - start] == c);
        if b < 48u8 || b > 57u8 {
            assert(!is_digit(digits[i - start]));
            return None;
        }
        let ghost shorter = digits.subrange(0, i - start);
        let ghost longer = digits.subrange(0, i - start + 1);
        proof {
            assert(longer.drop_last() =~= shorter);
            assert(longer.last() == c);
            assert forall|k: int| 0 <= k < longer.len() implies is_digit(#[trigger] longer[k]) by {
                if k < shorter.len() {
                    assert(longer[k] == shorter[k]);
                }
            }
        }
        let digit: i64 = (b - 48u8) as i64;
        magnitude = magnitude * 10 + digit;
        if magnitude > -MIN_EPOCH_SECONDS {
            proof {
                if all_digits(digits) {
                    lemma_digits_value_extends(digits, i - start + 1);
                }
            }
            return None;
        }
        i = i + 1;
    }
    assert(digits.subrange(0, n - start) =~= digits);
    let secs: i64 = if negative {
        -magnitude
    } else {
        magnitude
    };
    Instant::from_epoch_seconds(secs)
}

/// Reads one record as a price observation. The record must have exactly
/// three fields; the first must be a timestamp and the third a price.
pub fn parse(record: &Vec<String>) -> (r: Result<PriceObservation, MalformedRow>)
    ensures
        match r {
            Ok(obs) => parsed_row(field_texts(record@)) == Ok::<Observation, MalformedRow>(obs@),
            Err(fault) => parsed_row(field_texts(record@)) == Err::<Observation, MalformedRow>(
                fault,
            ),
        },
{
    if record.len() != 3 {
        return Err(MalformedRow::FieldCount);
    }
    let ghost fields = field_texts(record@);
    assert(fields[0] == record@[0]@);
    assert(fields[2] == record@[2]@);
    let timestamp = match parse_epoch_seconds(record[0].as_str()) {
        Some(t) => t,
        None => {
            return Err(MalformedRow::Timestamp);
        },
    };
    let price = match deserialize_decimal(record[2].as_str()) {
        Ok(p) => p,
        Err(_) => {
            return Err(MalformedRow::Price);
        },
    };
    Ok(PriceObservation { timestamp, price })
}

} // verus!
