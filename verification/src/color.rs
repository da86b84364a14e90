//! The tint colour, written as four decimal channels with commas between
//! them: `R,G,B,A`.

use vstd::prelude::*;
use vstd::string::*;

verus! {

/// The byte that parts the channels, a comma.
pub const COMMA: u8 = 44;

/// The byte that may stand before a channel's digits, a plus sign.
pub const PLUS: u8 = 43;

/// The byte of the digit zero.
pub const ZERO: u8 = 48;

/// The byte of the digit nine.
pub const NINE: u8 = 57;

/// Why a text is no colour.
#[derive(Clone, Copy, Debug, PartialEq, Eq)]
pub enum ColorError {
    /// The text does not have four parts.
    WrongPartCount,
    /// The part with this index, counted from 0, is no number from 0 to 255;
    /// the parts before it are.
    BadChannel(usize),
}

/// The number of commas in `bytes`.
pub open spec fn count_commas(bytes: Seq<u8>) -> int
    decreases bytes.len(),
{
    if bytes.len() == 0 {
        0
    } else {
        count_commas(bytes.drop_last()) + if bytes.last() == COMMA {
            1int
        } else {
            0int
        }
    }
}

/// The index of the first comma at or after `start`, or the length of
/// `bytes` where there is none.
pub open spec fn part_end(bytes: Seq<u8>, start: int) -> int
    decreases bytes.len() - start,
{
    if 0 <= start < bytes.len() && bytes[start] != COMMA {
        part_end(bytes, start + 1)
    } else {
        start
    }
}

/// The index at which part `k` starts: part 0 at 0, each other part after
/// the comma that ends the part before it.
pub open spec fn part_start(bytes: Seq<u8>, k: nat) -> int
    decreases k,
{
    if k == 0 {
        0
    } else {
        part_end(bytes, part_start(bytes, (k - 1) as nat)) + 1
    }
}

/// Part `k` of `bytes`: the bytes between two commas, or between a comma and
/// an end of `bytes`.
pub open spec fn part(bytes: Seq<u8>, k: nat) -> Seq<u8> {
    bytes.subrange(part_start(bytes, k), part_end(bytes, part_start(bytes, k)))
}

/// Whether every byte is a decimal digit.
pub open spec fn all_digits(digits: Seq<u8>) -> bool {
    forall|i: int| 0 <= i < digits.len() ==> ZERO <= #[trigger] digits[i] <= NINE
}

/// The number that decimal digits write.
pub open spec fn digits_value(digits: Seq<u8>) -> int
    decreases digits.len(),
{
    if digits.len() == 0 {
        0
    } else {
        digits_value(digits.drop_last()) * 10 + (digits.last() - ZERO)
    }
}

/// The digits of a part: the part without a plus sign at its start.
pub open spec fn unsigned_digits(part: Seq<u8>) -> Seq<u8> {
    if part.len() > 0 && part[0] == PLUS {
        part.subrange(1, part.len() as int)
    } else {
        part
    }
}

/// The channel that a part writes: at least one decimal digit, with or
/// without a plus sign before them, of a value up to 255.
pub open spec fn channel_value(part: Seq<u8>) -> Option<u8> {
    let digits = unsigned_digits(part);
    if digits.len() > 0 && all_digits(digits) && digits_value(digits) <= 255 {
        Some(digits_value(digits) as u8)
    } else {
        None
    }
}

/// The colour that `bytes` write, or why they write none.
pub open spec fn color_of(bytes: Seq<u8>) -> Result<Seq<u8>, ColorError> {
    if count_commas(bytes) != 3 {
        Err(ColorError::WrongPartCount)
    } else if channel_value(part(bytes, 0)) is None {
        Err(ColorError::BadChannel(0))
    } else if channel_value(part(bytes, 1)) is None {
        Err(ColorError::BadChannel(1))
    } else if channel_value(part(bytes, 2)) is None {
        Err(ColorError::BadChannel(2))
    } else if channel_value(part(bytes, 3)) is None {
        Err(ColorError::BadChannel(3))
    } else {
        Ok(
            seq![
                channel_value(part(bytes, 0))->Some_0,
                channel_value(part(bytes, 1))->Some_0,
                channel_value(part(bytes, 2))->Some_0,
                channel_value(part(bytes, 3))->Some_0,
            ],
        )
    }
}

/// Reads the channel written by `bytes[start..end]`.
pub fn parse_channel(bytes: &[u8], start: usize, end: usize) -> (value: Option<u8>)
    requires
        start <= end <= bytes@.len(),
    ensures
        value == channel_value(bytes@.subrange(start as int, end as int)),
{
    let ghost whole = bytes@.subrange(start as int, end as int);
    let first: usize = if start < end && bytes[start] == PLUS {
        start + 1
    } else {
        start
    };
    let ghost digits = unsigned_digits(whole);
    assert(digits =~= bytes@.subrange(first as int, end as int));
    if first == end {
        return None;
    }
    let mut value: u32 = 0;
    let mut over: bool = false;
    let mut i: usize = first;
    assert(digits.take(0).len() == 0);
    while i < end
        invariant
            first <= i <= end <= bytes@.len(),
            start <= first,
            digits == bytes@.subrange(first as int, end as int),
            digits == unsigned_digits(bytes@.subrange(start as int, end as int)),
            all_digits(digits.take(i - first)),
            over ==> digits_value(digits.take(i - first)) > 255,
            !over ==> value == digits_value(digits.take(i - first)),
            value <= 255,
        decreases end - i,
    {
        let c: u8 = bytes[i];
        assert(digits[i - first] == c);
        if c < ZERO || c > NINE {
            assert(!(ZERO <= digits[i - first] <= NINE));
            assert(!all_digits(digits));
            return None;
        }
        let ghost next = digits.take(i - first + 1);
        assert(next.drop_last() == digits.take(i - first));
        assert(next.last() == c);
        assert forall|j: int| 0 <= j < next.len() implies ZERO <= #[trigger] next[j] <= NINE by {
            if j < i - first {
                assert(digits.take(i - first)[j] == next[j]);
            }
        }
        if !over {
            let wider: u32 = value * 10 + (c - ZERO) as u32;
            if wider > 255 {
                over = true;
            } else {
                value = wider;
            }
        }
        i = i + 1;
    }
    assert(digits.take(end - first) == digits);
    if over {
        None
    } else {
        Some(value as u8)
    }
}

/// Reads a colour written as `R,G,B,A`: four parts with commas between
/// them, each a number from 0 to 255 in decimal digits, with or without a
/// plus sign before them.
pub fn parse_color(s: &str) -> (color: Result<[u8; 4], ColorError>)
    ensures
        match color {
            Ok(channels) => color_of(s.spec_bytes()) == Ok::<Seq<u8>, ColorError>(channels@),
            Err(e) => color_of(s.spec_bytes()) == Err::<Seq<u8>, ColorError>(e),
        },
{
    let bytes = s.as_bytes();
    let len: usize = bytes.len();
    let mut commas: usize = 0;
    let mut ends: Vec<usize> = Vec::new();
    let mut start: usize = 0;
    let mut i: usize = 0;
    assert(bytes@.take(0).len() == 0);
    while i < len
        invariant
            i <= len == bytes@.len(),
            commas <= i,
            commas == count_commas(bytes@.take(i as int)),
            ends@.len() == if commas < 4 {
                commas as int
            } else {
                4
            },
            start <= i,
            start == part_start(bytes@, commas as nat),
            part_end(bytes@, start as int) == part_end(bytes@, i as int),
            forall|k: int|
                0 <= k < ends@.len() ==> part_start(bytes@, k as nat) <= #[trigger] ends@[k] < len
                    && ends@[k] == part_end(bytes@, part_start(bytes@, k as nat)),
        decreases len - i,
    {
        assert(bytes@.take(i + 1).drop_last() == bytes@.take(i as int));
        assert(bytes@.take(i + 1).last() == bytes@[i as int]);
        if bytes[i] == COMMA {
            if commas < 4 {
                ends.push(i);
            }
            commas = commas + 1;
            start = i + 1;
        }
        i = i + 1;
    }
    assert(bytes@.take(len as int) == bytes@);
    if commas != 3 {
        return Err(ColorError::WrongPartCount);
    }
    let end0: usize = ends[0];
    let end1: usize = ends[1];
    let end2: usize = ends[2];
    assert(part_start(bytes@, 0) == 0);
    assert(part_start(bytes@, 1) == end0 + 1);
    assert(part_start(bytes@, 2) == end1 + 1);
    assert(part_start(bytes@, 3) == end2 + 1);
    assert(start == end2 + 1);
    assert(part_end(bytes@, start as int) == len);
    let red = match parse_channel(bytes, 0, end0) {
        Some(v) => v,
        None => {
            return Err(ColorError::BadChannel(0));
        },
    };
    let green = match parse_channel(bytes, end0 + 1, end1) {
        Some(v) => v,
        None => {
            return Err(ColorError::BadChannel(1));
        },
    };
    let blue = match parse_channel(bytes, end1 + 1, end2) {
        Some(v) => v,
        None => {
            return Err(ColorError::BadChannel(2));
        },
    };
    let alpha = match parse_channel(bytes, end2 + 1, len) {
        Some(v) => v,
        None => {
            return Err(ColorError::BadChannel(3));
        },
    };
    let channels: [u8; 4] = [red, green, blue, alpha];
    assert(channels@ =~= seq![red, green, blue, alpha]);
    Ok(channels)
}

} // verus!
