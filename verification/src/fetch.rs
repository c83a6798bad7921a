//! Limits of a fetch, and the short notations in which they are given:
//! sizes such as `10MB` and durations such as `15s`.

use crate::text::chars_of;
use crate::text::copy_range;
use crate::text::is_ascii_letter;
use crate::text::is_digit;
use crate::text::is_letter;
use crate::text::string_of;
use crate::text::trim;
use crate::text::trimmed;
use std::time::Duration;
use vstd::prelude::*;

verus! {

/// The `Duration` that `Duration::from_secs` makes of a number of seconds.
pub uninterp spec fn duration_of_secs(secs: u64) -> Duration;

/// `Duration::from_secs`: a duration of `secs` whole seconds.
#[verifier::external_body]
fn duration_from_secs(secs: u64) -> (r: Duration)
    ensures
        r == duration_of_secs(secs),
{
    Duration::from_secs(secs)
}

/// The limits of one fetch.
pub struct FetchOptions {
    pub timeout: Duration,
    pub max_bytes: usize,
    pub user_agent: String,
}

impl Default for FetchOptions {
    /// 15 seconds, 10 MiB, and the tool's own user agent.
    fn default() -> (r: FetchOptions)
        ensures
            r.timeout == duration_of_secs(15),
            r.max_bytes == 10 * 1024 * 1024,
            r.user_agent@ == "web-get/0.1"@,
    {
        FetchOptions {
            timeout: duration_from_secs(15),
            max_bytes: 10 * 1024 * 1024,
            user_agent: "web-get/0.1".to_owned(),
        }
    }
}

/// Why a size or a duration was refused.
#[derive(Debug)]
pub enum LimitError {
    /// What stands before the unit is not a decimal number of the range.
    InvalidNumber { text: String },
    /// The unit is not one that the notation knows.
    UnknownUnit { unit: String },
    /// The number times its unit is beyond the range.
    Overflow,
}

/// The mathematical value of a `LimitError`.
pub ghost enum LimitErrorModel {
    InvalidNumber { text: Seq<char> },
    UnknownUnit { unit: Seq<char> },
    Overflow,
}

impl View for LimitError {
    type V = LimitErrorModel;

    open spec fn view(&self) -> LimitErrorModel {
        match self {
            LimitError::InvalidNumber { text } => LimitErrorModel::InvalidNumber { text: text@ },
            LimitError::UnknownUnit { unit } => LimitErrorModel::UnknownUnit { unit: unit@ },
            LimitError::Overflow => LimitErrorModel::Overflow,
        }
    }
}

/// The upper-case form of an ASCII letter; any other character is itself.
pub open spec fn upper(c: char) -> char {
    if 'a' <= c <= 'z' {
        ((c as u8) - 32) as char
    } else {
        c
    }
}

/// The lower-case form of an ASCII letter; any other character is itself.
pub open spec fn lower(c: char) -> char {
    if 'A' <= c <= 'Z' {
        ((c as u8) + 32) as char
    } else {
        c
    }
}

/// The index of the first ASCII letter at or after `pos`, or the length.
pub open spec fn first_letter(s: Seq<char>, pos: int) -> int
    decreases s.len() - pos,
{
    if 0 <= pos < s.len() && !is_letter(s[pos]) {
        first_letter(s, pos + 1)
    } else {
        pos
    }
}

/// Whether `s` consists of ASCII digits only.
pub open spec fn all_digits(s: Seq<char>) -> bool {
    forall|i: int| 0 <= i < s.len() ==> is_digit(#[trigger] s[i])
}

/// The number that a sequence of digits writes in base ten.
pub open spec fn digits_value(s: Seq<char>) -> nat
    decreases s.len(),
{
    if s.len() == 0 {
        0
    } else {
        digits_value(s.drop_last()) * 10 + (s.last() as u8 - 48) as nat
    }
}

/// The number that `s` writes: digits, which a `+` may precede. `None` where
/// `s` has no digit or anything but digits.
pub open spec fn number(s: Seq<char>) -> Option<nat> {
    let digits = if s.len() > 0 && s[0] == '+' {
        s.subrange(1, s.len() as int)
    } else {
        s
    };
    if digits.len() == 0 || !all_digits(digits) {
        None
    } else {
        Some(digits_value(digits))
    }
}

/// How many bytes a unit of size stands for.
pub open spec fn size_unit(unit: Seq<char>) -> Option<nat> {
    if unit == "B"@ || unit.len() == 0 {
        Some(1)
    } else if unit == "KB"@ {
        Some(1024)
    } else if unit == "MB"@ {
        Some(1024 * 1024)
    } else if unit == "GB"@ {
        Some(1024 * 1024 * 1024)
    } else {
        None
    }
}

/// How many seconds a unit of time stands for. No unit means seconds.
pub open spec fn time_unit(unit: Seq<char>) -> Option<nat> {
    if unit == "s"@ || unit == "sec"@ || unit.len() == 0 {
        Some(1)
    } else if unit == "m"@ || unit == "min"@ {
        Some(60)
    } else if unit == "h"@ || unit == "hour"@ {
        Some(3600)
    } else {
        None
    }
}

/// What a notation of a number with a unit amounts to: the text is trimmed
/// and split before its first letter, the number is read first and the unit,
/// in the case given by `fold`, second, and the product has to stay within
/// `max`.
pub open spec fn amount(
    s: Seq<char>,
    fold: spec_fn(char) -> char,
    units: spec_fn(Seq<char>) -> Option<nat>,
    max: nat,
) -> Result<nat, LimitErrorModel> {
    let t = trimmed(s).map_values(fold);
    let split = first_letter(t, 0);
    let digits = t.subrange(0, split);
    let unit = t.subrange(split, t.len() as int);
    match number(digits) {
        None => Err(LimitErrorModel::InvalidNumber { text: digits }),
        Some(n) => if n > max {
            Err(LimitErrorModel::InvalidNumber { text: digits })
        } else {
            match units(unit) {
                None => Err(LimitErrorModel::UnknownUnit { unit }),
                Some(factor) => if n * factor > max {
                    Err(LimitErrorModel::Overflow)
                } else {
                    Ok(n * factor)
                },
            }
        },
    }
}

/// The number of bytes that a size such as `10MB` names.
pub open spec fn size(s: Seq<char>) -> Result<nat, LimitErrorModel> {
    amount(s, |c: char| upper(c), |unit: Seq<char>| size_unit(unit), usize::MAX as nat)
}

/// The number of seconds that a duration such as `15s` names.
pub open spec fn seconds(s: Seq<char>) -> Result<nat, LimitErrorModel> {
    amount(s, |c: char| lower(c), |unit: Seq<char>| time_unit(unit), u64::MAX as nat)
}

/// Reads a decimal number that fits `u64`.
fn parse_number(s: &Vec<char>) -> (r: Option<u64>)
    ensures
        match number(s@) {
            Some(n) => if n <= u64::MAX {
                r == Some(n as u64)
            } else {
                r is None
            },
            None => r is None,
        },
{
    let start: usize = if s.len() > 0 && s[0] == '+' {
        1
    } else {
        0
    };
    let ghost digits = s@.subrange(start as int, s.len() as int);
    assert(s@.subrange(0, s.len() as int) =~= s@);
    if start >= s.len() {
        return None;
    }
    let mut value: u64 = 0;
    let mut overflow = false;
    let mut i: usize = start;
    assert(digits.subrange(0, 0) =~= Seq::<char>::empty());
    while i < s.len()
        invariant
            start <= i <= s.len(),
            start == (if s@.len() > 0 && s@[0] == '+' {
                1int
            } else {
                0int
            }),
            digits == s@.subrange(start as int, s.len() as int),
            all_digits(digits.subrange(0, i - start)),
            !overflow ==> value == digits_value(digits.subrange(0, i - start)),
            overflow ==> digits_value(digits.subrange(0, i - start)) > u64::MAX,
        decreases s.len() - i,
    {
        let c = s[i];
        proof {
            assert(digits[i - start] == c);
            assert(digits.subrange(0, i - start + 1).drop_last() =~= digits.subrange(
                0,
                i - start,
            ));
        }
        if !('0' <= c && c <= '9') {
            proof {
                assert(!is_digit(digits[i - start]));
            }
            return None;
        }
        let d: u64 = (c as u8 - 48) as u64;
        if !overflow {
            match value.checked_mul(10) {
                None => {
                    overflow = true;
                },
                Some(tens) => match tens.checked_add(d) {
                    None => {
                        overflow = true;
                    },
                    Some(next) => {
                        value = next;
                    },
                },
            }
        }
        i += 1;
    }
    assert(digits.subrange(0, s.len() - start) =~= digits);
    assert(s@.subrange(0, s.len() as int) =~= s@);
    if overflow {
        None
    } else {
        Some(value)
    }
}

/// The text trimmed, with `fold` applied to every character, and the index
/// of its first letter.
fn fold_and_split(s: &str, upper_case: bool) -> (r: (Vec<char>, usize))
    ensures
        r.0@ == trimmed(s@).map_values(
            if upper_case {
                |c: char| upper(c)
            } else {
                |c: char| lower(c)
            },
        ),
        r.1 == first_letter(r.0@, 0),
        r.1 <= r.0@.len(),
{
    let raw = trim(&chars_of(s));
    let ghost fold = if upper_case {
        |c: char| upper(c)
    } else {
        |c: char| lower(c)
    };
    let mut folded: Vec<char> = Vec::new();
    let mut i: usize = 0;
    while i < raw.len()
        invariant
            i <= raw.len(),
            fold == (if upper_case {
                |c: char| upper(c)
            } else {
                |c: char| lower(c)
            }),
            folded@ == raw@.subrange(0, i as int).map_values(fold),
        decreases raw.len() - i,
    {
        let c = raw[i];
        let f = if upper_case {
            if 'a' <= c && c <= 'z' {
                ((c as u8) - 32) as char
            } else {
                c
            }
        } else {
            if 'A' <= c && c <= 'Z' {
                ((c as u8) + 32) as char
            } else {
                c
            }
        };
        folded.push(f);
        assert(folded@ =~= raw@.subrange(0, i + 1).map_values(fold));
        i += 1;
    }
    assert(raw@.subrange(0, raw.len() as int) =~= raw@);
    let mut split: usize = 0;
    while split < folded.len() && !is_ascii_letter(folded[split])
        invariant
            split <= folded.len(),
            first_letter(folded@, 0) == first_letter(folded@, split as int),
        decreases folded.len() - split,
    {
        split += 1;
    }
    (folded, split)
}

/// Parse a human-readable size string (e.g., "10MB", "1GB").
pub fn parse_size(s: &str) -> (r: Result<usize, LimitError>)
    ensures
        match size(s@) {
            Ok(n) => r == Ok::<usize, LimitError>(n as usize) && n <= usize::MAX,
            Err(e) => r is Err && r->Err_0@ == e,
        },
{
    let (text, split) = fold_and_split(s, true);
    let digits = copy_range(&text, 0, split);
    let unit = copy_range(&text, split, text.len());
    let num: u64 = match parse_number(&digits) {
        None => {
            return Err(LimitError::InvalidNumber { text: string_of(&digits) });
        },
        Some(n) => n,
    };
    if num > usize::MAX as u64 {
        return Err(LimitError::InvalidNumber { text: string_of(&digits) });
    }
    let multiplier: u64 = if crate::text::spells(&unit, "B") || unit.len() == 0 {
        1
    } else if crate::text::spells(&unit, "KB") {
        1024
    } else if crate::text::spells(&unit, "MB") {
        1024 * 1024
    } else if crate::text::spells(&unit, "GB") {
        1024 * 1024 * 1024
    } else {
        return Err(LimitError::UnknownUnit { unit: string_of(&unit) });
    };
    match num.checked_mul(multiplier) {
        None => Err(LimitError::Overflow),
        Some(total) => if total > usize::MAX as u64 {
            Err(LimitError::Overflow)
        } else {
            Ok(total as usize)
        },
    }
}

/// Parse a human-readable duration string (e.g., "15s", "1m").
pub fn parse_duration(s: &str) -> (r: Result<Duration, LimitError>)
    ensures
        match seconds(s@) {
            Ok(n) => n <= u64::MAX && r == Ok::<Duration, LimitError>(duration_of_secs(n as u64)),
            Err(e) => r is Err && r->Err_0@ == e,
        },
{
    let (text, split) = fold_and_split(s, false);
    let digits = copy_range(&text, 0, split);
    let unit = copy_range(&text, split, text.len());
    let num: u64 = match parse_number(&digits) {
        None => {
            return Err(LimitError::InvalidNumber { text: string_of(&digits) });
        },
        Some(n) => n,
    };
    let factor: u64 = if crate::text::spells(&unit, "s") || crate::text::spells(&unit, "sec")
        || unit.len() == 0 {
        1
    } else if crate::text::spells(&unit, "m") || crate::text::spells(&unit, "min") {
        60
    } else if crate::text::spells(&unit, "h") || crate::text::spells(&unit, "hour") {
        3600
    } else {
        return Err(LimitError::UnknownUnit { unit: string_of(&unit) });
    };
    match num.checked_mul(factor) {
        None => Err(LimitError::Overflow),
        Some(total) => Ok(duration_from_secs(total)),
    }
}

} // verus!
