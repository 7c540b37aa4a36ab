//! Ages: how long a project must have lain untouched before it is cleaned.

use crate::text::chars_of;
use crate::text::digits_value;
use crate::text::is_ascii_digit;
use crate::text::is_digit;
use crate::text::is_space;
use crate::text::is_whitespace;
use crate::text::leading_digits;
use crate::text::lemma_leading_digits;
use crate::text::parse_digits;
use crate::text::trim_bounds;
use crate::text::trimmed;
use vstd::prelude::*;
use vstd::string::*;

verus! {

/// A span of time in whole seconds.
#[derive(Clone, Copy, Debug, PartialEq, Eq, Structural)]
pub struct Age {
    /// The length of the span.
    pub seconds: u64,
}

/// A moment: the time that has passed since the start of 1970.
#[derive(Clone, Copy, Debug, PartialEq, Eq, Structural)]
pub struct Timestamp {
    /// Whole seconds.
    pub seconds: u64,
    /// The billionths of a second beyond them.
    pub nanos: u32,
}

/// Why a text is not an age.
#[derive(Debug, PartialEq, Eq)]
pub enum AgeError {
    /// The text does not start with a number that fits, or the age in
    /// seconds does not fit; holds the digits that were read.
    InvalidAmount(String),
    /// What follows the number is no unit; holds what follows.
    InvalidUnit(String),
    /// `ago` follows the unit without a space.
    MissingSpace,
    /// The text is empty or has white space inside.
    Malformed,
    /// The text is a number without a unit.
    MissingUnit,
    /// The text does not start with a number.
    MissingAmount,
    /// The number does not fit.
    AmountNotInteger,
    /// The unit is not one of `s`, `m`, `h`, `d`, `w`, `mo`, `y`.
    UnknownUnit,
    /// The age in seconds does not fit.
    TooLarge,
}

/// An `AgeError`, with texts as sequences of characters.
pub enum AgeFault {
    InvalidAmount(Seq<char>),
    InvalidUnit(Seq<char>),
    MissingSpace,
    Malformed,
    MissingUnit,
    MissingAmount,
    AmountNotInteger,
    UnknownUnit,
    TooLarge,
}

impl View for AgeError {
    type V = AgeFault;

    open spec fn view(&self) -> AgeFault {
        match self {
            AgeError::InvalidAmount(digits) => AgeFault::InvalidAmount(digits@),
            AgeError::InvalidUnit(unit) => AgeFault::InvalidUnit(unit@),
            AgeError::MissingSpace => AgeFault::MissingSpace,
            AgeError::Malformed => AgeFault::Malformed,
            AgeError::MissingUnit => AgeFault::MissingUnit,
            AgeError::MissingAmount => AgeFault::MissingAmount,
            AgeError::AmountNotInteger => AgeFault::AmountNotInteger,
            AgeError::UnknownUnit => AgeFault::UnknownUnit,
            AgeError::TooLarge => AgeFault::TooLarge,
        }
    }
}

/// The seconds in one unit of time; `None` for what is no unit.
pub open spec fn unit_seconds(unit: Seq<char>) -> Option<nat> {
    if unit == seq!['s'] {
        Some(1)
    } else if unit == seq!['m'] {
        Some(60)
    } else if unit == seq!['h'] {
        Some(3_600)
    } else if unit == seq!['d'] {
        Some(86_400)
    } else if unit == seq!['w'] {
        Some(604_800)
    } else if unit == seq!['m', 'o'] {
        Some(2_592_000)
    } else if unit == seq!['y'] {
        Some(31_536_000)
    } else {
        None
    }
}

/// The text ends in `ago`.
pub open spec fn ends_in_ago(text: Seq<char>) -> bool {
    let n = text.len() as int;
    n >= 3 && text[n - 3] == 'a' && text[n - 2] == 'g' && text[n - 1] == 'o'
}

/// The text without every `ago` at its end.
pub open spec fn without_ago(text: Seq<char>) -> Seq<char>
    decreases text.len(),
{
    if ends_in_ago(text) {
        without_ago(text.take(text.len() - 3))
    } else {
        text
    }
}

/// Some character of the text is white space.
pub open spec fn has_space(text: Seq<char>) -> bool {
    exists|i: int| 0 <= i < text.len() && is_space(#[trigger] text[i])
}

/// The seconds per unit for the unit written between `from` and `to`.
fn unit_of(chars: &Vec<char>, from: usize, to: usize) -> (unit: Option<u64>)
    requires
        from <= to <= chars.len(),
    ensures
        match unit {
            Some(seconds) => unit_seconds(chars@.subrange(from as int, to as int)) == Some(
                seconds as nat,
            ),
            None => unit_seconds(chars@.subrange(from as int, to as int)) is None,
        },
{
    let ghost unit = chars@.subrange(from as int, to as int);
    if to - from == 1 {
        let c = chars[from];
        assert(unit =~= seq![c]);
        assert(unit != seq!['m', 'o']);
        assert(seq![c] == seq!['s'] <==> c == 's') by {
            assert(seq![c][0] == c && seq!['s'][0] == 's');
        }
        assert(seq![c] == seq!['m'] <==> c == 'm') by {
            assert(seq![c][0] == c && seq!['m'][0] == 'm');
        }
        assert(seq![c] == seq!['h'] <==> c == 'h') by {
            assert(seq![c][0] == c && seq!['h'][0] == 'h');
        }
        assert(seq![c] == seq!['d'] <==> c == 'd') by {
            assert(seq![c][0] == c && seq!['d'][0] == 'd');
        }
        assert(seq![c] == seq!['w'] <==> c == 'w') by {
            assert(seq![c][0] == c && seq!['w'][0] == 'w');
        }
        assert(seq![c] == seq!['y'] <==> c == 'y') by {
            assert(seq![c][0] == c && seq!['y'][0] == 'y');
        }
        if c == 's' {
            Some(1)
        } else if c == 'm' {
            Some(60)
        } else if c == 'h' {
            Some(3_600)
        } else if c == 'd' {
            Some(86_400)
        } else if c == 'w' {
            Some(604_800)
        } else if c == 'y' {
            Some(31_536_000)
        } else {
            None
        }
    } else if to - from == 2 {
        assert(unit.len() == 2);
        assert(unit == seq!['m', 'o'] <==> unit[0] == 'm' && unit[1] == 'o') by {
            if unit[0] == 'm' && unit[1] == 'o' {
                assert(unit =~= seq!['m', 'o']);
            }
            if unit == seq!['m', 'o'] {
                assert(seq!['m', 'o'][0] == 'm' && seq!['m', 'o'][1] == 'o');
            }
        }
        if chars[from] == 'm' && chars[from + 1] == 'o' {
            Some(2_592_000)
        } else {
            None
        }
    } else {
        assert(unit.len() != 1 && unit.len() != 2);
        None
    }
}

/// What `Age::parse` makes of a text: the age in seconds, or the fault.
///
/// White space around the text and every `ago` at its end are set aside.
/// What is left is a number and a unit.
pub open spec fn lenient_age(text: Seq<char>) -> Result<u64, AgeFault> {
    let core = trimmed(without_ago(trimmed(text)));
    let n = leading_digits(core) as int;
    let digits = core.take(n);
    let unit = core.skip(n);
    if n == 0 || digits_value(digits) > u64::MAX {
        Err(AgeFault::InvalidAmount(digits))
    } else {
        match unit_seconds(unit) {
            None => Err(AgeFault::InvalidUnit(unit)),
            Some(per) => if digits_value(digits) * per > u64::MAX {
                Err(AgeFault::InvalidAmount(digits))
            } else {
                Ok((digits_value(digits) * per) as u64)
            },
        }
    }
}

/// The text ends in a space and `ago`.
pub open spec fn ends_in_space_ago(text: Seq<char>) -> bool {
    text.len() >= 4 && text[text.len() - 4] == ' ' && ends_in_ago(text)
}

/// What `parse_age` makes of a number and a unit written without a gap.
pub open spec fn strict_core(core: Seq<char>) -> Result<u64, AgeFault> {
    let n = leading_digits(core) as int;
    if core.len() == 0 || has_space(core) {
        Err(AgeFault::Malformed)
    } else if n == core.len() {
        Err(AgeFault::MissingUnit)
    } else if n == 0 {
        Err(AgeFault::MissingAmount)
    } else if digits_value(core.take(n)) > u64::MAX {
        Err(AgeFault::AmountNotInteger)
    } else {
        match unit_seconds(core.skip(n)) {
            None => Err(AgeFault::UnknownUnit),
            Some(per) => if digits_value(core.take(n)) * per > u64::MAX {
                Err(AgeFault::TooLarge)
            } else {
                Ok((digits_value(core.take(n)) * per) as u64)
            },
        }
    }
}

/// What `parse_age` makes of a text: the age in seconds, or the fault.
///
/// White space around the text is set aside, and so is one ` ago` at its
/// end; an `ago` without the space before it is a fault.
pub open spec fn strict_age(text: Seq<char>) -> Result<u64, AgeFault> {
    let whole = trimmed(text);
    if ends_in_space_ago(whole) {
        strict_core(whole.take(whole.len() - 4))
    } else if ends_in_ago(whole) {
        Err(AgeFault::MissingSpace)
    } else {
        strict_core(whole)
    }
}

/// What came of a parse is what the text stands for: the same age, or the
/// same fault.
pub open spec fn agrees(got: Result<Age, AgeError>, wanted: Result<u64, AgeFault>) -> bool {
    match got {
        Ok(age) => wanted == Ok::<u64, AgeFault>(age.seconds),
        Err(error) => wanted == Err::<u64, AgeFault>(error@),
    }
}

/// Whether the characters before `to` end in `ago`, not reaching back
/// beyond `from`.
fn ago_before(chars: &Vec<char>, from: usize, to: usize) -> (r: bool)
    requires
        from <= to <= chars.len(),
    ensures
        r == ends_in_ago(chars@.subrange(from as int, to as int)),
{
    to - from >= 3 && chars[to - 3] == 'a' && chars[to - 2] == 'g' && chars[to - 1] == 'o'
}

/// The number of digits that the characters between `from` and `to` start
/// with.
fn count_digits(chars: &Vec<char>, from: usize, to: usize) -> (n: usize)
    requires
        from <= to <= chars.len(),
    ensures
        n == leading_digits(chars@.subrange(from as int, to as int)),
        from + n <= to,
        forall|i: int| from <= i < from + n ==> is_digit(#[trigger] chars[i]),
{
    let ghost text = chars@.subrange(from as int, to as int);
    let mut end: usize = from;
    while end < to && is_ascii_digit(chars[end])
        invariant
            from <= end <= to <= chars.len(),
            text == chars@.subrange(from as int, to as int),
            forall|i: int| from <= i < end ==> is_digit(#[trigger] chars[i]),
        decreases to - end,
    {
        end += 1;
    }
    proof {
        assert forall|i: int| 0 <= i < end - from implies is_digit(#[trigger] text[i]) by {
            assert(text[i] == chars[from + i]);
        }
        lemma_leading_digits(text, end - from);
    }
    end - from
}

/// Whether some character between `from` and `to` is white space.
fn space_between(chars: &Vec<char>, from: usize, to: usize) -> (r: bool)
    requires
        from <= to <= chars.len(),
    ensures
        r == has_space(chars@.subrange(from as int, to as int)),
{
    let ghost text = chars@.subrange(from as int, to as int);
    let mut i: usize = from;
    while i < to
        invariant
            from <= i <= to <= chars.len(),
            text == chars@.subrange(from as int, to as int),
            forall|k: int| 0 <= k < i - from ==> !is_space(#[trigger] text[k]),
        decreases to - i,
    {
        if is_whitespace(chars[i]) {
            assert(is_space(text[i - from]));
            return true;
        }
        i += 1;
    }
    false
}

impl Age {
    /// The age of so many seconds.
    pub fn from_secs(seconds: u64) -> (age: Age)
        ensures
            age.seconds == seconds,
    {
        Age { seconds }
    }

    /// Reads an age such as `30d`, `12h ago` or `2w`.
    ///
    /// The units are `s`, `m`, `h`, `d`, `w`, `mo` (thirty days) and `y`
    /// (365 days). An age whose seconds do not fit in 64 bits is refused
    /// as an invalid amount.
    pub fn parse(text: &str) -> (parsed: Result<Age, AgeError>)
        ensures
            agrees(parsed, lenient_age(text@)),
    {
        let chars = chars_of(text);
        let (a, b) = trim_bounds(&chars, 0, chars.len());
        assert(chars@.subrange(0, chars.len() as int) =~= chars@);
        let ghost outer = chars@.subrange(a as int, b as int);
        let mut end: usize = b;
        while ago_before(&chars, a, end)
            invariant
                a <= end <= b <= chars.len(),
                without_ago(outer) == without_ago(chars@.subrange(a as int, end as int)),
            decreases end,
        {
            proof {
                let now = chars@.subrange(a as int, end as int);
                assert(now.take(now.len() - 3) =~= chars@.subrange(a as int, end - 3));
            }
            end -= 3;
        }
        let (c, d) = trim_bounds(&chars, a, end);
        let ghost core = chars@.subrange(c as int, d as int);
        assert(core == trimmed(without_ago(trimmed(text@))));
        let n = count_digits(&chars, c, d);
        proof {
            assert(core.take(n as int) =~= chars@.subrange(c as int, c + n));
            assert(core.skip(n as int) =~= chars@.subrange(c + n, d as int));
        }
        let amount = if n == 0 {
            None
        } else {
            parse_digits(&chars, c, c + n)
        };
        match amount {
            None => Err(AgeError::InvalidAmount(text.substring_char(c, c + n).to_owned())),
            Some(amount) => match unit_of(&chars, c + n, d) {
                None => Err(AgeError::InvalidUnit(text.substring_char(c + n, d).to_owned())),
                Some(per) => match amount.checked_mul(per) {
                    None => Err(AgeError::InvalidAmount(text.substring_char(c, c + n).to_owned())),
                    Some(seconds) => Ok(Age { seconds }),
                },
            },
        }
    }

    /// Whether more time than this age lies between `modified` and `now`.
    /// A moment that is still to come is never older than any age.
    pub fn older_than(&self, modified: Timestamp, now: Timestamp) -> (older: bool)
        ensures
            older == (now.total_nanos() - modified.total_nanos() > self.seconds * 1_000_000_000),
    {
        let start = modified.seconds as u128 * 1_000_000_000 + modified.nanos as u128;
        let span = self.seconds as u128 * 1_000_000_000;
        let end = now.seconds as u128 * 1_000_000_000 + now.nanos as u128;
        end > start + span
    }
}

impl Timestamp {
    /// The moment as billionths of a second since the start of 1970.
    pub open spec fn total_nanos(self) -> int {
        self.seconds * 1_000_000_000 + self.nanos
    }

    /// The start of 1970.
    pub fn epoch() -> (moment: Timestamp)
        ensures
            moment.seconds == 0,
            moment.nanos == 0,
    {
        Timestamp { seconds: 0, nanos: 0 }
    }

    /// Whether this moment comes after `other`.
    pub fn is_after(self, other: Timestamp) -> (later: bool)
        ensures
            later == (self.total_nanos() > other.total_nanos()),
    {
        let mine = self.seconds as u128 * 1_000_000_000 + self.nanos as u128;
        let theirs = other.seconds as u128 * 1_000_000_000 + other.nanos as u128;
        mine > theirs
    }
}

/// Reads an age as the command line takes it: a number, a unit, and
/// perhaps ` ago`, with no other white space inside.
pub fn parse_age(value: &str) -> (parsed: Result<Age, AgeError>)
    ensures
        agrees(parsed, strict_age(value@)),
{
    let chars = chars_of(value);
    let (a, b) = trim_bounds(&chars, 0, chars.len());
    assert(chars@.subrange(0, chars.len() as int) =~= chars@);
    let ghost whole = chars@.subrange(a as int, b as int);
    let ago = ago_before(&chars, a, b);
    let end = if ago && b - a >= 4 && chars[b - 4] == ' ' {
        b - 4
    } else if ago {
        return Err(AgeError::MissingSpace);
    } else {
        b
    };
    let ghost core = chars@.subrange(a as int, end as int);
    proof {
        if ends_in_space_ago(whole) {
            assert(core =~= whole.take(whole.len() - 4));
        }
    }
    if a == end || space_between(&chars, a, end) {
        return Err(AgeError::Malformed);
    }
    let n = count_digits(&chars, a, end);
    proof {
        assert(core.take(n as int) =~= chars@.subrange(a as int, a + n));
        assert(core.skip(n as int) =~= chars@.subrange(a + n, end as int));
    }
    if a + n == end {
        return Err(AgeError::MissingUnit);
    }
    if n == 0 {
        return Err(AgeError::MissingAmount);
    }
    match parse_digits(&chars, a, a + n) {
        None => Err(AgeError::AmountNotInteger),
        Some(amount) => match unit_of(&chars, a + n, end) {
            None => Err(AgeError::UnknownUnit),
            Some(per) => match amount.checked_mul(per) {
                None => Err(AgeError::TooLarge),
                Some(seconds) => Ok(Age { seconds }),
            },
        },
    }
}

/// The words for a fault.
pub open spec fn fault_message(fault: AgeFault) -> Seq<char> {
    match fault {
        AgeFault::InvalidAmount(digits) => "invalid age amount: `"@ + digits + "`"@,
        AgeFault::InvalidUnit(unit) => "invalid age unit: `"@ + unit + "`"@,
        AgeFault::MissingSpace => "invalid age: expected a space before `ago`"@,
        AgeFault::Malformed
            => "invalid age: expected <amount><unit>[ ago] with no interior spaces"@,
        AgeFault::MissingUnit => "invalid age: missing unit"@,
        AgeFault::MissingAmount => "invalid age: missing amount"@,
        AgeFault::AmountNotInteger => "invalid age: amount must be an integer"@,
        AgeFault::UnknownUnit => "invalid age: unit must be one of s, m, h, d, w, mo, y"@,
        AgeFault::TooLarge => "invalid age: value is too large"@,
    }
}

impl AgeError {
    /// The fault in words.
    pub fn message(&self) -> (text: String)
        ensures
            text@ == fault_message(self@),
    {
        match self {
            AgeError::InvalidAmount(digits) => "invalid age amount: `".to_owned().concat(
                digits.as_str(),
            ).concat("`"),
            AgeError::InvalidUnit(unit) => "invalid age unit: `".to_owned().concat(
                unit.as_str(),
            ).concat("`"),
            AgeError::MissingSpace => "invalid age: expected a space before `ago`".to_owned(),
            AgeError::Malformed
                => "invalid age: expected <amount><unit>[ ago] with no interior spaces".to_owned(),
            AgeError::MissingUnit => "invalid age: missing unit".to_owned(),
            AgeError::MissingAmount => "invalid age: missing amount".to_owned(),
            AgeError::AmountNotInteger => "invalid age: amount must be an integer".to_owned(),
            AgeError::UnknownUnit
                => "invalid age: unit must be one of s, m, h, d, w, mo, y".to_owned(),
            AgeError::TooLarge => "invalid age: value is too large".to_owned(),
        }
    }
}

/// How long ago something was, for a span of whole seconds: in seconds up
/// to a minute, in minutes up to an hour, in hours up to a day, in days
/// beyond.
pub open spec fn ago_text(seconds: nat) -> Seq<char> {
    if seconds < 60 {
        counted(seconds, "second"@)
    } else if seconds / 60 < 60 {
        counted(seconds / 60, "minute"@)
    } else if seconds / 3600 < 24 {
        counted(seconds / 3600, "hour"@)
    } else {
        counted(seconds / 86400, "day"@)
    }
}

/// A count of things and `ago`: `1 day ago`, `2 days ago`.
pub open spec fn counted(count: nat, thing: Seq<char>) -> Seq<char> {
    crate::text::decimal(count) + " "@ + thing + (if count == 1 {
        ""@
    } else {
        "s"@
    }) + " ago"@
}

/// A count of things and `ago`.
fn count_ago(count: u128, thing: &str) -> (text: String)
    ensures
        text@ == counted(count as nat, thing@),
{
    let plural = if count == 1 {
        ""
    } else {
        "s"
    };
    crate::text::to_decimal(count).concat(" ").concat(thing).concat(plural).concat(" ago")
}

impl Timestamp {
    /// The whole seconds from this moment to `now`; none if `now` is earlier.
    pub open spec fn seconds_until(self, now: Timestamp) -> nat {
        if now.total_nanos() >= self.total_nanos() {
            ((now.total_nanos() - self.total_nanos()) / 1_000_000_000) as nat
        } else {
            0
        }
    }

    /// How long before `now` this moment was, in words.
    pub fn format(self, now: Timestamp) -> (text: String)
        ensures
            text@ == ago_text(self.seconds_until(now)),
    {
        let start = self.seconds as u128 * 1_000_000_000 + self.nanos as u128;
        let end = now.seconds as u128 * 1_000_000_000 + now.nanos as u128;
        let seconds: u128 = if end >= start {
            (end - start) / 1_000_000_000
        } else {
            0
        };
        if seconds < 60 {
            count_ago(seconds, "second")
        } else if seconds / 60 < 60 {
            count_ago(seconds / 60, "minute")
        } else if seconds / 3600 < 24 {
            count_ago(seconds / 3600, "hour")
        } else {
            count_ago(seconds / 86400, "day")
        }
    }
}

} // verus!
