//! Reading an elapsed duration out of a container status line.
//!
//! A status line looks like `Up 2 weeks` or `Exited (137) 9 hours ago`.
//! The presentation prefix is stripped, the rest is cut at single spaces,
//! and the first two pieces are read as an amount and a unit.

use vstd::prelude::*;
use vstd::string::*;
use crate::text::{chars_of, decimal_digits, has_chars_at, starts_with};

verus! {

/// Units of elapsed time that a status line may name.
#[derive(Clone, Copy, Debug, PartialEq, Eq, Structural)]
pub enum TimeUnit {
    Seconds,
    Minutes,
    Hours,
    Days,
    Weeks,
    Months,
    Years,
}

/// Why a status line could not be turned into a duration.
#[derive(Clone, Copy, Debug, PartialEq, Eq, Structural)]
pub enum InputError {
    /// The status line has no characters.
    Empty,
    /// The status line has no second piece to name a unit.
    Malformed,
    /// The second piece is not one of the unit words.
    UnknownUnit,
    /// The amount times the unit's length exceeds `u64::MAX` seconds.
    Overflow,
}

/// An amount and its unit, as read from a status line.
#[derive(Clone, Copy, Debug, PartialEq, Eq, Structural)]
pub struct ParsedDuration {
    pub amount: u64,
    pub unit: TimeUnit,
}

impl TimeUnit {
    /// Seconds in one of this unit; a month is 30 days and a year 365 days.
    pub open spec fn spec_seconds(self) -> nat {
        match self {
            TimeUnit::Seconds => 1,
            TimeUnit::Minutes => 60,
            TimeUnit::Hours => 3_600,
            TimeUnit::Days => 86_400,
            TimeUnit::Weeks => 604_800,
            TimeUnit::Months => 2_592_000,
            TimeUnit::Years => 31_536_000,
        }
    }

    /// The word that names this unit in a status line.
    pub open spec fn name(self) -> Seq<char> {
        match self {
            TimeUnit::Seconds => "seconds"@,
            TimeUnit::Minutes => "minutes"@,
            TimeUnit::Hours => "hours"@,
            TimeUnit::Days => "days"@,
            TimeUnit::Weeks => "weeks"@,
            TimeUnit::Months => "months"@,
            TimeUnit::Years => "years"@,
        }
    }

    /// Seconds in one of this unit.
    pub fn seconds(self) -> (r: u64)
        ensures
            r == self.spec_seconds(),
    {
        match self {
            TimeUnit::Seconds => 1,
            TimeUnit::Minutes => 60,
            TimeUnit::Hours => 3_600,
            TimeUnit::Days => 86_400,
            TimeUnit::Weeks => 604_800,
            TimeUnit::Months => 2_592_000,
            TimeUnit::Years => 31_536_000,
        }
    }
}

/// Seconds in `amount` of `unit`, as a mathematical integer.
pub open spec fn seconds_in(amount: u64, unit: TimeUnit) -> nat {
    amount as nat * unit.spec_seconds()
}

impl ParsedDuration {
    /// The elapsed time in seconds, as a mathematical integer.
    pub open spec fn spec_seconds(self) -> nat {
        seconds_in(self.amount, self.unit)
    }

    /// The elapsed time in seconds, or `None` when it does not fit in 64 bits.
    pub fn to_seconds(&self) -> (r: Option<u64>)
        ensures
            r == (if self.spec_seconds() <= u64::MAX {
                Some(self.spec_seconds() as u64)
            } else {
                None::<u64>
            }),
    {
        self.amount.checked_mul(self.unit.seconds())
    }
}

/// Whether `c` is one of the ten decimal digits.
pub open spec fn is_digit(c: char) -> bool {
    '0' <= c && c <= '9'
}

/// Whether every character of `s` is a decimal digit.
pub open spec fn all_digits(s: Seq<char>) -> bool {
    forall|i: int| 0 <= i < s.len() ==> is_digit(#[trigger] s[i])
}

/// The index at which the run of digits that starts at `from` ends.
pub open spec fn digit_run_end(s: Seq<char>, from: int) -> int
    decreases s.len() - from,
{
    if 0 <= from < s.len() && is_digit(s[from]) {
        digit_run_end(s, from + 1)
    } else {
        from
    }
}

/// The index of the first space at or after `from`, or the length of `s`.
pub open spec fn token_end(s: Seq<char>, from: int) -> int
    decreases s.len() - from,
{
    if from < 0 || from >= s.len() {
        s.len() as int
    } else if s[from] == ' ' {
        from
    } else {
        token_end(s, from + 1)
    }
}

/// Length of the state word (`Up ` or `Exited `) that `s` begins with, else 0.
pub open spec fn state_word_len(s: Seq<char>) -> int {
    if starts_with(s, "Exited "@) {
        "Exited "@.len() as int
    } else if starts_with(s, "Up "@) {
        "Up "@.len() as int
    } else {
        0
    }
}

/// Length of an exit code `(digits) ` that stands at `from` in `s`, else 0.
pub open spec fn exit_code_len(s: Seq<char>, from: int) -> int {
    let end = digit_run_end(s, from + 1);
    if 0 <= from < s.len() && s[from] == '(' && end > from + 1 && end + 1 < s.len() && s[end]
        == ')' && s[end + 1] == ' ' {
        end + 2 - from
    } else {
        0
    }
}

/// Length of the presentation prefix of `s`: a state word, then an
/// exit code if one follows it. Without a state word nothing is a prefix.
pub open spec fn prefix_len(s: Seq<char>) -> int {
    let w = state_word_len(s);
    if w == 0 {
        0
    } else {
        w + exit_code_len(s, w)
    }
}

/// The status line without its presentation prefix.
pub open spec fn strip_prefix(s: Seq<char>) -> Seq<char> {
    s.skip(prefix_len(s))
}

/// The characters of `s` before its first space.
pub open spec fn first_token(s: Seq<char>) -> Seq<char> {
    s.subrange(0, token_end(s, 0))
}

/// Whether `s` holds a space, so that a second piece follows the first.
pub open spec fn has_second_token(s: Seq<char>) -> bool {
    token_end(s, 0) < s.len()
}

/// The characters between the first space of `s` and the next one.
pub open spec fn second_token(s: Seq<char>) -> Seq<char> {
    let start = token_end(s, 0) + 1;
    s.subrange(start, token_end(s, start))
}

/// The amount and the unit of a status line as they are written: the
/// first two pieces of the line after its prefix is stripped. An empty
/// line and a line with fewer than two pieces have none.
pub open spec fn status_pair(s: Seq<char>) -> Result<(Seq<char>, Seq<char>), InputError> {
    let t = strip_prefix(s);
    if s.len() == 0 {
        Err(InputError::Empty)
    } else if !has_second_token(t) {
        Err(InputError::Malformed)
    } else {
        Ok((first_token(t), second_token(t)))
    }
}

fn is_digit_char(c: char) -> (r: bool)
    ensures
        r == is_digit(c),
{
    '0' <= c && c <= '9'
}

fn find_digit_run_end(s: &Vec<char>, from: usize) -> (end: usize)
    requires
        from <= s.len(),
    ensures
        end == digit_run_end(s@, from as int),
        from <= end <= s.len(),
{
    let mut i: usize = from;
    while i < s.len() && is_digit_char(s[i])
        invariant
            from <= i <= s.len(),
            digit_run_end(s@, from as int) == digit_run_end(s@, i as int),
        decreases s.len() - i,
    {
        i += 1;
    }
    i
}

fn find_token_end(s: &Vec<char>, from: usize) -> (end: usize)
    requires
        from <= s.len(),
    ensures
        end == token_end(s@, from as int),
        from <= end <= s.len(),
{
    let mut i: usize = from;
    while i < s.len() && s[i] != ' '
        invariant
            from <= i <= s.len(),
            token_end(s@, from as int) == token_end(s@, i as int),
        decreases s.len() - i,
    {
        i += 1;
    }
    i
}

fn find_state_word_len(s: &Vec<char>) -> (w: usize)
    ensures
        w == state_word_len(s@),
        w <= s.len(),
{
    let exited = chars_of("Exited ");
    let up = chars_of("Up ");
    if has_chars_at(s, 0, &exited) {
        exited.len()
    } else if has_chars_at(s, 0, &up) {
        up.len()
    } else {
        0
    }
}

fn find_exit_code_len(s: &Vec<char>, from: usize) -> (n: usize)
    requires
        from <= s.len(),
    ensures
        n == exit_code_len(s@, from as int),
        from + n <= s.len(),
{
    if from < s.len() && s[from] == '(' {
        let end = find_digit_run_end(s, from + 1);
        if end > from + 1 && end < s.len() - 1 && s[end] == ')' && s[end + 1] == ' ' {
            return end + 2 - from;
        }
    }
    0
}

fn find_prefix_len(s: &Vec<char>) -> (n: usize)
    ensures
        n == prefix_len(s@),
        n <= s.len(),
{
    let w = find_state_word_len(s);
    if w == 0 {
        0
    } else {
        w + find_exit_code_len(s, w)
    }
}

/// Splits a status line into the two pieces that write its amount and
/// its unit, in that order. The presentation prefix is left out, and so
/// is whatever follows the unit. An empty line is an error, and so is a
/// line with fewer than two pieces.
pub fn parse_status_time(s: &str) -> (r: Result<Vec<String>, InputError>)
    ensures
        match status_pair(s@) {
            Ok(pair) => r is Ok && r->Ok_0@.len() == 2 && r->Ok_0@[0]@ == pair.0 && r->Ok_0@[1]@
                == pair.1,
            Err(e) => r == Err::<Vec<String>, InputError>(e),
        },
{
    let chars = chars_of(s);
    if chars.len() == 0 {
        return Err(InputError::Empty);
    }
    let p = find_prefix_len(&chars);
    let a = find_token_end(&chars, p);
    proof {
        lemma_token_end_skip(chars@, p as int, p as int);
    }
    if a >= chars.len() {
        return Err(InputError::Malformed);
    }
    let b = find_token_end(&chars, a + 1);
    proof {
        lemma_token_end_skip(chars@, p as int, a + 1);
    }
    assert(s@.subrange(p as int, a as int) =~= first_token(strip_prefix(s@)));
    assert(s@.subrange(a + 1, b as int) =~= second_token(strip_prefix(s@)));
    let mut items: Vec<String> = Vec::new();
    items.push(s.substring_char(p, a).to_owned());
    items.push(s.substring_char(a + 1, b).to_owned());
    Ok(items)
}

/// Cutting at spaces commutes with dropping the first `k` characters.
proof fn lemma_token_end_skip(s: Seq<char>, k: int, from: int)
    requires
        0 <= k <= from <= s.len(),
    ensures
        token_end(s.skip(k), from - k) == token_end(s, from) - k,
    decreases s.len() - from,
{
    if from < s.len() && s[from] != ' ' {
        lemma_token_end_skip(s, k, from + 1);
    }
}

/// The number that a digit stands for.
pub open spec fn digit_value(c: char) -> nat {
    (c as int - '0' as int) as nat
}

/// The number that a run of decimal digits writes, most significant first.
pub open spec fn decimal_value(s: Seq<char>) -> nat
    decreases s.len(),
{
    if s.len() == 0 {
        0
    } else {
        decimal_value(s.drop_last()) * 10 + digit_value(s.last())
    }
}

/// The digits of a numeral: what follows a leading `+`, if there is one.
pub open spec fn numeral_digits(s: Seq<char>) -> Seq<char> {
    if s.len() > 0 && s[0] == '+' {
        s.skip(1)
    } else {
        s
    }
}

/// Whether `s` writes a number that fits in 64 bits: an optional `+`,
/// then one or more decimal digits and nothing else.
pub open spec fn is_u64_numeral(s: Seq<char>) -> bool {
    let d = numeral_digits(s);
    d.len() > 0 && all_digits(d) && decimal_value(d) <= u64::MAX
}

/// The amount that a piece stands for: its number where it writes one
/// that fits in 64 bits, and 0 for any other piece.
pub open spec fn amount_of(s: Seq<char>) -> nat {
    if is_u64_numeral(s) {
        decimal_value(numeral_digits(s))
    } else {
        0
    }
}

/// The unit that a piece names, if it is one of the unit words.
pub open spec fn unit_of(s: Seq<char>) -> Option<TimeUnit> {
    if s == TimeUnit::Seconds.name() {
        Some(TimeUnit::Seconds)
    } else if s == TimeUnit::Minutes.name() {
        Some(TimeUnit::Minutes)
    } else if s == TimeUnit::Hours.name() {
        Some(TimeUnit::Hours)
    } else if s == TimeUnit::Days.name() {
        Some(TimeUnit::Days)
    } else if s == TimeUnit::Weeks.name() {
        Some(TimeUnit::Weeks)
    } else if s == TimeUnit::Months.name() {
        Some(TimeUnit::Months)
    } else if s == TimeUnit::Years.name() {
        Some(TimeUnit::Years)
    } else {
        None
    }
}

/// What a status line parses to: its amount and unit where it writes
/// both and the unit is a unit word.
pub open spec fn parse_spec(s: Seq<char>) -> Result<ParsedDuration, InputError> {
    match status_pair(s) {
        Err(e) => Err(e),
        Ok(pair) => match unit_of(pair.1) {
            None => Err(InputError::UnknownUnit),
            Some(unit) => Ok(ParsedDuration { amount: amount_of(pair.0) as u64, unit }),
        },
    }
}

/// The elapsed seconds that a status line stands for.
pub open spec fn duration_spec(s: Seq<char>) -> Result<u64, InputError> {
    match parse_spec(s) {
        Err(e) => Err(e),
        Ok(d) => if d.spec_seconds() <= u64::MAX {
            Ok(d.spec_seconds() as u64)
        } else {
            Err(InputError::Overflow)
        },
    }
}

/// A longer run of digits never writes a smaller number than its beginning.
proof fn lemma_decimal_value_prefix(s: Seq<char>, k: int)
    requires
        0 <= k <= s.len(),
    ensures
        decimal_value(s.subrange(0, k)) <= decimal_value(s),
    decreases s.len(),
{
    if k == s.len() {
        assert(s.subrange(0, k) =~= s);
    } else {
        lemma_decimal_value_prefix(s.drop_last(), k);
        assert(s.drop_last().subrange(0, k) =~= s.subrange(0, k));
    }
}

/// Reads the piece `s[from..to]` as an amount.
fn read_amount(s: &Vec<char>, from: usize, to: usize) -> (amount: u64)
    requires
        from <= to <= s.len(),
    ensures
        amount == amount_of(s@.subrange(from as int, to as int)),
{
    let ghost piece = s@.subrange(from as int, to as int);
    let start: usize = if from < to && s[from] == '+' {
        from + 1
    } else {
        from
    };
    let ghost digits = numeral_digits(piece);
    assert(digits =~= s@.subrange(start as int, to as int));
    if start == to {
        return 0;
    }
    let mut acc: u64 = 0;
    let mut i: usize = start;
    while i < to
        invariant
            from <= start <= i <= to <= s.len(),
            start < to,
            digits == s@.subrange(start as int, to as int),
            digits == numeral_digits(s@.subrange(from as int, to as int)),
            all_digits(digits.subrange(0, i - start)),
            acc == decimal_value(digits.subrange(0, i - start)),
        decreases to - i,
    {
        let c = s[i];
        let ghost next = digits.subrange(0, i - start + 1);
        assert(next.drop_last() =~= digits.subrange(0, i - start));
        assert(next.last() == c);
        if !is_digit_char(c) {
            assert(!is_digit(digits[i - start]));
            return 0;
        }
        let d: u64 = (c as u32 - '0' as u32) as u64;
        assert(d == digit_value(c));
        if acc > (u64::MAX - d) / 10 {
            proof {
                lemma_decimal_value_prefix(digits, i - start + 1);
            }
            return 0;
        }
        acc = acc * 10 + d;
        assert forall|j: int| 0 <= j < next.len() implies is_digit(#[trigger] next[j]) by {
            if j < i - start {
                assert(next[j] == digits.subrange(0, i - start)[j]);
            }
        }
        i += 1;
    }
    assert(digits.subrange(0, to - start) =~= digits);
    acc
}

/// Reads the piece `s[from..to]` as a unit word.
fn read_unit(s: &Vec<char>, from: usize, to: usize) -> (unit: Option<TimeUnit>)
    requires
        from <= to <= s.len(),
    ensures
        unit == unit_of(s@.subrange(from as int, to as int)),
{
    let n = to - from;
    let seconds = chars_of("seconds");
    let minutes = chars_of("minutes");
    let hours = chars_of("hours");
    let days = chars_of("days");
    let weeks = chars_of("weeks");
    let months = chars_of("months");
    let years = chars_of("years");
    if n == seconds.len() && has_chars_at(s, from, &seconds) {
        Some(TimeUnit::Seconds)
    } else if n == minutes.len() && has_chars_at(s, from, &minutes) {
        Some(TimeUnit::Minutes)
    } else if n == hours.len() && has_chars_at(s, from, &hours) {
        Some(TimeUnit::Hours)
    } else if n == days.len() && has_chars_at(s, from, &days) {
        Some(TimeUnit::Days)
    } else if n == weeks.len() && has_chars_at(s, from, &weeks) {
        Some(TimeUnit::Weeks)
    } else if n == months.len() && has_chars_at(s, from, &months) {
        Some(TimeUnit::Months)
    } else if n == years.len() && has_chars_at(s, from, &years) {
        Some(TimeUnit::Years)
    } else {
        None
    }
}

/// Reads the amount and the unit of a status line.
///
/// An amount that is not a number counts as 0; a missing or unknown
/// unit is an error.
pub fn parse(s: &str) -> (r: Result<ParsedDuration, InputError>)
    ensures
        r == parse_spec(s@),
{
    let chars = chars_of(s);
    if chars.len() == 0 {
        return Err(InputError::Empty);
    }
    let p = find_prefix_len(&chars);
    let a = find_token_end(&chars, p);
    proof {
        lemma_token_end_skip(chars@, p as int, p as int);
    }
    if a >= chars.len() {
        return Err(InputError::Malformed);
    }
    let b = find_token_end(&chars, a + 1);
    proof {
        lemma_token_end_skip(chars@, p as int, a + 1);
    }
    assert(chars@.subrange(p as int, a as int) =~= first_token(strip_prefix(s@)));
    assert(chars@.subrange(a + 1, b as int) =~= second_token(strip_prefix(s@)));
    match read_unit(&chars, a + 1, b) {
        None => Err(InputError::UnknownUnit),
        Some(unit) => Ok(ParsedDuration { amount: read_amount(&chars, p, a), unit }),
    }
}

/// The elapsed seconds that a status line stands for.
///
/// Nothing defaults to zero here: a caller that wants a failure to
/// count as no time at all says so where it calls.
pub fn status_into_duration(s: &str) -> (r: Result<u64, InputError>)
    ensures
        r == duration_spec(s@),
{
    match parse(s) {
        Err(e) => Err(e),
        Ok(d) => match d.to_seconds() {
            Some(secs) => Ok(secs),
            None => Err(InputError::Overflow),
        },
    }
}

/// The elapsed seconds that an owned status line stands for; the same
/// as `status_into_duration`.
pub fn status_into_time(s: String) -> (r: Result<u64, InputError>)
    ensures
        r == duration_spec(s@),
{
    status_into_duration(s.as_str())
}

/// The seconds that a running container has been up, read from its
/// owned status line; the same as `status_into_duration`.
pub fn status_into_running_time(s: String) -> (r: Result<u64, InputError>)
    ensures
        r == duration_spec(s@),
{
    status_into_duration(s.as_str())
}

/// A presentation prefix: a state word, then an exit code in brackets
/// and a space where `code` has digits.
pub open spec fn status_prefix(word: Seq<char>, code: Seq<char>) -> Seq<char> {
    if code.len() == 0 {
        word
    } else {
        word + seq!['('] + code + seq![')', ' ']
    }
}

/// Each unit word has no space in it and names its own unit only.
pub proof fn lemma_unit_names(unit: TimeUnit)
    ensures
        unit_of(unit.name()) == Some(unit),
        unit.name().len() > 0,
        forall|i: int| 0 <= i < unit.name().len() ==> #[trigger] unit.name()[i] != ' ',
{
    reveal_strlit("seconds");
    reveal_strlit("minutes");
    reveal_strlit("hours");
    reveal_strlit("days");
    reveal_strlit("weeks");
    reveal_strlit("months");
    reveal_strlit("years");
    assert("seconds"@[0] == 's' && "minutes"@[0] == 'm' && "hours"@[0] == 'h' && "days"@[0] == 'd'
        && "weeks"@[0] == 'w' && "months"@[1] == 'o' && "minutes"@[1] == 'i' && "years"@[0] == 'y');
}

/// Where no space stands in `s[from..end]` and `end` is a space or the
/// end of `s`, the piece that starts at `from` ends at `end`.
proof fn lemma_token_end_at(s: Seq<char>, from: int, end: int)
    requires
        0 <= from <= end <= s.len(),
        forall|j: int| from <= j < end ==> #[trigger] s[j] != ' ',
        end == s.len() || s[end] == ' ',
    ensures
        token_end(s, from) == end,
    decreases end - from,
{
    if from < end {
        lemma_token_end_at(s, from + 1, end);
    }
}

/// Where `s[from..end]` are digits and `end` is no digit or the end of
/// `s`, the run of digits that starts at `from` ends at `end`.
proof fn lemma_digit_run_end_at(s: Seq<char>, from: int, end: int)
    requires
        0 <= from <= end <= s.len(),
        forall|j: int| from <= j < end ==> is_digit(#[trigger] s[j]),
        end == s.len() || !is_digit(s[end]),
    ensures
        digit_run_end(s, from) == end,
    decreases end - from,
{
    if from < end {
        lemma_digit_run_end_at(s, from + 1, end);
    }
}

/// A line that begins with a digit has no presentation prefix.
proof fn lemma_no_prefix(s: Seq<char>)
    requires
        s.len() > 0,
        is_digit(s[0]),
    ensures
        prefix_len(s) == 0,
{
    reveal_strlit("Up ");
    reveal_strlit("Exited ");
    if starts_with(s, "Exited "@) {
        assert(s.subrange(0, 7)[0] == 'E');
    }
    if starts_with(s, "Up "@) {
        assert(s.subrange(0, 3)[0] == 'U');
    }
}

/// A line that begins with a state word has that word's length as the
/// length of its state word.
proof fn lemma_state_word(word: Seq<char>, body: Seq<char>)
    requires
        word == "Up "@ || word == "Exited "@,
    ensures
        state_word_len(word + body) == word.len(),
        word.len() > 0,
{
    reveal_strlit("Up ");
    reveal_strlit("Exited ");
    let s = word + body;
    assert(s.subrange(0, word.len() as int) =~= word);
    if word == "Up "@ && starts_with(s, "Exited "@) {
        assert(s.subrange(0, 7)[0] == 'E');
        assert(s[0] == word[0]);
    }
}

/// An exit code in brackets that stands at `w` is measured in full.
proof fn lemma_exit_code(s: Seq<char>, w: int, code: Seq<char>)
    requires
        0 <= w,
        code.len() > 0,
        all_digits(code),
        w + code.len() + 3 <= s.len(),
        s[w] == '(',
        s.subrange(w + 1, w + 1 + code.len()) == code,
        s[w + 1 + code.len()] == ')',
        s[w + 2 + code.len()] == ' ',
    ensures
        exit_code_len(s, w) == code.len() + 3,
{
    let k = code.len() as int;
    assert forall|j: int| w + 1 <= j < w + 1 + k implies is_digit(#[trigger] s[j]) by {
        assert(s[j] == s.subrange(w + 1, w + 1 + k)[j - w - 1]);
    }
    lemma_digit_run_end_at(s, w + 1, w + 1 + k);
}

/// The stripper takes a presentation prefix whole where a digit
/// follows it.
proof fn lemma_prefix_taken(word: Seq<char>, code: Seq<char>, body: Seq<char>)
    requires
        word == "Up "@ || word == "Exited "@ || (word.len() == 0 && code.len() == 0),
        all_digits(code),
        body.len() > 0,
        is_digit(body[0]),
    ensures
        strip_prefix(status_prefix(word, code) + body) == body,
{
    reveal_strlit("Up ");
    reveal_strlit("Exited ");
    let p = status_prefix(word, code);
    let s = p + body;
    let w = word.len() as int;
    if word.len() == 0 {
        assert(s =~= body);
        lemma_no_prefix(s);
    } else {
        lemma_state_word(word, p.skip(w) + body);
        assert(s =~= word + (p.skip(w) + body));
        if code.len() == 0 {
            assert(s[w] == body[0]);
        } else {
            let k = code.len() as int;
            assert(s[w] == '(');
            assert(s.subrange(w + 1, w + 1 + k) =~= code);
            assert(s[w + 1 + k] == ')');
            assert(s[w + 2 + k] == ' ');
            lemma_exit_code(s, w, code);
        }
    }
    assert(s.skip(p.len() as int) =~= body);
}

/// In a line made of a piece, a space and a second piece, with at most
/// a space and more behind it, the two pieces are the first two tokens.
proof fn lemma_two_tokens(first: Seq<char>, second: Seq<char>, rest: Seq<char>)
    requires
        forall|i: int| 0 <= i < first.len() ==> #[trigger] first[i] != ' ',
        forall|i: int| 0 <= i < second.len() ==> #[trigger] second[i] != ' ',
        rest.len() == 0 || rest[0] == ' ',
    ensures
        has_second_token(first + seq![' '] + second + rest),
        first_token(first + seq![' '] + second + rest) == first,
        second_token(first + seq![' '] + second + rest) == second,
{
    let t = first + seq![' '] + second + rest;
    let a = first.len() as int;
    let b = a + 1 + second.len();
    assert forall|j: int| 0 <= j < a implies #[trigger] t[j] != ' ' by {
        assert(t[j] == first[j]);
    }
    assert(t[a] == ' ');
    lemma_token_end_at(t, 0, a);
    assert(first_token(t) =~= first);
    assert forall|j: int| a + 1 <= j < b implies #[trigger] t[j] != ' ' by {
        assert(t[j] == second[j - a - 1]);
    }
    if rest.len() > 0 {
        assert(t[b] == rest[0]);
    }
    lemma_token_end_at(t, a + 1, b);
    assert(second_token(t) =~= second);
}

/// A status line made of a presentation prefix, a number, a space and a
/// unit word parses to exactly that number and unit, whatever follows
/// the unit after a further space.
pub proof fn lemma_parse_reads_amount_and_unit(
    word: Seq<char>,
    code: Seq<char>,
    amount: Seq<char>,
    unit: TimeUnit,
    rest: Seq<char>,
)
    requires
        word == "Up "@ || word == "Exited "@ || (word.len() == 0 && code.len() == 0),
        all_digits(code),
        amount.len() > 0,
        all_digits(amount),
        decimal_value(amount) <= u64::MAX,
        rest.len() == 0 || rest[0] == ' ',
    ensures
        parse_spec(status_prefix(word, code) + amount + seq![' '] + unit.name() + rest) == Ok::<
            ParsedDuration,
            InputError,
        >(ParsedDuration { amount: decimal_value(amount) as u64, unit }),
{
    lemma_unit_names(unit);
    let name = unit.name();
    let body = amount + seq![' '] + name + rest;
    let s = status_prefix(word, code) + amount + seq![' '] + name + rest;
    assert(s =~= status_prefix(word, code) + body);
    assert(is_digit(amount[0]));
    assert(body[0] == amount[0]);
    lemma_prefix_taken(word, code, body);
    assert forall|i: int| 0 <= i < amount.len() implies #[trigger] amount[i] != ' ' by {
        assert(is_digit(amount[i]));
    }
    lemma_two_tokens(amount, name, rest);
    assert(numeral_digits(amount) == amount);
    assert(s.len() > 0);
}

/// For one amount above zero, each unit stands for strictly more seconds
/// than the one before it: seconds, minutes, hours, days, weeks, months,
/// years.
pub proof fn lemma_unit_table_increasing(amount: u64)
    requires
        amount > 0,
    ensures
        seconds_in(amount, TimeUnit::Seconds) < seconds_in(amount, TimeUnit::Minutes),
        seconds_in(amount, TimeUnit::Minutes) < seconds_in(amount, TimeUnit::Hours),
        seconds_in(amount, TimeUnit::Hours) < seconds_in(amount, TimeUnit::Days),
        seconds_in(amount, TimeUnit::Days) < seconds_in(amount, TimeUnit::Weeks),
        seconds_in(amount, TimeUnit::Weeks) < seconds_in(amount, TimeUnit::Months),
        seconds_in(amount, TimeUnit::Months) < seconds_in(amount, TimeUnit::Years),
{
}

/// A number written in decimal reads back as itself: its digits are
/// digits, and their value is the number.
pub proof fn lemma_decimal_round_trip(n: nat)
    ensures
        decimal_digits(n).len() > 0,
        all_digits(decimal_digits(n)),
        decimal_value(decimal_digits(n)) == n,
    decreases n,
{
    if n < 10 {
        let d = decimal_digits(n);
        assert(d.drop_last() =~= Seq::<char>::empty());
        assert(decimal_value(d.drop_last()) == 0);
    } else {
        lemma_decimal_round_trip(n / 10);
        let head = decimal_digits(n / 10);
        let d = decimal_digits(n);
        assert(d.drop_last() =~= head);
        assert forall|i: int| 0 <= i < d.len() implies is_digit(#[trigger] d[i]) by {
            if i < head.len() {
                assert(d[i] == head[i]);
            }
        }
    }
}

} // verus!
