//! Points in time, and what `--since` says of them.
use vstd::prelude::*;
use vstd::slice::slice_subrange;
use vstd::string::*;

use crate::text;
use crate::text::{parse_unsigned, to_chars, trim};

verus! {

/// A point in time: whole seconds after the Unix epoch, or before it where they are
/// negative, and the nanoseconds on top of them.
#[derive(Debug, Clone, Copy, PartialEq, Eq, Structural)]
pub struct Moment {
    pub secs: i64,
    pub nanos: u32,
}

impl Moment {
    /// Whether this point lies before another.
    pub open spec fn precedes(self, other: Moment) -> bool {
        self.secs < other.secs || (self.secs == other.secs && self.nanos < other.nanos)
    }

    /// Whether this point lies before another.
    pub fn is_before(&self, other: &Moment) -> (r: bool)
        ensures
            r == self.precedes(*other),
    {
        self.secs < other.secs || (self.secs == other.secs && self.nanos < other.nanos)
    }
}

/// The Unix seconds of a point in time: zero where it lies before the epoch.
pub open spec fn unix_seconds(now: Moment) -> nat {
    if now.secs < 0 {
        0
    } else {
        now.secs as nat
    }
}

/// The Unix seconds that a clock shows.
pub fn now_ts(now: Moment) -> (r: u64)
    ensures
        r == unix_seconds(now),
{
    if now.secs < 0 {
        0
    } else {
        now.secs as u64
    }
}

/// What `--since` asks for.
pub enum Since {
    /// A point in time, in Unix seconds.
    At(nat),
    /// A number of seconds before now.
    Ago(nat),
}

/// Why `--since` cannot be understood.
#[derive(Debug, Clone, Copy, PartialEq, Eq, Structural)]
pub enum SinceError {
    Empty,
    Value,
    Unit,
}

/// The seconds in a unit of time.
pub open spec fn unit_seconds(unit: char) -> Option<nat> {
    if unit == 's' || unit == 'S' {
        Some(1)
    } else if unit == 'm' || unit == 'M' {
        Some(60)
    } else if unit == 'h' || unit == 'H' {
        Some(3600)
    } else if unit == 'd' || unit == 'D' {
        Some(86400)
    } else {
        None
    }
}

/// What `--since` says: Unix seconds, or a number and a unit.
pub open spec fn since_of(input: Seq<char>) -> Result<Since, SinceError> {
    let s = text::trimmed(input);
    if s.len() == 0 {
        Err(SinceError::Empty)
    } else {
        match text::unsigned_of(s, u64::MAX as nat) {
            Some(ts) => Ok(Since::At(ts)),
            None => match text::unsigned_of(s.drop_last(), u64::MAX as nat) {
                None => Err(SinceError::Value),
                Some(n) => match unit_seconds(s.last()) {
                    None => Err(SinceError::Unit),
                    Some(u) => Ok(Since::Ago(n * u)),
                },
            },
        }
    }
}

/// Whether `--since` stays in the range of the numbers that hold it: a point in time
/// fits the seconds of a `Moment`, a span fits a `u64`, and the unit is one byte.
pub open spec fn since_in_range(input: Seq<char>) -> bool {
    let s = text::trimmed(input);
    &&& since_of(input) matches Ok(Since::At(ts)) ==> ts <= i64::MAX
    &&& since_of(input) matches Ok(Since::Ago(secs)) ==> secs <= u64::MAX
    &&& s.len() > 0 && text::unsigned_of(s, u64::MAX as nat) is None ==> (s.last() as u32) < 0x80
}

/// A point in time some seconds before another, or the epoch where there is no such
/// point.
pub open spec fn seconds_before(now: Moment, secs: nat) -> Moment {
    if now.secs - secs < i64::MIN {
        Moment { secs: 0, nanos: 0 }
    } else {
        Moment { secs: (now.secs - secs) as i64, nanos: now.nanos }
    }
}

/// Reads the parts of a `--since` that is not empty.
enum Parts {
    At(u64),
    Ago(u64, u64),
    Value,
    Unit,
}

fn since_parts(s: &[char]) -> (r: Parts)
    requires
        s@.len() > 0,
    ensures
        match r {
            Parts::At(ts) => text::unsigned_of(s@, u64::MAX as nat) == Some(ts as nat),
            Parts::Ago(n, u) => text::unsigned_of(s@, u64::MAX as nat) is None && text::unsigned_of(
                s@.drop_last(),
                u64::MAX as nat,
            ) == Some(n as nat) && unit_seconds(s@.last()) == Some(u as nat),
            Parts::Value => text::unsigned_of(s@, u64::MAX as nat) is None && text::unsigned_of(
                s@.drop_last(),
                u64::MAX as nat,
            ) is None,
            Parts::Unit => text::unsigned_of(s@, u64::MAX as nat) is None && text::unsigned_of(
                s@.drop_last(),
                u64::MAX as nat,
            ) is Some && unit_seconds(s@.last()) is None,
        },
{
    if let Some(ts) = parse_unsigned(s) {
        return Parts::At(ts);
    }
    let num = slice_subrange(s, 0, s.len() - 1);
    assert(num@ == s@.drop_last());
    match parse_unsigned(num) {
        None => Parts::Value,
        Some(n) => {
            let unit: char = s[s.len() - 1];
            if unit == 's' || unit == 'S' {
                Parts::Ago(n, 1)
            } else if unit == 'm' || unit == 'M' {
                Parts::Ago(n, 60)
            } else if unit == 'h' || unit == 'H' {
                Parts::Ago(n, 3600)
            } else if unit == 'd' || unit == 'D' {
                Parts::Ago(n, 86400)
            } else {
                Parts::Unit
            }
        },
    }
}

/// Whether `parse_since` can take a text.
pub fn since_fits(input: &str) -> (r: bool)
    ensures
        r == since_in_range(input@),
{
    let chars = to_chars(input);
    let s = trim(chars.as_slice());
    if s.len() == 0 {
        return true;
    }
    let last: char = s[s.len() - 1];
    match since_parts(s) {
        Parts::At(ts) => ts <= i64::MAX as u64,
        Parts::Ago(n, u) => n.checked_mul(u).is_some() && (last as u32) < 0x80,
        _ => (last as u32) < 0x80,
    }
}

/// The point in time that `--since` names: Unix seconds, or a number of seconds,
/// minutes, hours or days before now.
pub fn parse_since(input: &str, now: Moment) -> (r: Result<Moment, SinceError>)
    requires
        since_in_range(input@),
    ensures
        match since_of(input@) {
            Ok(Since::At(ts)) => r == Ok::<Moment, SinceError>(Moment { secs: ts as i64, nanos: 0 }),
            Ok(Since::Ago(secs)) => r == Ok::<Moment, SinceError>(seconds_before(now, secs)),
            Err(e) => r == Err::<Moment, SinceError>(e),
        },
{
    let chars = to_chars(input);
    let s = trim(chars.as_slice());
    if s.len() == 0 {
        return Err(SinceError::Empty);
    }
    match since_parts(s) {
        Parts::At(ts) => Ok(Moment { secs: ts as i64, nanos: 0 }),
        Parts::Ago(n, u) => {
            assert(since_of(input@) == Ok::<Since, SinceError>(Since::Ago(n as nat * u as nat)));
            let secs: u64 = n * u;
            match now.secs.checked_sub_unsigned(secs) {
                Some(t) => Ok(Moment { secs: t, nanos: now.nanos }),
                None => Ok(Moment { secs: 0, nanos: 0 }),
            }
        },
        Parts::Value => Err(SinceError::Value),
        Parts::Unit => Err(SinceError::Unit),
    }
}

/// A number in decimal is that many Unix seconds, and with a unit behind it that many units
/// before now.
pub proof fn since_takes_numbers_and_units(n: nat, unit: char)
    requires
        n <= u64::MAX,
        unit_seconds(unit) is Some,
    ensures
        since_of(text::decimal(n)) == Ok::<Since, SinceError>(Since::At(n)),
        since_of(text::decimal(n).push(unit)) == Ok::<Since, SinceError>(
            Since::Ago(n * unit_seconds(unit)->0),
        ),
{
    let d = text::decimal(n);
    let s = d.push(unit);
    let f = |c: char| text::is_digit(c);
    text::decimal_reads_back(n);
    text::integer_is_tight(n as int);
    assert(f(d[0]));
    assert(text::trim_start(s) == s);
    assert(s.last() == unit);
    assert(text::trim_end(s) == s);
    assert(!f(s.last()));
    assert(!f(s.skip(1).last()));
    assert(s.skip(1)[s.len() - 2] == unit);
    assert(!s.skip(1).all(f));
    assert(s[s.len() - 1] == unit);
    assert(!s.all(f));
    assert(s.drop_last() =~= d);
}

impl SinceError {
    /// What is said to the user.
    pub open spec fn text(self, input: Seq<char>) -> Seq<char> {
        match self {
            SinceError::Empty => "--since is empty"@,
            SinceError::Value => "invalid --since value: "@ + input,
            SinceError::Unit => "invalid --since unit: "@ + input + " (use s/m/h/d or unix seconds)"@,
        }
    }

    /// What is said to the user.
    pub fn message(&self, input: &str) -> (r: String)
        ensures
            r@ == self.text(input@),
    {
        match self {
            SinceError::Empty => "--since is empty".to_owned(),
            SinceError::Value => "invalid --since value: ".to_owned().concat(input),
            SinceError::Unit => "invalid --since unit: ".to_owned().concat(input).concat(
                " (use s/m/h/d or unix seconds)",
            ),
        }
    }
}

/// White space around `--since` makes no difference.
pub proof fn since_ignores_white_space(front: Seq<char>, input: Seq<char>, back: Seq<char>)
    requires
        text::blank(front),
        text::blank(back),
        text::tight(input),
    ensures
        since_of(front + input + back) == since_of(input),
{
    let none = Seq::<char>::empty();
    text::trimming_takes_white_space_alone(front, input, back);
    text::trimming_takes_white_space_alone(none, input, none);
    assert(none + input + none =~= input);
}

/// A number is worth as many seconds as its unit says, in lower or upper case. With any other
/// character behind it that is no digit, the unit is what is wrong.
pub proof fn units_are_seconds_minutes_hours_days(n: nat, c: char)
    requires
        n <= u64::MAX,
        !('0' <= c <= '9'),
        !text::is_space(c),
    ensures
        ({
            let r = since_of(text::decimal(n).push(c));
            &&& c == 's' || c == 'S' ==> r == Ok::<Since, SinceError>(Since::Ago(n))
            &&& c == 'm' || c == 'M' ==> r == Ok::<Since, SinceError>(Since::Ago(n * 60))
            &&& c == 'h' || c == 'H' ==> r == Ok::<Since, SinceError>(Since::Ago(n * 3600))
            &&& c == 'd' || c == 'D' ==> r == Ok::<Since, SinceError>(Since::Ago(n * 86400))
            &&& r is Ok <==> c == 's' || c == 'S' || c == 'm' || c == 'M' || c == 'h' || c == 'H' || c
                == 'd' || c == 'D'
            &&& r is Err ==> r == Err::<Since, SinceError>(SinceError::Unit)
        }),
{
    if unit_seconds(c) is Some {
        since_takes_numbers_and_units(n, c);
        let u = unit_seconds(c)->0;
        assert(u == 1 ==> n * u == n) by (nonlinear_arith);
    } else {
        let d = text::decimal(n);
        let s = d.push(c);
        let f = |c: char| text::is_digit(c);
        text::decimal_reads_back(n);
        text::integer_is_tight(n as int);
        assert(f(d[0]));
        assert(text::trim_start(s) == s);
        assert(s.last() == c);
        assert(text::trim_end(s) == s);
        assert(!f(s.last()));
        assert(s.skip(1)[s.len() - 2] == c);
        assert(!s.skip(1).all(f));
        assert(s[s.len() - 1] == c);
        assert(!s.all(f));
        assert(s.drop_last() =~= d);
    }
}

/// Nothing, or white space alone, is no time.
pub proof fn since_needs_something(blank: Seq<char>)
    requires
        text::blank(blank),
    ensures
        since_of(blank) == Err::<Since, SinceError>(SinceError::Empty),
{
    let none = Seq::<char>::empty();
    text::trimming_takes_white_space_alone(blank, none, none);
    assert(blank + none + none =~= blank);
}

/// Going back some seconds changes the seconds by as many, and nothing else, wherever there
/// is such a point in time.
pub proof fn going_back_is_exact(now: Moment, secs: nat)
    ensures
        now.secs - secs >= i64::MIN ==> now.secs - seconds_before(now, secs).secs == secs && seconds_before(
            now,
            secs,
        ).nanos == now.nanos,
        now.secs - secs < i64::MIN ==> seconds_before(now, secs).secs == 0 && seconds_before(now, secs).nanos
            == 0,
{
}

/// Points in time go by their nanoseconds after the epoch.
pub proof fn points_go_by_nanoseconds(a: Moment, b: Moment)
    requires
        a.nanos < 1_000_000_000,
        b.nanos < 1_000_000_000,
    ensures
        a.precedes(b) <==> a.secs * 1_000_000_000 + a.nanos < b.secs * 1_000_000_000 + b.nanos,
{
}

/// The Unix seconds of a point in time are its seconds, whatever its nanoseconds.
pub proof fn unix_seconds_are_whole(now: Moment)
    ensures
        now.secs >= 0 ==> unix_seconds(now) == now.secs,
        now.secs < 0 ==> unix_seconds(now) == 0,
{
}

/// Every number that a point in time can hold is in range, and every span of units whose
/// seconds can be counted.
pub proof fn numbers_that_fit_are_in_range(n: nat, unit: char)
    requires
        n <= u64::MAX,
        unit_seconds(unit) is Some,
    ensures
        since_in_range(text::decimal(n)) <==> n <= i64::MAX,
        since_in_range(text::decimal(n).push(unit)) <==> n * unit_seconds(unit)->0 <= u64::MAX,
{
    since_takes_numbers_and_units(n, unit);
    text::integer_is_tight(n as int);
    text::decimal_reads_back(n);
    let d = text::decimal(n);
    let f = |c: char| text::is_digit(c);
    assert(f(d[0]));
    assert(f(d.last()));
    let none = Seq::<char>::empty();
    let s = d.push(unit);
    assert(s[0] == d[0]);
    text::trimming_takes_white_space_alone(none, s, none);
    assert(none + s + none =~= s);
    text::zeros_in_front_count_nothing(none, n, u64::MAX as nat);
    assert(none + d =~= d);
}

/// A `--since` that is wrong is named as it was given.
pub proof fn wrong_since_is_named(input: Seq<char>)
    ensures
        text::occurs(input, SinceError::Value.text(input)),
        text::occurs(input, SinceError::Unit.text(input)),
{
    text::occurs_between("invalid --since value: "@, input, Seq::empty());
    text::occurs_between(
        "invalid --since unit: "@,
        input,
        " (use s/m/h/d or unix seconds)"@,
    );
}

/// A text that begins with neither a digit nor a plus is no time.
pub proof fn since_begins_with_a_number(input: Seq<char>)
    requires
        input.len() > 0,
        text::tight(input),
        !('0' <= input[0] <= '9'),
        input[0] != '+',
    ensures
        since_of(input) == Err::<Since, SinceError>(SinceError::Value),
{
    let none = Seq::<char>::empty();
    text::trimming_takes_white_space_alone(none, input, none);
    assert(none + input + none =~= input);
    if text::unsigned_of(input, u64::MAX as nat) is Some {
        text::numbers_are_digits(input, u64::MAX as nat, 0);
    }
    let front = input.drop_last();
    if front.len() > 0 {
        assert(front[0] == input[0]);
        if text::unsigned_of(front, u64::MAX as nat) is Some {
            text::numbers_are_digits(front, u64::MAX as nat, 0);
        }
    }
}

} // verus!
