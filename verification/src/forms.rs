use crate::calendar::{convert_to_datetime, day_named, instant_named, parse_day, TimeOfDay};
use crate::routine::Routine;
use crate::task::Task;
use vstd::prelude::*;
use vstd::string::*;

verus! {

/// Why a form was not accepted.
#[derive(Clone, Copy, Debug, PartialEq, Eq, Structural)]
pub enum FormError {
    /// A time of day or a duration is not hours and minutes.
    Time,
    /// A day or an instant could not be read.
    Date,
    /// The importance is no number from 0 to 255.
    Importance,
}

/// The byte of the plus sign.
pub const PLUS_SIGN: u8 = 43;

/// The byte of the digit zero.
pub const DIGIT_ZERO: u8 = 48;

/// The byte of the digit nine.
pub const DIGIT_NINE: u8 = 57;

/// The byte of the colon.
pub const COLON: u8 = 58;

/// The byte is a decimal digit.
pub open spec fn is_digit(b: u8) -> bool {
    DIGIT_ZERO <= b <= DIGIT_NINE
}

/// The number that a run of decimal digits writes.
pub open spec fn digits_value(digits: Seq<u8>) -> nat
    decreases digits.len(),
{
    if digits.len() == 0 {
        0
    } else {
        digits_value(digits.drop_last()) * 10 + (digits.last() - DIGIT_ZERO) as nat
    }
}

/// Every byte is a decimal digit.
pub open spec fn all_digits(text: Seq<u8>) -> bool {
    forall|i: int| 0 <= i < text.len() ==> is_digit(#[trigger] text[i])
}

/// `text` without the plus sign in front of it, if it has one.
pub open spec fn unsigned(text: Seq<u8>) -> Seq<u8> {
    if text.len() > 0 && text[0] == PLUS_SIGN {
        text.skip(1)
    } else {
        text
    }
}

/// The number that `text` writes in decimal: a plus sign or none, then one
/// digit or more and nothing else.
pub open spec fn decimal(text: Seq<u8>) -> Option<nat> {
    if unsigned(text).len() > 0 && all_digits(unsigned(text)) {
        Some(digits_value(unsigned(text)))
    } else {
        None
    }
}

/// A number read from text, as far as it does not exceed `limit`.
pub open spec fn bounded(value: Option<nat>, limit: u32) -> Option<u32> {
    match value {
        Some(n) => if n <= limit {
            Some(n as u32)
        } else {
            None
        },
        None => None,
    }
}

/// The number of bytes of `text` that stand before its first colon; all of
/// them where it has none.
pub open spec fn until_colon(text: Seq<u8>) -> nat
    decreases text.len(),
{
    if text.len() == 0 || text[0] == COLON {
        0
    } else {
        1 + until_colon(text.skip(1))
    }
}

/// The time of day that `text` writes as hours, a colon and minutes: each a
/// decimal number, the hours below 24 and the minutes below 60. What follows
/// a second colon is not read.
pub open spec fn clock_of(text: Seq<u8>) -> Option<TimeOfDay> {
    let first = until_colon(text);
    if first >= text.len() {
        None
    } else {
        let rest = text.skip(first as int + 1);
        match (
            bounded(decimal(text.take(first as int)), 23),
            bounded(decimal(rest.take(until_colon(rest) as int)), 59),
        ) {
            (Some(hour), Some(minute)) => Some(TimeOfDay { hour: hour as u8, minute: minute as u8 }),
            _ => None,
        }
    }
}

/// The level of importance that `text` writes: a decimal number up to 255.
pub open spec fn level_of(text: Seq<u8>) -> Option<u8> {
    match bounded(decimal(text), 255) {
        Some(level) => Some(level as u8),
        None => None,
    }
}

proof fn lemma_colon_found(text: Seq<u8>, at: int)
    requires
        0 <= at <= text.len(),
        forall|j: int| 0 <= j < at ==> text[j] != COLON,
        at == text.len() || text[at] == COLON,
    ensures
        until_colon(text) == at,
    decreases text.len(),
{
    if at > 0 {
        lemma_colon_found(text.skip(1), at - 1);
    }
}

fn find_colon(bytes: &[u8], from: usize) -> (at: usize)
    requires
        from <= bytes.len(),
    ensures
        from <= at <= bytes.len(),
        at - from == until_colon(bytes@.skip(from as int)),
{
    let mut at: usize = from;
    while at < bytes.len() && bytes[at] != COLON
        invariant
            from <= at <= bytes.len(),
            forall|j: int| from <= j < at ==> bytes[j] != COLON,
        decreases bytes.len() - at,
    {
        at += 1;
    }
    proof {
        lemma_colon_found(bytes@.skip(from as int), at - from);
    }
    at
}

fn read_decimal(bytes: &[u8], from: usize, to: usize, limit: u32) -> (value: Option<u32>)
    requires
        from <= to <= bytes.len(),
    ensures
        value == bounded(decimal(bytes@.subrange(from as int, to as int)), limit),
{
    let ghost text = bytes@.subrange(from as int, to as int);
    let mut i: usize = from;
    if i < to && bytes[i] == PLUS_SIGN {
        i += 1;
    }
    let start: usize = i;
    let ghost digits = bytes@.subrange(start as int, to as int);
    proof {
        if start > from {
            assert(text[0] == PLUS_SIGN);
            assert(digits =~= text.skip(1));
        } else {
            assert(digits =~= text);
            assert(text.len() > 0 ==> text[0] == bytes[from as int]);
        }
    }
    if start == to {
        return None;
    }
    let cap: u64 = limit as u64 + 1;
    let mut acc: u64 = 0;
    while i < to
        invariant
            from <= start <= i <= to <= bytes.len(),
            cap == limit + 1,
            text == bytes@.subrange(from as int, to as int),
            digits == bytes@.subrange(start as int, to as int),
            digits == unsigned(text),
            forall|j: int| 0 <= j < i - start ==> is_digit(#[trigger] digits[j]),
            acc <= cap,
            acc == if digits_value(digits.take(i - start)) <= limit {
                digits_value(digits.take(i - start))
            } else {
                cap as nat
            },
        decreases to - i,
    {
        let b: u8 = bytes[i];
        if b < DIGIT_ZERO || b > DIGIT_NINE {
            proof {
                assert(!is_digit(digits[i - start]));
            }
            return None;
        }
        proof {
            let seen = digits.take(i - start);
            let more = digits.take(i - start + 1);
            assert(more.drop_last() =~= seen);
            assert(more.last() == b);
        }
        acc = acc * 10 + (b - DIGIT_ZERO) as u64;
        if acc > cap {
            acc = cap;
        }
        i += 1;
    }
    proof {
        assert(digits.take(to - start) =~= digits);
    }
    if acc > limit as u64 {
        None
    } else {
        Some(acc as u32)
    }
}

/// Reads a time of day written as hours, a colon and minutes.
pub fn parse_clock(text: &str) -> (time: Option<TimeOfDay>)
    ensures
        time == clock_of(text.spec_bytes()),
{
    let bytes = text.as_bytes();
    let first: usize = find_colon(bytes, 0);
    proof {
        assert(bytes@.skip(0) =~= bytes@);
    }
    if first >= bytes.len() {
        return None;
    }
    let second: usize = find_colon(bytes, first + 1);
    proof {
        let rest = bytes@.skip(first + 1);
        assert(bytes@.subrange(0, first as int) =~= bytes@.take(first as int));
        assert(bytes@.subrange(first + 1, second as int) =~= rest.take(second - first - 1));
    }
    let hour = read_decimal(bytes, 0, first, 23);
    let minute = read_decimal(bytes, first + 1, second, 59);
    match (hour, minute) {
        (Some(h), Some(m)) => Some(TimeOfDay { hour: h as u8, minute: m as u8 }),
        _ => None,
    }
}

/// Reads a level of importance written as a decimal number.
pub fn parse_level(text: &str) -> (level: Option<u8>)
    ensures
        level == level_of(text.spec_bytes()),
{
    let bytes = text.as_bytes();
    proof {
        assert(bytes@.subrange(0, bytes@.len() as int) =~= bytes@);
    }
    match read_decimal(bytes, 0, bytes.len(), 255) {
        Some(level) => Some(level as u8),
        None => None,
    }
}

/// The task that a filled-in form describes: nothing allotted yet, not done,
/// not stored. The time it requires is written as hours and minutes of a
/// day. The first field that cannot be read decides the error: the required
/// time, then the due date, then the importance.
pub open spec fn task_drafted(
    name: String,
    description: String,
    due_by: Seq<char>,
    req_time: Seq<u8>,
    imp_lvl: Seq<u8>,
) -> Result<Task, FormError> {
    match (clock_of(req_time), instant_named(due_by), level_of(imp_lvl)) {
        (None, _, _) => Err(FormError::Time),
        (Some(_), Err(_), _) => Err(FormError::Date),
        (Some(_), Ok(_), None) => Err(FormError::Importance),
        (Some(time), Ok(due), Some(level)) => Ok(
            Task {
                id: None,
                name,
                description,
                due_by: due,
                imp_lvl: level,
                req_time: (time.hour * 60 + time.minute) as u32,
                time_alloted: 0,
                is_done: false,
            },
        ),
    }
}

/// Makes the task that a filled-in form describes, ready to be stored.
pub fn add_todo(
    name: String,
    description: String,
    due_by: &str,
    req_time: &str,
    imp_lvl: &str,
) -> (task: Result<Task, FormError>)
    ensures
        task == task_drafted(
            name,
            description,
            due_by@,
            req_time.spec_bytes(),
            imp_lvl.spec_bytes(),
        ),
{
    let time = match parse_clock(req_time) {
        Some(time) => time,
        None => {
            return Err(FormError::Time);
        },
    };
    let due = match convert_to_datetime(due_by) {
        Ok(due) => due,
        Err(_) => {
            return Err(FormError::Date);
        },
    };
    let level = match parse_level(imp_lvl) {
        Some(level) => level,
        None => {
            return Err(FormError::Importance);
        },
    };
    Ok(
        Task {
            id: None,
            name,
            description,
            due_by: due,
            imp_lvl: level,
            req_time: time.hour as u32 * 60 + time.minute as u32,
            time_alloted: 0,
            is_done: false,
        },
    )
}

/// The routine that a filled-in form describes, not stored yet. The first
/// field that cannot be read decides the error: the two times, then the two
/// dates.
pub open spec fn routine_drafted(
    title: String,
    start_date: Seq<char>,
    end_date: Seq<char>,
    imp: String,
    start_time: Seq<u8>,
    end_time: Seq<u8>,
    weekdays: Vec<String>,
) -> Result<Routine, FormError> {
    match (clock_of(start_time), clock_of(end_time), day_named(start_date), day_named(end_date)) {
        (Some(from), Some(to), Ok(first), Ok(last)) => Ok(
            Routine {
                id: None,
                title,
                start_date: first,
                end_date: last,
                imp,
                start_time: from,
                end_time: to,
                weekdays,
            },
        ),
        (Some(_), Some(_), _, _) => Err(FormError::Date),
        _ => Err(FormError::Time),
    }
}

/// Makes the routine that a filled-in form describes, ready to be stored.
pub fn add_sched(
    title: String,
    start_date: &str,
    end_date: &str,
    imp: String,
    start_time: &str,
    end_time: &str,
    weekdays: Vec<String>,
) -> (routine: Result<Routine, FormError>)
    ensures
        routine == routine_drafted(
            title,
            start_date@,
            end_date@,
            imp,
            start_time.spec_bytes(),
            end_time.spec_bytes(),
            weekdays,
        ),
{
    let from = match parse_clock(start_time) {
        Some(time) => time,
        None => {
            return Err(FormError::Time);
        },
    };
    let to = match parse_clock(end_time) {
        Some(time) => time,
        None => {
            return Err(FormError::Time);
        },
    };
    let first = match parse_day(start_date) {
        Ok(day) => day,
        Err(_) => {
            return Err(FormError::Date);
        },
    };
    let last = match parse_day(end_date) {
        Ok(day) => day,
        Err(_) => {
            return Err(FormError::Date);
        },
    };
    Ok(
        Routine {
            id: None,
            title,
            start_date: first,
            end_date: last,
            imp,
            start_time: from,
            end_time: to,
            weekdays,
        },
    )
}

/// The selection holds a day of this name.
pub open spec fn selects(weekdays: Seq<String>, day: Seq<char>) -> bool {
    exists|j: int| 0 <= j < weekdays.len() && (#[trigger] weekdays[j])@ == day
}

/// Place `p` is the first at which the selection holds a day of this name.
pub open spec fn selects_first_at(weekdays: Seq<String>, day: Seq<char>, p: int) -> bool {
    &&& 0 <= p < weekdays.len()
    &&& weekdays[p]@ == day
    &&& !selects(weekdays.take(p), day)
}

/// Switches `day` in a selection of weekdays: a day that is selected leaves
/// the selection, at the first place where it stands; one that is not joins
/// it at the end.
pub fn toggle_weekday(weekdays: &mut Vec<String>, day: String)
    ensures
        !selects(old(weekdays)@, day@) ==> final(weekdays)@ == old(weekdays)@.push(day),
        forall|p: int|
            selects_first_at(old(weekdays)@, day@, p) ==> final(weekdays)@ == old(weekdays)@.remove(
                p,
            ),
{
    let mut at: usize = 0;
    while at < weekdays.len() && weekdays[at] != day
        invariant
            at <= weekdays.len(),
            weekdays@ == old(weekdays)@,
            forall|j: int| 0 <= j < at ==> (#[trigger] weekdays[j])@ != day@,
        decreases weekdays.len() - at,
    {
        at += 1;
    }
    proof {
        assert forall|p: int| selects_first_at(weekdays@, day@, p) implies p == at by {
            if p < at {
                assert(weekdays[p]@ != day@);
            }
            if at < p {
                assert(weekdays@.take(p)[at as int]@ == day@);
            }
        }
    }
    if at < weekdays.len() {
        let _ = weekdays.remove(at);
    } else {
        weekdays.push(day);
    }
}

/// How a level of importance is shown.
#[derive(Clone, Copy, Debug, PartialEq, Eq, Structural)]
pub enum Band {
    High,
    Medium,
    Low,
}

/// The band of a level of importance: high from 7, medium from 4, else low.
pub open spec fn band_of(level: u8) -> Band {
    if level >= 7 {
        Band::High
    } else if level >= 4 {
        Band::Medium
    } else {
        Band::Low
    }
}

/// Tells the band of a level of importance.
pub fn importance_band(level: u8) -> (band: Band)
    ensures
        band == band_of(level),
{
    if level >= 7 {
        Band::High
    } else if level >= 4 {
        Band::Medium
    } else {
        Band::Low
    }
}

} // verus!
