//! The task entity: its identity key, its scheduled moment and its rendering.

use vstd::prelude::*;
use crate::calendar::{Date, Moment};
use crate::text::{
    char_of_digit, char_is_digit, digit_char, digit_value, four_digits, is_digit, is_space,
    number2, number4, push_char, two_digits, value_of_digit,
};

verus! {

/// One entry of the checklist. `time`, when present, is the `HH:MM` text of
/// the scheduled clock time; a task without it lasts the whole day.
#[derive(Debug, Clone, PartialEq, Eq, Hash)]
pub struct Task {
    pub completed: bool,
    pub date: Date,
    pub time: Option<String>,
    pub description: String,
}

/// What a task holds, as mathematical values.
pub struct TaskView {
    pub completed: bool,
    pub date: Date,
    pub time: Option<Seq<char>>,
    pub description: Seq<char>,
}

impl View for Task {
    type V = TaskView;

    open spec fn view(&self) -> TaskView {
        TaskView {
            completed: self.completed,
            date: self.date,
            time: match self.time {
                Some(t) => Some(t@),
                None => None,
            },
            description: self.description@,
        }
    }
}

/// A task as a task line can hold it: a valid date, a valid clock time if
/// any, and a description that is not empty and has no whitespace at either
/// end.
pub open spec fn task_wf(t: TaskView) -> bool {
    &&& t.date.wf()
    &&& t.time matches Some(x) ==> is_clock_text(x)
    &&& t.description.len() > 0
    &&& !is_space(t.description[0])
    &&& !is_space(t.description.last())
}

/// The views of a list of tasks.
pub open spec fn task_views(tasks: Seq<Task>) -> Seq<TaskView> {
    tasks.map_values(|t: Task| t@)
}

/// `YYYY-MM-DD`.
pub open spec fn date_text(d: Date) -> Seq<char> {
    four_digits(d.year as int) + seq!['-'] + two_digits(d.month as int) + seq!['-'] + two_digits(
        d.day as int,
    )
}

/// A valid `HH:MM` clock time on the 24-hour clock.
pub open spec fn is_clock_text(t: Seq<char>) -> bool {
    &&& t.len() == 5
    &&& is_digit(t[0]) && is_digit(t[1]) && t[2] == ':' && is_digit(t[3]) && is_digit(t[4])
    &&& number2(t, 0) < 24
    &&& number2(t, 3) < 60
}

pub open spec fn all_day_marker() -> Seq<char> {
    seq!['a', 'l', 'l', 'd', 'a', 'y']
}

/// The identity of a task: `DATE-TIME-DESCRIPTION`, with `allday` for a
/// task without a time. It does not depend on completion.
pub open spec fn key_of(t: TaskView) -> Seq<char> {
    date_text(t.date) + seq!['-'] + match t.time {
        Some(x) => x,
        None => all_day_marker(),
    } + seq!['-'] + t.description
}

pub open spec fn status_text(completed: bool) -> Seq<char> {
    if completed {
        seq!['[', 'x', ']']
    } else {
        seq!['[', ' ', ']']
    }
}

/// `[x] DATE TIME : DESCRIPTION`, with `[ ]` for an open task and no time
/// for an all-day one.
#[verifier::opaque]
pub open spec fn render_text(t: TaskView) -> Seq<char> {
    status_text(t.completed) + seq![' '] + date_text(t.date) + match t.time {
        Some(x) => seq![' '] + x,
        None => Seq::empty(),
    } + seq![' ', ':', ' '] + t.description
}

/// The scheduled moment of a timed task; none for an all-day task, or where
/// date and time do not make a valid moment.
pub open spec fn moment_of(t: TaskView) -> Option<Moment> {
    match t.time {
        Some(x) => if t.date.wf() && is_clock_text(x) {
            Some(
                Moment {
                    date: t.date,
                    hour: number2(x, 0) as u32,
                    minute: number2(x, 3) as u32,
                    second: 0,
                },
            )
        } else {
            None
        },
        None => None,
    }
}

/// Appends `YYYY-MM-DD` to `s`.
fn push_date(s: &mut String, d: Date)
    requires
        d.wf(),
    ensures
        final(s)@ == old(s)@ + date_text(d),
{
    let y = d.year as u32;
    push_char(s, char_of_digit(y / 1000));
    push_char(s, char_of_digit(y / 100 % 10));
    push_char(s, char_of_digit(y / 10 % 10));
    push_char(s, char_of_digit(y % 10));
    push_char(s, '-');
    push_char(s, char_of_digit(d.month / 10));
    push_char(s, char_of_digit(d.month % 10));
    push_char(s, '-');
    push_char(s, char_of_digit(d.day / 10));
    push_char(s, char_of_digit(d.day % 10));
    assert(s@ =~= old(s)@ + date_text(d));
}

/// Reads a valid `HH:MM` clock time as hour and minute.
fn read_clock(t: &str) -> (r: Option<(u32, u32)>)
    ensures
        r is Some <==> is_clock_text(t@),
        r matches Some((h, m)) ==> h as int == number2(t@, 0) && m as int == number2(t@, 3),
{
    if t.unicode_len() != 5 {
        return None;
    }
    let c0 = t.get_char(0);
    let c1 = t.get_char(1);
    let c2 = t.get_char(2);
    let c3 = t.get_char(3);
    let c4 = t.get_char(4);
    if !(char_is_digit(c0) && char_is_digit(c1) && c2 == ':' && char_is_digit(c3)
        && char_is_digit(c4)) {
        return None;
    }
    let h = value_of_digit(c0) * 10 + value_of_digit(c1);
    let m = value_of_digit(c3) * 10 + value_of_digit(c4);
    if h < 24 && m < 60 {
        Some((h, m))
    } else {
        None
    }
}

impl Task {
    /// The scheduled moment: none for an all-day task, or where the date
    /// and the time text do not make a valid moment.
    pub fn datetime(&self) -> (r: Option<Moment>)
        ensures
            r == moment_of(self@),
            r matches Some(m) ==> m.wf(),
    {
        match &self.time {
            None => None,
            Some(t) => {
                if !self.date.is_valid() {
                    return None;
                }
                match read_clock(t.as_str()) {
                    Some((h, m)) => Some(Moment { date: self.date, hour: h, minute: m, second: 0 }),
                    None => None,
                }
            },
        }
    }

    /// The identity key: `DATE-TIME-DESCRIPTION`, or `DATE-allday-DESCRIPTION`.
    pub fn unique_key(&self) -> (r: String)
        requires
            self.date.wf(),
        ensures
            r@ == key_of(self@),
    {
        let mut s = String::new();
        push_date(&mut s, self.date);
        push_char(&mut s, '-');
        match &self.time {
            Some(t) => s.append(t.as_str()),
            None => {
                push_char(&mut s, 'a');
                push_char(&mut s, 'l');
                push_char(&mut s, 'l');
                push_char(&mut s, 'd');
                push_char(&mut s, 'a');
                push_char(&mut s, 'y');
            },
        }
        push_char(&mut s, '-');
        s.append(self.description.as_str());
        assert(s@ =~= key_of(self@));
        s
    }

    /// `[x] DATE TIME : DESCRIPTION`; `[ ]` for an open task, and no time
    /// for an all-day one.
    pub fn render(&self) -> (r: String)
        requires
            self.date.wf(),
        ensures
            r@ == render_text(self@),
    {
        let mut s = String::new();
        push_char(&mut s, '[');
        push_char(&mut s, if self.completed { 'x' } else { ' ' });
        push_char(&mut s, ']');
        push_char(&mut s, ' ');
        push_date(&mut s, self.date);
        match &self.time {
            Some(t) => {
                push_char(&mut s, ' ');
                s.append(t.as_str());
            },
            None => {},
        }
        push_char(&mut s, ' ');
        push_char(&mut s, ':');
        push_char(&mut s, ' ');
        s.append(self.description.as_str());
        reveal(render_text);
        assert(s@ =~= render_text(self@));
        s
    }
}

/// Two tasks that differ only in completion have the same identity key.
pub proof fn lemma_key_ignores_completion(a: TaskView, b: TaskView)
    requires
        a.date == b.date,
        a.time == b.time,
        a.description == b.description,
    ensures
        key_of(a) == key_of(b),
{
}

proof fn lemma_digit_round_trip(n: int)
    requires
        0 <= n <= 9,
    ensures
        is_digit(digit_char(n)),
        digit_value(digit_char(n)) == n,
{
}

/// The date of a date text reads back from its digits.
proof fn lemma_date_text_numbers(d: Date)
    requires
        d.wf(),
    ensures
        number4(date_text(d), 0) == d.year,
        number2(date_text(d), 5) == d.month,
        number2(date_text(d), 8) == d.day,
{
    let y = d.year as int;
    let t = date_text(d);
    lemma_digit_round_trip(y / 1000);
    lemma_digit_round_trip(y / 100 % 10);
    lemma_digit_round_trip(y / 10 % 10);
    lemma_digit_round_trip(y % 10);
    lemma_digit_round_trip(d.month as int / 10);
    lemma_digit_round_trip(d.month as int % 10);
    lemma_digit_round_trip(d.day as int / 10);
    lemma_digit_round_trip(d.day as int % 10);
    assert(t[0] == digit_char(y / 1000) && t[1] == digit_char(y / 100 % 10));
    assert(t[2] == digit_char(y / 10 % 10) && t[3] == digit_char(y % 10));
    assert(t[5] == digit_char(d.month as int / 10) && t[6] == digit_char(d.month as int % 10));
    assert(t[8] == digit_char(d.day as int / 10) && t[9] == digit_char(d.day as int % 10));
    assert((y / 1000) * 1000 + (y / 100 % 10) * 100 + (y / 10 % 10) * 10 + y % 10 == y)
        by (nonlinear_arith)
        requires
            0 <= y <= 9999,
    ;
}

/// The places of the parts of an identity key.
proof fn lemma_key_layout(t: TaskView)
    ensures
        ({
            let k = key_of(t);
            let mid = match t.time {
                Some(x) => x,
                None => all_day_marker(),
            };
            &&& k.subrange(0, 10) == date_text(t.date)
            &&& k.subrange(11, 11 + mid.len() as int) == mid
            &&& k.subrange(12 + mid.len() as int, k.len() as int) == t.description
            &&& k.len() == 12 + mid.len() + t.description.len()
        }),
{
    let k = key_of(t);
    let mid = match t.time {
        Some(x) => x,
        None => all_day_marker(),
    };
    assert(date_text(t.date).len() == 10);
    assert(k =~= date_text(t.date) + seq!['-'] + mid + seq!['-'] + t.description);
    assert(k.subrange(0, 10) =~= date_text(t.date));
    assert(k.subrange(11, 11 + mid.len() as int) =~= mid);
    assert(k.subrange(12 + mid.len() as int, k.len() as int) =~= t.description);
}

/// Identity keys are injective: tasks with valid dates and clock times and
/// the same key have the same date, time and description.
pub proof fn lemma_key_injective(a: TaskView, b: TaskView)
    requires
        a.date.wf(),
        b.date.wf(),
        a.time matches Some(x) ==> is_clock_text(x),
        b.time matches Some(x) ==> is_clock_text(x),
        key_of(a) == key_of(b),
    ensures
        a.date == b.date,
        a.time == b.time,
        a.description == b.description,
{
    let k = key_of(a);
    lemma_key_layout(a);
    lemma_key_layout(b);
    lemma_date_text_numbers(a.date);
    lemma_date_text_numbers(b.date);
    let da = date_text(a.date);
    let db = date_text(b.date);
    assert(da == db);
    assert(number4(da, 0) == number4(db, 0));
    assert(number2(da, 5) == number2(db, 5));
    assert(number2(da, 8) == number2(db, 8));
    assert(a.date == b.date);
    let ma = match a.time {
        Some(x) => x,
        None => all_day_marker(),
    };
    let mb = match b.time {
        Some(x) => x,
        None => all_day_marker(),
    };
    assert(k[11] == ma[0]);
    assert(k[11] == mb[0]);
    assert(!is_digit(all_day_marker()[0]));
    assert(a.time is Some <==> b.time is Some);
    assert(ma.len() == mb.len());
    assert(ma == mb);
    assert(a.description == b.description);
}

} // verus!
