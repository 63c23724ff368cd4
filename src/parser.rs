//! The checklist grammar. A task line reads
//! `- [S] YYYY-MM-DD[ HH:MM] : DESCRIPTION`, where `S` is a space, `x` or
//! `X`; whitespace may stand around the colon and between `]` and the date.
//! Every other line, and a line whose date or time does not exist, is
//! skipped.

use vstd::prelude::*;
use crate::calendar::Date;
use crate::task::{
    date_text, is_clock_text, render_text, status_text, task_views, task_wf, Task, TaskView,
};
use crate::text::{
    char_is_digit, char_is_space, digit_char, digit_value, four_digits, is_digit, is_space, number2,
    number4, push_char, two_digits, value_of_digit,
};

verus! {

/// The first position from `i` on that holds no whitespace (or the end).
pub open spec fn skip_space(s: Seq<char>, i: int) -> int
    decreases s.len() - i,
{
    if 0 <= i < s.len() && is_space(s[i]) {
        skip_space(s, i + 1)
    } else {
        i
    }
}

/// `hi`, moved left past the whitespace that ends `s[lo..hi]`.
pub open spec fn trim_end(s: Seq<char>, lo: int, hi: int) -> int
    decreases hi - lo,
{
    if lo < hi && is_space(s[hi - 1]) {
        trim_end(s, lo, hi - 1)
    } else {
        hi
    }
}

pub open spec fn is_status(c: char) -> bool {
    c == ' ' || c == 'x' || c == 'X'
}

/// `DDDD-DD-DD` stands at `i`.
pub open spec fn date_shape_at(s: Seq<char>, i: int) -> bool {
    &&& 0 <= i && i + 10 <= s.len()
    &&& is_digit(s[i]) && is_digit(s[i + 1]) && is_digit(s[i + 2]) && is_digit(s[i + 3])
    &&& s[i + 4] == '-' && is_digit(s[i + 5]) && is_digit(s[i + 6])
    &&& s[i + 7] == '-' && is_digit(s[i + 8]) && is_digit(s[i + 9])
}

/// `DD:DD` stands at `i`.
pub open spec fn time_shape_at(s: Seq<char>, i: int) -> bool {
    &&& 0 <= i && i + 5 <= s.len()
    &&& is_digit(s[i]) && is_digit(s[i + 1]) && s[i + 2] == ':' && is_digit(s[i + 3])
        && is_digit(s[i + 4])
}

/// The task that one line holds, if it is a task line.
pub open spec fn parse_line(l: Seq<char>) -> Option<TaskView> {
    if !(l.len() >= 5 && l[0] == '-' && l[1] == ' ' && l[2] == '[' && is_status(l[3]) && l[4]
        == ']') {
        None
    } else {
        let p = skip_space(l, 5);
        if !date_shape_at(l, p) {
            None
        } else {
            let date = Date {
                year: number4(l, p) as i32,
                month: number2(l, p + 5) as u32,
                day: number2(l, p + 8) as u32,
            };
            let q = skip_space(l, p + 10);
            let timed = q > p + 10 && time_shape_at(l, q);
            let colon = if timed {
                skip_space(l, q + 5)
            } else {
                q
            };
            let d0 = skip_space(l, colon + 1);
            let d1 = trim_end(l, d0, l.len() as int);
            if date.wf() && (!timed || is_clock_text(l.subrange(q, q + 5))) && colon < l.len()
                && l[colon] == ':' && d0 < d1 {
                Some(
                    TaskView {
                        completed: l[3] != ' ',
                        date,
                        time: if timed {
                            Some(l.subrange(q, q + 5))
                        } else {
                            None
                        },
                        description: l.subrange(d0, d1),
                    },
                )
            } else {
                None
            }
        }
    }
}

/// The task of `s[a..b]`, as a sequence of at most one.
pub open spec fn line_tasks(s: Seq<char>, a: int, b: int) -> Seq<TaskView> {
    match parse_line(s.subrange(a, b)) {
        Some(t) => seq![t],
        None => Seq::empty(),
    }
}

/// The tasks of the text from `start` on, where the current line began at
/// `start` and the scan stands at `i`. Lines end at `\n`.
pub open spec fn tasks_from(s: Seq<char>, start: int, i: int) -> Seq<TaskView>
    decreases s.len() - i,
{
    if i >= s.len() {
        line_tasks(s, start, s.len() as int)
    } else if s[i] == '\n' {
        line_tasks(s, start, i) + tasks_from(s, i + 1, i + 1)
    } else {
        tasks_from(s, start, i + 1)
    }
}

/// The tasks of a document, in line order.
pub open spec fn parse_document(s: Seq<char>) -> Seq<TaskView> {
    tasks_from(s, 0, 0)
}

fn skip_spaces(l: &Vec<char>, i: usize) -> (r: usize)
    requires
        i <= l@.len(),
    ensures
        r == skip_space(l@, i as int),
        i <= r <= l@.len(),
{
    let mut j = i;
    while j < l.len() && char_is_space(l[j])
        invariant
            i <= j <= l@.len(),
            skip_space(l@, j as int) == skip_space(l@, i as int),
        decreases l.len() - j,
    {
        j = j + 1;
    }
    j
}

fn trim_end_at(l: &Vec<char>, lo: usize, hi: usize) -> (r: usize)
    requires
        lo <= hi <= l@.len(),
    ensures
        r == trim_end(l@, lo as int, hi as int),
        lo <= r <= hi,
{
    let mut j = hi;
    while lo < j && char_is_space(l[j - 1])
        invariant
            lo <= j <= hi <= l@.len(),
            trim_end(l@, lo as int, j as int) == trim_end(l@, lo as int, hi as int),
        decreases j - lo,
    {
        j = j - 1;
    }
    j
}

fn digits_at(l: &Vec<char>, i: usize, k: usize) -> (r: bool)
    requires
        i + k <= l@.len(),
    ensures
        r == forall|j: int| i <= j < i + k ==> is_digit(#[trigger] l@[j]),
{
    let _n = l.len();
    let end = i + k;
    let mut j = i;
    while j < end
        invariant
            i <= j <= end,
            end == i + k,
            i + k <= l@.len(),
            forall|m: int| i <= m < j ==> is_digit(#[trigger] l@[m]),
        decreases end - j,
    {
        if !char_is_digit(l[j]) {
            return false;
        }
        j = j + 1;
    }
    true
}

fn date_shape(l: &Vec<char>, i: usize) -> (r: bool)
    ensures
        r == date_shape_at(l@, i as int),
{
    if l.len() < 10 || i > l.len() - 10 {
        return false;
    }
    let r = digits_at(l, i, 4) && l[i + 4] == '-' && digits_at(l, i + 5, 2) && l[i + 7] == '-'
        && digits_at(l, i + 8, 2);
    proof {
        if r != date_shape_at(l@, i as int) {
            assert(is_digit(l@[i as int]) && is_digit(l@[i + 1]) && is_digit(l@[i + 2])
                && is_digit(l@[i + 3]));
        }
    }
    r
}

fn time_shape(l: &Vec<char>, i: usize) -> (r: bool)
    ensures
        r == time_shape_at(l@, i as int),
{
    if l.len() < 5 || i > l.len() - 5 {
        return false;
    }
    let r = digits_at(l, i, 2) && l[i + 2] == ':' && digits_at(l, i + 3, 2);
    proof {
        if r != time_shape_at(l@, i as int) {
            assert(is_digit(l@[i as int]) && is_digit(l@[i + 1]));
        }
    }
    r
}

fn read2(l: &Vec<char>, i: usize) -> (r: u32)
    requires
        i + 2 <= l@.len(),
        is_digit(l@[i as int]),
        is_digit(l@[i + 1]),
    ensures
        r as int == number2(l@, i as int),
        r <= 99,
{
    let _n = l.len();
    value_of_digit(l[i]) * 10 + value_of_digit(l[i + 1])
}

fn substring(l: &Vec<char>, a: usize, b: usize) -> (r: String)
    requires
        a <= b <= l@.len(),
    ensures
        r@ == l@.subrange(a as int, b as int),
{
    let mut r = String::new();
    let mut j = a;
    while j < b
        invariant
            a <= j <= b <= l@.len(),
            r@ == l@.subrange(a as int, j as int),
        decreases b - j,
    {
        push_char(&mut r, l[j]);
        assert(r@ =~= l@.subrange(a as int, j + 1));
        j = j + 1;
    }
    r
}

/// The task of one line, if it is a task line.
fn parse_line_chars(l: &Vec<char>) -> (r: Option<Task>)
    ensures
        match r {
            Some(t) => parse_line(l@) == Some(t@),
            None => parse_line(l@) is None,
        },
{
    let n = l.len();
    if !(n >= 5 && l[0] == '-' && l[1] == ' ' && l[2] == '[' && (l[3] == ' ' || l[3] == 'x'
        || l[3] == 'X') && l[4] == ']') {
        return None;
    }
    let p = skip_spaces(l, 5);
    if !date_shape(l, p) {
        return None;
    }
    let year = read2(l, p) * 100 + read2(l, p + 2);
    let month = read2(l, p + 5);
    let day = read2(l, p + 8);
    let date = Date { year: year as i32, month, day };
    assert(date.year == number4(l@, p as int) as i32);
    let q = skip_spaces(l, p + 10);
    let timed = q > p + 10 && time_shape(l, q);
    let colon = if timed {
        skip_spaces(l, q + 5)
    } else {
        q
    };
    if colon >= n || l[colon] != ':' {
        return None;
    }
    let d0 = skip_spaces(l, colon + 1);
    let d1 = trim_end_at(l, d0, n);
    if !date.is_valid() || d0 >= d1 {
        return None;
    }
    let time = if timed {
        let ghost t = l@.subrange(q as int, q + 5);
        assert(t[0] == l@[q as int] && t[1] == l@[q + 1] && t[2] == l@[q + 2] && t[3] == l@[q
            + 3] && t[4] == l@[q + 4]);
        let h = read2(l, q);
        let m = read2(l, q + 3);
        if h >= 24 || m >= 60 {
            return None;
        }
        Some(substring(l, q, q + 5))
    } else {
        None
    };
    Some(Task { completed: l[3] != ' ', date, time, description: substring(l, d0, d1) })
}

/// The characters of `s`.
fn chars_of(s: &str) -> (r: Vec<char>)
    ensures
        r@ == s@,
{
    let n = s.unicode_len();
    let mut r: Vec<char> = Vec::new();
    let mut i: usize = 0;
    while i < n
        invariant
            i <= n,
            n == s@.len(),
            r@ == s@.subrange(0, i as int),
        decreases n - i,
    {
        r.push(s.get_char(i));
        assert(r@ =~= s@.subrange(0, i + 1));
        i = i + 1;
    }
    assert(r@ =~= s@);
    r
}

/// `l[a..b]` as a list of its own.
fn slice(l: &Vec<char>, a: usize, b: usize) -> (r: Vec<char>)
    requires
        a <= b <= l@.len(),
    ensures
        r@ == l@.subrange(a as int, b as int),
{
    let mut r: Vec<char> = Vec::new();
    let mut j = a;
    while j < b
        invariant
            a <= j <= b <= l@.len(),
            r@ == l@.subrange(a as int, j as int),
        decreases b - j,
    {
        r.push(l[j]);
        assert(r@ =~= l@.subrange(a as int, j + 1));
        j = j + 1;
    }
    r
}

/// Appends the task of `s[a..b]`, if that line holds one.
fn push_line_task(out: &mut Vec<Task>, s: &Vec<char>, a: usize, b: usize)
    requires
        a <= b <= s@.len(),
    ensures
        task_views(final(out)@) == task_views(old(out)@) + line_tasks(s@, a as int, b as int),
        forall|i: int| 0 <= i < old(out)@.len() ==> final(out)@[i] == old(out)@[i],
        forall|i: int| old(out)@.len() <= i < final(out)@.len() ==> task_wf(final(out)@[i]@),
{
    let line = slice(s, a, b);
    match parse_line_chars(&line) {
        Some(t) => {
            let ghost v = t@;
            proof {
                lemma_parsed_line_fields(line@);
            }
            out.push(t);
            assert(task_views(out@) =~= task_views(old(out)@) + seq![v]);
        },
        None => {
            assert(task_views(out@) =~= task_views(old(out)@) + Seq::<TaskView>::empty());
        },
    }
}

/// The tasks of a checklist document, in line order. Lines that are not
/// task lines are skipped.
pub fn parse_tasks(content: &str) -> (r: Vec<Task>)
    ensures
        task_views(r@) == parse_document(content@),
        forall|i: int| 0 <= i < r@.len() ==> task_wf(#[trigger] r@[i]@),
{
    let s = chars_of(content);
    let mut out: Vec<Task> = Vec::new();
    let mut start: usize = 0;
    let mut i: usize = 0;
    assert(task_views(out@) + tasks_from(s@, 0, 0) =~= parse_document(s@));
    while i < s.len()
        invariant
            start <= i <= s@.len(),
            task_views(out@) + tasks_from(s@, start as int, i as int) == parse_document(s@),
            forall|k: int| 0 <= k < out@.len() ==> task_wf(#[trigger] out@[k]@),
        decreases s.len() - i,
    {
        if s[i] == '\n' {
            let ghost before = task_views(out@);
            push_line_task(&mut out, &s, start, i);
            assert(task_views(out@) + tasks_from(s@, i + 1, i + 1) =~= before + tasks_from(
                s@,
                start as int,
                i as int,
            ));
            start = i + 1;
        }
        i = i + 1;
    }
    let ghost before = task_views(out@);
    let n = s.len();
    push_line_task(&mut out, &s, start, n);
    assert(task_views(out@) =~= before + tasks_from(s@, start as int, i as int));
    out
}

proof fn lemma_skip_space(s: Seq<char>, i: int)
    requires
        0 <= i,
    ensures
        i <= skip_space(s, i),
        skip_space(s, i) <= i || skip_space(s, i) <= s.len(),
        skip_space(s, i) < s.len() ==> !is_space(s[skip_space(s, i)]),
        forall|j: int| i <= j < skip_space(s, i) ==> is_space(#[trigger] s[j]),
    decreases s.len() - i,
{
    if 0 <= i < s.len() && is_space(s[i]) {
        lemma_skip_space(s, i + 1);
    }
}

proof fn lemma_trim_end(s: Seq<char>, lo: int, hi: int)
    requires
        0 <= lo <= hi <= s.len(),
    ensures
        lo <= trim_end(s, lo, hi) <= hi,
        trim_end(s, lo, hi) > lo ==> !is_space(s[trim_end(s, lo, hi) - 1]),
    decreases hi - lo,
{
    if lo < hi && is_space(s[hi - 1]) {
        lemma_trim_end(s, lo, hi - 1);
    }
}

proof fn lemma_digit(n: int)
    requires
        0 <= n <= 9,
    ensures
        is_digit(digit_char(n)),
        digit_value(digit_char(n)) == n,
        !is_space(digit_char(n)),
{
}

proof fn lemma_two_digits(n: int)
    requires
        0 <= n <= 99,
    ensures
        is_digit(two_digits(n)[0]),
        is_digit(two_digits(n)[1]),
        number2(two_digits(n), 0) == n,
{
    lemma_digit(n / 10);
    lemma_digit(n % 10);
}

proof fn lemma_four_digits(n: int)
    requires
        0 <= n <= 9999,
    ensures
        is_digit(four_digits(n)[0]),
        is_digit(four_digits(n)[1]),
        is_digit(four_digits(n)[2]),
        is_digit(four_digits(n)[3]),
        number4(four_digits(n), 0) == n,
{
    lemma_digit(n / 1000);
    lemma_digit(n / 100 % 10);
    lemma_digit(n / 10 % 10);
    lemma_digit(n % 10);
    assert((n / 1000) * 1000 + (n / 100 % 10) * 100 + (n / 10 % 10) * 10 + n % 10 == n)
        by (nonlinear_arith)
        requires
            0 <= n <= 9999,
    ;
}

/// What a task line yields is well formed: its description that is not empty and has no
/// whitespace at either end, a valid date, and a valid clock time if any.
pub proof fn lemma_parsed_line_fields(l: Seq<char>)
    requires
        parse_line(l) is Some,
    ensures
        task_wf(parse_line(l)->0),
{
    let p = skip_space(l, 5);
    lemma_skip_space(l, 5);
    let q = skip_space(l, p + 10);
    lemma_skip_space(l, p + 10);
    let timed = q > p + 10 && time_shape_at(l, q);
    let colon = if timed {
        skip_space(l, q + 5)
    } else {
        q
    };
    lemma_skip_space(l, q + 5);
    let d0 = skip_space(l, colon + 1);
    lemma_skip_space(l, colon + 1);
    let d1 = trim_end(l, d0, l.len() as int);
    lemma_trim_end(l, d0, l.len() as int);
}

/// The places of the parts of a rendered task line.
proof fn lemma_render_layout(t: TaskView)
    ensures
        ({
            let m = seq!['-', ' '] + render_text(t);
            let tail = match t.time {
                Some(x) => seq![' '] + x,
                None => Seq::empty(),
            };
            let k: int = 16 + tail.len() as int;
            &&& m.len() == k + 3 + t.description.len()
            &&& m[0] == '-' && m[1] == ' ' && m[2] == '[' && m[4] == ']' && m[5] == ' '
            &&& m[3] == status_text(t.completed)[1]
            &&& forall|j: int| 0 <= j < 10 ==> m[6 + j] == #[trigger] date_text(t.date)[j]
            &&& forall|j: int| 0 <= j < tail.len() ==> m[16 + j] == #[trigger] tail[j]
            &&& t.time matches Some(x) ==> m[16] == ' ' && forall|j: int|
                0 <= j < x.len() ==> m[17 + j] == #[trigger] x[j]
            &&& forall|j: int|
                0 <= j < t.description.len() ==> m[k + 3 + j] == #[trigger] t.description[j]
            &&& m[k] == ' ' && m[k + 1] == ':' && m[k + 2] == ' '
        }),
{
    let m = seq!['-', ' '] + render_text(t);
    let dt = date_text(t.date);
    let tail = match t.time {
        Some(x) => seq![' '] + x,
        None => Seq::empty(),
    };
    reveal(render_text);
    if let Some(x) = t.time {
        assert(tail[0] == ' ');
        assert forall|j: int| 0 <= j < x.len() implies tail[1 + j] == x[j] by {}
    }
    assert(m =~= seq!['-', ' '] + status_text(t.completed) + seq![' '] + dt + tail + seq![
        ' ',
        ':',
        ' ',
    ] + t.description);
}

/// The date of a rendered task line reads back as the task's date.
proof fn lemma_render_date(t: TaskView)
    requires
        t.date.wf(),
    ensures
        ({
            let m = seq!['-', ' '] + render_text(t);
            &&& skip_space(m, 5) == 6
            &&& date_shape_at(m, 6)
            &&& number4(m, 6) == t.date.year
            &&& number2(m, 11) == t.date.month
            &&& number2(m, 14) == t.date.day
        }),
{
    let m = seq!['-', ' '] + render_text(t);
    let dt = date_text(t.date);
    let d = t.date;
    lemma_four_digits(d.year as int);
    lemma_two_digits(d.month as int);
    lemma_two_digits(d.day as int);
    lemma_render_layout(t);
    assert(m[6] == dt[0] && m[7] == dt[1] && m[8] == dt[2] && m[9] == dt[3] && m[10] == dt[4]);
    assert(m[11] == dt[5] && m[12] == dt[6] && m[13] == dt[7] && m[14] == dt[8] && m[15]
        == dt[9]);
    assert(dt[0] == four_digits(d.year as int)[0]);
    assert(dt[1] == four_digits(d.year as int)[1]);
    assert(dt[2] == four_digits(d.year as int)[2]);
    assert(dt[3] == four_digits(d.year as int)[3]);
    assert(dt[5] == two_digits(d.month as int)[0]);
    assert(dt[6] == two_digits(d.month as int)[1]);
    assert(dt[8] == two_digits(d.day as int)[0]);
    assert(dt[9] == two_digits(d.day as int)[1]);
    assert(skip_space(m, 6) == 6);
}

/// The description of a rendered task line reads back as the task's own.
proof fn lemma_render_description(t: TaskView)
    requires
        t.description.len() > 0,
        !is_space(t.description[0]),
        !is_space(t.description.last()),
    ensures
        ({
            let m = seq!['-', ' '] + render_text(t);
            let k: int = m.len() - t.description.len() - 3;
            &&& m[k] == ' ' && m[k + 1] == ':'
            &&& skip_space(m, k + 2) == k + 3
            &&& trim_end(m, k + 3, m.len() as int) == m.len()
            &&& m.subrange(k + 3, m.len() as int) == t.description
        }),
{
    let m = seq!['-', ' '] + render_text(t);
    lemma_render_layout(t);
    let d0: int = m.len() - t.description.len();
    assert(m[d0] == t.description[0]);
    assert(m[m.len() - 1] == t.description[t.description.len() - 1]);
    assert(skip_space(m, d0) == d0);
    assert(m.subrange(d0, m.len() as int) =~= t.description);
}

/// A well-formed task reads back from its rendering behind `- `.
proof fn lemma_render_reparse(t: TaskView)
    requires
        task_wf(t),
    ensures
        parse_line(seq!['-', ' '] + render_text(t)) == Some(t),
{
    let m = seq!['-', ' '] + render_text(t);
    let tail = match t.time {
        Some(x) => seq![' '] + x,
        None => Seq::empty(),
    };
    lemma_render_layout(t);
    lemma_render_date(t);
    lemma_render_description(t);
    match t.time {
        Some(x) => {
            assert(m[17] == x[0]);
            assert(m[18] == x[1] && m[19] == x[2] && m[20] == x[3] && m[21] == x[4]);
            assert(skip_space(m, 17) == 17);
            assert(skip_space(m, 16) == 17);
            assert(time_shape_at(m, 17));
            assert(m.subrange(17, 22) =~= x);
            assert(skip_space(m, 23) == 23);
            assert(skip_space(m, 22) == 23);
        },
        None => {
            assert(m[16] == ' ' && m[17] == ':');
            assert(skip_space(m, 17) == 17);
            assert(skip_space(m, 16) == 17);
        },
    }
}

/// Rendering a parsed task and reading the rendering back as a task line
/// gives the same task: status, date, time and description all survive.
pub proof fn lemma_render_round_trip(l: Seq<char>)
    requires
        parse_line(l) is Some,
    ensures
        parse_line(seq!['-', ' '] + render_text(parse_line(l)->0)) == parse_line(l),
{
    lemma_parsed_line_fields(l);
    lemma_render_reparse(parse_line(l)->0);
}

} // verus!
