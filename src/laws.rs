//! What holds across the library's functions: text read back from what the
//! serializer wrote, storage paths, label resolution and the comparator.
use crate::calendar::{ClockTime, Date, DateTime};
use crate::format::{
    clock_text, header_text, pomodoro_text, schedule_string, task_text, tasks_text, time_text,
};
use crate::parser::{clock_fields, field_end, number, pomodoro_tail, task_line, task_time};
use crate::schedule::{
    day_path, header, is_blank_line, schedule_text, strip_cr, task_lines, ScheduleView,
};
use crate::task::{
    afternoon_word, compare_times, evening_word, label_period, midnight_word, morning_word,
    night_word, noon_word, period_name, spells, TaskTimeView, TaskView, TimeOfDayView,
};
use crate::text::{
    lemma_first_index_bound, dec, dec2, digit_char, digit_run, digit_value, digits_value, first_index, is_blank, is_digit,
    is_layout, is_space, signed_dec, skip_layout, skip_spaces, trim, trim_end, trim_start,
};
use core::cmp::Ordering;
use vstd::prelude::*;

verus! {

// ---------------------------------------------------------------- digits

proof fn lemma_digit_char(k: nat)
    requires
        k < 10,
    ensures
        is_digit(digit_char(k)),
        digit_value(digit_char(k)) == k,
{
}

pub open spec fn all_digits(s: Seq<char>) -> bool {
    forall|i: int| 0 <= i < s.len() ==> is_digit(#[trigger] s[i])
}

proof fn lemma_dec(n: nat)
    ensures
        dec(n).len() >= 1,
        all_digits(dec(n)),
        digits_value(dec(n)) == n,
    decreases n,
{
    if n < 10 {
        lemma_digit_char(n);
        assert(dec(n).drop_last() =~= Seq::<char>::empty());
        assert(digits_value(Seq::<char>::empty()) == 0);
    } else {
        lemma_dec(n / 10);
        lemma_digit_char(n % 10);
        assert(dec(n).drop_last() =~= dec(n / 10));
        assert((n / 10) * 10 + n % 10 == n) by (nonlinear_arith);
    }
}

proof fn lemma_dec2(n: nat)
    ensures
        dec2(n).len() >= 1,
        all_digits(dec2(n)),
        digits_value(dec2(n)) == n,
{
    if n < 10 {
        lemma_digit_char(n);
        lemma_digit_char(0);
        let s = dec2(n);
        assert(s.drop_last() =~= seq!['0']);
        assert(seq!['0'].drop_last() =~= Seq::<char>::empty());
        assert(digits_value(Seq::<char>::empty()) == 0);
        assert(digits_value(seq!['0']) == 0);
    } else {
        lemma_dec(n);
    }
}

proof fn lemma_digit_run_concat(a: Seq<char>, b: Seq<char>)
    requires
        all_digits(a),
        b.len() == 0 || !is_digit(b[0]),
    ensures
        digit_run(a + b) == a.len(),
    decreases a.len(),
{
    if a.len() == 0 {
        assert(a + b =~= b);
    } else {
        assert((a + b).drop_first() =~= a.drop_first() + b);
        lemma_digit_run_concat(a.drop_first(), b);
    }
}

proof fn lemma_number_concat(a: Seq<char>, b: Seq<char>, limit: nat)
    requires
        a.len() > 0,
        all_digits(a),
        b.len() == 0 || !is_digit(b[0]),
        digits_value(a) <= limit,
    ensures
        number(a + b, limit) == Some((digits_value(a), b)),
{
    lemma_digit_run_concat(a, b);
    assert((a + b).take(a.len() as int) =~= a);
    assert((a + b).skip(a.len() as int) =~= b);
}

proof fn lemma_number_dec(n: nat, b: Seq<char>, limit: nat)
    requires
        b.len() == 0 || !is_digit(b[0]),
        n <= limit,
    ensures
        number(dec(n) + b, limit) == Some((n, b)),
{
    lemma_dec(n);
    lemma_number_concat(dec(n), b, limit);
}

proof fn lemma_number_letter(s: Seq<char>, limit: nat)
    requires
        s.len() > 0,
        !is_digit(s[0]),
    ensures
        number(s, limit) is None,
{
}

// ---------------------------------------------------------------- layout

proof fn lemma_skip_space(x: Seq<char>)
    ensures
        skip_spaces(seq![' '] + x) == skip_spaces(x),
{
    assert((seq![' '] + x).drop_first() =~= x);
}

proof fn lemma_first_index_concat(a: Seq<char>, b: Seq<char>, c: char)
    requires
        forall|i: int| 0 <= i < a.len() ==> a[i] != c,
    ensures
        first_index(a + b, c) == a.len() + first_index(b, c),
    decreases a.len(),
{
    if a.len() == 0 {
        assert(a + b =~= b);
    } else {
        assert((a + b).drop_first() =~= a.drop_first() + b);
        assert((a + b)[0] == a[0]);
        lemma_first_index_concat(a.drop_first(), b, c);
    }
}

proof fn lemma_first_index_absent(a: Seq<char>, c: char)
    requires
        forall|i: int| 0 <= i < a.len() ==> a[i] != c,
    ensures
        first_index(a, c) == a.len(),
{
    lemma_first_index_concat(a, Seq::empty(), c);
    assert(a + Seq::<char>::empty() =~= a);
}

/// Neither end of `s` is blank (an empty `s` included).
pub open spec fn tight(s: Seq<char>) -> bool {
    s.len() == 0 || (!is_blank(s[0]) && !is_blank(s.last()))
}

proof fn lemma_trim_end_padded(s: Seq<char>)
    requires
        tight(s),
    ensures
        trim_end(s + seq![' ']) == s,
{
    assert((s + seq![' ']).drop_last() =~= s);
    assert((s + seq![' ']).last() == ' ');
    assert(trim_end(s) == s);
}

proof fn lemma_trim_padded(s: Seq<char>)
    requires
        tight(s),
    ensures
        trim(s + seq![' ']) == s,
        trim(seq![' '] + s + seq![' ']) == s,
{
    lemma_trim_end_padded(s);
    assert((seq![' '] + s + seq![' '])[0] == ' ');
    assert((seq![' '] + s + seq![' ']).drop_first() =~= s + seq![' ']);
    if s.len() > 0 {
        assert((s + seq![' '])[0] == s[0]);
        assert(trim_start(s + seq![' ']) == s + seq![' ']);
        assert(trim_start(seq![' '] + s + seq![' ']) == s + seq![' ']);
    } else {
        assert(s + seq![' '] =~= seq![' ']);
        assert(seq![' '].drop_first() =~= s);
        assert(trim_start(s) == s);
        assert(trim_start(s + seq![' ']) == s);
        assert(trim_end(s) == s);
        assert(trim_start(seq![' '] + s + seq![' ']) == s);
    }
}

proof fn lemma_skip_spaces_concat(w: Seq<char>, g: Seq<char>)
    requires
        g.len() > 0,
        !is_space(g[0]),
    ensures
        skip_spaces(w + g) == skip_spaces(w) + g,
    decreases w.len(),
{
    if w.len() == 0 {
        assert(w + g =~= g);
        assert(skip_spaces(w) + g =~= g);
    } else {
        assert((w + g)[0] == w[0]);
        assert((w + g).drop_first() =~= w.drop_first() + g);
        lemma_skip_spaces_concat(w.drop_first(), g);
    }
}

proof fn lemma_skip_spaces_suffix(w: Seq<char>)
    ensures
        skip_spaces(w).len() <= w.len(),
        skip_spaces(w) == w.skip(w.len() - skip_spaces(w).len()),
    decreases w.len(),
{
    if w.len() > 0 && is_space(w[0]) {
        lemma_skip_spaces_suffix(w.drop_first());
        assert(w.drop_first().skip(w.drop_first().len() - skip_spaces(w.drop_first()).len()) =~= w.skip(
            w.len() - skip_spaces(w).len(),
        ));
    } else {
        assert(w.skip(0) =~= w);
    }
}

// ---------------------------------------------------------------- field ends

/// `s` holds no `(`, no line feed and no `=>`.
pub open spec fn inert(s: Seq<char>) -> bool {
    forall|i: int|
        0 <= i < s.len() ==> #[trigger] s[i] != '(' && s[i] != '\n' && !(s[i] == '=' && i + 1
            < s.len() && s[i + 1] == '>')
}

proof fn lemma_inert_concat(a: Seq<char>, b: Seq<char>)
    requires
        inert(a),
        inert(b),
        a.len() == 0 || b.len() == 0 || a.last() != '=' || b[0] != '>',
    ensures
        inert(a + b),
{
    let s = a + b;
    assert forall|i: int| 0 <= i < s.len() implies #[trigger] s[i] != '(' && s[i] != '\n' && !(s[i]
        == '=' && i + 1 < s.len() && s[i + 1] == '>') by {
        if i < a.len() {
            assert(s[i] == a[i]);
            if i + 1 < a.len() {
                assert(s[i + 1] == a[i + 1]);
            }
        } else {
            assert(s[i] == b[i - a.len()]);
            if i + 1 < s.len() {
                assert(s[i + 1] == b[i + 1 - a.len()]);
            }
        }
    }
}

proof fn lemma_field_end_concat(a: Seq<char>, b: Seq<char>)
    requires
        inert(a),
        a.len() == 0 || a.last() != '=',
    ensures
        field_end(a + b) == a.len() + field_end(b),
    decreases a.len(),
{
    if a.len() == 0 {
        assert(a + b =~= b);
    } else {
        let s = a + b;
        assert(s[0] == a[0]);
        if a.len() > 1 {
            assert(s[1] == a[1]);
        }
        assert(s.drop_first() =~= a.drop_first() + b);
        assert(inert(a.drop_first())) by {
            assert forall|i: int| 0 <= i < a.drop_first().len() implies #[trigger] a.drop_first()[i]
                != '(' && a.drop_first()[i] != '\n' && !(a.drop_first()[i] == '=' && i + 1
                < a.drop_first().len() && a.drop_first()[i + 1] == '>') by {
                assert(a.drop_first()[i] == a[i + 1]);
                if i + 1 < a.drop_first().len() {
                    assert(a.drop_first()[i + 1] == a[i + 2]);
                }
            }
        }
        lemma_field_end_concat(a.drop_first(), b);
    }
}

// ---------------------------------------------------------------- names

/// A custom label that reads back as a label: not blank at either end, no
/// `-`, `(`, line feed or `=>` in it, and not one of the six names in any
/// case. Whether its shape may be a clock time depends on where it stands
/// (see `time_ok`).
pub open spec fn custom_label_ok(s: Seq<char>) -> bool {
    &&& tight(s)
    &&& inert(s)
    &&& forall|i: int| 0 <= i < s.len() ==> s[i] != '-'
    &&& label_period(s) == TimeOfDayView::Custom(s)
}

/// The text of a period has the shape of a clock time.
pub open spec fn clock_shaped(p: TimeOfDayView) -> bool {
    clock_fields(period_name(p)) is Some
}

pub open spec fn period_ok(p: TimeOfDayView) -> bool {
    match p {
        TimeOfDayView::Custom(s) => custom_label_ok(s),
        _ => true,
    }
}

proof fn lemma_word_differs(s: Seq<char>, w: Seq<char>, i: int)
    requires
        0 <= i < s.len(),
        i < w.len(),
        s[i] != w[i],
        !('A' <= s[i] && s[i] <= 'Z'),
    ensures
        !spells(s, w),
{
}

proof fn lemma_period_name_ok(p: TimeOfDayView)
    requires
        period_ok(p),
    ensures
        tight(period_name(p)),
        inert(period_name(p)),
        forall|i: int| 0 <= i < period_name(p).len() ==> period_name(p)[i] != '-',
        !(p is Custom) ==> clock_fields(period_name(p)) is None,
        label_period(period_name(p)) == p,
{
    let n = period_name(p);
    match p {
        TimeOfDayView::Custom(_) => {},
        _ => {
            assert(n.len() > 0 && !is_digit(n[0]));
            lemma_number_letter(n, u32::MAX as nat);
            assert(spells(n, n));
            match p {
                TimeOfDayView::Morning => {},
                TimeOfDayView::Noon => {
                    lemma_word_differs(n, morning_word(), 0);
                },
                TimeOfDayView::AfterNoon => {
                    lemma_word_differs(n, morning_word(), 0);
                },
                TimeOfDayView::Evening => {
                    lemma_word_differs(n, morning_word(), 0);
                    lemma_word_differs(n, afternoon_word(), 0);
                },
                TimeOfDayView::Night => {
                    lemma_word_differs(n, noon_word(), 1);
                    lemma_word_differs(n, morning_word(), 0);
                },
                TimeOfDayView::MidNight => {
                    lemma_word_differs(n, morning_word(), 1);
                    lemma_word_differs(n, noon_word(), 0);
                    lemma_word_differs(n, afternoon_word(), 0);
                    lemma_word_differs(n, evening_word(), 0);
                    lemma_word_differs(n, night_word(), 0);
                },
                _ => {},
            }
        },
    }
}

// ---------------------------------------------------------------- task times

/// A clock time that the serializer writes in full: hour and minute in range.
/// The seconds are not written.
pub open spec fn clock_ok(c: ClockTime) -> bool {
    c.hour < 24 && c.minute < 60
}

/// A time that reads back as itself, up to its seconds and its day.
pub open spec fn time_ok(t: TaskTimeView) -> bool {
    match t {
        TaskTimeView::Precise(d) => clock_ok(d.time),
        TaskTimeView::Period(s, e) => clock_ok(s.time) && clock_ok(e.time),
        TaskTimeView::General(p) => period_ok(p) && !clock_shaped(p),
        TaskTimeView::GeneralPeriod(a, b) => period_ok(a) && period_ok(b) && !(clock_shaped(a)
            && clock_shaped(b)),
    }
}

pub open spec fn minute_moment(date: Date, d: DateTime) -> DateTime {
    DateTime { date, time: ClockTime { hour: d.time.hour, minute: d.time.minute, second: 0 } }
}

/// The time as it reads back: clock times on `date`, with their seconds zero.
pub open spec fn normal_time(t: TaskTimeView, date: Date) -> TaskTimeView {
    match t {
        TaskTimeView::Precise(d) => TaskTimeView::Precise(minute_moment(date, d)),
        TaskTimeView::Period(s, e) => TaskTimeView::Period(
            minute_moment(date, s),
            minute_moment(date, e),
        ),
        _ => t,
    }
}

pub open spec fn no_dash(s: Seq<char>) -> bool {
    forall|i: int| 0 <= i < s.len() ==> s[i] != '-'
}

proof fn lemma_clock_text(c: ClockTime)
    requires
        clock_ok(c),
    ensures
        clock_fields(clock_text(c)) == Some((c.hour as nat, c.minute as nat, 0nat)),
        tight(clock_text(c)),
        inert(clock_text(c)),
        no_dash(clock_text(c)),
        !is_space(clock_text(c)[0]),
{
    let h = dec(c.hour as nat);
    let m = dec2(c.minute as nat);
    lemma_dec(c.hour as nat);
    lemma_dec2(c.minute as nat);
    let t = clock_text(c);
    assert(t =~= h + (seq![':'] + m));
    lemma_number_dec(c.hour as nat, seq![':'] + m, u32::MAX as nat);
    assert((seq![':'] + m).drop_first() =~= m);
    assert(m + Seq::<char>::empty() =~= m);
    lemma_number_concat(m, Seq::empty(), u32::MAX as nat);
    assert forall|i: int| 0 <= i < t.len() implies #[trigger] t[i] != '(' && t[i] != '\n' && t[i]
        != '-' && t[i] != '=' by {
        if i < h.len() {
            assert(t[i] == h[i]);
            assert(is_digit(h[i]));
        } else if i > h.len() {
            assert(t[i] == m[i - h.len() - 1]);
            assert(is_digit(m[i - h.len() - 1]));
        }
    }
    assert(t[0] == h[0]);
    assert(is_digit(h[0]));
    assert(t.last() == m.last());
    assert(is_digit(m[m.len() - 1]));
}

/// A field of one segment: what task_time sees.
proof fn lemma_one_segment(x: Seq<char>)
    requires
        tight(x),
        no_dash(x),
    ensures
        first_index(x + seq![' '], '-') == (x + seq![' ']).len(),
        trim(x + seq![' ']) == x,
{
    let s = x + seq![' '];
    assert forall|i: int| 0 <= i < s.len() implies s[i] != '-' by {
        if i < x.len() {
            assert(s[i] == x[i]);
        }
    }
    lemma_first_index_absent(s, '-');
    lemma_trim_padded(x);
}

/// A field of two segments joined by ` - `: what task_time sees.
proof fn lemma_two_segments(x: Seq<char>, y: Seq<char>)
    requires
        tight(x),
        no_dash(x),
        tight(y),
        no_dash(y),
    ensures
        ({
            let s = x + seq![' ', '-', ' '] + y + seq![' '];
            let p = first_index(s, '-');
            &&& p == x.len() + 1
            &&& p < s.len()
            &&& trim(s.take(p as int)) == x
            &&& first_index(s.skip((p + 1) as int), '-') == s.skip((p + 1) as int).len()
            &&& trim(s.skip((p + 1) as int)) == y
        }),
{
    let s = x + seq![' ', '-', ' '] + y + seq![' '];
    let a = x + seq![' '];
    let b = seq!['-'] + (seq![' '] + y + seq![' ']);
    assert(s =~= a + b);
    assert forall|i: int| 0 <= i < a.len() implies a[i] != '-' by {
        if i < x.len() {
            assert(a[i] == x[i]);
        }
    }
    lemma_first_index_concat(a, b, '-');
    assert(b[0] == '-');
    let p = x.len() + 1;
    assert(s.take(p as int) =~= a);
    let r = seq![' '] + y + seq![' '];
    assert(s.skip((p + 1) as int) =~= r);
    assert forall|i: int| 0 <= i < r.len() implies r[i] != '-' by {
        if 1 <= i < r.len() - 1 {
            assert(r[i] == y[i - 1]);
        }
    }
    lemma_first_index_absent(r, '-');
    lemma_trim_padded(x);
    lemma_trim_padded(y);
}

proof fn lemma_time_text(t: TaskTimeView, date: Date)
    requires
        time_ok(t),
    ensures
        task_time(time_text(t) + seq![' '], date) == Ok::<TaskTimeView, crate::error::ParseStage>(
            normal_time(t, date),
        ),
        inert(time_text(t)),
{
    match t {
        TaskTimeView::Precise(d) => {
            lemma_clock_text(d.time);
            lemma_one_segment(clock_text(d.time));
        },
        TaskTimeView::General(p) => {
            lemma_period_name_ok(p);
            lemma_one_segment(period_name(p));
        },
        TaskTimeView::Period(s, e) => {
            lemma_clock_text(s.time);
            lemma_clock_text(e.time);
            lemma_two_segments(clock_text(s.time), clock_text(e.time));
            let x = clock_text(s.time);
            let y = clock_text(e.time);
            assert(time_text(t) + seq![' '] =~= x + seq![' ', '-', ' '] + y + seq![' ']);
            lemma_inert_concat(x, seq![' ', '-', ' ']);
            lemma_inert_concat(x + seq![' ', '-', ' '], y);
            assert(time_text(t) =~= x + seq![' ', '-', ' '] + y);
        },
        TaskTimeView::GeneralPeriod(a, b) => {
            lemma_period_name_ok(a);
            lemma_period_name_ok(b);
            let x = period_name(a);
            let y = period_name(b);
            lemma_two_segments(x, y);
            assert(time_text(t) + seq![' '] =~= x + seq![' ', '-', ' '] + y + seq![' ']);
            lemma_inert_concat(x, seq![' ', '-', ' ']);
            lemma_inert_concat(x + seq![' ', '-', ' '], y);
            assert(time_text(t) =~= x + seq![' ', '-', ' '] + y);
        },
    }
}

// ---------------------------------------------------------------- task lines

/// A description that reads back as itself: it does not start with a space or
/// a tab, holds no line feed, and does not end with a carriage return.
pub open spec fn description_ok(d: Seq<char>) -> bool {
    &&& d.len() == 0 || !is_space(d[0])
    &&& forall|i: int| 0 <= i < d.len() ==> d[i] != '\n'
    &&& d.len() == 0 || d.last() != '\r'
}

pub open spec fn task_ok(t: TaskView) -> bool {
    time_ok(t.time) && description_ok(t.description)
}

/// The task as it reads back: its time normalised to `date`.
pub open spec fn normal_task(t: TaskView, date: Date) -> TaskView {
    TaskView { time: normal_time(t.time, date), ..t }
}

proof fn lemma_pomodoro_tail(p: u8, d: u8, desc: Seq<char>)
    requires
        desc.len() == 0 || !is_space(desc[0]),
    ensures
        pomodoro_tail(
            dec(p as nat) + seq![',', ' '] + dec(d as nat) + seq![')', ' ', '=', '>', ' '] + desc,
        ) == Some(((p, d), desc)),
{
    let g = dec(p as nat) + seq![',', ' '] + dec(d as nat) + seq![')', ' ', '=', '>', ' '] + desc;
    lemma_dec(p as nat);
    lemma_dec(d as nat);
    let r1 = seq![',', ' '] + dec(d as nat) + seq![')', ' ', '=', '>', ' '] + desc;
    assert(g =~= dec(p as nat) + r1);
    assert(!is_space(g[0])) by {
        assert(g[0] == dec(p as nat)[0]);
    }
    lemma_number_dec(p as nat, r1, 255);
    assert(skip_spaces(r1) == r1);
    let r1b = seq![' '] + (dec(d as nat) + seq![')', ' ', '=', '>', ' '] + desc);
    assert(r1.drop_first() =~= r1b);
    lemma_skip_space(dec(d as nat) + seq![')', ' ', '=', '>', ' '] + desc);
    let r2 = seq![')', ' ', '=', '>', ' '] + desc;
    assert(dec(d as nat) + seq![')', ' ', '=', '>', ' '] + desc =~= dec(d as nat) + r2);
    assert(!is_space((dec(d as nat) + r2)[0])) by {
        assert((dec(d as nat) + r2)[0] == dec(d as nat)[0]);
    }
    lemma_number_dec(d as nat, r2, 255);
    assert(skip_spaces(r2) == r2);
    let r3 = seq![' '] + (seq!['=', '>', ' '] + desc);
    assert(r2.drop_first() =~= r3);
    lemma_skip_space(seq!['=', '>', ' '] + desc);
    let e = seq!['=', '>', ' '] + desc;
    assert(skip_spaces(e) == e);
    assert(e.skip(2) =~= seq![' '] + desc);
    lemma_skip_space(desc);
}

/// The steps over `* [s] ` that the task reader takes before the time field.
proof fn lemma_line_prefix(st: char, f: Seq<char>)
    requires
        st == 'X' || st == ' ',
    ensures
        ({
            let l = seq!['*', ' ', '[', st, ']', ' '] + f;
            let a = skip_spaces(l);
            let b = skip_spaces(a.drop_first());
            let c = b.drop_first();
            let d = if c.len() > 0 && c[0] == 'X' {
                c.drop_first()
            } else {
                skip_spaces(c)
            };
            &&& a.len() > 0 && a[0] == '*'
            &&& b.len() > 0 && b[0] == '['
            &&& (c.len() > 0 && c[0] == 'X') == (st == 'X')
            &&& d.len() > 0 && d[0] == ']'
            &&& d.drop_first().len() > 0 && is_space(d.drop_first()[0])
            &&& skip_spaces(d.drop_first()) == skip_spaces(f)
        }),
{
    let l = seq!['*', ' ', '[', st, ']', ' '] + f;
    assert(skip_spaces(l) == l);
    assert(l.drop_first() =~= seq![' '] + l.skip(2));
    lemma_skip_space(l.skip(2));
    assert(l.skip(2)[0] == '[');
    assert(skip_spaces(l.skip(2)) == l.skip(2));
    assert(l.skip(2).drop_first() =~= l.skip(3));
    assert(l.skip(3)[0] == st);
    if st == ' ' {
        assert(l.skip(3) =~= seq![' '] + l.skip(4));
        lemma_skip_space(l.skip(4));
        assert(skip_spaces(l.skip(4)) == l.skip(4));
    } else {
        assert(l.skip(3).drop_first() =~= l.skip(4));
    }
    assert(l.skip(4)[0] == ']');
    assert(l.skip(4).drop_first() =~= l.skip(5));
    assert(l.skip(5) =~= seq![' '] + f);
    lemma_skip_space(f);
}

/// What the task reader makes of the text after the time field.
proof fn lemma_line_tail(pom: Option<(u8, u8)>, desc: Seq<char>)
    requires
        desc.len() == 0 || !is_space(desc[0]),
    ensures
        ({
            let g = pomodoro_text(pom) + seq!['=', '>', ' '] + desc;
            &&& g.len() > 0
            &&& field_end(g) == 0
            &&& g[0] == '(' <==> pom is Some
            &&& pom matches Some(c) ==> pomodoro_tail(g.drop_first()) == Some((c, desc))
            &&& pom is None ==> skip_spaces(g.skip(2)) == desc
        }),
{
    let g = pomodoro_text(pom) + seq!['=', '>', ' '] + desc;
    match pom {
        Some((pl, dn)) => {
            assert(g[0] == '(');
            assert(g.drop_first() =~= dec(pl as nat) + seq![',', ' '] + dec(dn as nat) + seq![
                ')',
                ' ',
                '=',
                '>',
                ' ',
            ] + desc);
            lemma_pomodoro_tail(pl, dn, desc);
        },
        None => {
            assert(g =~= seq!['=', '>', ' '] + desc);
            assert(g.skip(2) =~= seq![' '] + desc);
            lemma_skip_space(desc);
        },
    }
}

proof fn lemma_task_line_shape(t: TaskView)
    requires
        task_ok(t),
    ensures
        forall|i: int| 0 <= i < task_text(t).len() ==> task_text(t)[i] != '\n',
        task_text(t).last() != '\r',
        task_text(t).len() > 0,
        task_text(t)[0] == '*',
{
    let st = if t.finished {
        'X'
    } else {
        ' '
    };
    let tt = time_text(t.time);
    let q = pomodoro_text(t.pomodoro);
    let desc = t.description;
    let l = task_text(t);
    lemma_time_text(t.time, Date { year: 0, month: 1, day: 1 });
    let head = seq!['*', ' ', '[', st, ']', ' '] + tt + seq![' '];
    let tail = q + seq!['=', '>', ' '] + desc;
    assert(l =~= head + tail);
    assert forall|i: int| 0 <= i < tail.len() implies tail[i] != '\n' by {
        if i < q.len() {
            assert(tail[i] == q[i]);
            match t.pomodoro {
                Some((pl, dn)) => {
                    lemma_dec(pl as nat);
                    lemma_dec(dn as nat);
                    let x = dec(pl as nat);
                    let y = dec(dn as nat);
                    assert(q =~= seq!['('] + x + seq![',', ' '] + y + seq![')', ' ']);
                    if 1 <= i < 1 + x.len() {
                        assert(q[i] == x[i - 1]);
                        assert(is_digit(x[i - 1]));
                    } else if 3 + x.len() <= i < 3 + x.len() + y.len() {
                        assert(q[i] == y[i - 3 - x.len()]);
                        assert(is_digit(y[i - 3 - x.len()]));
                    }
                },
                None => {},
            }
        } else if i >= q.len() + 3 {
            assert(tail[i] == desc[i - q.len() - 3]);
        }
    }
    assert forall|i: int| 0 <= i < l.len() implies l[i] != '\n' by {
        if i < head.len() {
            assert(l[i] == head[i]);
            if 6 <= i < 6 + tt.len() {
                assert(head[i] == tt[i - 6]);
            }
        } else {
            assert(l[i] == tail[i - head.len()]);
        }
    }
    if desc.len() > 0 {
        assert(l.last() == desc.last());
    } else {
        assert(l.last() == ' ');
    }
}

proof fn lemma_task_time_spaces(w: Seq<char>, date: Date)
    ensures
        task_time(skip_spaces(w), date) == task_time(w, date),
    decreases w.len(),
{
    if w.len() > 0 && is_space(w[0]) {
        let x = w.drop_first();
        lemma_task_time_spaces(x, date);
        assert(w =~= seq![w[0]] + x);
        assert(seq![w[0]][0] == w[0]);
        lemma_first_index_concat(seq![w[0]], x, '-');
        let p = first_index(x, '-');
        assert(first_index(w, '-') == 1 + p);
        assert(trim_start(w) == trim_start(x));
        assert(trim(w) == trim(x));
        lemma_first_index_bound(x, '-');
        if p < x.len() {
            assert(w.take((p + 1) as int) =~= seq![w[0]] + x.take(p as int));
            assert((seq![w[0]] + x.take(p as int)).drop_first() =~= x.take(p as int));
            assert(trim_start(w.take((p + 1) as int)) == trim_start(x.take(p as int)));
            assert(trim(w.take((p + 1) as int)) == trim(x.take(p as int)));
            assert(w.skip((p + 2) as int) =~= x.skip((p + 1) as int));
        }
    }
}

proof fn lemma_inert_skip_spaces(w: Seq<char>)
    requires
        inert(w),
    ensures
        inert(skip_spaces(w)),
{
    lemma_skip_spaces_suffix(w);
    let k = w.len() - skip_spaces(w).len();
    let v = skip_spaces(w);
    assert forall|i: int| 0 <= i < v.len() implies #[trigger] v[i] != '(' && v[i] != '\n' && !(v[i]
        == '=' && i + 1 < v.len() && v[i + 1] == '>') by {
        assert(v[i] == w[i + k]);
        if i + 1 < v.len() {
            assert(v[i + 1] == w[i + 1 + k]);
        }
    }
}

proof fn lemma_task_line(t: TaskView, date: Date)
    requires
        task_ok(t),
    ensures
        task_line(task_text(t), date) == Ok::<TaskView, crate::error::ParseStage>(
            normal_task(t, date),
        ),
{
    let st = if t.finished {
        'X'
    } else {
        ' '
    };
    let tt = time_text(t.time);
    let desc = t.description;
    let g = pomodoro_text(t.pomodoro) + seq!['=', '>', ' '] + desc;
    let w = tt + seq![' '];
    let f = w + g;
    lemma_time_text(t.time, date);
    assert(task_text(t) =~= seq!['*', ' ', '[', st, ']', ' '] + f);
    lemma_line_prefix(st, f);
    lemma_line_tail(t.pomodoro, desc);
    lemma_skip_spaces_concat(w, g);
    let v = skip_spaces(w);
    lemma_skip_spaces_suffix(w);
    lemma_inert_concat(tt, seq![' ']);
    lemma_inert_skip_spaces(w);
    if v.len() > 0 {
        assert(v.last() == w.last());
    }
    lemma_field_end_concat(v, g);
    lemma_task_time_spaces(w, date);
    assert((v + g).take(v.len() as int) =~= v);
    assert((v + g).skip(v.len() as int) =~= g);
}

// ---------------------------------------------------------------- schedules

/// A schedule that reads back from its text: a day that exists in a year
/// written without a sign, at most 255 tasks, each of which reads back.
pub open spec fn schedule_ok(v: ScheduleView) -> bool {
    &&& v.date.wf()
    &&& v.date.year >= 0
    &&& v.tasks.len() <= 255
    &&& forall|i: int| 0 <= i < v.tasks.len() ==> task_ok(#[trigger] v.tasks[i].1)
}

/// The tasks from `idx` on, numbered in order, normalised to `date`.
pub open spec fn renumbered(ts: Seq<(u8, TaskView)>, idx: nat, date: Date) -> Seq<(u8, TaskView)> {
    Seq::new(ts.len(), |i: int| ((idx + i) as u8, normal_task(ts[i].1, date)))
}

/// The schedule as it reads back from its text: tasks numbered from 1 in
/// order, their clock times on the schedule's day with zero seconds.
pub open spec fn normal_schedule(v: ScheduleView) -> ScheduleView {
    ScheduleView { date: v.date, tasks: renumbered(v.tasks, 1, v.date), file: v.file }
}

proof fn lemma_task_lines(ts: Seq<(u8, TaskView)>, idx: nat, date: Date)
    requires
        forall|i: int| 0 <= i < ts.len() ==> task_ok(#[trigger] ts[i].1),
        1 <= idx,
        idx + ts.len() <= 256,
    ensures
        task_lines(tasks_text(ts), idx, date) == Ok::<
            Seq<(u8, TaskView)>,
            crate::error::ParseStage,
        >(renumbered(ts, idx, date)),
    decreases ts.len(),
{
    if ts.len() == 0 {
        assert(renumbered(ts, idx, date) =~= Seq::<(u8, TaskView)>::empty());
    } else {
        let t0 = ts[0].1;
        let rest = ts.drop_first();
        let l = task_text(t0);
        let s = tasks_text(ts);
        assert(task_ok(t0));
        lemma_task_line_shape(t0);
        lemma_task_line(t0, date);
        assert(s =~= l + (seq!['\n'] + tasks_text(rest)));
        lemma_first_index_concat(l, seq!['\n'] + tasks_text(rest), '\n');
        assert(first_index(s, '\n') == l.len());
        assert(s.take(l.len() as int) =~= l);
        assert(s.skip((l.len() + 1) as int) =~= tasks_text(rest));
        assert(strip_cr(l) == l);
        assert(!is_blank_line(l)) by {
            assert(!is_blank(l[0]));
        }
        assert forall|i: int| 0 <= i < rest.len() implies task_ok(#[trigger] rest[i].1) by {
            assert(rest[i] == ts[i + 1]);
        }
        lemma_task_lines(rest, idx + 1, date);
        assert(seq![(idx as u8, normal_task(t0, date))] + renumbered(rest, idx + 1, date)
            =~= renumbered(ts, idx, date));
    }
}

proof fn lemma_header(v: ScheduleView)
    requires
        v.date.wf(),
        v.date.year >= 0,
    ensures
        header(header_text(v.date) + tasks_text(v.tasks)) == Ok::<
            (Date, Seq<char>),
            crate::error::ParseStage,
        >((v.date, seq!['\n'] + tasks_text(v.tasks))),
{
    let d = v.date;
    let t = tasks_text(v.tasks);
    let dd = dec(d.day as nat);
    let dm = dec(d.month as nat);
    let dy = dec(d.year as nat);
    lemma_dec(d.day as nat);
    lemma_dec(d.month as nat);
    lemma_dec(d.year as nat);
    let s = header_text(d) + t;
    let r0 = dd + (seq!['-'] + dm + seq!['-'] + dy + seq!['\n'] + t);
    assert(s =~= seq!['#'] + (seq![' '] + r0));
    assert(skip_layout(s) == s);
    assert(s.drop_first() =~= seq![' '] + r0);
    lemma_skip_space(r0);
    assert(r0[0] == dd[0]);
    assert(skip_spaces(r0) == r0);
    let r1 = seq!['-'] + dm + seq!['-'] + dy + seq!['\n'] + t;
    lemma_number_dec(d.day as nat, r1, u32::MAX as nat);
    let r1b = dm + (seq!['-'] + dy + seq!['\n'] + t);
    assert(r1.drop_first() =~= r1b);
    let r2 = seq!['-'] + dy + seq!['\n'] + t;
    lemma_number_dec(d.month as nat, r2, u32::MAX as nat);
    let r2b = dy + (seq!['\n'] + t);
    assert(r2.drop_first() =~= r2b);
    lemma_number_dec(d.year as nat, seq!['\n'] + t, i32::MAX as nat);
}

proof fn lemma_tasks_text_start(ts: Seq<(u8, TaskView)>)
    requires
        forall|i: int| 0 <= i < ts.len() ==> task_ok(#[trigger] ts[i].1),
    ensures
        skip_layout(seq!['\n'] + tasks_text(ts)) == tasks_text(ts),
{
    assert((seq!['\n'] + tasks_text(ts)).drop_first() =~= tasks_text(ts));
    assert((seq!['\n'] + tasks_text(ts))[0] == '\n');
    if ts.len() > 0 {
        assert(task_ok(ts[0].1));
        lemma_task_line_shape(ts[0].1);
        assert(tasks_text(ts)[0] == task_text(ts[0].1)[0]);
        assert(!is_layout(tasks_text(ts)[0]));
    } else {
        assert(tasks_text(ts).len() == 0);
    }
    assert(skip_layout(tasks_text(ts)) == tasks_text(ts));
}

/// Reading back what the serializer wrote gives the schedule's day and its
/// tasks in the same order, numbered from 1, each with the same time,
/// description, counters and completion flag, up to the seconds that the text
/// does not carry and the day of its clock times, which become the schedule's.
pub proof fn lemma_read_written(v: ScheduleView)
    requires
        schedule_ok(v),
    ensures
        schedule_text(schedule_string(v), v.file) == Ok::<
            ScheduleView,
            crate::error::ParseStage,
        >(normal_schedule(v)),
{
    lemma_header(v);
    lemma_tasks_text_start(v.tasks);
    lemma_task_lines(v.tasks, 1, v.date);
}

/// A clock time already on `date` with zero seconds.
pub open spec fn on_day(d: DateTime, date: Date) -> bool {
    d.date == date && d.time.second == 0
}

/// A task whose clock times are all on `date` with zero seconds.
pub open spec fn task_on_day(t: TaskView, date: Date) -> bool {
    match t.time {
        TaskTimeView::Precise(d) => on_day(d, date),
        TaskTimeView::Period(s, e) => on_day(s, date) && on_day(e, date),
        _ => true,
    }
}

/// Round trip: for a schedule whose tasks' clock times lie on its day at whole
/// minutes, reading back its text gives the same day and, in the same order,
/// the same (time, description, pomodoro, finished) of every task, under the
/// indices 1, 2, ...
pub proof fn lemma_round_trip(v: ScheduleView)
    requires
        schedule_ok(v),
        forall|i: int| 0 <= i < v.tasks.len() ==> task_on_day(#[trigger] v.tasks[i].1, v.date),
    ensures
        schedule_text(schedule_string(v), v.file) matches Ok(r) && r.date == v.date && r.file
            == v.file && r.tasks.len() == v.tasks.len() && forall|i: int|
            0 <= i < v.tasks.len() ==> (#[trigger] r.tasks[i]).1 == v.tasks[i].1 && r.tasks[i].0
                == i + 1,
{
    lemma_read_written(v);
    let r = normal_schedule(v);
    assert forall|i: int| 0 <= i < v.tasks.len() implies (#[trigger] r.tasks[i]).1 == v.tasks[i].1
        && r.tasks[i].0 == i + 1 by {
        let t = v.tasks[i].1;
        assert(task_on_day(t, v.date));
        match t.time {
            TaskTimeView::Precise(d) => {
                assert(minute_moment(v.date, d) == d);
            },
            TaskTimeView::Period(s, e) => {
                assert(minute_moment(v.date, s) == s);
                assert(minute_moment(v.date, e) == e);
            },
            _ => {},
        }
        assert(normal_task(t, v.date) == t);
    }
}

proof fn lemma_tasks_text_normal(ts: Seq<(u8, TaskView)>, idx: nat, date: Date)
    ensures
        tasks_text(renumbered(ts, idx, date)) == tasks_text(ts),
    decreases ts.len(),
{
    let r = renumbered(ts, idx, date);
    if ts.len() > 0 {
        assert(r.drop_first() =~= renumbered(ts.drop_first(), idx + 1, date));
        lemma_tasks_text_normal(ts.drop_first(), idx + 1, date);
        assert(time_text(normal_time(ts[0].1.time, date)) == time_text(ts[0].1.time));
        assert(task_text(r[0].1) == task_text(ts[0].1));
    }
}

/// Serializing is idempotent: the text of what was read back from a
/// schedule's text is that text again.
pub proof fn lemma_serialize_idempotent(v: ScheduleView)
    requires
        schedule_ok(v),
    ensures
        schedule_text(schedule_string(v), v.file) matches Ok(r) && schedule_string(r)
            == schedule_string(v),
{
    lemma_read_written(v);
    lemma_tasks_text_normal(v.tasks, 1, v.date);
}

// ---------------------------------------------------------------- paths

pub open spec fn no_slash(s: Seq<char>) -> bool {
    forall|i: int| 0 <= i < s.len() ==> s[i] != '/'
}

proof fn lemma_last_segment(x1: Seq<char>, y1: Seq<char>, x2: Seq<char>, y2: Seq<char>)
    requires
        x1 + seq!['/'] + y1 == x2 + seq!['/'] + y2,
        no_slash(y1),
        no_slash(y2),
    ensures
        x1 == x2,
        y1 == y2,
{
    let s1 = x1 + seq!['/'] + y1;
    let s2 = x2 + seq!['/'] + y2;
    assert(s1[x1.len() as int] == '/');
    assert(s2[x2.len() as int] == '/');
    assert(s1.len() == s2.len());
    if x1.len() < x2.len() {
        let k = x2.len() - x1.len() - 1;
        assert(0 <= k < y1.len());
        assert(s1[x2.len() as int] == y1[k]);
        assert(false);
    } else if x2.len() < x1.len() {
        let k = x1.len() - x2.len() - 1;
        assert(0 <= k < y2.len());
        assert(s2[x1.len() as int] == y2[k]);
        assert(false);
    }
    assert(x1 =~= s1.take(x1.len() as int));
    assert(x2 =~= s2.take(x2.len() as int));
    assert(y1 =~= s1.skip((x1.len() + 1) as int));
    assert(y2 =~= s2.skip((x2.len() + 1) as int));
}

proof fn lemma_dec_injective(a: nat, b: nat)
    requires
        dec(a) == dec(b),
    ensures
        a == b,
{
    lemma_dec(a);
    lemma_dec(b);
}

proof fn lemma_dec_no_slash(n: nat)
    ensures
        no_slash(dec(n)),
{
    lemma_dec(n);
    assert forall|i: int| 0 <= i < dec(n).len() implies dec(n)[i] != '/' by {
        assert(is_digit(dec(n)[i]));
    }
}

proof fn lemma_signed_dec(a: int, b: int)
    ensures
        no_slash(signed_dec(a)),
        signed_dec(a) == signed_dec(b) ==> a == b,
{
    lemma_dec_no_slash((-a) as nat);
    lemma_dec_no_slash(a as nat);
    lemma_dec((-a) as nat);
    lemma_dec(a as nat);
    lemma_dec((-b) as nat);
    lemma_dec(b as nat);
    assert forall|i: int| 0 <= i < signed_dec(a).len() implies signed_dec(a)[i] != '/' by {
        if a < 0 && i > 0 {
            assert(signed_dec(a)[i] == dec((-a) as nat)[i - 1]);
        }
    }
    if signed_dec(a) == signed_dec(b) {
        if a < 0 && b < 0 {
            assert(signed_dec(a).drop_first() =~= dec((-a) as nat));
            assert(signed_dec(b).drop_first() =~= dec((-b) as nat));
            lemma_dec_injective((-a) as nat, (-b) as nat);
        } else if a < 0 {
            assert(signed_dec(a)[0] == '-');
            assert(is_digit(dec(b as nat)[0]));
        } else if b < 0 {
            assert(signed_dec(b)[0] == '-');
            assert(is_digit(dec(a as nat)[0]));
        } else {
            lemma_dec_injective(a as nat, b as nat);
        }
    }
}

/// Storage addressing is injective: two days with the same path under one
/// root are the same day.
pub proof fn lemma_path_injective(root: Seq<char>, d1: Date, d2: Date)
    requires
        day_path(root, d1) == day_path(root, d2),
    ensures
        d1 == d2,
{
    let y1 = signed_dec(d1.year as int);
    let y2 = signed_dec(d2.year as int);
    let m1 = dec(d1.month as nat);
    let m2 = dec(d2.month as nat);
    let a1 = dec(d1.day as nat);
    let a2 = dec(d2.day as nat);
    lemma_signed_dec(d1.year as int, d2.year as int);
    lemma_signed_dec(d2.year as int, d1.year as int);
    lemma_dec_no_slash(d1.month as nat);
    lemma_dec_no_slash(d2.month as nat);
    lemma_dec_no_slash(d1.day as nat);
    lemma_dec_no_slash(d2.day as nat);
    lemma_last_segment(root + seq!['/'] + y1 + seq!['/'] + m1, a1, root + seq!['/'] + y2 + seq![
        '/',
    ] + m2, a2);
    lemma_last_segment(root + seq!['/'] + y1, m1, root + seq!['/'] + y2, m2);
    lemma_last_segment(root, y1, root, y2);
    lemma_dec_injective(d1.month as nat, d2.month as nat);
    lemma_dec_injective(d1.day as nat, d2.day as nat);
}

// ---------------------------------------------------------------- labels

/// Label resolution: a label that spells none of the six names, in any case,
/// becomes a custom label holding the text unchanged; one that spells a name
/// becomes that period.
pub proof fn lemma_label_resolution(s: Seq<char>)
    ensures
        (label_period(s) is Custom) <==> !(spells(s, morning_word()) || spells(s, noon_word())
            || spells(s, afternoon_word()) || spells(s, evening_word()) || spells(s, night_word())
            || spells(s, midnight_word())),
        label_period(s) matches TimeOfDayView::Custom(x) ==> x == s,
{
}

// ---------------------------------------------------------------- comparator

/// Two moments at the same clock time compare as `Equal`.
pub proof fn lemma_compare_same_moment(a: DateTime, b: DateTime)
    requires
        a.time == b.time,
    ensures
        compare_times(TaskTimeView::Precise(a), TaskTimeView::Precise(b)) == Some(Ordering::Equal),
{
}

/// A moment within a clock range, bounds included, compares as `Equal` to it,
/// from either side.
pub proof fn lemma_compare_within_range(p: DateTime, s: DateTime, e: DateTime)
    requires
        s.time.seconds() <= p.time.seconds() <= e.time.seconds(),
    ensures
        compare_times(TaskTimeView::Precise(p), TaskTimeView::Period(s, e)) == Some(
            Ordering::Equal,
        ),
        compare_times(TaskTimeView::Period(s, e), TaskTimeView::Precise(p)) == Some(
            Ordering::Equal,
        ),
{
}

/// A custom label leaves a time incomparable with any other, from either side.
pub proof fn lemma_compare_custom(l: Seq<char>, t: TaskTimeView)
    ensures
        compare_times(TaskTimeView::General(TimeOfDayView::Custom(l)), t) is None,
        compare_times(t, TaskTimeView::General(TimeOfDayView::Custom(l))) is None,
{
}

} // verus!
