//! Characters, digits and whitespace: the lexical layer of the schedule format.
use vstd::prelude::*;

verus! {

/// A space or a tab.
pub open spec fn is_space(c: char) -> bool {
    c == ' ' || c == '\t'
}

/// A space, a tab or a line feed: what may stand before the header and the tasks.
pub open spec fn is_layout(c: char) -> bool {
    is_space(c) || c == '\n'
}

/// A character that trimming removes: the Unicode White_Space characters.
pub open spec fn is_blank(c: char) -> bool {
    ||| ('\u{9}' <= c && c <= '\u{d}')
    ||| c == ' '
    ||| c == '\u{85}'
    ||| c == '\u{a0}'
    ||| c == '\u{1680}'
    ||| ('\u{2000}' <= c && c <= '\u{200a}')
    ||| c == '\u{2028}'
    ||| c == '\u{2029}'
    ||| c == '\u{202f}'
    ||| c == '\u{205f}'
    ||| c == '\u{3000}'
}

/// Whether `c` is a character that trimming removes.
pub fn blank_char(c: char) -> (r: bool)
    ensures
        r == is_blank(c),
{
    ('\u{9}' <= c && c <= '\u{d}') || c == ' ' || c == '\u{85}' || c == '\u{a0}' || c
        == '\u{1680}' || ('\u{2000}' <= c && c <= '\u{200a}') || c == '\u{2028}' || c
        == '\u{2029}' || c == '\u{202f}' || c == '\u{205f}' || c == '\u{3000}'
}

pub open spec fn is_digit(c: char) -> bool {
    '0' <= c && c <= '9'
}

pub open spec fn digit_value(c: char) -> nat {
    (c as u32 - '0' as u32) as nat
}

pub open spec fn digit_char(d: nat) -> char {
    if d == 0 {
        '0'
    } else if d == 1 {
        '1'
    } else if d == 2 {
        '2'
    } else if d == 3 {
        '3'
    } else if d == 4 {
        '4'
    } else if d == 5 {
        '5'
    } else if d == 6 {
        '6'
    } else if d == 7 {
        '7'
    } else if d == 8 {
        '8'
    } else {
        '9'
    }
}

/// `s` without its leading spaces and tabs.
pub open spec fn skip_spaces(s: Seq<char>) -> Seq<char>
    decreases s.len(),
{
    if s.len() > 0 && is_space(s[0]) {
        skip_spaces(s.drop_first())
    } else {
        s
    }
}

/// `s` without its leading spaces, tabs and line feeds.
pub open spec fn skip_layout(s: Seq<char>) -> Seq<char>
    decreases s.len(),
{
    if s.len() > 0 && is_layout(s[0]) {
        skip_layout(s.drop_first())
    } else {
        s
    }
}

pub open spec fn trim_start(s: Seq<char>) -> Seq<char>
    decreases s.len(),
{
    if s.len() > 0 && is_blank(s[0]) {
        trim_start(s.drop_first())
    } else {
        s
    }
}

pub open spec fn trim_end(s: Seq<char>) -> Seq<char>
    decreases s.len(),
{
    if s.len() > 0 && is_blank(s.last()) {
        trim_end(s.drop_last())
    } else {
        s
    }
}

/// `s` without blank characters at either end.
pub open spec fn trim(s: Seq<char>) -> Seq<char> {
    trim_end(trim_start(s))
}

/// How many decimal digits `s` starts with.
pub open spec fn digit_run(s: Seq<char>) -> nat
    decreases s.len(),
{
    if s.len() > 0 && is_digit(s[0]) {
        1 + digit_run(s.drop_first())
    } else {
        0
    }
}

/// The number that a run of decimal digits writes.
pub open spec fn digits_value(s: Seq<char>) -> nat
    decreases s.len(),
{
    if s.len() == 0 {
        0
    } else {
        digits_value(s.drop_last()) * 10 + digit_value(s.last())
    }
}

/// The position of the first `c` in `s`, or its length where there is none.
pub open spec fn first_index(s: Seq<char>, c: char) -> nat
    decreases s.len(),
{
    if s.len() == 0 {
        0
    } else if s[0] == c {
        0
    } else {
        1 + first_index(s.drop_first(), c)
    }
}

/// `n` in decimal, without leading zeros.
pub open spec fn dec(n: nat) -> Seq<char>
    decreases n,
{
    if n < 10 {
        seq![digit_char(n)]
    } else {
        dec(n / 10).push(digit_char(n % 10))
    }
}

/// `n` in decimal, a minus sign before a negative one.
pub open spec fn signed_dec(n: int) -> Seq<char> {
    if n < 0 {
        seq!['-'] + dec((-n) as nat)
    } else {
        dec(n as nat)
    }
}

/// `n` in decimal with at least two digits.
pub open spec fn dec2(n: nat) -> Seq<char> {
    if n < 10 {
        seq!['0', digit_char(n)]
    } else {
        dec(n)
    }
}

/// Relies on `String::push`: the character is appended.
#[verifier::external_body]
pub(crate) fn push_char(s: &mut String, c: char)
    ensures
        final(s)@ == old(s)@.push(c),
{
    s.push(c)
}

/// The characters of `s`, in order.
pub fn chars_of(s: &str) -> (r: Vec<char>)
    ensures
        r@ == s@,
{
    let n = s.unicode_len();
    let mut r: Vec<char> = Vec::new();
    let mut i: usize = 0;
    while i < n
        invariant
            n == s@.len(),
            i <= n,
            r@ == s@.subrange(0, i as int),
        decreases n - i,
    {
        r.push(s.get_char(i));
        i = i + 1;
    }
    assert(r@ =~= s@);
    r
}

/// A string of the characters `l[lo..hi]`.
pub fn string_of(l: &Vec<char>, lo: usize, hi: usize) -> (r: String)
    requires
        lo <= hi <= l@.len(),
    ensures
        r@ == l@.subrange(lo as int, hi as int),
{
    let mut r = String::new();
    let mut i = lo;
    while i < hi
        invariant
            lo <= i <= hi <= l@.len(),
            r@ == l@.subrange(lo as int, i as int),
        decreases hi - i,
    {
        push_char(&mut r, l[i]);
        assert(l@.subrange(lo as int, i + 1) =~= l@.subrange(lo as int, i as int).push(l@[i as int]));
        i = i + 1;
    }
    r
}

/// Appends the characters of `t`.
pub fn push_seq(out: &mut String, t: &Vec<char>)
    ensures
        final(out)@ == old(out)@ + t@,
{
    let mut i: usize = 0;
    while i < t.len()
        invariant
            i <= t@.len(),
            out@ == old(out)@ + t@.subrange(0, i as int),
        decreases t@.len() - i,
    {
        push_char(out, t[i]);
        assert(t@.subrange(0, i + 1) =~= t@.subrange(0, i as int).push(t@[i as int]));
        i = i + 1;
    }
    assert(t@.subrange(0, i as int) =~= t@);
}

pub fn digit_char_of(d: u64) -> (r: char)
    requires
        d < 10,
    ensures
        r == digit_char(d as nat),
{
    if d == 0 {
        '0'
    } else if d == 1 {
        '1'
    } else if d == 2 {
        '2'
    } else if d == 3 {
        '3'
    } else if d == 4 {
        '4'
    } else if d == 5 {
        '5'
    } else if d == 6 {
        '6'
    } else if d == 7 {
        '7'
    } else if d == 8 {
        '8'
    } else {
        '9'
    }
}

/// Appends `n` in decimal.
pub fn push_dec(out: &mut String, n: u64)
    ensures
        final(out)@ == old(out)@ + dec(n as nat),
    decreases n,
{
    if n >= 10 {
        push_dec(out, n / 10);
    }
    push_char(out, digit_char_of(n % 10));
    assert(final(out)@ =~= old(out)@ + dec(n as nat)) by {
        if n >= 10 {
            assert(dec(n as nat) == dec((n / 10) as nat).push(digit_char((n % 10) as nat)));
        }
    }
}

/// Appends `n` in decimal with at least two digits.
pub fn push_dec2(out: &mut String, n: u64)
    ensures
        final(out)@ == old(out)@ + dec2(n as nat),
{
    if n < 10 {
        push_char(out, '0');
        push_char(out, digit_char_of(n));
        assert(final(out)@ =~= old(out)@ + dec2(n as nat));
    } else {
        push_dec(out, n);
    }
}

/// Appends `n` in decimal, a minus sign first where it is negative.
pub fn push_signed_dec(out: &mut String, n: i32)
    ensures
        final(out)@ == old(out)@ + signed_dec(n as int),
{
    if n < 0 {
        push_char(out, '-');
        push_dec(out, (-(n as i64)) as u64);
        assert(final(out)@ =~= old(out)@ + signed_dec(n as int));
    } else {
        push_dec(out, n as u64);
    }
}

/// The end of the spaces and tabs that start `l[pos..end]`.
pub fn skip_spaces_at(l: &Vec<char>, pos: usize, end: usize) -> (r: usize)
    requires
        pos <= end <= l@.len(),
    ensures
        pos <= r <= end,
        l@.subrange(r as int, end as int) == skip_spaces(l@.subrange(pos as int, end as int)),
{
    let mut i = pos;
    while i < end && (l[i] == ' ' || l[i] == '\t')
        invariant
            pos <= i <= end <= l@.len(),
            skip_spaces(l@.subrange(i as int, end as int)) == skip_spaces(
                l@.subrange(pos as int, end as int),
            ),
        decreases end - i,
    {
        assert(l@.subrange(i as int, end as int).drop_first() =~= l@.subrange(i + 1, end as int));
        i = i + 1;
    }
    i
}

/// The end of the spaces, tabs and line feeds that start `l[pos..end]`.
pub fn skip_layout_at(l: &Vec<char>, pos: usize, end: usize) -> (r: usize)
    requires
        pos <= end <= l@.len(),
    ensures
        pos <= r <= end,
        l@.subrange(r as int, end as int) == skip_layout(l@.subrange(pos as int, end as int)),
{
    let mut i = pos;
    while i < end && (l[i] == ' ' || l[i] == '\t' || l[i] == '\n')
        invariant
            pos <= i <= end <= l@.len(),
            skip_layout(l@.subrange(i as int, end as int)) == skip_layout(
                l@.subrange(pos as int, end as int),
            ),
        decreases end - i,
    {
        assert(l@.subrange(i as int, end as int).drop_first() =~= l@.subrange(i + 1, end as int));
        i = i + 1;
    }
    i
}

/// The bounds of `l[lo..hi]` with blank characters trimmed from both ends.
pub fn trim_at(l: &Vec<char>, lo: usize, hi: usize) -> (r: (usize, usize))
    requires
        lo <= hi <= l@.len(),
    ensures
        lo <= r.0 <= r.1 <= hi,
        l@.subrange(r.0 as int, r.1 as int) == trim(l@.subrange(lo as int, hi as int)),
{
    let mut a = lo;
    while a < hi && blank_char(l[a])
        invariant
            lo <= a <= hi <= l@.len(),
            trim_start(l@.subrange(a as int, hi as int)) == trim_start(
                l@.subrange(lo as int, hi as int),
            ),
        decreases hi - a,
    {
        assert(l@.subrange(a as int, hi as int).drop_first() =~= l@.subrange(a + 1, hi as int));
        a = a + 1;
    }
    let mut b = hi;
    while b > a && blank_char(l[b - 1])
        invariant
            lo <= a <= b <= hi <= l@.len(),
            trim_end(l@.subrange(a as int, b as int)) == trim(l@.subrange(lo as int, hi as int)),
        decreases b - a,
    {
        assert(l@.subrange(a as int, b as int).drop_last() =~= l@.subrange(a as int, b - 1));
        b = b - 1;
    }
    (a, b)
}

/// The position of the first `c` in `l[pos..end]`, or `end`.
pub fn find_char(l: &Vec<char>, pos: usize, end: usize, c: char) -> (r: usize)
    requires
        pos <= end <= l@.len(),
    ensures
        r == pos + first_index(l@.subrange(pos as int, end as int), c),
        r <= end,
{
    let mut i = pos;
    while i < end && l[i] != c
        invariant
            pos <= i <= end <= l@.len(),
            first_index(l@.subrange(pos as int, end as int), c) == (i - pos) + first_index(
                l@.subrange(i as int, end as int),
                c,
            ),
        decreases end - i,
    {
        assert(l@.subrange(i as int, end as int).drop_first() =~= l@.subrange(i + 1, end as int));
        i = i + 1;
    }
    i
}

/// The run of digits that starts `l[pos..end]`: its end, and its value where
/// that is at most `limit`.
pub fn number_at(l: &Vec<char>, pos: usize, end: usize, limit: u64) -> (r: (usize, Option<u64>))
    requires
        pos <= end <= l@.len(),
        limit <= u32::MAX,
    ensures
        r.0 == pos + digit_run(l@.subrange(pos as int, end as int)),
        r.0 <= end,
        r.1 == (if digits_value(l@.subrange(pos as int, r.0 as int)) <= limit {
            Some(digits_value(l@.subrange(pos as int, r.0 as int)) as u64)
        } else {
            None
        }),
{
    let mut i = pos;
    let mut v: u64 = 0;
    let mut over = false;
    while i < end && '0' <= l[i] && l[i] <= '9'
        invariant
            pos <= i <= end <= l@.len(),
            limit <= u32::MAX,
            digit_run(l@.subrange(pos as int, end as int)) == (i - pos) + digit_run(
                l@.subrange(i as int, end as int),
            ),
            forall|j: int| pos <= j < i ==> is_digit(#[trigger] l@[j]),
            over ==> digits_value(l@.subrange(pos as int, i as int)) > limit,
            !over ==> v == digits_value(l@.subrange(pos as int, i as int)) && v <= limit,
        decreases end - i,
    {
        assert(l@.subrange(i as int, end as int).drop_first() =~= l@.subrange(i + 1, end as int));
        let ghost before = l@.subrange(pos as int, i as int);
        assert(l@.subrange(pos as int, i + 1).drop_last() =~= before);
        let d = (l[i] as u32 - '0' as u32) as u64;
        assert(digits_value(l@.subrange(pos as int, i + 1)) == digits_value(before) * 10 + d);
        assert(digits_value(before) * 10 + d >= digits_value(before)) by (nonlinear_arith);
        if !over {
            assert(v * 10 + d <= 0xffff_ffffu64 * 10 + 9) by (nonlinear_arith)
                requires
                    v <= 0xffff_ffffu64,
                    d < 10,
            ;
            let w = v * 10 + d;
            if w > limit {
                over = true;
            } else {
                v = w;
            }
        }
        i = i + 1;
    }
    if over {
        (i, None)
    } else {
        (i, Some(v))
    }
}

pub proof fn lemma_first_index_bound(s: Seq<char>, c: char)
    ensures
        first_index(s, c) <= s.len(),
        first_index(s, c) < s.len() ==> s[first_index(s, c) as int] == c,
        forall|i: int| 0 <= i < first_index(s, c) ==> s[i] != c,
    decreases s.len(),
{
    if s.len() > 0 && s[0] != c {
        lemma_first_index_bound(s.drop_first(), c);
        assert forall|i: int| 0 <= i < first_index(s, c) implies s[i] != c by {
            if i > 0 {
                assert(s[i] == s.drop_first()[i - 1]);
            }
        }
    }
}

} // verus!
