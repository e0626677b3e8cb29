//! Local wall-clock time and the three ways it is written: on screen, in
//! file names, and in the snapshot.
use vstd::prelude::*;
use crate::readback::lemma_decimal_digits;
use crate::snapshot::{all_digits, digits_value, is_digit};
use crate::text::{decimal, padded, push_padded, string_of};

verus! {

/// A local date and time, field by field as the system clock reports it.
#[derive(Clone, Copy)]
pub struct SystemTime {
    pub year: u16,
    pub month: u16,
    pub day_of_week: u16,
    pub day: u16,
    pub hour: u16,
    pub minute: u16,
    pub second: u16,
    pub milliseconds: u16,
}

/// Three-letter English month name; empty for month 0 and `???` past December.
pub open spec fn month_name(month: u16) -> Seq<char> {
    if month == 0 {
        seq![]
    } else if month == 1 {
        seq!['J', 'a', 'n']
    } else if month == 2 {
        seq!['F', 'e', 'b']
    } else if month == 3 {
        seq!['M', 'a', 'r']
    } else if month == 4 {
        seq!['A', 'p', 'r']
    } else if month == 5 {
        seq!['M', 'a', 'y']
    } else if month == 6 {
        seq!['J', 'u', 'n']
    } else if month == 7 {
        seq!['J', 'u', 'l']
    } else if month == 8 {
        seq!['A', 'u', 'g']
    } else if month == 9 {
        seq!['S', 'e', 'p']
    } else if month == 10 {
        seq!['O', 'c', 't']
    } else if month == 11 {
        seq!['N', 'o', 'v']
    } else if month == 12 {
        seq!['D', 'e', 'c']
    } else {
        seq!['?', '?', '?']
    }
}

/// `n` written with at least `width` digits, zero-filled.
pub open spec fn zero_padded(n: u16, width: nat) -> Seq<char> {
    padded(decimal(n as nat), width, '0')
}

/// `Mon. DD, YYYY   hh:mm:ss`
pub open spec fn display_text(t: SystemTime) -> Seq<char> {
    month_name(t.month) + seq!['.', ' '] + zero_padded(t.day, 2) + seq![',', ' '] + zero_padded(
        t.year,
        4,
    ) + seq![' ', ' ', ' '] + zero_padded(t.hour, 2) + seq![':'] + zero_padded(t.minute, 2)
        + seq![':'] + zero_padded(t.second, 2)
}

/// `YYYY-MM-DD_hh-mm-ss`
pub open spec fn file_text(t: SystemTime) -> Seq<char> {
    zero_padded(t.year, 4) + seq!['-'] + zero_padded(t.month, 2) + seq!['-'] + zero_padded(
        t.day,
        2,
    ) + seq!['_'] + zero_padded(t.hour, 2) + seq!['-'] + zero_padded(t.minute, 2) + seq!['-']
        + zero_padded(t.second, 2)
}

/// `YYYY-MM-DD hh:mm:ss`
pub open spec fn saved_text(t: SystemTime) -> Seq<char> {
    zero_padded(t.year, 4) + seq!['-'] + zero_padded(t.month, 2) + seq!['-'] + zero_padded(
        t.day,
        2,
    ) + seq![' '] + zero_padded(t.hour, 2) + seq![':'] + zero_padded(t.minute, 2) + seq![':']
        + zero_padded(t.second, 2)
}

fn push_month_name(out: &mut Vec<char>, month: u16)
    ensures
        final(out)@ == old(out)@ + month_name(month),
{
    let name: [char; 3] = if month == 1 {
        ['J', 'a', 'n']
    } else if month == 2 {
        ['F', 'e', 'b']
    } else if month == 3 {
        ['M', 'a', 'r']
    } else if month == 4 {
        ['A', 'p', 'r']
    } else if month == 5 {
        ['M', 'a', 'y']
    } else if month == 6 {
        ['J', 'u', 'n']
    } else if month == 7 {
        ['J', 'u', 'l']
    } else if month == 8 {
        ['A', 'u', 'g']
    } else if month == 9 {
        ['S', 'e', 'p']
    } else if month == 10 {
        ['O', 'c', 't']
    } else if month == 11 {
        ['N', 'o', 'v']
    } else if month == 12 {
        ['D', 'e', 'c']
    } else {
        ['?', '?', '?']
    };
    if month != 0 {
        out.push(name[0]);
        out.push(name[1]);
        out.push(name[2]);
    }
    assert(out@ =~= old(out)@ + month_name(month));
}

/// The time as the console header shows it.
pub fn current_time_display(time: &SystemTime) -> (res: String)
    ensures
        res@ == display_text(*time),
{
    let mut out: Vec<char> = Vec::new();
    push_month_name(&mut out, time.month);
    out.push('.');
    out.push(' ');
    push_padded(&mut out, time.day as u64, 2, '0');
    out.push(',');
    out.push(' ');
    push_padded(&mut out, time.year as u64, 4, '0');
    out.push(' ');
    out.push(' ');
    out.push(' ');
    push_padded(&mut out, time.hour as u64, 2, '0');
    out.push(':');
    push_padded(&mut out, time.minute as u64, 2, '0');
    out.push(':');
    push_padded(&mut out, time.second as u64, 2, '0');
    assert(out@ =~= display_text(*time));
    string_of(&out)
}

/// The time as it appears in a log file's name.
pub fn current_time_file(time: &SystemTime) -> (res: String)
    ensures
        res@ == file_text(*time),
{
    let mut out: Vec<char> = Vec::new();
    push_padded(&mut out, time.year as u64, 4, '0');
    out.push('-');
    push_padded(&mut out, time.month as u64, 2, '0');
    out.push('-');
    push_padded(&mut out, time.day as u64, 2, '0');
    out.push('_');
    push_padded(&mut out, time.hour as u64, 2, '0');
    out.push('-');
    push_padded(&mut out, time.minute as u64, 2, '0');
    out.push('-');
    push_padded(&mut out, time.second as u64, 2, '0');
    assert(out@ =~= file_text(*time));
    string_of(&out)
}

/// The time as the snapshot records it.
pub fn current_time_saved(time: &SystemTime) -> (res: String)
    ensures
        res@ == saved_text(*time),
{
    let mut out: Vec<char> = Vec::new();
    push_padded(&mut out, time.year as u64, 4, '0');
    out.push('-');
    push_padded(&mut out, time.month as u64, 2, '0');
    out.push('-');
    push_padded(&mut out, time.day as u64, 2, '0');
    out.push(' ');
    push_padded(&mut out, time.hour as u64, 2, '0');
    out.push(':');
    push_padded(&mut out, time.minute as u64, 2, '0');
    out.push(':');
    push_padded(&mut out, time.second as u64, 2, '0');
    assert(out@ =~= saved_text(*time));
    string_of(&out)
}

/// The English month abbreviations, January first.
pub open spec fn month_abbreviations() -> Seq<Seq<char>> {
    seq![
        seq!['J', 'a', 'n'],
        seq!['F', 'e', 'b'],
        seq!['M', 'a', 'r'],
        seq!['A', 'p', 'r'],
        seq!['M', 'a', 'y'],
        seq!['J', 'u', 'n'],
        seq!['J', 'u', 'l'],
        seq!['A', 'u', 'g'],
        seq!['S', 'e', 'p'],
        seq!['O', 'c', 't'],
        seq!['N', 'o', 'v'],
        seq!['D', 'e', 'c'],
    ]
}

/// The console header begins with the month: the `m`-th abbreviation for
/// months 1 to 12, `???` past December, nothing for month 0; then `. `.
pub proof fn lemma_display_month(t: SystemTime)
    ensures
        1 <= t.month <= 12 ==> display_text(t).take(5) == month_abbreviations()[t.month - 1]
            + seq!['.', ' '],
        t.month > 12 ==> display_text(t).take(5) == seq!['?', '?', '?', '.', ' '],
        t.month == 0 ==> display_text(t).take(2) == seq!['.', ' '],
{
    let s = display_text(t);
    let name = month_name(t.month);
    assert(s.take((name.len() + 2) as int) =~= name + seq!['.', ' ']);
    let m = month_abbreviations();
    if t.month == 1 {
        assert(name =~= m[0]);
    } else if t.month == 2 {
        assert(name =~= m[1]);
    } else if t.month == 3 {
        assert(name =~= m[2]);
    } else if t.month == 4 {
        assert(name =~= m[3]);
    } else if t.month == 5 {
        assert(name =~= m[4]);
    } else if t.month == 6 {
        assert(name =~= m[5]);
    } else if t.month == 7 {
        assert(name =~= m[6]);
    } else if t.month == 8 {
        assert(name =~= m[7]);
    } else if t.month == 9 {
        assert(name =~= m[8]);
    } else if t.month == 10 {
        assert(name =~= m[9]);
    } else if t.month == 11 {
        assert(name =~= m[10]);
    } else if t.month == 12 {
        assert(name =~= m[11]);
    }
}

/// `10` to the power `w`.
pub open spec fn pow10(w: nat) -> nat
    decreases w,
{
    if w == 0 {
        1
    } else {
        10 * pow10((w - 1) as nat)
    }
}

proof fn lemma_decimal_len(n: nat, w: nat)
    requires
        1 <= w,
        n < pow10(w),
    ensures
        decimal(n).len() <= w,
    decreases w,
{
    if n >= 10 {
        if w == 1 {
            assert(pow10(1) == 10 * pow10(0));
        } else {
            assert(pow10(w) == 10 * pow10((w - 1) as nat));
            assert(n / 10 < pow10((w - 1) as nat));
            lemma_decimal_len(n / 10, (w - 1) as nat);
            assert(decimal(n) == decimal(n / 10).push(crate::text::digit_char(n % 10)));
        }
    }
}

proof fn lemma_leading_zeros(z: Seq<char>, s: Seq<char>)
    requires
        forall|i: int| 0 <= i < z.len() ==> z[i] == '0',
    ensures
        digits_value(z + s) == digits_value(s),
    decreases z.len() + s.len(),
{
    if s.len() == 0 {
        assert(z + s =~= z);
        if z.len() > 0 {
            assert(z.drop_last() + s =~= z.drop_last());
            lemma_leading_zeros(z.drop_last(), s);
            assert(digits_value(z) == digits_value(z.drop_last()) * 10 + ((z.last() as nat) - 48) as nat);
        }
    } else {
        assert((z + s).drop_last() =~= z + s.drop_last());
        assert((z + s).last() == s.last());
        lemma_leading_zeros(z, s.drop_last());
    }
}

/// A field written with `zero_padded` reads back as its value when it fits
/// in the width: exactly `w` digits whose value is `n`.
pub proof fn lemma_zero_padded_reads_back(n: u16, w: nat)
    requires
        1 <= w,
        n < pow10(w),
    ensures
        zero_padded(n, w).len() == w,
        all_digits(zero_padded(n, w)),
        digits_value(zero_padded(n, w)) == n,
{
    let d = decimal(n as nat);
    lemma_decimal_digits(n as nat);
    lemma_decimal_len(n as nat, w);
    let z = zero_padded(n, w);
    if d.len() < w {
        let zeros = Seq::new((w - d.len()) as nat, |i: int| '0');
        assert(z == zeros + d);
        lemma_leading_zeros(zeros, d);
        assert forall|i: int| 0 <= i < z.len() implies is_digit(#[trigger] z[i]) by {
            if i >= zeros.len() {
                assert(z[i] == d[i - zeros.len()]);
            }
        }
    }
}

proof fn lemma_pow10_values()
    ensures
        pow10(2) == 100,
        pow10(4) == 10000,
{
    assert(pow10(0) == 1);
    assert(pow10(1) == 10);
    assert(pow10(2) == 100);
    assert(pow10(3) == 1000);
    assert(pow10(4) == 10000);
}

/// A time whose fields fit their widths (a year up to 9999, the others up
/// to 99) is written `YYYY-MM-DD_hh-mm-ss`, and each field reads back as
/// itself: the file name tells every field of the time.
pub proof fn lemma_file_text_fields(t: SystemTime)
    requires
        t.year < 10000,
        t.month < 100,
        t.day < 100,
        t.hour < 100,
        t.minute < 100,
        t.second < 100,
    ensures
        file_text(t).len() == 19,
        file_text(t)[4] == '-' && file_text(t)[7] == '-' && file_text(t)[10] == '_',
        file_text(t)[13] == '-' && file_text(t)[16] == '-',
        all_digits(file_text(t).subrange(0, 4)) && digits_value(file_text(t).subrange(0, 4))
            == t.year,
        all_digits(file_text(t).subrange(5, 7)) && digits_value(file_text(t).subrange(5, 7))
            == t.month,
        all_digits(file_text(t).subrange(8, 10)) && digits_value(file_text(t).subrange(8, 10))
            == t.day,
        all_digits(file_text(t).subrange(11, 13)) && digits_value(file_text(t).subrange(11, 13))
            == t.hour,
        all_digits(file_text(t).subrange(14, 16)) && digits_value(file_text(t).subrange(14, 16))
            == t.minute,
        all_digits(file_text(t).subrange(17, 19)) && digits_value(file_text(t).subrange(17, 19))
            == t.second,
{
    lemma_pow10_values();
    lemma_zero_padded_reads_back(t.year, 4);
    lemma_zero_padded_reads_back(t.month, 2);
    lemma_zero_padded_reads_back(t.day, 2);
    lemma_zero_padded_reads_back(t.hour, 2);
    lemma_zero_padded_reads_back(t.minute, 2);
    lemma_zero_padded_reads_back(t.second, 2);
    let s = file_text(t);
    assert(s.subrange(0, 4) =~= zero_padded(t.year, 4));
    assert(s.subrange(5, 7) =~= zero_padded(t.month, 2));
    assert(s.subrange(8, 10) =~= zero_padded(t.day, 2));
    assert(s.subrange(11, 13) =~= zero_padded(t.hour, 2));
    assert(s.subrange(14, 16) =~= zero_padded(t.minute, 2));
    assert(s.subrange(17, 19) =~= zero_padded(t.second, 2));
}

/// Times whose fields fit their widths get the same file name only when
/// they agree in every field from the year to the second.
pub proof fn lemma_file_text_distinguishes(a: SystemTime, b: SystemTime)
    requires
        a.year < 10000 && a.month < 100 && a.day < 100 && a.hour < 100 && a.minute < 100
            && a.second < 100,
        b.year < 10000 && b.month < 100 && b.day < 100 && b.hour < 100 && b.minute < 100
            && b.second < 100,
        file_text(a) == file_text(b),
    ensures
        a.year == b.year && a.month == b.month && a.day == b.day,
        a.hour == b.hour && a.minute == b.minute && a.second == b.second,
{
    lemma_file_text_fields(a);
    lemma_file_text_fields(b);
}

/// The snapshot's time is written `YYYY-MM-DD hh:mm:ss`, and each field
/// reads back as itself when it fits its width.
pub proof fn lemma_saved_text_fields(t: SystemTime)
    requires
        t.year < 10000,
        t.month < 100,
        t.day < 100,
        t.hour < 100,
        t.minute < 100,
        t.second < 100,
    ensures
        saved_text(t).len() == 19,
        saved_text(t)[4] == '-' && saved_text(t)[7] == '-' && saved_text(t)[10] == ' ',
        saved_text(t)[13] == ':' && saved_text(t)[16] == ':',
        all_digits(saved_text(t).subrange(0, 4)) && digits_value(saved_text(t).subrange(0, 4))
            == t.year,
        all_digits(saved_text(t).subrange(5, 7)) && digits_value(saved_text(t).subrange(5, 7))
            == t.month,
        all_digits(saved_text(t).subrange(8, 10)) && digits_value(saved_text(t).subrange(8, 10))
            == t.day,
        all_digits(saved_text(t).subrange(11, 13)) && digits_value(saved_text(t).subrange(11, 13))
            == t.hour,
        all_digits(saved_text(t).subrange(14, 16)) && digits_value(saved_text(t).subrange(14, 16))
            == t.minute,
        all_digits(saved_text(t).subrange(17, 19)) && digits_value(saved_text(t).subrange(17, 19))
            == t.second,
{
    lemma_pow10_values();
    lemma_zero_padded_reads_back(t.year, 4);
    lemma_zero_padded_reads_back(t.month, 2);
    lemma_zero_padded_reads_back(t.day, 2);
    lemma_zero_padded_reads_back(t.hour, 2);
    lemma_zero_padded_reads_back(t.minute, 2);
    lemma_zero_padded_reads_back(t.second, 2);
    let s = saved_text(t);
    assert(s.subrange(0, 4) =~= zero_padded(t.year, 4));
    assert(s.subrange(5, 7) =~= zero_padded(t.month, 2));
    assert(s.subrange(8, 10) =~= zero_padded(t.day, 2));
    assert(s.subrange(11, 13) =~= zero_padded(t.hour, 2));
    assert(s.subrange(14, 16) =~= zero_padded(t.minute, 2));
    assert(s.subrange(17, 19) =~= zero_padded(t.second, 2));
}

/// For months 1 to 12 the console header is `Mon. DD, YYYY   hh:mm:ss`, and
/// each field reads back as itself when it fits its width.
pub proof fn lemma_display_text_fields(t: SystemTime)
    requires
        1 <= t.month <= 12,
        t.year < 10000,
        t.day < 100,
        t.hour < 100,
        t.minute < 100,
        t.second < 100,
    ensures
        display_text(t).len() == 24,
        display_text(t).subrange(3, 5) == seq!['.', ' '],
        display_text(t).subrange(7, 9) == seq![',', ' '],
        display_text(t).subrange(13, 16) == seq![' ', ' ', ' '],
        display_text(t)[18] == ':' && display_text(t)[21] == ':',
        all_digits(display_text(t).subrange(5, 7)) && digits_value(display_text(t).subrange(5, 7))
            == t.day,
        all_digits(display_text(t).subrange(9, 13)) && digits_value(
            display_text(t).subrange(9, 13),
        ) == t.year,
        all_digits(display_text(t).subrange(16, 18)) && digits_value(
            display_text(t).subrange(16, 18),
        ) == t.hour,
        all_digits(display_text(t).subrange(19, 21)) && digits_value(
            display_text(t).subrange(19, 21),
        ) == t.minute,
        all_digits(display_text(t).subrange(22, 24)) && digits_value(
            display_text(t).subrange(22, 24),
        ) == t.second,
{
    lemma_pow10_values();
    lemma_display_month(t);
    lemma_zero_padded_reads_back(t.year, 4);
    lemma_zero_padded_reads_back(t.day, 2);
    lemma_zero_padded_reads_back(t.hour, 2);
    lemma_zero_padded_reads_back(t.minute, 2);
    lemma_zero_padded_reads_back(t.second, 2);
    let s = display_text(t);
    assert(month_name(t.month).len() == 3);
    assert(s.subrange(5, 7) =~= zero_padded(t.day, 2));
    assert(s.subrange(9, 13) =~= zero_padded(t.year, 4));
    assert(s.subrange(16, 18) =~= zero_padded(t.hour, 2));
    assert(s.subrange(19, 21) =~= zero_padded(t.minute, 2));
    assert(s.subrange(22, 24) =~= zero_padded(t.second, 2));
}

} // verus!
