//! Text formatting for the console and the log: elapsed time, ANSI colours
//! and thousands separators.
use vstd::prelude::*;
use crate::text::{decimal, index_of, padded, push_padded, push_str, str_chars, string_of};

verus! {

/// Days, hours, minutes and seconds in `t` seconds.
pub open spec fn elapsed_parts(t: nat) -> (nat, nat, nat, nat) {
    (t / 86400, (t % 86400) / 3600, (t % 3600) / 60, t % 60)
}

/// `t` seconds as `DDDD:HHH:MMM:SSS`, each field right-aligned with spaces.
pub open spec fn elapsed_text(t: nat) -> Seq<char> {
    let (d, h, m, s) = elapsed_parts(t);
    padded(decimal(d), 4, ' ') + seq![':'] + padded(decimal(h), 3, ' ') + seq![':'] + padded(
        decimal(m),
        3,
        ' ',
    ) + seq![':'] + padded(decimal(s), 3, ' ')
}

/// Formats a count of seconds as days, hours, minutes and seconds.
pub fn format_elapsed(timestamp: u64) -> (res: String)
    ensures
        res@ == elapsed_text(timestamp as nat),
{
    let days = timestamp / 86_400;
    let hours = (timestamp % 86_400) / 3_600;
    let minutes = (timestamp % 3_600) / 60;
    let seconds = timestamp % 60;
    let mut out: Vec<char> = Vec::new();
    push_padded(&mut out, days, 4, ' ');
    out.push(':');
    push_padded(&mut out, hours, 3, ' ');
    out.push(':');
    push_padded(&mut out, minutes, 3, ' ');
    out.push(':');
    push_padded(&mut out, seconds, 3, ' ');
    assert(out@ =~= elapsed_text(timestamp as nat));
    string_of(&out)
}

/// The fields of an elapsed time add up to it, and each is within its range.
pub proof fn lemma_elapsed_parts(t: nat)
    ensures
        ({
            let (d, h, m, s) = elapsed_parts(t);
            &&& d * 86400 + h * 3600 + m * 60 + s == t
            &&& h < 24
            &&& m < 60
            &&& s < 60
        }),
{
    let d = t / 86400;
    let r = t % 86400;
    let h = r / 3600;
    let r2 = r % 3600;
    assert(t == d * 86400 + r && 0 <= r < 86400) by (nonlinear_arith)
        requires
            d == t / 86400,
            r == t % 86400,
    ;
    assert(r == h * 3600 + r2 && 0 <= r2 < 3600) by (nonlinear_arith)
        requires
            r >= 0,
            h == r / 3600,
            r2 == r % 3600,
    ;
    assert(h < 24) by (nonlinear_arith)
        requires
            0 <= r < 86400,
            h == r / 3600,
    ;
    assert(t % 3600 == r2) by (nonlinear_arith)
        requires
            t == d * 86400 + r,
            r == h * 3600 + r2,
            0 <= r2 < 3600,
            d >= 0,
            h >= 0,
    ;
    let m = r2 / 60;
    let s = r2 % 60;
    assert(r2 == m * 60 + s && m < 60 && 0 <= s < 60) by (nonlinear_arith)
        requires
            0 <= r2 < 3600,
            m == r2 / 60,
            s == r2 % 60,
    ;
    assert(t % 60 == s) by (nonlinear_arith)
        requires
            t == d * 86400 + h * 3600 + m * 60 + s,
            0 <= s < 60,
            d >= 0,
            h >= 0,
            m >= 0,
    ;
}

/// `text` wrapped in the ANSI escape that sets `code`, and the reset escape.
pub open spec fn colored(text: Seq<char>, code: Seq<char>) -> Seq<char> {
    seq!['\x1b', '['] + code + seq!['m'] + text + seq!['\x1b', '[', '0', 'm']
}

/// `text` in the ANSI colour `code`.
pub fn color(text: &str, code: &str) -> (res: String)
    ensures
        res@ == colored(text@, code@),
{
    let mut out: Vec<char> = Vec::new();
    out.push('\x1b');
    out.push('[');
    push_str(&mut out, code);
    out.push('m');
    push_str(&mut out, text);
    out.push('\x1b');
    out.push('[');
    out.push('0');
    out.push('m');
    assert(out@ =~= colored(text@, code@));
    string_of(&out)
}

/// `text` in the ANSI foreground `fg` on the background `bg`.
pub fn color_bg(text: &str, fg: &str, bg: &str) -> (res: String)
    ensures
        res@ == colored(text@, fg@ + seq![';'] + bg@),
{
    let mut out: Vec<char> = Vec::new();
    out.push('\x1b');
    out.push('[');
    push_str(&mut out, fg);
    out.push(';');
    push_str(&mut out, bg);
    out.push('m');
    push_str(&mut out, text);
    out.push('\x1b');
    out.push('[');
    out.push('0');
    out.push('m');
    assert(out@ =~= colored(text@, fg@ + seq![';'] + bg@));
    string_of(&out)
}

/// `d` with a comma before every group of three characters counted from the right.
pub open spec fn group_thousands(d: Seq<char>) -> Seq<char>
    decreases d.len(),
{
    if d.len() <= 3 {
        d
    } else {
        group_thousands(d.take(d.len() - 3)) + seq![','] + d.skip(d.len() - 3)
    }
}

/// A numeral with thousands separators; a leading `-` stays in front.
pub open spec fn grouped(raw: Seq<char>) -> Seq<char> {
    if raw.len() > 0 && raw[0] == '-' {
        seq!['-'] + group_thousands(raw.drop_first())
    } else {
        group_thousands(raw)
    }
}

/// Appends `group_thousands(v[lo..hi])`.
fn push_grouped(out: &mut Vec<char>, v: &Vec<char>, lo: usize, hi: usize)
    requires
        lo <= hi <= v.len(),
    ensures
        final(out)@ == old(out)@ + group_thousands(v@.subrange(lo as int, hi as int)),
    decreases hi - lo,
{
    let ghost d = v@.subrange(lo as int, hi as int);
    let mut start = lo;
    if hi - lo > 3 {
        start = hi - 3;
        push_grouped(out, v, lo, start);
        out.push(',');
        assert(d.take(d.len() - 3) =~= v@.subrange(lo as int, start as int));
    }
    let ghost mid = out@;
    let mut i = start;
    while i < hi
        invariant
            start <= i <= hi <= v.len(),
            out@ == mid + v@.subrange(start as int, i as int),
        decreases hi - i,
    {
        out.push(v[i]);
        i = i + 1;
        assert(out@ =~= mid + v@.subrange(start as int, i as int));
    }
    if hi - lo > 3 {
        assert(d.skip(d.len() - 3) =~= v@.subrange(start as int, hi as int));
    } else {
        assert(d =~= v@.subrange(start as int, hi as int));
    }
    assert(out@ =~= old(out)@ + group_thousands(d));
}

/// Inserts thousands separators into a numeral.
pub fn grouped_digits(raw: &str) -> (res: String)
    ensures
        res@ == grouped(raw@),
{
    let v = str_chars(raw);
    let mut out: Vec<char> = Vec::new();
    if v.len() > 0 && v[0] == '-' {
        out.push('-');
        push_grouped(&mut out, &v, 1, v.len());
        assert(v@.subrange(1, v@.len() as int) =~= v@.drop_first());
    } else {
        push_grouped(&mut out, &v, 0, v.len());
        assert(v@.subrange(0, v@.len() as int) =~= v@);
    }
    assert(out@ =~= grouped(raw@));
    string_of(&out)
}

/// A decimal numeral with separators in its integer part: the part before
/// the first `.` is grouped, the rest kept; without a `.`, `.000` is added.
pub open spec fn grouped_decimal_of(rounded: Seq<char>) -> Seq<char> {
    match index_of(rounded, '.') {
        Some(i) => grouped(rounded.take(i)) + seq!['.'] + rounded.skip(i + 1),
        None => grouped(rounded) + seq!['.', '0', '0', '0'],
    }
}

/// Groups the integer part of `rounded`, a number already written with its
/// decimals (as `format!("{:.3}", value)` writes it).
pub fn grouped_decimal_text(rounded: &str) -> (res: String)
    ensures
        res@ == grouped_decimal_of(rounded@),
{
    let v = str_chars(rounded);
    let mut out: Vec<char> = Vec::new();
    let n = v.len();
    match crate::text::find_char(&v, 0, n, '.') {
        Some(k) => {
            assert(v@.subrange(0, n as int) =~= v@);
            let int_part = string_of(&crate::text::copy_range(&v, 0, k));
            let g = grouped_digits(int_part.as_str());
            let gv = str_chars(g.as_str());
            let mut i: usize = 0;
            while i < gv.len()
                invariant
                    0 <= i <= gv.len(),
                    out@ == gv@.take(i as int),
                decreases gv.len() - i,
            {
                out.push(gv[i]);
                i = i + 1;
                assert(out@ =~= gv@.take(i as int));
            }
            out.push('.');
            let mut j = k + 1;
            let ghost mid = out@;
            while j < n
                invariant
                    k + 1 <= j <= n,
                    n == v.len(),
                    out@ == mid + v@.subrange(k + 1, j as int),
                decreases n - j,
            {
                out.push(v[j]);
                j = j + 1;
                assert(out@ =~= mid + v@.subrange(k + 1, j as int));
            }
            assert(gv@.take(gv.len() as int) =~= gv@);
            assert(v@.take(k as int) =~= v@.subrange(0, k as int));
            assert(v@.skip(k + 1) =~= v@.subrange(k + 1, n as int));
        },
        None => {
            assert(v@.subrange(0, n as int) =~= v@);
            let g = grouped_digits(rounded);
            let gv = str_chars(g.as_str());
            let mut i: usize = 0;
            while i < gv.len()
                invariant
                    0 <= i <= gv.len(),
                    out@ == gv@.take(i as int),
                decreases gv.len() - i,
            {
                out.push(gv[i]);
                i = i + 1;
                assert(out@ =~= gv@.take(i as int));
            }
            assert(gv@.take(gv.len() as int) =~= gv@);
            out.push('.');
            out.push('0');
            out.push('0');
            out.push('0');
        },
    }
    assert(out@ =~= grouped_decimal_of(rounded@));
    string_of(&out)
}

/// `s` with every comma removed.
pub open spec fn without_commas(s: Seq<char>) -> Seq<char>
    decreases s.len(),
{
    if s.len() == 0 {
        s
    } else if s.last() == ',' {
        without_commas(s.drop_last())
    } else {
        without_commas(s.drop_last()).push(s.last())
    }
}

proof fn lemma_without_commas_concat(a: Seq<char>, b: Seq<char>)
    ensures
        without_commas(a + b) == without_commas(a) + without_commas(b),
    decreases b.len(),
{
    if b.len() == 0 {
        assert(a + b =~= a);
        assert(without_commas(a) + without_commas(b) =~= without_commas(a));
    } else {
        assert((a + b).drop_last() =~= a + b.drop_last());
        assert((a + b).last() == b.last());
        lemma_without_commas_concat(a, b.drop_last());
        if b.last() != ',' {
            assert(without_commas(a) + without_commas(b.drop_last()).push(b.last()) =~= (
            without_commas(a) + without_commas(b.drop_last())).push(b.last()));
        }
    }
}

proof fn lemma_without_commas_plain(s: Seq<char>)
    requires
        forall|i: int| 0 <= i < s.len() ==> s[i] != ',',
    ensures
        without_commas(s) == s,
    decreases s.len(),
{
    if s.len() > 0 {
        lemma_without_commas_plain(s.drop_last());
        assert(without_commas(s.drop_last()).push(s.last()) =~= s);
    }
}

/// Separators only add commas: dropping them gives back the digits.
pub proof fn lemma_grouping_keeps_digits(d: Seq<char>)
    requires
        forall|i: int| 0 <= i < d.len() ==> d[i] != ',',
    ensures
        without_commas(group_thousands(d)) == d,
    decreases d.len(),
{
    if d.len() <= 3 {
        lemma_without_commas_plain(d);
    } else {
        let head = d.take(d.len() - 3);
        let tail = d.skip(d.len() - 3);
        assert forall|i: int| 0 <= i < head.len() implies head[i] != ',' by {
            assert(head[i] == d[i]);
        }
        assert forall|i: int| 0 <= i < tail.len() implies tail[i] != ',' by {
            assert(tail[i] == d[i + d.len() - 3]);
        }
        lemma_grouping_keeps_digits(head);
        lemma_without_commas_concat(group_thousands(head) + seq![','], tail);
        lemma_without_commas_concat(group_thousands(head), seq![',']);
        let comma = seq![','];
        assert(comma.drop_last() =~= Seq::<char>::empty());
        assert(without_commas(comma.drop_last()) =~= Seq::<char>::empty());
        assert(without_commas(comma) =~= Seq::<char>::empty());
        lemma_without_commas_plain(tail);
        assert(group_thousands(d) == group_thousands(head) + comma + tail);
        assert(head + Seq::<char>::empty() + tail =~= d);
    }
}

/// Every group after the first has exactly three characters, the first one to three.
pub proof fn lemma_group_sizes(d: Seq<char>)
    requires
        d.len() > 0,
        forall|i: int| 0 <= i < d.len() ==> d[i] != ',',
    ensures
        group_thousands(d).len() == d.len() + (d.len() - 1) / 3,
        forall|i: int|
            0 <= i < group_thousands(d).len() ==> (#[trigger] group_thousands(d)[i] == ',' <==> (
            group_thousands(d).len() - i) % 4 == 0),
    decreases d.len(),
{
    if d.len() > 3 {
        let head = d.take(d.len() - 3);
        let tail = d.skip(d.len() - 3);
        lemma_group_sizes(head);
        let g = group_thousands(d);
        let gh = group_thousands(head);
        assert(g == gh + seq![','] + tail);
        assert forall|i: int| 0 <= i < g.len() implies (#[trigger] g[i] == ',' <==> (g.len() - i)
            % 4 == 0) by {
            if i < gh.len() {
                assert(g[i] == gh[i]);
                assert((g.len() - i) % 4 == (gh.len() - i) % 4) by {
                    assert(g.len() - i == (gh.len() - i) + 4);
                }
            } else if i == gh.len() {
            } else {
                assert(g[i] == tail[i - gh.len() - 1]);
            }
        }
    } else {
        assert forall|i: int| 0 <= i < d.len() implies (#[trigger] d[i] == ',' <==> (d.len() - i)
            % 4 == 0) by {
        }
    }
}

} // verus!
