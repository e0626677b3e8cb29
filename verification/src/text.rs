//! Character-level helpers shared by the parsers and formatters: the
//! whitespace class that `str::trim` removes, first-occurrence search,
//! trimming, and conversion between `&str`, `Vec<char>` and `String`.
use vstd::prelude::*;
use vstd::std_specs::iter::IteratorSpec;

verus! {

/// Unicode `White_Space`, the class `char::is_whitespace` tests and `str::trim` strips.
pub open spec fn is_space(c: char) -> bool {
    let n = c as u32;
    ||| 0x09 <= n <= 0x0D
    ||| n == 0x20
    ||| n == 0x85
    ||| n == 0xA0
    ||| n == 0x1680
    ||| 0x2000 <= n <= 0x200A
    ||| n == 0x2028
    ||| n == 0x2029
    ||| n == 0x202F
    ||| n == 0x205F
    ||| n == 0x3000
}

pub fn is_space_char(c: char) -> (res: bool)
    ensures
        res == is_space(c),
{
    let n = c as u32;
    (0x09 <= n && n <= 0x0D) || n == 0x20 || n == 0x85 || n == 0xA0 || n == 0x1680 || (0x2000
        <= n && n <= 0x200A) || n == 0x2028 || n == 0x2029 || n == 0x202F || n == 0x205F || n
        == 0x3000
}

/// The Unicode `White_Space` characters, one by one.
pub open spec fn white_space_chars() -> Seq<char> {
    seq![
        '\t', '\n', '\u{0B}', '\u{0C}', '\r', ' ', '\u{85}', '\u{A0}', '\u{1680}', '\u{2000}',
        '\u{2001}', '\u{2002}', '\u{2003}', '\u{2004}', '\u{2005}', '\u{2006}', '\u{2007}',
        '\u{2008}', '\u{2009}', '\u{200A}', '\u{2028}', '\u{2029}', '\u{202F}', '\u{205F}',
        '\u{3000}',
    ]
}

/// `s` without its leading whitespace.
pub open spec fn trim_start(s: Seq<char>) -> Seq<char>
    decreases s.len(),
{
    if s.len() > 0 && is_space(s[0]) {
        trim_start(s.drop_first())
    } else {
        s
    }
}

/// `s` without its trailing whitespace.
pub open spec fn trim_end(s: Seq<char>) -> Seq<char>
    decreases s.len(),
{
    if s.len() > 0 && is_space(s.last()) {
        trim_end(s.drop_last())
    } else {
        s
    }
}

/// `s` without leading and trailing whitespace, as `str::trim` gives it.
pub open spec fn trim(s: Seq<char>) -> Seq<char> {
    trim_end(trim_start(s))
}

/// Position of the first `c` in `s`, as `str::find` (counted in characters).
pub open spec fn index_of(s: Seq<char>, c: char) -> Option<int>
    decreases s.len(),
{
    if s.len() == 0 {
        None
    } else if s[0] == c {
        Some(0)
    } else {
        match index_of(s.drop_first(), c) {
            Some(i) => Some(i + 1),
            None => None,
        }
    }
}

pub proof fn lemma_index_of(s: Seq<char>, c: char)
    ensures
        match index_of(s, c) {
            Some(i) => 0 <= i < s.len() && s[i] == c && forall|j: int| 0 <= j < i ==> s[j] != c,
            None => forall|j: int| 0 <= j < s.len() ==> s[j] != c,
        },
    decreases s.len(),
{
    if s.len() > 0 && s[0] != c {
        lemma_index_of(s.drop_first(), c);
        match index_of(s.drop_first(), c) {
            Some(i) => {
                assert forall|j: int| 0 <= j < i + 1 implies s[j] != c by {
                    if j > 0 {
                        assert(s[j] == s.drop_first()[j - 1]);
                    }
                }
            },
            None => {
                assert forall|j: int| 0 <= j < s.len() implies s[j] != c by {
                    if j > 0 {
                        assert(s[j] == s.drop_first()[j - 1]);
                    }
                }
            },
        }
    }
}

pub proof fn lemma_index_of_found(s: Seq<char>, c: char, i: int)
    requires
        0 <= i < s.len(),
        s[i] == c,
        forall|j: int| 0 <= j < i ==> s[j] != c,
    ensures
        index_of(s, c) == Some(i),
{
    lemma_index_of(s, c);
}

pub proof fn lemma_index_of_absent(s: Seq<char>, c: char)
    requires
        forall|j: int| 0 <= j < s.len() ==> s[j] != c,
    ensures
        index_of(s, c) is None,
{
    lemma_index_of(s, c);
}

pub proof fn lemma_trim_start_at(s: Seq<char>, lo: int)
    requires
        0 <= lo <= s.len(),
        forall|j: int| 0 <= j < lo ==> is_space(s[j]),
        lo == s.len() || !is_space(s[lo]),
    ensures
        trim_start(s) == s.skip(lo),
    decreases lo,
{
    if lo == 0 {
        assert(s.skip(0) =~= s);
    } else {
        let t = s.drop_first();
        assert forall|j: int| 0 <= j < lo - 1 implies is_space(t[j]) by {
            assert(t[j] == s[j + 1]);
        }
        lemma_trim_start_at(t, lo - 1);
        assert(t.skip(lo - 1) =~= s.skip(lo));
    }
}

proof fn lemma_trim_end_at(s: Seq<char>, hi: int)
    requires
        0 <= hi <= s.len(),
        forall|j: int| hi <= j < s.len() ==> is_space(s[j]),
        hi == 0 || !is_space(s[hi - 1]),
    ensures
        trim_end(s) == s.take(hi),
    decreases s.len() - hi,
{
    if hi == s.len() {
        assert(s.take(hi) =~= s);
    } else {
        let t = s.drop_last();
        assert forall|j: int| hi <= j < t.len() implies is_space(t[j]) by {
            assert(t[j] == s[j]);
        }
        if hi > 0 {
            assert(t[hi - 1] == s[hi - 1]);
        }
        lemma_trim_end_at(t, hi);
        assert(t.take(hi) =~= s.take(hi));
    }
}

/// The whitespace class is exactly the Unicode `White_Space` characters.
pub proof fn lemma_space_is_white_space(c: char)
    ensures
        is_space(c) <==> white_space_chars().contains(c),
{
    let w = white_space_chars();
    if is_space(c) {
        let n = c as u32;
        let i: int = if n <= 0x0D {
            n - 9
        } else if n == 0x20 {
            5
        } else if n == 0x85 {
            6
        } else if n == 0xA0 {
            7
        } else if n == 0x1680 {
            8
        } else if n <= 0x200A {
            n - 0x2000 + 9
        } else if n == 0x2028 {
            20
        } else if n == 0x2029 {
            21
        } else if n == 0x202F {
            22
        } else if n == 0x205F {
            23
        } else {
            24
        };
        assert(w[i] as u32 == n);
        assert(w[i] == c);
    }
    if w.contains(c) {
        let i = choose|i: int| 0 <= i < w.len() && w[i] == c;
        assert(is_space(w[i]));
    }
}

/// Trimming removes any `White_Space` character at either end, a tab as
/// much as a space, and keeps any other character there.
pub proof fn lemma_trim_white_space(s: Seq<char>, c: char)
    ensures
        white_space_chars().contains(c) ==> trim_start(seq![c] + s) == trim_start(s),
        white_space_chars().contains(c) ==> trim_end(s + seq![c]) == trim_end(s),
        white_space_chars().contains(c) ==> trim(seq![c] + s + seq![c]) == trim(s),
        !white_space_chars().contains(c) ==> trim_start(seq![c] + s) == seq![c] + s,
        !white_space_chars().contains(c) ==> trim_end(s + seq![c]) == s + seq![c],
{
    lemma_space_is_white_space(c);
    assert((seq![c] + s)[0] == c);
    assert((seq![c] + s).drop_first() =~= s);
    assert((s + seq![c]).last() == c);
    assert((s + seq![c]).drop_last() =~= s);
    if white_space_chars().contains(c) {
        lemma_trim_start_append_end(s, c);
        assert(seq![c] + s + seq![c] =~= seq![c] + (s + seq![c]));
        let t = seq![c] + (s + seq![c]);
        assert(t[0] == c);
        assert(t.drop_first() =~= s + seq![c]);
        assert(trim_start(t) == trim_start(s + seq![c]));
    }
}

/// Dropping leading whitespace commutes with a whitespace character added at the end.
proof fn lemma_trim_start_append_end(s: Seq<char>, c: char)
    requires
        is_space(c),
    ensures
        trim_end(trim_start(s + seq![c])) == trim_end(trim_start(s)),
    decreases s.len(),
{
    if s.len() == 0 {
        assert(Seq::<char>::empty() + seq![c] =~= seq![c]);
        assert(seq![c].drop_first() =~= Seq::<char>::empty());
        assert(trim_start(seq![c]) == trim_start(Seq::<char>::empty()));
    } else if is_space(s[0]) {
        assert((s + seq![c]).drop_first() =~= s.drop_first() + seq![c]);
        assert((s + seq![c])[0] == s[0]);
        lemma_trim_start_append_end(s.drop_first(), c);
    } else {
        assert((s + seq![c])[0] == s[0]);
        assert(trim_start(s + seq![c]) == s + seq![c]);
        assert((s + seq![c]).last() == c);
        assert((s + seq![c]).drop_last() =~= s);
    }
}

/// Bounds of `trim(v[lo..hi])` inside `v`.
pub fn trim_range(v: &Vec<char>, lo: usize, hi: usize) -> (r: (usize, usize))
    requires
        lo <= hi <= v.len(),
    ensures
        lo <= r.0 <= r.1 <= hi,
        v@.subrange(r.0 as int, r.1 as int) == trim(v@.subrange(lo as int, hi as int)),
{
    let mut a = lo;
    while a < hi && is_space_char(v[a])
        invariant
            lo <= a <= hi <= v.len(),
            forall|j: int| lo <= j < a ==> is_space(v@[j]),
        decreases hi - a,
    {
        a = a + 1;
    }
    let mut b = hi;
    while b > a && is_space_char(v[b - 1])
        invariant
            lo <= a <= b <= hi <= v.len(),
            forall|j: int| b <= j < hi ==> is_space(v@[j]),
        decreases b - a,
    {
        b = b - 1;
    }
    proof {
        let s = v@.subrange(lo as int, hi as int);
        lemma_trim_start_at(s, a - lo);
        let t = s.skip(a - lo);
        assert(t =~= v@.subrange(a as int, hi as int));
        lemma_trim_end_at(t, b - a);
        assert(t.take(b - a) =~= v@.subrange(a as int, b as int));
    }
    (a, b)
}

/// Start of `trim_start(v[lo..])` inside `v`.
pub fn trim_start_from(v: &Vec<char>, lo: usize) -> (a: usize)
    requires
        lo <= v.len(),
    ensures
        lo <= a <= v.len(),
        v@.skip(a as int) == trim_start(v@.skip(lo as int)),
{
    let mut a = lo;
    while a < v.len() && is_space_char(v[a])
        invariant
            lo <= a <= v.len(),
            forall|j: int| lo <= j < a ==> is_space(v@[j]),
        decreases v.len() - a,
    {
        a = a + 1;
    }
    proof {
        let s = v@.skip(lo as int);
        lemma_trim_start_at(s, a - lo);
        assert(s.skip(a - lo) =~= v@.skip(a as int));
    }
    a
}

/// Whether `s` begins with `p`.
pub open spec fn starts_with(s: Seq<char>, p: Seq<char>) -> bool {
    p.len() <= s.len() && s.take(p.len() as int) == p
}

/// Position of the first `c` in `v[lo..hi]`.
pub fn find_char(v: &Vec<char>, lo: usize, hi: usize, c: char) -> (r: Option<usize>)
    requires
        lo <= hi <= v.len(),
    ensures
        match r {
            Some(k) => lo <= k < hi && index_of(v@.subrange(lo as int, hi as int), c) == Some(
                k - lo,
            ),
            None => index_of(v@.subrange(lo as int, hi as int), c) is None,
        },
{
    let mut k = lo;
    while k < hi
        invariant
            lo <= k <= hi <= v.len(),
            forall|j: int| lo <= j < k ==> v@[j] != c,
        decreases hi - k,
    {
        if v[k] == c {
            proof {
                let s = v@.subrange(lo as int, hi as int);
                lemma_index_of_found(s, c, k - lo);
            }
            return Some(k);
        }
        k = k + 1;
    }
    proof {
        lemma_index_of_absent(v@.subrange(lo as int, hi as int), c);
    }
    None
}

/// Whether `v[lo..hi]` spells `key`.
pub fn range_equals(v: &Vec<char>, lo: usize, hi: usize, key: &Vec<char>) -> (res: bool)
    requires
        lo <= hi <= v.len(),
    ensures
        res == (v@.subrange(lo as int, hi as int) == key@),
{
    if hi - lo != key.len() {
        return false;
    }
    let mut i: usize = 0;
    while i < key.len()
        invariant
            hi - lo == key.len(),
            lo <= hi <= v.len(),
            0 <= i <= key.len(),
            forall|j: int| 0 <= j < i ==> v@[lo + j] == key@[j],
        decreases key.len() - i,
    {
        if v[lo + i] != key[i] {
            assert(v@.subrange(lo as int, hi as int)[i as int] != key@[i as int]);
            return false;
        }
        i = i + 1;
    }
    assert(v@.subrange(lo as int, hi as int) =~= key@);
    true
}

/// The characters `v[lo..hi]` as a new vector.
pub fn copy_range(v: &Vec<char>, lo: usize, hi: usize) -> (res: Vec<char>)
    requires
        lo <= hi <= v.len(),
    ensures
        res@ == v@.subrange(lo as int, hi as int),
{
    let mut res: Vec<char> = Vec::new();
    let mut i = lo;
    while i < hi
        invariant
            lo <= i <= hi <= v.len(),
            res@ == v@.subrange(lo as int, i as int),
        decreases hi - i,
    {
        res.push(v[i]);
        i = i + 1;
        assert(res@ =~= v@.subrange(lo as int, i as int));
    }
    res
}

/// The characters of `s`, in order, as a vector.
pub fn str_chars(s: &str) -> (res: Vec<char>)
    ensures
        res@ == s@,
{
    broadcast use vstd::string::group_string_axioms;

    let mut res: Vec<char> = Vec::new();
    let it = s.chars();
    for c in iter: it
        invariant
            res@ == iter.seq().take(iter.index() as int),
    {
        res.push(c);
    }
    res
}

/// Appends one character to a `String` (`String::push`).
#[verifier::external_body]
pub(crate) fn push_char(s: &mut String, c: char)
    ensures
        final(s)@ == old(s)@.push(c),
{
    s.push(c);
}

/// Appends `v` to `s`, character by character.
pub fn push_chars(s: &mut String, v: &Vec<char>)
    ensures
        final(s)@ == old(s)@ + v@,
{
    let ghost start = s@;
    let mut i: usize = 0;
    while i < v.len()
        invariant
            0 <= i <= v.len(),
            s@ == start + v@.take(i as int),
        decreases v.len() - i,
    {
        push_char(s, v[i]);
        i = i + 1;
        assert(s@ =~= start + v@.take(i as int));
    }
    assert(v@.take(v.len() as int) =~= v@);
}

/// The `String` whose characters are `v`.
pub fn string_of(v: &Vec<char>) -> (res: String)
    ensures
        res@ == v@,
{
    let mut s = String::new();
    push_chars(&mut s, v);
    assert(Seq::<char>::empty() + v@ =~= v@);
    s
}

/// The ASCII digit for `d` (0 to 9).
pub open spec fn digit_char(d: nat) -> char {
    (d + 48) as char
}

/// The decimal numeral of `n`, without leading zeros.
pub open spec fn decimal(n: nat) -> Seq<char>
    decreases n,
{
    if n < 10 {
        seq![digit_char(n)]
    } else {
        decimal(n / 10).push(digit_char(n % 10))
    }
}

/// `s` filled on the left with `fill` up to `width` characters.
pub open spec fn padded(s: Seq<char>, width: nat, fill: char) -> Seq<char> {
    if s.len() < width {
        Seq::new((width - s.len()) as nat, |i: int| fill) + s
    } else {
        s
    }
}

/// Appends the decimal numeral of `n`.
pub fn push_decimal(out: &mut Vec<char>, n: u64)
    ensures
        final(out)@ == old(out)@ + decimal(n as nat),
    decreases n,
{
    if n >= 10 {
        push_decimal(out, n / 10);
    }
    let d = (n % 10) as u8;
    let c = (48u8 + d) as char;
    let ghost before = out@;
    out.push(c);
    proof {
        if n >= 10 {
            assert(decimal(n as nat) == decimal((n / 10) as nat).push(digit_char((n % 10) as nat)));
        }
    }
    assert(out@ =~= old(out)@ + decimal(n as nat));
}

/// Appends the decimal numeral of `n`, filled on the left with `fill` up to `width`.
pub fn push_padded(out: &mut Vec<char>, n: u64, width: usize, fill: char)
    ensures
        final(out)@ == old(out)@ + padded(decimal(n as nat), width as nat, fill),
{
    let mut digits: Vec<char> = Vec::new();
    push_decimal(&mut digits, n);
    assert(digits@ =~= decimal(n as nat));
    let ghost start = out@;
    if digits.len() < width {
        let k = width - digits.len();
        let mut i: usize = 0;
        while i < k
            invariant
                0 <= i <= k,
                out@ == start + Seq::new(i as nat, |j: int| fill),
            decreases k - i,
        {
            out.push(fill);
            i = i + 1;
            assert(out@ =~= start + Seq::new(i as nat, |j: int| fill));
        }
    }
    let ghost mid = out@;
    let mut i: usize = 0;
    while i < digits.len()
        invariant
            0 <= i <= digits.len(),
            out@ == mid + digits@.take(i as int),
        decreases digits.len() - i,
    {
        out.push(digits[i]);
        i = i + 1;
        assert(out@ =~= mid + digits@.take(i as int));
    }
    assert(digits@.take(digits.len() as int) =~= digits@);
    assert(out@ =~= start + padded(decimal(n as nat), width as nat, fill));
}

/// Appends the characters of `s`.
pub fn push_str(out: &mut Vec<char>, s: &str)
    ensures
        final(out)@ == old(out)@ + s@,
{
    let v = str_chars(s);
    let ghost start = out@;
    let mut i: usize = 0;
    while i < v.len()
        invariant
            0 <= i <= v.len(),
            out@ == start + v@.take(i as int),
        decreases v.len() - i,
    {
        out.push(v[i]);
        i = i + 1;
        assert(out@ =~= start + v@.take(i as int));
    }
    assert(v@.take(v.len() as int) =~= v@);
}

/// Leading whitespace is dropped across a join: what is left of `x` keeps
/// `y` after it, and an all-blank `x` leaves only `y` to trim.
pub proof fn lemma_trim_start_concat(x: Seq<char>, y: Seq<char>)
    ensures
        trim_start(x + y) == if trim_start(x).len() > 0 {
            trim_start(x) + y
        } else {
            trim_start(y)
        },
    decreases x.len(),
{
    if x.len() == 0 {
        assert(x + y =~= y);
    } else {
        assert((x + y)[0] == x[0]);
        if is_space(x[0]) {
            assert((x + y).drop_first() =~= x.drop_first() + y);
            lemma_trim_start_concat(x.drop_first(), y);
        }
    }
}

/// Trailing whitespace is dropped across a join: what is left of `y` keeps
/// `x` before it, and an all-blank `y` leaves only `x` to trim.
pub proof fn lemma_trim_end_concat(x: Seq<char>, y: Seq<char>)
    ensures
        trim_end(x + y) == if trim_end(y).len() > 0 {
            x + trim_end(y)
        } else {
            trim_end(x)
        },
    decreases y.len(),
{
    if y.len() == 0 {
        assert(x + y =~= x);
    } else {
        assert((x + y).last() == y.last());
        if is_space(y.last()) {
            assert((x + y).drop_last() =~= x + y.drop_last());
            lemma_trim_end_concat(x, y.drop_last());
        }
    }
}

/// What `trim_start` leaves is a suffix of its argument, empty or starting
/// with a character that is not whitespace; trimming it again changes nothing.
pub proof fn lemma_trim_start_suffix(s: Seq<char>)
    ensures
        trim_start(s).len() <= s.len(),
        trim_start(s) == s.skip(s.len() - trim_start(s).len()),
        trim_start(s).len() == 0 || !is_space(trim_start(s)[0]),
        trim_start(trim_start(s)) == trim_start(s),
    decreases s.len(),
{
    if s.len() == 0 {
        assert(s.skip(0) =~= s);
    } else if is_space(s[0]) {
        lemma_trim_start_suffix(s.drop_first());
        assert(s.drop_first().skip(s.drop_first().len() - trim_start(s).len()) =~= s.skip(
            s.len() - trim_start(s).len(),
        ));
    } else {
        assert(s.skip(0) =~= s);
    }
}

/// The first `c` of a join is the first in `x`, or else the first in `y`
/// counted after `x`.
pub proof fn lemma_index_of_concat(x: Seq<char>, y: Seq<char>, c: char)
    ensures
        index_of(x + y, c) == match index_of(x, c) {
            Some(i) => Some(i),
            None => match index_of(y, c) {
                Some(j) => Some(x.len() + j),
                None => None,
            },
        },
{
    lemma_index_of(x, c);
    lemma_index_of(y, c);
    let s = x + y;
    match index_of(x, c) {
        Some(i) => {
            assert forall|j: int| 0 <= j < i implies s[j] != c by {
                assert(s[j] == x[j]);
            }
            assert(s[i] == x[i]);
            lemma_index_of_found(s, c, i);
        },
        None => {
            match index_of(y, c) {
                Some(j) => {
                    assert forall|k: int| 0 <= k < x.len() + j implies s[k] != c by {
                        if k < x.len() {
                            assert(s[k] == x[k]);
                        } else {
                            assert(s[k] == y[k - x.len()]);
                        }
                    }
                    assert(s[x.len() + j] == y[j]);
                    lemma_index_of_found(s, c, x.len() + j);
                },
                None => {
                    assert forall|k: int| 0 <= k < s.len() implies s[k] != c by {
                        if k < x.len() {
                            assert(s[k] == x[k]);
                        } else {
                            assert(s[k] == y[k - x.len()]);
                        }
                    }
                    lemma_index_of_absent(s, c);
                },
            }
        },
    }
}

} // verus!
