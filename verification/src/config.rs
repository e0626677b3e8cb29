//! The `forever-perfmon.toml` settings: a line-oriented subset of TOML with
//! `key = value` lines, `#` comments, basic strings and booleans.
use vstd::prelude::*;
use crate::text::{
    copy_range, find_char, index_of, is_space, lemma_index_of, lemma_index_of_concat,
    lemma_space_is_white_space, lemma_trim_end_concat, lemma_trim_start_concat,
    lemma_trim_start_suffix, range_equals, str_chars, string_of, trim, trim_end, trim_start,
    trim_range, white_space_chars,
};

verus! {

/// The settings file's name.
pub const CONFIG_FILE: &'static str = "forever-perfmon.toml";

/// The VM whose Hyper-V counters are shown unless the settings say otherwise.
pub const DEFAULT_HYPERV_VM_NAME: &'static str = "ubuntu_22_04";

/// The settings as the file states them.
pub struct Config {
    pub csv_dir: String,
    pub csv_output: bool,
    pub snapshot_dir: String,
    pub hyperv_vm_name: Option<String>,
}

/// A required key that the settings file does not assign.
pub struct MissingKey {
    pub key: String,
}

/// `line` without a trailing carriage return.
pub open spec fn strip_cr(line: Seq<char>) -> Seq<char> {
    if line.len() > 0 && line.last() == '\r' {
        line.drop_last()
    } else {
        line
    }
}

/// The lines of `s`, as `str::lines` yields them: split at `\n`, a `\r`
/// before the `\n` dropped, and no empty line after a final `\n`.
pub open spec fn text_lines(s: Seq<char>) -> Seq<Seq<char>>
    decreases s.len(),
{
    match index_of(s, '\n') {
        Some(i) => {
            proof {
                lemma_index_of(s, '\n');
            }
            seq![strip_cr(s.take(i))] + text_lines(s.skip(i + 1))
        },
        None => if s.len() == 0 {
            seq![]
        } else {
            seq![s]
        },
    }
}

/// `line` up to its first `#`.
pub open spec fn without_comment(line: Seq<char>) -> Seq<char> {
    match index_of(line, '#') {
        Some(i) => line.take(i),
        None => line,
    }
}

/// The trimmed right-hand side of `line` when the line assigns `key`.
pub open spec fn assigned_value(line: Seq<char>, key: Seq<char>) -> Option<Seq<char>> {
    let l = trim(without_comment(line));
    match index_of(l, '=') {
        Some(i) => if trim(l.take(i)) == key {
            Some(trim(l.skip(i + 1)))
        } else {
            None
        },
        None => None,
    }
}

/// What the escape `\c` stands for in a basic string.
pub open spec fn escaped(c: char) -> Seq<char> {
    if c == 'n' {
        seq!['\n']
    } else if c == 'r' {
        seq!['\r']
    } else if c == 't' {
        seq!['\t']
    } else if c == '"' {
        seq!['"']
    } else if c == '\\' {
        seq!['\\']
    } else {
        seq!['\\', c]
    }
}

/// The text of a basic string's body: `\n`, `\r`, `\t`, `\"` and `\\` are
/// replaced, any other backslash is kept as it stands.
pub open spec fn unescape(s: Seq<char>) -> Seq<char>
    decreases s.len(),
{
    if s.len() == 0 {
        seq![]
    } else if s[0] != '\\' {
        seq![s[0]] + unescape(s.drop_first())
    } else if s.len() == 1 {
        seq!['\\']
    } else {
        escaped(s[1]) + unescape(s.skip(2))
    }
}

/// A value read as a string: a quoted basic string is unescaped, bare text is
/// taken as it stands, and an empty value is no value.
pub open spec fn string_value(value: Seq<char>) -> Option<Seq<char>> {
    if value.len() >= 2 && value[0] == '"' && value.last() == '"' {
        Some(unescape(value.subrange(1, value.len() - 1)))
    } else if value.len() > 0 {
        Some(value)
    } else {
        None
    }
}

/// A value read as a boolean: exactly `true` or `false`.
pub open spec fn bool_value(value: Seq<char>) -> Option<bool> {
    if value == seq!['t', 'r', 'u', 'e'] {
        Some(true)
    } else if value == seq!['f', 'a', 'l', 's', 'e'] {
        Some(false)
    } else {
        None
    }
}

pub open spec fn line_string(line: Seq<char>, key: Seq<char>) -> Option<Seq<char>> {
    match assigned_value(line, key) {
        Some(v) => string_value(v),
        None => None,
    }
}

pub open spec fn line_bool(line: Seq<char>, key: Seq<char>) -> Option<bool> {
    match assigned_value(line, key) {
        Some(v) => bool_value(v),
        None => None,
    }
}

/// The string that the first line assigning `key` as a string gives.
pub open spec fn first_string(lines: Seq<Seq<char>>, key: Seq<char>) -> Option<Seq<char>>
    decreases lines.len(),
{
    if lines.len() == 0 {
        None
    } else {
        match line_string(lines[0], key) {
            Some(v) => Some(v),
            None => first_string(lines.drop_first(), key),
        }
    }
}

/// The boolean that the first line assigning `key` as a boolean gives.
pub open spec fn first_bool(lines: Seq<Seq<char>>, key: Seq<char>) -> Option<bool>
    decreases lines.len(),
{
    if lines.len() == 0 {
        None
    } else {
        match line_bool(lines[0], key) {
            Some(v) => Some(v),
            None => first_bool(lines.drop_first(), key),
        }
    }
}

pub open spec fn config_string(raw: Seq<char>, key: Seq<char>) -> Option<Seq<char>> {
    first_string(text_lines(raw), key)
}

pub open spec fn config_bool(raw: Seq<char>, key: Seq<char>) -> Option<bool> {
    first_bool(text_lines(raw), key)
}

/// A string setting that may also be switched off with `false`: `false`
/// gives `Some(None)`, `true` the default VM name.
pub open spec fn config_string_or_false(raw: Seq<char>, key: Seq<char>) -> Option<Option<Seq<char>>> {
    match config_bool(raw, key) {
        Some(b) => Some(
            if b {
                Some(DEFAULT_HYPERV_VM_NAME@)
            } else {
                None
            },
        ),
        None => match config_string(raw, key) {
            Some(s) => Some(Some(s)),
            None => None,
        },
    }
}

pub open spec fn opt_string_view(o: Option<String>) -> Option<Seq<char>> {
    match o {
        Some(s) => Some(s@),
        None => None,
    }
}

/// Bounds of the trimmed value that `v[lo..hi]`, as a line, assigns to `key`.
fn assigned_range(v: &Vec<char>, lo: usize, hi: usize, key: &Vec<char>) -> (r: Option<
    (usize, usize),
>)
    requires
        lo <= hi <= v.len(),
    ensures
        match r {
            Some((a, b)) => a <= b <= v.len() && assigned_value(
                v@.subrange(lo as int, hi as int),
                key@,
            ) == Some(v@.subrange(a as int, b as int)),
            None => assigned_value(v@.subrange(lo as int, hi as int), key@) is None,
        },
{
    let ghost line = v@.subrange(lo as int, hi as int);
    let end = match find_char(v, lo, hi, '#') {
        Some(k) => k,
        None => hi,
    };
    assert(without_comment(line) =~= v@.subrange(lo as int, end as int));
    let (a, b) = trim_range(v, lo, end);
    let ghost l = v@.subrange(a as int, b as int);
    let e = match find_char(v, a, b, '=') {
        Some(e) => e,
        None => {
            return None;
        },
    };
    assert(l.take(e - a) =~= v@.subrange(a as int, e as int));
    assert(l.skip(e - a + 1) =~= v@.subrange(e + 1, b as int));
    let (ka, kb) = trim_range(v, a, e);
    if !range_equals(v, ka, kb, key) {
        return None;
    }
    let (va, vb) = trim_range(v, e + 1, b);
    Some((va, vb))
}

/// Unescapes the basic-string body `v[lo..hi]`.
fn unescape_range(v: &Vec<char>, lo: usize, hi: usize) -> (res: Vec<char>)
    requires
        lo <= hi <= v.len(),
    ensures
        res@ == unescape(v@.subrange(lo as int, hi as int)),
{
    let mut out: Vec<char> = Vec::new();
    let mut i = lo;
    while i < hi
        invariant
            lo <= i <= hi <= v.len(),
            unescape(v@.subrange(lo as int, hi as int)) == out@ + unescape(
                v@.subrange(i as int, hi as int),
            ),
        decreases hi - i,
    {
        let ghost rest = v@.subrange(i as int, hi as int);
        let ghost before = out@;
        let ch = v[i];
        if ch != '\\' {
            out.push(ch);
            assert(rest.drop_first() =~= v@.subrange(i + 1, hi as int));
            i = i + 1;
            assert(out@ + unescape(v@.subrange(i as int, hi as int)) =~= before + unescape(rest));
        } else if i + 1 == hi {
            out.push('\\');
            i = i + 1;
            assert(v@.subrange(i as int, hi as int) =~= Seq::<char>::empty());
            assert(out@ + unescape(v@.subrange(i as int, hi as int)) =~= before + unescape(rest));
        } else {
            let next = v[i + 1];
            if next == 'n' {
                out.push('\n');
            } else if next == 'r' {
                out.push('\r');
            } else if next == 't' {
                out.push('\t');
            } else if next == '"' {
                out.push('"');
            } else if next == '\\' {
                out.push('\\');
            } else {
                out.push('\\');
                out.push(next);
            }
            assert(out@ =~= before + escaped(next));
            assert(rest.skip(2) =~= v@.subrange(i + 2, hi as int));
            i = i + 2;
            assert(out@ + unescape(v@.subrange(i as int, hi as int)) =~= before + unescape(rest));
        }
    }
    assert(v@.subrange(i as int, hi as int) =~= Seq::<char>::empty());
    assert(out@ + Seq::<char>::empty() =~= out@);
    out
}

/// The string value of the trimmed value `v[a..b]`.
fn string_value_range(v: &Vec<char>, a: usize, b: usize) -> (res: Option<Vec<char>>)
    requires
        a <= b <= v.len(),
    ensures
        match res {
            Some(s) => string_value(v@.subrange(a as int, b as int)) == Some(s@),
            None => string_value(v@.subrange(a as int, b as int)) is None,
        },
{
    let ghost value = v@.subrange(a as int, b as int);
    if b - a >= 2 && v[a] == '"' && v[b - 1] == '"' {
        let s = unescape_range(v, a + 1, b - 1);
        assert(value.subrange(1, value.len() - 1) =~= v@.subrange(a + 1, b - 1));
        Some(s)
    } else if b > a {
        Some(copy_range(v, a, b))
    } else {
        None
    }
}

/// The boolean value of the trimmed value `v[a..b]`.
fn bool_value_range(v: &Vec<char>, a: usize, b: usize) -> (res: Option<bool>)
    requires
        a <= b <= v.len(),
    ensures
        res == bool_value(v@.subrange(a as int, b as int)),
{
    let t = vec!['t', 'r', 'u', 'e'];
    let f = vec!['f', 'a', 'l', 's', 'e'];
    assert(t@ =~= seq!['t', 'r', 'u', 'e']);
    assert(f@ =~= seq!['f', 'a', 'l', 's', 'e']);
    if range_equals(v, a, b, &t) {
        Some(true)
    } else if range_equals(v, a, b, &f) {
        Some(false)
    } else {
        None
    }
}

/// Bounds of the line starting at `pos` (without its line ending) and the
/// position after its line ending.
fn next_line(v: &Vec<char>, pos: usize) -> (r: (usize, usize))
    requires
        pos < v.len(),
    ensures
        pos <= r.0 <= r.1 <= v.len(),
        pos < r.1,
        text_lines(v@.skip(pos as int)) == seq![v@.subrange(pos as int, r.0 as int)] + text_lines(
            v@.skip(r.1 as int),
        ),
{
    let ghost rest = v@.skip(pos as int);
    assert(rest =~= v@.subrange(pos as int, v.len() as int));
    match find_char(v, pos, v.len(), '\n') {
        Some(k) => {
            let i = k - pos;
            assert(rest.take(i as int) =~= v@.subrange(pos as int, k as int));
            assert(rest.skip(i + 1) =~= v@.skip(k + 1));
            let mut e = k;
            if e > pos && v[e - 1] == '\r' {
                e = e - 1;
                assert(v@.subrange(pos as int, k as int).drop_last() =~= v@.subrange(
                    pos as int,
                    e as int,
                ));
            }
            (e, k + 1)
        },
        None => {
            assert(v@.skip(v.len() as int) =~= Seq::<char>::empty());
            assert(text_lines(Seq::<char>::empty()) =~= Seq::<Seq<char>>::empty());
            assert(seq![rest] + Seq::<Seq<char>>::empty() =~= seq![rest]);
            (v.len(), v.len())
        },
    }
}

proof fn lemma_first_string_cons(l: Seq<char>, rest: Seq<Seq<char>>, key: Seq<char>)
    ensures
        first_string(seq![l] + rest, key) == match line_string(l, key) {
            Some(v) => Some(v),
            None => first_string(rest, key),
        },
{
    assert((seq![l] + rest)[0] == l);
    assert((seq![l] + rest).drop_first() =~= rest);
}

proof fn lemma_first_bool_cons(l: Seq<char>, rest: Seq<Seq<char>>, key: Seq<char>)
    ensures
        first_bool(seq![l] + rest, key) == match line_bool(l, key) {
            Some(v) => Some(v),
            None => first_bool(rest, key),
        },
{
    assert((seq![l] + rest)[0] == l);
    assert((seq![l] + rest).drop_first() =~= rest);
}

fn find_string(v: &Vec<char>, key: &Vec<char>) -> (res: Option<Vec<char>>)
    ensures
        match res {
            Some(s) => config_string(v@, key@) == Some(s@),
            None => config_string(v@, key@) is None,
        },
{
    let mut pos: usize = 0;
    assert(v@.skip(0) =~= v@);
    while pos < v.len()
        invariant
            pos <= v.len(),
            config_string(v@, key@) == first_string(text_lines(v@.skip(pos as int)), key@),
        decreases v.len() - pos,
    {
        let (end, next) = next_line(v, pos);
        proof {
            lemma_first_string_cons(
                v@.subrange(pos as int, end as int),
                text_lines(v@.skip(next as int)),
                key@,
            );
        }
        match assigned_range(v, pos, end, key) {
            Some((a, b)) => match string_value_range(v, a, b) {
                Some(s) => {
                    return Some(s);
                },
                None => {},
            },
            None => {},
        }
        pos = next;
    }
    assert(v@.skip(pos as int) =~= Seq::<char>::empty());
    assert(text_lines(Seq::<char>::empty()) =~= Seq::<Seq<char>>::empty());
    None
}

fn find_bool(v: &Vec<char>, key: &Vec<char>) -> (res: Option<bool>)
    ensures
        res == config_bool(v@, key@),
{
    let mut pos: usize = 0;
    assert(v@.skip(0) =~= v@);
    while pos < v.len()
        invariant
            pos <= v.len(),
            config_bool(v@, key@) == first_bool(text_lines(v@.skip(pos as int)), key@),
        decreases v.len() - pos,
    {
        let (end, next) = next_line(v, pos);
        proof {
            lemma_first_bool_cons(
                v@.subrange(pos as int, end as int),
                text_lines(v@.skip(next as int)),
                key@,
            );
        }
        match assigned_range(v, pos, end, key) {
            Some((a, b)) => match bool_value_range(v, a, b) {
                Some(x) => {
                    return Some(x);
                },
                None => {},
            },
            None => {},
        }
        pos = next;
    }
    assert(v@.skip(pos as int) =~= Seq::<char>::empty());
    assert(text_lines(Seq::<char>::empty()) =~= Seq::<Seq<char>>::empty());
    None
}

/// The string that `line` assigns to `key`, if it assigns one.
pub fn parse_string_assignment(line: &str, key: &str) -> (res: Option<String>)
    ensures
        opt_string_view(res) == line_string(line@, key@),
{
    let v = str_chars(line);
    let k = str_chars(key);
    assert(v@.subrange(0, v@.len() as int) =~= v@);
    match assigned_range(&v, 0, v.len(), &k) {
        Some((a, b)) => match string_value_range(&v, a, b) {
            Some(s) => Some(string_of(&s)),
            None => None,
        },
        None => None,
    }
}

/// The boolean that `line` assigns to `key`, if it assigns `true` or `false`.
pub fn parse_bool_assignment(line: &str, key: &str) -> (res: Option<bool>)
    ensures
        res == line_bool(line@, key@),
{
    let v = str_chars(line);
    let k = str_chars(key);
    assert(v@.subrange(0, v@.len() as int) =~= v@);
    match assigned_range(&v, 0, v.len(), &k) {
        Some((a, b)) => bool_value_range(&v, a, b),
        None => None,
    }
}

/// Unescapes the body of a basic string.
pub fn unescape_basic_string(value: &str) -> (res: String)
    ensures
        res@ == unescape(value@),
{
    let v = str_chars(value);
    assert(v@.subrange(0, v@.len() as int) =~= v@);
    let out = unescape_range(&v, 0, v.len());
    string_of(&out)
}

/// The string that the first line of `raw` assigning `key` as a string gives.
pub fn optional_string(raw: &str, key: &str) -> (res: Option<String>)
    ensures
        opt_string_view(res) == config_string(raw@, key@),
{
    let v = str_chars(raw);
    let k = str_chars(key);
    match find_string(&v, &k) {
        Some(s) => Some(string_of(&s)),
        None => None,
    }
}

/// The boolean that the first line of `raw` assigning `key` as a boolean gives.
pub fn optional_bool(raw: &str, key: &str) -> (res: Option<bool>)
    ensures
        res == config_bool(raw@, key@),
{
    let v = str_chars(raw);
    let k = str_chars(key);
    find_bool(&v, &k)
}

/// A string setting that `false` switches off and `true` sets to the default VM name.
pub fn optional_string_or_false(raw: &str, key: &str) -> (res: Option<Option<String>>)
    ensures
        match res {
            Some(o) => config_string_or_false(raw@, key@) == Some(opt_string_view(o)),
            None => config_string_or_false(raw@, key@) is None,
        },
{
    if let Some(value) = optional_bool(raw, key) {
        if value {
            return Some(Some(String::from_str(DEFAULT_HYPERV_VM_NAME)));
        } else {
            return Some(None);
        }
    }
    match optional_string(raw, key) {
        Some(s) => Some(Some(s)),
        None => None,
    }
}

/// The string setting `key`, which the file must assign.
pub fn required_string(raw: &str, key: &str) -> (res: Result<String, MissingKey>)
    ensures
        match res {
            Ok(s) => config_string(raw@, key@) == Some(s@),
            Err(e) => config_string(raw@, key@) is None && e.key@ == key@,
        },
{
    match optional_string(raw, key) {
        Some(s) => Ok(s),
        None => Err(MissingKey { key: String::from_str(key) }),
    }
}

/// Text without a backslash is its own unescaped form.
pub proof fn lemma_unescape_plain(s: Seq<char>)
    requires
        forall|i: int| 0 <= i < s.len() ==> s[i] != '\\',
    ensures
        unescape(s) == s,
    decreases s.len(),
{
    if s.len() > 0 {
        let t = s.drop_first();
        assert forall|i: int| 0 <= i < t.len() implies t[i] != '\\' by {
            assert(t[i] == s[i + 1]);
        }
        lemma_unescape_plain(t);
        assert(seq![s[0]] + t =~= s);
    }
}

pub open spec fn missing_key_message(key: Seq<char>) -> Seq<char> {
    "missing `"@ + key + "` in "@ + CONFIG_FILE@
}

impl MissingKey {
    /// The error text: ``missing `key` in forever-perfmon.toml``.
    pub fn message(&self) -> (res: String)
        ensures
            res@ == missing_key_message(self.key@),
    {
        let mut out: Vec<char> = Vec::new();
        crate::text::push_str(&mut out, "missing `");
        crate::text::push_str(&mut out, self.key.as_str());
        crate::text::push_str(&mut out, "` in ");
        crate::text::push_str(&mut out, CONFIG_FILE);
        assert(out@ =~= missing_key_message(self.key@));
        string_of(&out)
    }
}

impl Config {
    /// The settings that the text of the settings file states: `csv_dir` and
    /// `snapshot_dir` must be given (looked up in that order); `csv_output`
    /// defaults to `true`; `hyperv_vm_name` defaults to the default VM name.
    pub fn parse(raw: &str) -> (res: Result<Config, MissingKey>)
        ensures
            match res {
                Ok(c) => {
                    &&& config_string(raw@, "csv_dir"@) == Some(c.csv_dir@)
                    &&& config_string(raw@, "snapshot_dir"@) == Some(c.snapshot_dir@)
                    &&& c.csv_output == match config_bool(raw@, "csv_output"@) {
                        Some(b) => b,
                        None => true,
                    }
                    &&& opt_string_view(c.hyperv_vm_name) == match config_string_or_false(
                        raw@,
                        "hyperv_vm_name"@,
                    ) {
                        Some(o) => o,
                        None => Some(DEFAULT_HYPERV_VM_NAME@),
                    }
                },
                Err(e) => if config_string(raw@, "csv_dir"@) is None {
                    e.key@ == "csv_dir"@
                } else {
                    config_string(raw@, "snapshot_dir"@) is None && e.key@ == "snapshot_dir"@
                },
            },
    {
        let csv_dir = match required_string(raw, "csv_dir") {
            Ok(s) => s,
            Err(e) => {
                return Err(e);
            },
        };
        let csv_output = match optional_bool(raw, "csv_output") {
            Some(b) => b,
            None => true,
        };
        let snapshot_dir = match required_string(raw, "snapshot_dir") {
            Ok(s) => s,
            Err(e) => {
                return Err(e);
            },
        };
        let hyperv_vm_name = match optional_string_or_false(raw, "hyperv_vm_name") {
            Some(o) => o,
            None => Some(String::from_str(DEFAULT_HYPERV_VM_NAME)),
        };
        Ok(Config { csv_dir, csv_output, snapshot_dir, hyperv_vm_name })
    }
}

/// The comment of `x + y` starts in `x` when `x` has a `#`, else in `y`.
proof fn lemma_without_comment_concat(x: Seq<char>, y: Seq<char>)
    ensures
        !x.contains('#') ==> without_comment(x + y) == x + without_comment(y),
        x.contains('#') ==> without_comment(x + y) == without_comment(x),
{
    lemma_index_of_concat(x, y, '#');
    lemma_index_of(x, '#');
    lemma_index_of(y, '#');
    if !x.contains('#') {
        match index_of(x, '#') {
            Some(i) => {
                assert(x[i] == '#');
            },
            None => {},
        }
        match index_of(y, '#') {
            Some(j) => {
                assert((x + y).take(x.len() + j) =~= x + y.take(j));
            },
            None => {},
        }
    } else {
        let k = choose|k: int| 0 <= k < x.len() && x[k] == '#';
        match index_of(x, '#') {
            Some(i) => {
                assert((x + y).take(i) =~= x.take(i));
            },
            None => {
                assert(x[k] != '#');
            },
        }
    }
}

/// A line `p = v`, with no `=` or `#` in `p`, assigns the key `trim(p)` the
/// value `v` with its comment cut off and its blanks trimmed.
proof fn lemma_assignment_form(p: Seq<char>, v: Seq<char>, key: Seq<char>)
    requires
        !p.contains('='),
        !p.contains('#'),
    ensures
        assigned_value(p + seq!['='] + v, key) == if trim(p) == key {
            Some(trim(trim_end(without_comment(v))))
        } else {
            None
        },
{
    let eq = seq!['='];
    assert(!eq.contains('#')) by {
        if eq.contains('#') {
            let k = choose|k: int| 0 <= k < eq.len() && eq[k] == '#';
            assert(eq[k] == '=');
        }
    }
    assert(!(p + eq).contains('#')) by {
        if (p + eq).contains('#') {
            let k = choose|k: int| 0 <= k < (p + eq).len() && (p + eq)[k] == '#';
            if k < p.len() {
                assert((p + eq)[k] == p[k]);
            } else {
                assert((p + eq)[k] == eq[k - p.len()]);
            }
        }
    }
    lemma_without_comment_concat(p + eq, v);
    let w = without_comment(v);
    let e = trim_end(w);
    let sp = trim_start(p);
    lemma_trim_start_suffix(p);
    lemma_trim_start_concat(p, eq + w);
    assert(p + eq + w =~= p + (eq + w));
    assert((eq + w)[0] == '=');
    assert(trim_start(eq + w) == eq + w);
    assert(trim_start(p + eq + w) =~= sp + eq + w);
    lemma_trim_end_concat(sp + eq, w);
    assert((sp + eq).last() == '=');
    assert(trim_end(sp + eq) == sp + eq);
    let l = trim(p + eq + w);
    assert(l =~= sp + (eq + e));
    assert forall|j: int| 0 <= j < sp.len() implies sp[j] != '=' by {
        assert(sp[j] == p[p.len() - sp.len() + j]);
    }
    lemma_index_of(sp, '=');
    match index_of(sp, '=') {
        Some(i) => {
            assert(sp[i] != '=');
        },
        None => {},
    }
    lemma_index_of_concat(sp, eq + e, '=');
    assert(index_of(eq + e, '=') == Some(0int));
    assert(l.take(sp.len() as int) =~= sp);
    assert(l.skip((sp.len() + 1) as int) =~= e);
    assert(trim(sp) == trim(p));
}

/// A whitespace character is neither `=` nor `#`.
proof fn lemma_blank_is_plain(c: char)
    requires
        white_space_chars().contains(c),
    ensures
        is_space(c),
        c != '=',
        c != '#',
        !seq![c].contains('='),
        !seq![c].contains('#'),
{
    lemma_space_is_white_space(c);
    assert(seq![c][0] == c);
}

/// Blanks between the key and `=` do not change what a line assigns: a
/// line `key<c>= value`, for a tab, a space or any other `White_Space`
/// character `c`, assigns exactly what `key= value` does.
pub proof fn lemma_blank_before_equals(key_part: Seq<char>, value_part: Seq<char>, c: char, key: Seq<char>)
    requires
        !key_part.contains('='),
        white_space_chars().contains(c),
    ensures
        assigned_value(key_part + seq![c] + seq!['='] + value_part, key) == assigned_value(
            key_part + seq!['='] + value_part,
            key,
        ),
{
    lemma_blank_is_plain(c);
    let one = key_part + seq![c] + seq!['='] + value_part;
    let two = key_part + seq!['='] + value_part;
    assert(one =~= key_part + (seq![c] + seq!['='] + value_part));
    assert(two =~= key_part + (seq!['='] + value_part));
    lemma_without_comment_concat(key_part, seq![c] + seq!['='] + value_part);
    lemma_without_comment_concat(key_part, seq!['='] + value_part);
    if !key_part.contains('#') {
        let p1 = key_part + seq![c];
        assert(!p1.contains('=') && !p1.contains('#')) by {
            if p1.contains('=') || p1.contains('#') {
                let k = choose|k: int| 0 <= k < p1.len() && (p1[k] == '=' || p1[k] == '#');
                if k < key_part.len() {
                    assert(p1[k] == key_part[k]);
                } else {
                    assert(p1[k] == c);
                }
            }
        }
        lemma_assignment_form(p1, value_part, key);
        lemma_assignment_form(key_part, value_part, key);
        lemma_trim_start_concat(key_part, seq![c]);
        let sp = trim_start(key_part);
        assert(seq![c][0] == c);
        assert(seq![c].drop_first() =~= Seq::<char>::empty());
        assert(trim_start(seq![c]) == trim_start(Seq::<char>::empty()));
        assert(seq![c].last() == c);
        assert(seq![c].drop_last() =~= Seq::<char>::empty());
        assert(trim_end(seq![c]) == trim_end(Seq::<char>::empty()));
        lemma_trim_end_concat(sp, seq![c]);
        assert(trim(p1) == trim(key_part));
    }
}

/// Blanks between `=` and the value do not change what a line assigns: a
/// line `key =<c>value`, for a tab, a space or any other `White_Space`
/// character `c`, assigns exactly what `key =value` does.
pub proof fn lemma_blank_after_equals(key_part: Seq<char>, value_part: Seq<char>, c: char, key: Seq<char>)
    requires
        !key_part.contains('='),
        white_space_chars().contains(c),
    ensures
        assigned_value(key_part + seq!['='] + seq![c] + value_part, key) == assigned_value(
            key_part + seq!['='] + value_part,
            key,
        ),
{
    lemma_blank_is_plain(c);
    let one = key_part + seq!['='] + seq![c] + value_part;
    let two = key_part + seq!['='] + value_part;
    assert(one =~= key_part + (seq!['='] + seq![c] + value_part));
    assert(two =~= key_part + (seq!['='] + value_part));
    lemma_without_comment_concat(key_part, seq!['='] + seq![c] + value_part);
    lemma_without_comment_concat(key_part, seq!['='] + value_part);
    if !key_part.contains('#') {
        let v1 = seq![c] + value_part;
        assert(one =~= key_part + seq!['='] + v1);
        lemma_assignment_form(key_part, v1, key);
        lemma_assignment_form(key_part, value_part, key);
        lemma_without_comment_concat(seq![c], value_part);
        let w = without_comment(value_part);
        let e = trim_end(w);
        lemma_trim_end_concat(seq![c], w);
        assert(seq![c].last() == c);
        assert(seq![c].drop_last() =~= Seq::<char>::empty());
        assert(trim_end(seq![c]) == trim_end(Seq::<char>::empty()));
        assert(seq![c][0] == c);
        assert(seq![c].drop_first() =~= Seq::<char>::empty());
        assert(trim_start(seq![c]) == trim_start(Seq::<char>::empty()));
        lemma_trim_start_concat(seq![c], e);
        assert(trim(trim_end(seq![c] + w)) == trim(e));
    }
}

} // verus!
