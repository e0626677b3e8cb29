//! The snapshot file: a small JSON object of the cumulative counters, read
//! back key by key when the monitor resumes.
use vstd::prelude::*;
use crate::text::{
    decimal, find_char, index_of, push_decimal, push_str, range_equals, starts_with, str_chars,
    string_of, trim_start, trim_start_from,
};

verus! {

/// Whether `p` occurs in `s` at `i`.
pub open spec fn occurs_at(s: Seq<char>, p: Seq<char>, i: int) -> bool {
    0 <= i && i + p.len() <= s.len() && s.subrange(i, i + p.len()) == p
}

/// Position of the first occurrence of `p` in `s`, as `str::find` (counted in characters).
pub open spec fn find_sub(s: Seq<char>, p: Seq<char>) -> Option<int>
    decreases s.len(),
{
    if p.len() > s.len() {
        None
    } else if s.take(p.len() as int) == p {
        Some(0)
    } else if s.len() == 0 {
        None
    } else {
        match find_sub(s.drop_first(), p) {
            Some(i) => Some(i + 1),
            None => None,
        }
    }
}

pub proof fn lemma_find_sub(s: Seq<char>, p: Seq<char>)
    ensures
        match find_sub(s, p) {
            Some(i) => occurs_at(s, p, i) && forall|j: int| 0 <= j < i ==> !occurs_at(s, p, j),
            None => forall|j: int| !occurs_at(s, p, j),
        },
    decreases s.len(),
{
    if p.len() > s.len() {
    } else if s.take(p.len() as int) == p {
        assert(s.subrange(0, p.len() as int) =~= s.take(p.len() as int));
    } else if s.len() == 0 {
        assert(s.take(p.len() as int) =~= p);
    } else {
        let t = s.drop_first();
        lemma_find_sub(t, p);
        assert(!occurs_at(s, p, 0)) by {
            if occurs_at(s, p, 0) {
                assert(s.subrange(0, p.len() as int) =~= s.take(p.len() as int));
            }
        }
        assert forall|j: int| 1 <= j implies occurs_at(s, p, j) == occurs_at(t, p, j - 1) by {
            if 0 <= j - 1 && j - 1 + p.len() <= t.len() {
                assert(s.subrange(j, j + p.len()) =~= t.subrange(j - 1, j - 1 + p.len()));
            }
        }
    }
}

pub proof fn lemma_find_sub_at(s: Seq<char>, p: Seq<char>, i: int)
    requires
        occurs_at(s, p, i),
        forall|j: int| 0 <= j < i ==> !occurs_at(s, p, j),
    ensures
        find_sub(s, p) == Some(i),
{
    lemma_find_sub(s, p);
}

/// Characters that can make up a JSON number.
pub open spec fn is_number_char(c: char) -> bool {
    ('0' <= c && c <= '9') || c == '.' || c == '-' || c == '+' || c == 'e' || c == 'E'
}

/// The longest prefix of `s` made of number characters.
pub open spec fn number_prefix(s: Seq<char>) -> Seq<char>
    decreases s.len(),
{
    if s.len() > 0 && is_number_char(s[0]) {
        seq![s[0]] + number_prefix(s.drop_first())
    } else {
        seq![]
    }
}

pub open spec fn null_word() -> Seq<char> {
    seq!['n', 'u', 'l', 'l']
}

/// The number text after `"key":` in `raw`: the first occurrence of the
/// quoted key, the first `:` from there, spaces skipped; nothing when the
/// value is `null` or does not start with a number character.
pub open spec fn json_token_of(raw: Seq<char>, key: Seq<char>) -> Option<Seq<char>> {
    let needle = seq!['"'] + key + seq!['"'];
    match find_sub(raw, needle) {
        None => None,
        Some(start) => match index_of(raw.skip(start), ':') {
            None => None,
            Some(c) => {
                let rest = trim_start(raw.skip(start + c + 1));
                if starts_with(rest, null_word()) {
                    None
                } else if number_prefix(rest).len() > 0 {
                    Some(number_prefix(rest))
                } else {
                    None
                }
            },
        },
    }
}

pub open spec fn is_digit(c: char) -> bool {
    '0' <= c && c <= '9'
}

/// The value of a string of decimal digits.
pub open spec fn digits_value(s: Seq<char>) -> nat
    decreases s.len(),
{
    if s.len() == 0 {
        0
    } else {
        digits_value(s.drop_last()) * 10 + ((s.last() as nat) - 48) as nat
    }
}

/// `s` without one leading `+`.
pub open spec fn unsigned_part(s: Seq<char>) -> Seq<char> {
    if s.len() > 0 && s[0] == '+' {
        s.drop_first()
    } else {
        s
    }
}

pub open spec fn all_digits(d: Seq<char>) -> bool {
    forall|i: int| 0 <= i < d.len() ==> is_digit(#[trigger] d[i])
}

/// `u64::from_str`: an optional `+`, then one or more decimal digits whose
/// value fits in a `u64`.
pub open spec fn parse_u64(s: Seq<char>) -> Option<u64> {
    let d = unsigned_part(s);
    if d.len() > 0 && all_digits(d) && digits_value(d) <= u64::MAX {
        Some(digits_value(d) as u64)
    } else {
        None
    }
}

/// The `u64` that `raw` gives for `key`: its number text read as a `u64`.
pub open spec fn json_u64_of(raw: Seq<char>, key: Seq<char>) -> Option<u64> {
    match json_token_of(raw, key) {
        Some(t) => parse_u64(t),
        None => None,
    }
}

/// First occurrence of `p` in `v`.
fn find_range(v: &Vec<char>, p: &Vec<char>) -> (r: Option<usize>)
    ensures
        match r {
            Some(i) => find_sub(v@, p@) == Some(i as int),
            None => find_sub(v@, p@) is None,
        },
{
    proof {
        lemma_find_sub(v@, p@);
    }
    if p.len() > v.len() {
        return None;
    }
    let last = v.len() - p.len();
    let mut i: usize = 0;
    loop
        invariant
            last == v.len() - p.len(),
            p.len() <= v.len(),
            0 <= i <= last,
            forall|j: int| 0 <= j < i ==> !occurs_at(v@, p@, j),
        decreases last - i,
    {
        if range_equals(v, i, i + p.len(), p) {
            proof {
                lemma_find_sub_at(v@, p@, i as int);
            }
            return Some(i);
        }
        assert(!occurs_at(v@, p@, i as int));
        if i == last {
            assert(find_sub(v@, p@) is None) by {
                lemma_find_sub(v@, p@);
                if let Some(k) = find_sub(v@, p@) {
                    assert(occurs_at(v@, p@, k));
                }
            }
            return None;
        }
        i = i + 1;
    }
}

fn token_range(v: &Vec<char>, key: &Vec<char>) -> (r: Option<(usize, usize)>)
    ensures
        match r {
            Some((a, b)) => a <= b <= v.len() && json_token_of(v@, key@) == Some(
                v@.subrange(a as int, b as int),
            ),
            None => json_token_of(v@, key@) is None,
        },
{
    let mut needle: Vec<char> = Vec::new();
    needle.push('"');
    let mut k: usize = 0;
    while k < key.len()
        invariant
            0 <= k <= key.len(),
            needle@ == seq!['"'] + key@.take(k as int),
        decreases key.len() - k,
    {
        needle.push(key[k]);
        k = k + 1;
        assert(needle@ =~= seq!['"'] + key@.take(k as int));
    }
    needle.push('"');
    assert(key@.take(key.len() as int) =~= key@);
    assert(needle@ =~= seq!['"'] + key@ + seq!['"']);
    let start = match find_range(v, &needle) {
        Some(s) => s,
        None => {
            return None;
        },
    };
    proof {
        lemma_find_sub(v@, needle@);
    }
    let n = v.len();
    assert(v@.skip(start as int) =~= v@.subrange(start as int, n as int));
    let colon = match find_char(v, start, n, ':') {
        Some(c) => c,
        None => {
            return None;
        },
    };
    let a = trim_start_from(v, colon + 1);
    assert(v@.skip(start as int).skip(colon - start + 1) =~= v@.skip(colon + 1));
    let ghost rest = v@.skip(a as int);
    if n - a >= 4 && v[a] == 'n' && v[a + 1] == 'u' && v[a + 2] == 'l' && v[a + 3] == 'l' {
        assert(rest.take(4) =~= null_word());
        return None;
    }
    assert(!starts_with(rest, null_word())) by {
        if starts_with(rest, null_word()) {
            assert(rest.take(4)[0] == rest[0]);
            assert(rest.take(4)[1] == rest[1]);
            assert(rest.take(4)[2] == rest[2]);
            assert(rest.take(4)[3] == rest[3]);
        }
    }
    let mut b = a;
    while b < n && (('0' <= v[b] && v[b] <= '9') || v[b] == '.' || v[b] == '-' || v[b] == '+'
        || v[b] == 'e' || v[b] == 'E')
        invariant
            a <= b <= n,
            n == v.len(),
            number_prefix(v@.skip(a as int)) == v@.subrange(a as int, b as int) + number_prefix(
                v@.skip(b as int),
            ),
        decreases n - b,
    {
        let ghost before = v@.skip(b as int);
        assert(before.drop_first() =~= v@.skip(b + 1));
        b = b + 1;
        assert(v@.subrange(a as int, b as int) =~= v@.subrange(a as int, b - 1) + seq![v@[b - 1]]);
    }
    assert(number_prefix(v@.skip(b as int)) =~= Seq::<char>::empty());
    assert(v@.subrange(a as int, b as int) + Seq::<char>::empty() =~= v@.subrange(a as int, b as int));
    if b > a {
        Some((a, b))
    } else {
        None
    }
}

/// The number text that `raw` gives for `key`.
pub fn json_token(raw: &str, key: &str) -> (res: Option<String>)
    ensures
        match res {
            Some(t) => json_token_of(raw@, key@) == Some(t@),
            None => json_token_of(raw@, key@) is None,
        },
{
    let v = str_chars(raw);
    let k = str_chars(key);
    match token_range(&v, &k) {
        Some((a, b)) => Some(string_of(&crate::text::copy_range(&v, a, b))),
        None => None,
    }
}

proof fn lemma_digits_value_prefix(d: Seq<char>, k: int)
    requires
        0 <= k <= d.len(),
        forall|i: int| 0 <= i < d.len() ==> is_digit(#[trigger] d[i]),
    ensures
        digits_value(d.take(k)) <= digits_value(d),
    decreases d.len() - k,
{
    if k < d.len() {
        lemma_digits_value_prefix(d, k + 1);
        assert(d.take(k + 1).drop_last() =~= d.take(k));
        assert(d.take(k + 1).last() == d[k]);
    } else {
        assert(d.take(k) =~= d);
    }
}

/// The `u64` that `s` spells, as `u64::from_str` reads it.
fn parse_u64_chars(s: &Vec<char>) -> (res: Option<u64>)
    ensures
        res == parse_u64(s@),
{
    let mut i: usize = 0;
    if s.len() > 0 && s[0] == '+' {
        i = 1;
    }
    let ghost d = if s@.len() > 0 && s@[0] == '+' {
        s@.drop_first()
    } else {
        s@
    };
    assert(d =~= s@.skip(i as int));
    if i == s.len() {
        return None;
    }
    let mut acc: u64 = 0;
    let mut j = i;
    while j < s.len()
        invariant
            i <= j <= s.len(),
            d == s@.skip(i as int),
            d == unsigned_part(s@),
            i < s.len(),
            forall|m: int| 0 <= m < j - i ==> is_digit(#[trigger] d[m]),
            acc == digits_value(d.take(j - i)),
        decreases s.len() - j,
    {
        let c = s[j];
        assert(c == d[j - i]);
        if !('0' <= c && c <= '9') {
            assert(!is_digit(d[j - i]));
            return None;
        }
        let dv = (c as u32 - 48) as u64;
        assert(d.take(j - i + 1).drop_last() =~= d.take(j - i));
        assert(d.take(j - i + 1).last() == c);
        assert(digits_value(d.take(j - i + 1)) == acc * 10 + dv);
        if acc > (u64::MAX - dv) / 10 {
            proof {
                assert(acc * 10 + dv > u64::MAX) by (nonlinear_arith)
                    requires
                        acc > (u64::MAX - dv) / 10,
                        dv <= 9,
                ;
                if forall|m: int| 0 <= m < d.len() ==> is_digit(#[trigger] d[m]) {
                    lemma_digits_value_prefix(d, j - i + 1);
                }
                assert(parse_u64(s@) is None);
            }
            return None;
        }
        acc = acc * 10 + dv;
        j = j + 1;
    }
    assert(d.take(j - i) =~= d);
    Some(acc)
}

/// The `u64` that `raw` gives for `key`.
pub fn json_u64(raw: &str, key: &str) -> (res: Option<u64>)
    ensures
        res == json_u64_of(raw@, key@),
{
    let v = str_chars(raw);
    let k = str_chars(key);
    match token_range(&v, &k) {
        Some((a, b)) => {
            let t = crate::text::copy_range(&v, a, b);
            parse_u64_chars(&t)
        },
        None => None,
    }
}

/// A count, or `null` when there is none.
pub open spec fn count_text(v: Option<u64>) -> Seq<char> {
    match v {
        Some(n) => decimal(n as nat),
        None => null_word(),
    }
}

pub open spec fn key_version() -> Seq<char> {
    seq!['v', 'e', 'r', 's', 'i', 'o', 'n']
}

pub open spec fn key_saved_at() -> Seq<char> {
    seq!['s', 'a', 'v', 'e', 'd', '_', 'a', 't']
}

pub open spec fn key_timestamp() -> Seq<char> {
    seq!['t', 'i', 'm', 'e', 's', 't', 'a', 'm', 'p']
}

pub open spec fn key_disk_read_sum() -> Seq<char> {
    seq!['d', 'i', 's', 'k', '_', 'r', 'e', 'a', 'd', '_', 's', 'u', 'm']
}

pub open spec fn key_disk_write_sum() -> Seq<char> {
    seq!['d', 'i', 's', 'k', '_', 'w', 'r', 'i', 't', 'e', '_', 's', 'u', 'm']
}

pub open spec fn key_network_received_sum() -> Seq<char> {
    seq![
        'n', 'e', 't', 'w', 'o', 'r', 'k', '_', 'r', 'e', 'c', 'e', 'i', 'v', 'e', 'd', '_', 's', 'u', 'm',
    ]
}

pub open spec fn key_network_sent_sum() -> Seq<char> {
    seq!['n', 'e', 't', 'w', 'o', 'r', 'k', '_', 's', 'e', 'n', 't', '_', 's', 'u', 'm']
}

pub open spec fn key_tailscale_received() -> Seq<char> {
    seq![
        't', 'a', 'i', 'l', 's', 'c', 'a', 'l', 'e', '_', 'r', 'e', 'c', 'e', 'i', 'v', 'e', 'd', '_',
        'a', 'b', 's', 'o', 'l', 'u', 't', 'e', '_', 'b', 'y', 't', 'e', 's',
    ]
}

pub open spec fn key_tailscale_sent() -> Seq<char> {
    seq![
        't', 'a', 'i', 'l', 's', 'c', 'a', 'l', 'e', '_', 's', 'e', 'n', 't', '_', 'a', 'b', 's', 'o',
        'l', 'u', 't', 'e', '_', 'b', 'y', 't', 'e', 's',
    ]
}

/// `"key": `
pub open spec fn json_key(key: Seq<char>) -> Seq<char> {
    seq!['"'] + key + seq!['"', ':', ' ']
}

/// The separator between two members, one per line, indented by two spaces.
pub open spec fn member_sep() -> Seq<char> {
    seq![',', '\n', ' ', ' ']
}

/// The snapshot file's text: a JSON object whose members are, in order,
/// `version` (5), `saved_at` (a string), `timestamp`, the four sums (already
/// written with their decimals) and the two Tailscale counts (`null` when
/// absent).
pub open spec fn snapshot_text_of(
    saved_at: Seq<char>,
    timestamp: u64,
    disk_read_sum: Seq<char>,
    disk_write_sum: Seq<char>,
    network_received_sum: Seq<char>,
    network_sent_sum: Seq<char>,
    tailscale_received: Option<u64>,
    tailscale_sent: Option<u64>,
) -> Seq<char> {
    seq!['{', '\n', ' ', ' '] + json_key(key_version()) + seq!['5'] + member_sep() + json_key(
        key_saved_at(),
    ) + seq!['"'] + saved_at + seq!['"'] + member_sep() + json_key(key_timestamp()) + decimal(
        timestamp as nat,
    ) + member_sep() + json_key(key_disk_read_sum()) + disk_read_sum + member_sep() + json_key(
        key_disk_write_sum(),
    ) + disk_write_sum + member_sep() + json_key(key_network_received_sum())
        + network_received_sum + member_sep() + json_key(key_network_sent_sum())
        + network_sent_sum + member_sep() + json_key(key_tailscale_received()) + count_text(
        tailscale_received,
    ) + member_sep() + json_key(key_tailscale_sent()) + count_text(tailscale_sent) + seq![
        '\n',
        '}',
        '\n',
    ]
}

fn push_count(out: &mut Vec<char>, v: Option<u64>)
    ensures
        final(out)@ == old(out)@ + count_text(v),
{
    match v {
        Some(n) => push_decimal(out, n),
        None => {
            out.push('n');
            out.push('u');
            out.push('l');
            out.push('l');
            assert(out@ =~= old(out)@ + null_word());
        },
    }
}

fn push_key(out: &mut Vec<char>, key: &Vec<char>)
    ensures
        final(out)@ == old(out)@ + json_key(key@),
{
    out.push('"');
    let ghost mid = out@;
    let mut i: usize = 0;
    while i < key.len()
        invariant
            0 <= i <= key.len(),
            out@ == mid + key@.take(i as int),
        decreases key.len() - i,
    {
        out.push(key[i]);
        i = i + 1;
        assert(out@ =~= mid + key@.take(i as int));
    }
    out.push('"');
    out.push(':');
    out.push(' ');
    assert(key@.take(key.len() as int) =~= key@);
    assert(out@ =~= old(out)@ + json_key(key@));
}

fn push_sep(out: &mut Vec<char>)
    ensures
        final(out)@ == old(out)@ + member_sep(),
{
    out.push(',');
    out.push('\n');
    out.push(' ');
    out.push(' ');
    assert(out@ =~= old(out)@ + member_sep());
}

/// The text of the snapshot file.
pub fn snapshot_text(
    saved_at: &str,
    timestamp: u64,
    disk_read_sum: &str,
    disk_write_sum: &str,
    network_received_sum: &str,
    network_sent_sum: &str,
    tailscale_received: Option<u64>,
    tailscale_sent: Option<u64>,
) -> (res: String)
    ensures
        res@ == snapshot_text_of(
            saved_at@,
            timestamp,
            disk_read_sum@,
            disk_write_sum@,
            network_received_sum@,
            network_sent_sum@,
            tailscale_received,
            tailscale_sent,
        ),
{
    let version = vec!['v', 'e', 'r', 's', 'i', 'o', 'n'];
    let saved = vec!['s', 'a', 'v', 'e', 'd', '_', 'a', 't'];
    let stamp = vec!['t', 'i', 'm', 'e', 's', 't', 'a', 'm', 'p'];
    let disk_read = vec!['d', 'i', 's', 'k', '_', 'r', 'e', 'a', 'd', '_', 's', 'u', 'm'];
    let disk_write = vec!['d', 'i', 's', 'k', '_', 'w', 'r', 'i', 't', 'e', '_', 's', 'u', 'm'];
    let net_received = vec![
        'n', 'e', 't', 'w', 'o', 'r', 'k', '_', 'r', 'e', 'c', 'e', 'i', 'v', 'e', 'd', '_', 's', 'u', 'm',
    ];
    let net_sent = vec!['n', 'e', 't', 'w', 'o', 'r', 'k', '_', 's', 'e', 'n', 't', '_', 's', 'u', 'm'];
    let ts_received = vec![
        't', 'a', 'i', 'l', 's', 'c', 'a', 'l', 'e', '_', 'r', 'e', 'c', 'e', 'i', 'v', 'e', 'd', '_',
        'a', 'b', 's', 'o', 'l', 'u', 't', 'e', '_', 'b', 'y', 't', 'e', 's',
    ];
    let ts_sent = vec![
        't', 'a', 'i', 'l', 's', 'c', 'a', 'l', 'e', '_', 's', 'e', 'n', 't', '_', 'a', 'b', 's', 'o',
        'l', 'u', 't', 'e', '_', 'b', 'y', 't', 'e', 's',
    ];
    assert(version@ =~= key_version());
    assert(saved@ =~= key_saved_at());
    assert(stamp@ =~= key_timestamp());
    assert(disk_read@ =~= key_disk_read_sum());
    assert(disk_write@ =~= key_disk_write_sum());
    assert(net_received@ =~= key_network_received_sum());
    assert(net_sent@ =~= key_network_sent_sum());
    assert(ts_received@ =~= key_tailscale_received());
    assert(ts_sent@ =~= key_tailscale_sent());

    let mut out: Vec<char> = Vec::new();
    out.push('{');
    out.push('\n');
    out.push(' ');
    out.push(' ');
    push_key(&mut out, &version);
    out.push('5');
    push_sep(&mut out);
    push_key(&mut out, &saved);
    out.push('"');
    push_str(&mut out, saved_at);
    out.push('"');
    push_sep(&mut out);
    push_key(&mut out, &stamp);
    push_decimal(&mut out, timestamp);
    push_sep(&mut out);
    push_key(&mut out, &disk_read);
    push_str(&mut out, disk_read_sum);
    push_sep(&mut out);
    push_key(&mut out, &disk_write);
    push_str(&mut out, disk_write_sum);
    push_sep(&mut out);
    push_key(&mut out, &net_received);
    push_str(&mut out, network_received_sum);
    push_sep(&mut out);
    push_key(&mut out, &net_sent);
    push_str(&mut out, network_sent_sum);
    push_sep(&mut out);
    push_key(&mut out, &ts_received);
    push_count(&mut out, tailscale_received);
    push_sep(&mut out);
    push_key(&mut out, &ts_sent);
    push_count(&mut out, tailscale_sent);
    out.push('\n');
    out.push('}');
    out.push('\n');
    assert(out@ =~= snapshot_text_of(
        saved_at@,
        timestamp,
        disk_read_sum@,
        disk_write_sum@,
        network_received_sum@,
        network_sent_sum@,
        tailscale_received,
        tailscale_sent,
    ));
    string_of(&out)
}

} // verus!
