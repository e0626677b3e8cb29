//! What the snapshot file gives back when it is read key by key.
use vstd::prelude::*;
use crate::snapshot::{
    all_digits, count_text, digits_value, find_sub, is_digit, is_number_char, json_token_of,
    json_u64_of, key_disk_read_sum, key_disk_write_sum, key_network_received_sum,
    key_network_sent_sum, key_saved_at, key_tailscale_received, key_tailscale_sent, key_timestamp,
    key_version, lemma_find_sub, member_sep, null_word, number_prefix, occurs_at, parse_u64,
    snapshot_text_of, unsigned_part, json_key,
};
use crate::time::{saved_text, zero_padded, SystemTime};
use crate::text::{decimal, digit_char, lemma_index_of_found, lemma_trim_start_at, starts_with};

verus! {

pub open spec fn quote_free(w: Seq<char>) -> bool {
    forall|i: int| 0 <= i < w.len() ==> w[i] != '"'
}

/// `"key"`
pub open spec fn quoted(key: Seq<char>) -> Seq<char> {
    seq!['"'] + key + seq!['"']
}

/// The words joined with a `"` between each two.
pub open spec fn join_quoted(ws: Seq<Seq<char>>) -> Seq<char>
    decreases ws.len(),
{
    if ws.len() == 0 {
        seq![]
    } else if ws.len() == 1 {
        ws[0]
    } else {
        join_quoted(ws.drop_last()) + seq!['"'] + ws.last()
    }
}

/// A quote followed by a quote-free word other than `key` and another quote
/// does not start an occurrence of the quoted key.
proof fn lemma_other_word(s: Seq<char>, q: int, w: Seq<char>, key: Seq<char>)
    requires
        0 <= q,
        q + w.len() + 1 < s.len(),
        s[q] == '"',
        s.subrange(q + 1, q + 1 + w.len()) == w,
        s[q + 1 + w.len()] == '"',
        quote_free(w),
        quote_free(key),
        w != key,
    ensures
        !occurs_at(s, quoted(key), q),
{
    let k = quoted(key);
    if occurs_at(s, k, q) {
        assert(s.subrange(q, q + k.len()) == k);
        if key.len() < w.len() {
            assert(s[q + 1 + key.len()] == k[key.len() + 1int]);
            assert(s[q + 1 + key.len()] == w[key.len() as int]);
        } else if key.len() > w.len() {
            assert(s[q + 1 + w.len()] == k[w.len() + 1int]);
            assert(k[w.len() + 1int] == key[w.len() as int]);
        } else {
            assert forall|i: int| 0 <= i < w.len() implies w[i] == key[i] by {
                assert(s[q + 1 + i] == k[i + 1]);
                assert(s[q + 1 + i] == w[i]);
            }
            assert(w =~= key);
        }
    }
}

/// No occurrence of the quoted key starts inside the joined words when none
/// of the words after the first is the key and a quote follows them.
proof fn lemma_no_early_occurrence(ws: Seq<Seq<char>>, key: Seq<char>, t: Seq<char>)
    requires
        ws.len() >= 1,
        forall|i: int| 0 <= i < ws.len() ==> quote_free(#[trigger] ws[i]),
        forall|i: int| 1 <= i < ws.len() ==> #[trigger] ws[i] != key,
        quote_free(key),
        t.len() > 0,
        t[0] == '"',
    ensures
        forall|j: int|
            0 <= j < join_quoted(ws).len() ==> !occurs_at(
                #[trigger] (join_quoted(ws) + t),
                quoted(key),
                j,
            ),
    decreases ws.len(),
{
    let a = join_quoted(ws);
    let s = a + t;
    if ws.len() == 1 {
        assert forall|j: int| 0 <= j < a.len() implies !occurs_at(s, quoted(key), j) by {
            assert(s[j] == ws[0][j]);
            if occurs_at(s, quoted(key), j) {
                assert(s.subrange(j, j + quoted(key).len())[0] == s[j]);
            }
        }
    } else {
        let front = ws.drop_last();
        let w = ws.last();
        let a0 = join_quoted(front);
        let t0 = seq!['"'] + w + t;
        assert forall|i: int| 0 <= i < front.len() implies quote_free(#[trigger] front[i]) by {
            assert(front[i] == ws[i]);
        }
        assert forall|i: int| 1 <= i < front.len() implies #[trigger] front[i] != key by {
            assert(front[i] == ws[i]);
        }
        lemma_no_early_occurrence(front, key, t0);
        assert(a == a0 + seq!['"'] + w);
        assert(s =~= a0 + t0);
        assert(ws[ws.len() - 1] == w);
        assert forall|j: int| 0 <= j < a.len() implies !occurs_at(s, quoted(key), j) by {
            if j < a0.len() {
                assert(!occurs_at(a0 + t0, quoted(key), j));
            } else if j == a0.len() {
                assert(s[j] == '"');
                assert(s.subrange(j + 1, j + 1 + w.len()) =~= w);
                assert(s[j + 1 + w.len()] == t[0]);
                lemma_other_word(s, j, w, key);
            } else {
                assert(s[j] == w[j - a0.len() - 1]);
                if occurs_at(s, quoted(key), j) {
                    assert(s.subrange(j, j + quoted(key).len())[0] == s[j]);
                }
            }
        }
    }
}

proof fn lemma_join_split(ws: Seq<Seq<char>>, k: int)
    requires
        1 <= k < ws.len(),
    ensures
        join_quoted(ws) == join_quoted(ws.take(k)) + seq!['"'] + join_quoted(ws.skip(k)),
    decreases ws.len(),
{
    if k == ws.len() - 1 {
        assert(ws.drop_last() =~= ws.take(k));
        assert(ws.skip(k) =~= seq![ws.last()]);
    } else {
        lemma_join_split(ws.drop_last(), k);
        assert(ws.drop_last().take(k) =~= ws.take(k));
        let rest = ws.skip(k);
        assert(rest.len() >= 2);
        assert(rest.drop_last() =~= ws.drop_last().skip(k));
        assert(rest.last() == ws.last());
        assert(join_quoted(rest) == join_quoted(rest.drop_last()) + seq!['"'] + rest.last());
    }
}

/// In words joined by quotes, the quoted key is first found at the quote
/// before its first appearance as a word (after the first word) that a quote
/// follows.
pub proof fn lemma_find_quoted_word(ws: Seq<Seq<char>>, key: Seq<char>, k: int)
    requires
        1 <= k < ws.len() - 1,
        forall|i: int| 0 <= i < ws.len() ==> quote_free(#[trigger] ws[i]),
        forall|i: int| 1 <= i < k ==> #[trigger] ws[i] != key,
        ws[k] == key,
        quote_free(key),
    ensures
        find_sub(join_quoted(ws), quoted(key)) == Some(join_quoted(ws.take(k)).len() as int),
        join_quoted(ws).skip(join_quoted(ws.take(k)).len() as int) == quoted(key) + join_quoted(
            ws.skip(k + 1),
        ),
{
    let a = join_quoted(ws.take(k));
    let rest = ws.skip(k);
    lemma_join_split(ws, k);
    lemma_join_split(rest, 1);
    assert(rest.take(1) =~= seq![key]);
    assert(join_quoted(rest.take(1)) == key);
    assert(rest.skip(1) =~= ws.skip(k + 1));
    let b = join_quoted(ws.skip(k + 1));
    let t = seq!['"'] + key + seq!['"'] + b;
    assert(join_quoted(ws) =~= a + t);
    assert forall|i: int| 0 <= i < ws.take(k).len() implies quote_free(
        #[trigger] ws.take(k)[i],
    ) by {
        assert(ws.take(k)[i] == ws[i]);
    }
    assert forall|i: int| 1 <= i < ws.take(k).len() implies #[trigger] ws.take(k)[i] != key by {
        assert(ws.take(k)[i] == ws[i]);
    }
    lemma_no_early_occurrence(ws.take(k), key, t);
    let s = join_quoted(ws);
    assert(s.subrange(a.len() as int, a.len() + quoted(key).len() as int) =~= quoted(key));
    lemma_find_sub(s, quoted(key));
    assert(s.skip(a.len() as int) =~= quoted(key) + b);
    match find_sub(s, quoted(key)) {
        Some(i) => {
            assert(occurs_at(s, quoted(key), a.len() as int));
            if i < a.len() {
                assert(!occurs_at(a + t, quoted(key), i));
            }
        },
        None => {
            assert(occurs_at(s, quoted(key), a.len() as int));
        },
    }
}

pub open spec fn number_text(v: Seq<char>) -> bool {
    v.len() > 0 && forall|i: int| 0 <= i < v.len() ==> is_number_char(#[trigger] v[i])
}

proof fn lemma_number_prefix(v: Seq<char>, x: Seq<char>)
    requires
        forall|i: int| 0 <= i < v.len() ==> is_number_char(#[trigger] v[i]),
        x.len() == 0 || !is_number_char(x[0]),
    ensures
        number_prefix(v + x) == v,
    decreases v.len(),
{
    if v.len() == 0 {
        assert(v + x =~= x);
    } else {
        let t = v.drop_first();
        assert forall|i: int| 0 <= i < t.len() implies is_number_char(#[trigger] t[i]) by {
            assert(t[i] == v[i + 1]);
        }
        lemma_number_prefix(t, x);
        assert((v + x).drop_first() =~= t + x);
        assert((v + x)[0] == v[0]);
        assert(seq![v[0]] + t =~= v);
    }
}

/// What the reader finds for the member `key` of joined words: `ws[k]` is the
/// key, and the next word is `: `, the value `v`, and text that does not
/// continue a number.
proof fn lemma_member_token(ws: Seq<Seq<char>>, key: Seq<char>, k: int, v: Seq<char>, x: Seq<char>)
    requires
        1 <= k < ws.len() - 1,
        forall|i: int| 0 <= i < ws.len() ==> quote_free(#[trigger] ws[i]),
        forall|i: int| 1 <= i < k ==> #[trigger] ws[i] != key,
        ws[k] == key,
        quote_free(key),
        forall|i: int| 0 <= i < key.len() ==> key[i] != ':',
        join_quoted(ws.skip(k + 1)) == seq![':', ' '] + v + x,
        v == null_word() || number_text(v),
        x.len() > 0,
        !is_number_char(x[0]),
    ensures
        json_token_of(join_quoted(ws), key) == (if v == null_word() {
            None
        } else {
            Some(v)
        }),
{
    let s = join_quoted(ws);
    lemma_find_quoted_word(ws, key, k);
    lemma_find_sub(s, quoted(key));
    let p = join_quoted(ws.take(k)).len() as int;
    let r = s.skip(p);
    assert(r =~= quoted(key) + seq![':', ' '] + v + x);
    let c: int = key.len() as int + 2;
    assert forall|j: int| 0 <= j < c implies r[j] != ':' by {
        if j == 0 {
        } else if j <= key.len() {
            assert(r[j] == key[j - 1]);
        } else {
        }
    }
    lemma_index_of_found(r, ':', c);
    let after = s.skip(p + c + 1);
    assert(r.skip(c + 1) =~= seq![' '] + v + x);
    assert(after =~= r.skip(c + 1));
    assert(v.len() > 0);
    assert(after[1] == v[0]);
    lemma_trim_start_at(after, 1);
    assert(after.skip(1) =~= v + x);
    let rest = v + x;
    if v == null_word() {
        assert(rest.take(4) =~= null_word());
    } else {
        assert(!starts_with(rest, null_word())) by {
            if starts_with(rest, null_word()) {
                assert(rest.take(4)[0] == rest[0]);
                assert(rest[0] == v[0]);
                assert(is_number_char(v[0]));
            }
        }
        lemma_number_prefix(v, x);
    }
}

/// The decimal numeral of `n` is a nonempty string of digits whose value is `n`.
pub proof fn lemma_decimal_digits(n: nat)
    ensures
        decimal(n).len() > 0,
        all_digits(decimal(n)),
        digits_value(decimal(n)) == n,
    decreases n,
{
    assert((digit_char(n % 10) as nat) == n % 10 + 48);
    if n < 10 {
        assert(decimal(n).drop_last() =~= Seq::<char>::empty());
        assert(decimal(n).last() == digit_char(n));
        assert(digits_value(decimal(n)) == digits_value(Seq::<char>::empty()) * 10 + n);
    }
    if n >= 10 {
        lemma_decimal_digits(n / 10);
        let d = decimal(n / 10);
        let e = decimal(n);
        assert(e == d.push(digit_char(n % 10)));
        assert(e.drop_last() =~= d);
        assert(e.last() == digit_char(n % 10));
        assert(digits_value(e) == digits_value(d) * 10 + n % 10);
        assert forall|i: int| 0 <= i < e.len() implies is_digit(#[trigger] e[i]) by {
            if i < d.len() {
                assert(e[i] == d[i]);
            }
        }
    }
}

/// A count written in decimal reads back as itself.
pub proof fn lemma_decimal_parses_back(n: u64)
    ensures
        parse_u64(decimal(n as nat)) == Some(n),
{
    lemma_decimal_digits(n as nat);
    let d = decimal(n as nat);
    assert(is_digit(d[0]));
    assert(unsigned_part(d) == d);
}

proof fn lemma_count_text(v: Option<u64>)
    ensures
        count_text(v) == null_word() || number_text(count_text(v)),
        count_text(v) == null_word() <==> v is None,
        quote_free(count_text(v)),
{
    match v {
        Some(n) => {
            lemma_decimal_digits(n as nat);
            let d = decimal(n as nat);
            assert forall|i: int| 0 <= i < d.len() implies is_number_char(#[trigger] d[i]) by {
                assert(is_digit(d[i]));
            }
            assert(d != null_word()) by {
                assert(is_digit(d[0]));
            }
        },
        None => {},
    }
}

/// The snapshot's text as words between quotes.
pub open spec fn snapshot_words(
    saved_at: Seq<char>,
    timestamp: u64,
    disk_read_sum: Seq<char>,
    disk_write_sum: Seq<char>,
    network_received_sum: Seq<char>,
    network_sent_sum: Seq<char>,
    tailscale_received: Option<u64>,
    tailscale_sent: Option<u64>,
) -> Seq<Seq<char>> {
    let colon = seq![':', ' '];
    seq![
        seq!['{', '\n', ' ', ' '],
        key_version(),
        colon + seq!['5'] + member_sep(),
        key_saved_at(),
        colon,
        saved_at,
        member_sep(),
        key_timestamp(),
        colon + decimal(timestamp as nat) + member_sep(),
        key_disk_read_sum(),
        colon + disk_read_sum + member_sep(),
        key_disk_write_sum(),
        colon + disk_write_sum + member_sep(),
        key_network_received_sum(),
        colon + network_received_sum + member_sep(),
        key_network_sent_sum(),
        colon + network_sent_sum + member_sep(),
        key_tailscale_received(),
        colon + count_text(tailscale_received) + member_sep(),
        key_tailscale_sent(),
        colon + count_text(tailscale_sent) + seq!['\n', '}', '\n'],
    ]
}

proof fn lemma_join_push(ws: Seq<Seq<char>>, w: Seq<char>)
    requires
        ws.len() >= 1,
    ensures
        join_quoted(ws.push(w)) == join_quoted(ws) + seq!['"'] + w,
{
    assert(ws.push(w).drop_last() =~= ws);
}

proof fn lemma_quote_free_concat(a: Seq<char>, b: Seq<char>)
    requires
        quote_free(a),
        quote_free(b),
    ensures
        quote_free(a + b),
{
    assert forall|i: int| 0 <= i < (a + b).len() implies (a + b)[i] != '"' by {
        if i < a.len() {
            assert((a + b)[i] == a[i]);
        } else {
            assert((a + b)[i] == b[i - a.len()]);
        }
    }
}

/// Characters of a written time: digits, `-`, `:` and spaces.
pub open spec fn time_text(s: Seq<char>) -> bool {
    forall|i: int| 0 <= i < s.len() ==> (is_digit(#[trigger] s[i]) || s[i] == '-' || s[i] == ':' || s[i] == ' ')
}

proof fn lemma_member_words(p: Seq<char>, k: Seq<char>, v: Seq<char>, e: Seq<char>)
    ensures
        p + json_key(k) + v + e == p + seq!['"'] + k + seq!['"'] + (seq![':', ' '] + v + e),
{
    assert(p + json_key(k) + v + e =~= p + seq!['"'] + k + seq!['"'] + (seq![':', ' '] + v
        + e));
}

proof fn lemma_saved_at_words(p: Seq<char>, k: Seq<char>, v: Seq<char>, e: Seq<char>)
    ensures
        p + json_key(k) + seq!['"'] + v + seq!['"'] + e == p + seq!['"'] + k + seq!['"'] + seq![
            ':',
            ' ',
        ] + seq!['"'] + v + seq!['"'] + e,
{
    assert(p + json_key(k) + seq!['"'] + v + seq!['"'] + e =~= p + seq!['"'] + k + seq!['"']
        + seq![':', ' '] + seq!['"'] + v + seq!['"'] + e);
}

proof fn lemma_take_push(ws: Seq<Seq<char>>, n: int)
    requires
        0 <= n < ws.len(),
    ensures
        ws.take(n + 1) == ws.take(n).push(ws[n]),
{
    assert(ws.take(n + 1) =~= ws.take(n).push(ws[n]));
}

/// The snapshot text is its words joined by quotes.
proof fn lemma_snapshot_join(
    saved_at: Seq<char>,
    timestamp: u64,
    f1: Seq<char>,
    f2: Seq<char>,
    f3: Seq<char>,
    f4: Seq<char>,
    rx: Option<u64>,
    tx: Option<u64>,
)
    ensures
        snapshot_words(saved_at, timestamp, f1, f2, f3, f4, rx, tx).len() == 21,
        join_quoted(snapshot_words(saved_at, timestamp, f1, f2, f3, f4, rx, tx))
            == snapshot_text_of(saved_at, timestamp, f1, f2, f3, f4, rx, tx),
{
    let ws = snapshot_words(saved_at, timestamp, f1, f2, f3, f4, rx, tx);
    let sep = member_sep();
    let d = decimal(timestamp as nat);
    let c1 = count_text(rx);
    let c2 = count_text(tx);
    let end = seq!['\n', '}', '\n'];
    assert forall|m: int| 1 < m <= 21 implies join_quoted(#[trigger] ws.take(m)) == join_quoted(
        ws.take(m - 1),
    ) + seq!['"'] + ws[m - 1] by {
        lemma_take_push(ws, m - 1);
        lemma_join_push(ws.take(m - 1), ws[m - 1]);
    }
    assert(ws.take(1) =~= seq![seq!['{', '\n', ' ', ' ']]);
    let t0 = seq!['{', '\n', ' ', ' '];
    assert(join_quoted(ws.take(1)) == t0);
    let t2 = t0 + json_key(key_version()) + seq!['5'] + sep;
    lemma_member_words(t0, key_version(), seq!['5'], sep);
    assert(ws[1] == key_version());
    assert(join_quoted(ws.take(2)) == t0 + seq!['"'] + (key_version()));
    assert(ws[2] == seq![':', ' '] + seq!['5'] + sep);
    assert(join_quoted(ws.take(3)) == t0 + seq!['"'] + (key_version()) + seq!['"'] + (seq![':', ' '] + seq!['5'] + sep));
    assert(join_quoted(ws.take(3)) == t2);
    let t6 = t2 + json_key(key_saved_at()) + seq!['"'] + saved_at + seq!['"'] + sep;
    lemma_saved_at_words(t2, key_saved_at(), saved_at, sep);
    assert(ws[3] == key_saved_at());
    assert(join_quoted(ws.take(4)) == t2 + seq!['"'] + (key_saved_at()));
    assert(ws[4] == seq![':', ' ']);
    assert(join_quoted(ws.take(5)) == t2 + seq!['"'] + (key_saved_at()) + seq!['"'] + (seq![':', ' ']));
    assert(ws[5] == saved_at);
    assert(join_quoted(ws.take(6)) == t2 + seq!['"'] + (key_saved_at()) + seq!['"'] + (seq![':', ' ']) + seq!['"'] + (saved_at));
    assert(ws[6] == sep);
    assert(join_quoted(ws.take(7)) == t2 + seq!['"'] + (key_saved_at()) + seq!['"'] + (seq![':', ' ']) + seq!['"'] + (saved_at) + seq!['"'] + (sep));
    assert(join_quoted(ws.take(7)) == t6);
    let t8 = t6 + json_key(key_timestamp()) + d + sep;
    lemma_member_words(t6, key_timestamp(), d, sep);
    assert(ws[7] == key_timestamp());
    assert(join_quoted(ws.take(8)) == t6 + seq!['"'] + (key_timestamp()));
    assert(ws[8] == seq![':', ' '] + d + sep);
    assert(join_quoted(ws.take(9)) == t6 + seq!['"'] + (key_timestamp()) + seq!['"'] + (seq![':', ' '] + d + sep));
    assert(join_quoted(ws.take(9)) == t8);
    let t10 = t8 + json_key(key_disk_read_sum()) + f1 + sep;
    lemma_member_words(t8, key_disk_read_sum(), f1, sep);
    assert(ws[9] == key_disk_read_sum());
    assert(join_quoted(ws.take(10)) == t8 + seq!['"'] + (key_disk_read_sum()));
    assert(ws[10] == seq![':', ' '] + f1 + sep);
    assert(join_quoted(ws.take(11)) == t8 + seq!['"'] + (key_disk_read_sum()) + seq!['"'] + (seq![':', ' '] + f1 + sep));
    assert(join_quoted(ws.take(11)) == t10);
    let t12 = t10 + json_key(key_disk_write_sum()) + f2 + sep;
    lemma_member_words(t10, key_disk_write_sum(), f2, sep);
    assert(ws[11] == key_disk_write_sum());
    assert(join_quoted(ws.take(12)) == t10 + seq!['"'] + (key_disk_write_sum()));
    assert(ws[12] == seq![':', ' '] + f2 + sep);
    assert(join_quoted(ws.take(13)) == t10 + seq!['"'] + (key_disk_write_sum()) + seq!['"'] + (seq![':', ' '] + f2 + sep));
    assert(join_quoted(ws.take(13)) == t12);
    let t14 = t12 + json_key(key_network_received_sum()) + f3 + sep;
    lemma_member_words(t12, key_network_received_sum(), f3, sep);
    assert(ws[13] == key_network_received_sum());
    assert(join_quoted(ws.take(14)) == t12 + seq!['"'] + (key_network_received_sum()));
    assert(ws[14] == seq![':', ' '] + f3 + sep);
    assert(join_quoted(ws.take(15)) == t12 + seq!['"'] + (key_network_received_sum()) + seq!['"'] + (seq![':', ' '] + f3 + sep));
    assert(join_quoted(ws.take(15)) == t14);
    let t16 = t14 + json_key(key_network_sent_sum()) + f4 + sep;
    lemma_member_words(t14, key_network_sent_sum(), f4, sep);
    assert(ws[15] == key_network_sent_sum());
    assert(join_quoted(ws.take(16)) == t14 + seq!['"'] + (key_network_sent_sum()));
    assert(ws[16] == seq![':', ' '] + f4 + sep);
    assert(join_quoted(ws.take(17)) == t14 + seq!['"'] + (key_network_sent_sum()) + seq!['"'] + (seq![':', ' '] + f4 + sep));
    assert(join_quoted(ws.take(17)) == t16);
    let t18 = t16 + json_key(key_tailscale_received()) + c1 + sep;
    lemma_member_words(t16, key_tailscale_received(), c1, sep);
    assert(ws[17] == key_tailscale_received());
    assert(join_quoted(ws.take(18)) == t16 + seq!['"'] + (key_tailscale_received()));
    assert(ws[18] == seq![':', ' '] + c1 + sep);
    assert(join_quoted(ws.take(19)) == t16 + seq!['"'] + (key_tailscale_received()) + seq!['"'] + (seq![':', ' '] + c1 + sep));
    assert(join_quoted(ws.take(19)) == t18);
    let t20 = t18 + json_key(key_tailscale_sent()) + c2 + end;
    lemma_member_words(t18, key_tailscale_sent(), c2, end);
    assert(ws[19] == key_tailscale_sent());
    assert(join_quoted(ws.take(20)) == t18 + seq!['"'] + (key_tailscale_sent()));
    assert(ws[20] == seq![':', ' '] + c2 + end);
    assert(join_quoted(ws.take(21)) == t18 + seq!['"'] + (key_tailscale_sent()) + seq!['"'] + (seq![':', ' '] + c2 + end));
    assert(join_quoted(ws.take(21)) == t20);
    assert(ws.take(21) =~= ws);
}

proof fn lemma_words_quote_free(
    saved_at: Seq<char>,
    timestamp: u64,
    f1: Seq<char>,
    f2: Seq<char>,
    f3: Seq<char>,
    f4: Seq<char>,
    rx: Option<u64>,
    tx: Option<u64>,
)
    requires
        time_text(saved_at),
        quote_free(f1),
        quote_free(f2),
        quote_free(f3),
        quote_free(f4),
    ensures
        forall|i: int|
            0 <= i < 21 ==> quote_free(
                #[trigger] snapshot_words(saved_at, timestamp, f1, f2, f3, f4, rx, tx)[i],
            ),
{
    let ws = snapshot_words(saved_at, timestamp, f1, f2, f3, f4, rx, tx);
    let colon = seq![':', ' '];
    let sep = member_sep();
    let d = decimal(timestamp as nat);
    let c1 = count_text(rx);
    let c2 = count_text(tx);
    let end = seq!['\n', '}', '\n'];
    let w0 = seq!['{', '\n', ' ', ' '];
    let w1 = key_version();
    let w2 = colon + seq!['5'] + sep;
    let w3 = key_saved_at();
    let w4 = colon;
    let w5 = saved_at;
    let w6 = sep;
    let w7 = key_timestamp();
    let w8 = colon + d + sep;
    let w9 = key_disk_read_sum();
    let w10 = colon + f1 + sep;
    let w11 = key_disk_write_sum();
    let w12 = colon + f2 + sep;
    let w13 = key_network_received_sum();
    let w14 = colon + f3 + sep;
    let w15 = key_network_sent_sum();
    let w16 = colon + f4 + sep;
    let w17 = key_tailscale_received();
    let w18 = colon + c1 + sep;
    let w19 = key_tailscale_sent();
    let w20 = colon + c2 + end;
    lemma_decimal_digits(timestamp as nat);
    lemma_count_text(rx);
    lemma_count_text(tx);
    assert(quote_free(d)) by {
        assert forall|i: int| 0 <= i < d.len() implies d[i] != '"' by {
            assert(is_digit(d[i]));
        }
    }
    assert(quote_free(saved_at)) by {
        assert forall|i: int| 0 <= i < saved_at.len() implies saved_at[i] != '"' by {
            assert(is_digit(saved_at[i]) || saved_at[i] == '-' || saved_at[i] == ':' || saved_at[i]
                == ' ');
        }
    }
    assert(quote_free(colon));
    assert(quote_free(sep));
    assert(quote_free(end));
    assert(quote_free(seq!['5']));
    lemma_quote_free_concat(colon, seq!['5']);
    lemma_quote_free_concat(colon + seq!['5'], sep);
    lemma_quote_free_concat(colon, d);
    lemma_quote_free_concat(colon + d, sep);
    lemma_quote_free_concat(colon, f1);
    lemma_quote_free_concat(colon + f1, sep);
    lemma_quote_free_concat(colon, f2);
    lemma_quote_free_concat(colon + f2, sep);
    lemma_quote_free_concat(colon, f3);
    lemma_quote_free_concat(colon + f3, sep);
    lemma_quote_free_concat(colon, f4);
    lemma_quote_free_concat(colon + f4, sep);
    lemma_quote_free_concat(colon, c1);
    lemma_quote_free_concat(colon + c1, sep);
    lemma_quote_free_concat(colon, c2);
    lemma_quote_free_concat(colon + c2, end);
    assert(quote_free(w0));
    assert(quote_free(w1));
    assert(quote_free(w3));
    assert(quote_free(w7));
    assert(quote_free(w9));
    assert(quote_free(w11));
    assert(quote_free(w13));
    assert(quote_free(w15));
    assert(quote_free(w17));
    assert(quote_free(w19));
    assert forall|i: int| 0 <= i < 21 implies quote_free(#[trigger] ws[i]) by {
        if i == 0 {
            assert(ws[0] == w0);
        } else if i == 1 {
            assert(ws[1] == w1);
        } else if i == 2 {
            assert(ws[2] == w2);
        } else if i == 3 {
            assert(ws[3] == w3);
        } else if i == 4 {
            assert(ws[4] == w4);
        } else if i == 5 {
            assert(ws[5] == w5);
        } else if i == 6 {
            assert(ws[6] == w6);
        } else if i == 7 {
            assert(ws[7] == w7);
        } else if i == 8 {
            assert(ws[8] == w8);
        } else if i == 9 {
            assert(ws[9] == w9);
        } else if i == 10 {
            assert(ws[10] == w10);
        } else if i == 11 {
            assert(ws[11] == w11);
        } else if i == 12 {
            assert(ws[12] == w12);
        } else if i == 13 {
            assert(ws[13] == w13);
        } else if i == 14 {
            assert(ws[14] == w14);
        } else if i == 15 {
            assert(ws[15] == w15);
        } else if i == 16 {
            assert(ws[16] == w16);
        } else if i == 17 {
            assert(ws[17] == w17);
        } else if i == 18 {
            assert(ws[18] == w18);
        } else if i == 19 {
            assert(ws[19] == w19);
        } else if i == 20 {
            assert(ws[20] == w20);
        }
    }
}

proof fn lemma_differ(w: Seq<char>, key: Seq<char>)
    requires
        w.len() != key.len() || (w.len() > 0 && key.len() > 0 && w[0] != key[0]),
    ensures
        w != key,
{
}

/// A key of the snapshot is the first word after the opening one that
/// spells it.
proof fn lemma_key_first(
    saved_at: Seq<char>,
    timestamp: u64,
    f1: Seq<char>,
    f2: Seq<char>,
    f3: Seq<char>,
    f4: Seq<char>,
    rx: Option<u64>,
    tx: Option<u64>,
    k: int,
)
    requires
        time_text(saved_at),
        k == 7 || k == 9 || k == 11 || k == 13 || k == 15 || k == 17 || k == 19,
    ensures
        forall|i: int|
            1 <= i < k ==> #[trigger] snapshot_words(saved_at, timestamp, f1, f2, f3, f4, rx, tx)[i]
                != snapshot_words(saved_at, timestamp, f1, f2, f3, f4, rx, tx)[k],
{
    let ws = snapshot_words(saved_at, timestamp, f1, f2, f3, f4, rx, tx);
    let colon = seq![':', ' '];
    let sep = member_sep();
    let d = decimal(timestamp as nat);
    let c1 = count_text(rx);
    let w1 = key_version();
    let w2 = colon + seq!['5'] + sep;
    let w3 = key_saved_at();
    let w4 = colon;
    let w6 = sep;
    let w7 = key_timestamp();
    let w8 = colon + d + sep;
    let w9 = key_disk_read_sum();
    let w10 = colon + f1 + sep;
    let w11 = key_disk_write_sum();
    let w12 = colon + f2 + sep;
    let w13 = key_network_received_sum();
    let w14 = colon + f3 + sep;
    let w15 = key_network_sent_sum();
    let w16 = colon + f4 + sep;
    let w17 = key_tailscale_received();
    let w18 = colon + c1 + sep;
    let w19 = key_tailscale_sent();
    let key = ws[k];
    assert(key.len() >= 7 && key.len() != 7 && key.len() != 8);
    assert(key[0] == 't' || key[0] == 'd' || key[0] == 'n');
    assert forall|i: int| 1 <= i < k implies #[trigger] ws[i] != key by {
        if i == 5 {
            assert(ws[5] == saved_at);
            if saved_at.len() == key.len() {
                assert(is_digit(saved_at[0]) || saved_at[0] == '-' || saved_at[0] == ':'
                    || saved_at[0] == ' ');
            }
            lemma_differ(saved_at, key);
        } else if i % 2 == 0 {
            if i == 2 {
                assert(ws[2] == w2);
                assert(ws[2][0] == ':');
            } else if i == 4 {
                assert(ws[4] == w4);
                assert(ws[4][0] == ':');
            } else if i == 6 {
                assert(ws[6] == w6);
                assert(ws[6].len() == 4);
            } else if i == 8 {
                assert(ws[8] == w8);
                assert(ws[8][0] == ':');
            } else if i == 10 {
                assert(ws[10] == w10);
                assert(ws[10][0] == ':');
            } else if i == 12 {
                assert(ws[12] == w12);
                assert(ws[12][0] == ':');
            } else if i == 14 {
                assert(ws[14] == w14);
                assert(ws[14][0] == ':');
            } else if i == 16 {
                assert(ws[16] == w16);
                assert(ws[16][0] == ':');
            } else if i == 18 {
                assert(ws[18] == w18);
                assert(ws[18][0] == ':');
            }
            lemma_differ(ws[i], key);
        } else {
            if i == 1 {
                assert(ws[1] == w1);
            } else if i == 3 {
                assert(ws[3] == w3);
            } else if i == 7 {
                assert(ws[7] == w7);
            } else if i == 9 {
                assert(ws[9] == w9);
            } else if i == 11 {
                assert(ws[11] == w11);
            } else if i == 13 {
                assert(ws[13] == w13);
            } else if i == 15 {
                assert(ws[15] == w15);
            } else if i == 17 {
                assert(ws[17] == w17);
            } else if i == 19 {
                assert(ws[19] == w19);
            }
            lemma_differ(ws[i], key);
        }
    }
}

/// What the reader finds for the member at word `k` whose value is `v`.
proof fn lemma_read_member(
    saved_at: Seq<char>,
    timestamp: u64,
    f1: Seq<char>,
    f2: Seq<char>,
    f3: Seq<char>,
    f4: Seq<char>,
    rx: Option<u64>,
    tx: Option<u64>,
    k: int,
    v: Seq<char>,
)
    requires
        time_text(saved_at),
        quote_free(f1),
        quote_free(f2),
        quote_free(f3),
        quote_free(f4),
        k == 7 || k == 9 || k == 11 || k == 13 || k == 15 || k == 17 || k == 19,
        snapshot_words(saved_at, timestamp, f1, f2, f3, f4, rx, tx)[k + 1] == seq![':', ' '] + v + (if k < 19 {
            member_sep()
        } else {
            seq!['\n', '}', '\n']
        }),
        v == null_word() || number_text(v),
    ensures
        json_token_of(
            snapshot_text_of(saved_at, timestamp, f1, f2, f3, f4, rx, tx),
            snapshot_words(saved_at, timestamp, f1, f2, f3, f4, rx, tx)[k],
        ) == (if v == null_word() {
            None
        } else {
            Some(v)
        }),
{
    let ws = snapshot_words(saved_at, timestamp, f1, f2, f3, f4, rx, tx);
    let key = ws[k];
    lemma_snapshot_join(saved_at, timestamp, f1, f2, f3, f4, rx, tx);
    lemma_words_quote_free(saved_at, timestamp, f1, f2, f3, f4, rx, tx);
    lemma_key_first(saved_at, timestamp, f1, f2, f3, f4, rx, tx, k);
    if k == 7 {
        assert(key == key_timestamp());
    } else if k == 9 {
        assert(key == key_disk_read_sum());
    } else if k == 11 {
        assert(key == key_disk_write_sum());
    } else if k == 13 {
        assert(key == key_network_received_sum());
    } else if k == 15 {
        assert(key == key_network_sent_sum());
    } else if k == 17 {
        assert(key == key_tailscale_received());
    } else if k == 19 {
        assert(key == key_tailscale_sent());
    }
    assert(quote_free(key));
    assert(forall|j: int| 0 <= j < key.len() ==> key[j] != ':');
    let colon = seq![':', ' '];
    let rest = ws.skip(k + 1);
    if k < 19 {
        lemma_join_split(rest, 1);
        assert(rest.take(1) =~= seq![ws[k + 1]]);
        assert(join_quoted(rest.take(1)) == ws[k + 1]);
        let r2 = join_quoted(rest.skip(1));
        let x = member_sep() + seq!['"'] + r2;
        assert(join_quoted(rest) =~= colon + v + x);
        lemma_member_token(ws, key, k, v, x);
    } else {
        assert(rest =~= seq![ws[20]]);
        let x = seq!['\n', '}', '\n'];
        assert(join_quoted(rest) == colon + v + x);
        lemma_member_token(ws, key, k, v, x);
    }
}

/// Reading back the snapshot text: the timestamp and the Tailscale counts
/// written come back as written, and each sum written as number text comes
/// back as that text. The saved time is written with digits, `-`, `:` and
/// spaces, and no sum text holds a quote.
pub proof fn lemma_snapshot_reads_back(
    saved_at: Seq<char>,
    timestamp: u64,
    f1: Seq<char>,
    f2: Seq<char>,
    f3: Seq<char>,
    f4: Seq<char>,
    rx: Option<u64>,
    tx: Option<u64>,
)
    requires
        time_text(saved_at),
        quote_free(f1),
        quote_free(f2),
        quote_free(f3),
        quote_free(f4),
    ensures
        json_u64_of(snapshot_text_of(saved_at, timestamp, f1, f2, f3, f4, rx, tx), key_timestamp()) == Some(timestamp),
        json_u64_of(snapshot_text_of(saved_at, timestamp, f1, f2, f3, f4, rx, tx), key_tailscale_received()) == rx,
        json_u64_of(snapshot_text_of(saved_at, timestamp, f1, f2, f3, f4, rx, tx), key_tailscale_sent()) == tx,
        number_text(f1) ==> json_token_of(snapshot_text_of(saved_at, timestamp, f1, f2, f3, f4, rx, tx), key_disk_read_sum()) == Some(f1),
        number_text(f2) ==> json_token_of(snapshot_text_of(saved_at, timestamp, f1, f2, f3, f4, rx, tx), key_disk_write_sum()) == Some(f2),
        number_text(f3) ==> json_token_of(snapshot_text_of(saved_at, timestamp, f1, f2, f3, f4, rx, tx), key_network_received_sum())
            == Some(f3),
        number_text(f4) ==> json_token_of(snapshot_text_of(saved_at, timestamp, f1, f2, f3, f4, rx, tx), key_network_sent_sum()) == Some(
            f4,
        ),
{
    let ws = snapshot_words(saved_at, timestamp, f1, f2, f3, f4, rx, tx);
    let colon = seq![':', ' '];
    let sep = member_sep();
    let d = decimal(timestamp as nat);
    lemma_decimal_digits(timestamp as nat);
    lemma_decimal_parses_back(timestamp);
    assert(number_text(d)) by {
        assert forall|i: int| 0 <= i < d.len() implies is_number_char(#[trigger] d[i]) by {
            assert(is_digit(d[i]));
        }
    }
    assert(d != null_word()) by {
        assert(is_digit(d[0]));
    }
    assert(ws[7] == key_timestamp());
    assert(ws[8] == colon + d + sep);
    lemma_read_member(saved_at, timestamp, f1, f2, f3, f4, rx, tx, 7, d);

    lemma_count_text(rx);
    assert(ws[17] == key_tailscale_received());
    assert(ws[18] == colon + count_text(rx) + sep);
    lemma_read_member(saved_at, timestamp, f1, f2, f3, f4, rx, tx, 17, count_text(rx));
    if let Some(n) = rx {
        lemma_decimal_parses_back(n);
    }
    lemma_count_text(tx);
    assert(ws[19] == key_tailscale_sent());
    assert(ws[20] == colon + count_text(tx) + seq!['\n', '}', '\n']);
    lemma_read_member(saved_at, timestamp, f1, f2, f3, f4, rx, tx, 19, count_text(tx));
    if let Some(n) = tx {
        lemma_decimal_parses_back(n);
    }

    if number_text(f1) {
        assert(f1 != null_word()) by { assert(is_number_char(f1[0])); }
        assert(ws[9] == key_disk_read_sum());
        assert(ws[10] == colon + f1 + sep);
        lemma_read_member(saved_at, timestamp, f1, f2, f3, f4, rx, tx, 9, f1);
    }
    if number_text(f2) {
        assert(f2 != null_word()) by { assert(is_number_char(f2[0])); }
        assert(ws[11] == key_disk_write_sum());
        assert(ws[12] == colon + f2 + sep);
        lemma_read_member(saved_at, timestamp, f1, f2, f3, f4, rx, tx, 11, f2);
    }
    if number_text(f3) {
        assert(f3 != null_word()) by { assert(is_number_char(f3[0])); }
        assert(ws[13] == key_network_received_sum());
        assert(ws[14] == colon + f3 + sep);
        lemma_read_member(saved_at, timestamp, f1, f2, f3, f4, rx, tx, 13, f3);
    }
    if number_text(f4) {
        assert(f4 != null_word()) by { assert(is_number_char(f4[0])); }
        assert(ws[15] == key_network_sent_sum());
        assert(ws[16] == colon + f4 + sep);
        lemma_read_member(saved_at, timestamp, f1, f2, f3, f4, rx, tx, 15, f4);
    }
}

proof fn lemma_zero_padded_time_text(n: u16, width: nat)
    ensures
        time_text(zero_padded(n, width)),
{
    lemma_decimal_digits(n as nat);
    let d = decimal(n as nat);
    let z = zero_padded(n, width);
    assert forall|i: int| 0 <= i < z.len() implies is_digit(#[trigger] z[i]) by {
        if d.len() < width {
            let k = width - d.len();
            if i >= k {
                assert(z[i] == d[i - k]);
            }
        } else {
            assert(z[i] == d[i]);
        }
    }
}

/// The time that the snapshot records is written with digits, `-`, `:` and
/// spaces only.
pub proof fn lemma_saved_text_is_time_text(t: SystemTime)
    ensures
        time_text(saved_text(t)),
{
    let s = saved_text(t);
    let y = zero_padded(t.year, 4);
    let mo = zero_padded(t.month, 2);
    let da = zero_padded(t.day, 2);
    let h = zero_padded(t.hour, 2);
    let mi = zero_padded(t.minute, 2);
    let se = zero_padded(t.second, 2);
    lemma_zero_padded_time_text(t.year, 4);
    lemma_zero_padded_time_text(t.month, 2);
    lemma_zero_padded_time_text(t.day, 2);
    lemma_zero_padded_time_text(t.hour, 2);
    lemma_zero_padded_time_text(t.minute, 2);
    lemma_zero_padded_time_text(t.second, 2);
    lemma_time_text_concat(y, seq!['-']);
    lemma_time_text_concat(y + seq!['-'], mo);
    lemma_time_text_concat(y + seq!['-'] + mo, seq!['-']);
    lemma_time_text_concat(y + seq!['-'] + mo + seq!['-'], da);
    lemma_time_text_concat(y + seq!['-'] + mo + seq!['-'] + da, seq![' ']);
    lemma_time_text_concat(y + seq!['-'] + mo + seq!['-'] + da + seq![' '], h);
    lemma_time_text_concat(y + seq!['-'] + mo + seq!['-'] + da + seq![' '] + h, seq![':']);
    lemma_time_text_concat(y + seq!['-'] + mo + seq!['-'] + da + seq![' '] + h + seq![':'], mi);
    lemma_time_text_concat(
        y + seq!['-'] + mo + seq!['-'] + da + seq![' '] + h + seq![':'] + mi,
        seq![':'],
    );
    lemma_time_text_concat(
        y + seq!['-'] + mo + seq!['-'] + da + seq![' '] + h + seq![':'] + mi + seq![':'],
        se,
    );
}

proof fn lemma_time_text_concat(a: Seq<char>, b: Seq<char>)
    requires
        time_text(a),
        time_text(b),
    ensures
        time_text(a + b),
{
    assert forall|i: int| 0 <= i < (a + b).len() implies (is_digit(#[trigger] (a + b)[i]) || (a
        + b)[i] == '-' || (a + b)[i] == ':' || (a + b)[i] == ' ') by {
        if i < a.len() {
            assert((a + b)[i] == a[i]);
        } else {
            assert((a + b)[i] == b[i - a.len()]);
        }
    }
}

} // verus!
