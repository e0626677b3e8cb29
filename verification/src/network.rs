//! Interface table rows and what is summed over them: all interfaces, and
//! the Tailscale adapter on its own.
use vstd::prelude::*;
use crate::text::{starts_with, str_chars};
use crate::types::IfTotals;

verus! {

/// One row of the system's interface table, as far as the totals need it:
/// the alias and description as NUL-terminated UTF-16, and the octet counters.
pub struct InterfaceRow {
    pub alias: Vec<u16>,
    pub description: Vec<u16>,
    pub in_octets: u64,
    pub out_octets: u64,
}

/// The totals over all interfaces, and over the Tailscale adapters when there is one.
pub struct NetworkTotals {
    pub all: IfTotals,
    pub tailscale: Option<IfTotals>,
}

/// Both counts added, each saturating at `u64::MAX`.
pub open spec fn sum_of(left: IfTotals, right: IfTotals) -> IfTotals {
    IfTotals {
        received_bytes: left.received_bytes.saturating_add(right.received_bytes),
        sent_bytes: left.sent_bytes.saturating_add(right.sent_bytes),
    }
}

pub fn add_totals(left: IfTotals, right: IfTotals) -> (res: IfTotals)
    ensures
        res == sum_of(left, right),
{
    IfTotals {
        received_bytes: left.received_bytes.saturating_add(right.received_bytes),
        sent_bytes: left.sent_bytes.saturating_add(right.sent_bytes),
    }
}

pub open spec fn is_surrogate(u: u16) -> bool {
    0xD800 <= u <= 0xDFFF
}

pub open spec fn is_high_surrogate(u: u16) -> bool {
    0xD800 <= u <= 0xDBFF
}

pub open spec fn is_low_surrogate(u: u16) -> bool {
    0xDC00 <= u <= 0xDFFF
}

/// UTF-16 decoding with U+FFFD for each unpaired surrogate, as
/// `String::from_utf16_lossy` performs it.
pub open spec fn utf16_text(u: Seq<u16>) -> Seq<char>
    decreases u.len(),
{
    if u.len() == 0 {
        seq![]
    } else if !is_surrogate(u[0]) {
        seq![u[0] as char] + utf16_text(u.drop_first())
    } else if is_high_surrogate(u[0]) && u.len() >= 2 && is_low_surrogate(u[1]) {
        seq![(0x10000 + (u[0] - 0xD800) * 0x400 + (u[1] - 0xDC00)) as char] + utf16_text(u.skip(2))
    } else {
        seq!['\u{FFFD}'] + utf16_text(u.drop_first())
    }
}

/// Decodes UTF-16 (`String::from_utf16_lossy`): units outside the surrogate
/// range stand for themselves, a high surrogate followed by a low one for the
/// character they encode, and every other surrogate for U+FFFD.
#[verifier::external_body]
fn decode_utf16_lossy(units: &[u16]) -> (res: String)
    ensures
        res@ == utf16_text(units@),
{
    String::from_utf16_lossy(units)
}

/// Number of units before the first NUL, or all of them.
pub open spec fn nul_terminated_len(u: Seq<u16>) -> int
    decreases u.len(),
{
    if u.len() == 0 {
        0
    } else if u[0] == 0 {
        0
    } else {
        1 + nul_terminated_len(u.drop_first())
    }
}

/// The text of a NUL-terminated UTF-16 buffer.
pub open spec fn wide_text(u: Seq<u16>) -> Seq<char> {
    utf16_text(u.take(nul_terminated_len(u)))
}

proof fn lemma_nul_terminated_len(u: Seq<u16>, k: int)
    requires
        0 <= k <= u.len(),
        forall|j: int| 0 <= j < k ==> u[j] != 0,
        k == u.len() || u[k] == 0,
    ensures
        nul_terminated_len(u) == k,
    decreases k,
{
    if k > 0 {
        assert forall|j: int| 0 <= j < k - 1 implies u.drop_first()[j] != 0 by {
            assert(u.drop_first()[j] == u[j + 1]);
        }
        lemma_nul_terminated_len(u.drop_first(), k - 1);
    }
}

/// The text of a NUL-terminated UTF-16 buffer: the units before the first
/// NUL, decoded.
pub fn wide_array_to_string(value: &[u16]) -> (res: String)
    ensures
        res@ == wide_text(value@),
{
    let mut len: usize = 0;
    while len < value.len() && value[len] != 0
        invariant
            0 <= len <= value.len(),
            forall|j: int| 0 <= j < len ==> value@[j] != 0,
        decreases value.len() - len,
    {
        len = len + 1;
    }
    proof {
        lemma_nul_terminated_len(value@, len as int);
    }
    let mut prefix: Vec<u16> = Vec::new();
    let mut i: usize = 0;
    while i < len
        invariant
            0 <= i <= len <= value.len(),
            prefix@ == value@.take(i as int),
        decreases len - i,
    {
        prefix.push(value[i]);
        i = i + 1;
        assert(prefix@ =~= value@.take(i as int));
    }
    decode_utf16_lossy(prefix.as_slice())
}

/// `c` with ASCII capitals made small.
pub open spec fn ascii_lower(c: char) -> char {
    if 'A' <= c <= 'Z' {
        ((c as u32) + 32) as char
    } else {
        c
    }
}

pub open spec fn lowercase(s: Seq<char>) -> Seq<char> {
    Seq::new(s.len(), |i: int| ascii_lower(s[i]))
}

pub open spec fn contains(s: Seq<char>, p: Seq<char>) -> bool {
    exists|i: int| 0 <= i && i + p.len() <= s.len() && #[trigger] s.subrange(i, i + p.len()) == p
}

pub open spec fn tailscale_word() -> Seq<char> {
    seq!['t', 'a', 'i', 'l', 's', 'c', 'a', 'l', 'e']
}

pub open spec fn npcap_words() -> Seq<char> {
    seq![
        'n', 'p', 'c', 'a', 'p', ' ', 'p', 'a', 'c', 'k', 'e', 't', ' ', 'd', 'r', 'i', 'v', 'e', 'r',
    ]
}

/// An adapter is Tailscale's when its alias begins with `tailscale` and
/// neither its alias nor its description names the Npcap packet driver,
/// ignoring ASCII case.
pub open spec fn tailscale_names(alias: Seq<char>, description: Seq<char>) -> bool {
    &&& starts_with(lowercase(alias), tailscale_word())
    &&& !contains(lowercase(alias), npcap_words())
    &&& !contains(lowercase(description), npcap_words())
}

fn lower_chars(s: &str) -> (res: Vec<char>)
    ensures
        res@ == lowercase(s@),
{
    let v = str_chars(s);
    let mut out: Vec<char> = Vec::new();
    let mut i: usize = 0;
    while i < v.len()
        invariant
            0 <= i <= v.len(),
            out@ == lowercase(v@).take(i as int),
        decreases v.len() - i,
    {
        let c = v[i];
        let l = if 'A' <= c && c <= 'Z' {
            ((c as u32) + 32) as u8 as char
        } else {
            c
        };
        out.push(l);
        i = i + 1;
        assert(out@ =~= lowercase(v@).take(i as int));
    }
    assert(lowercase(v@).take(v.len() as int) =~= lowercase(v@));
    out
}

fn has_prefix(s: &Vec<char>, p: &Vec<char>) -> (res: bool)
    ensures
        res == starts_with(s@, p@),
{
    if p.len() > s.len() {
        return false;
    }
    crate::text::range_equals(s, 0, p.len(), p)
}

fn has_infix(s: &Vec<char>, p: &Vec<char>) -> (res: bool)
    ensures
        res == contains(s@, p@),
{
    if p.len() > s.len() {
        return false;
    }
    let last = s.len() - p.len();
    let mut i: usize = 0;
    loop
        invariant
            last == s.len() - p.len(),
            p.len() <= s.len(),
            0 <= i <= last,
            forall|j: int| 0 <= j < i ==> #[trigger] s@.subrange(j, j + p.len()) != p@,
        decreases last - i,
    {
        if crate::text::range_equals(s, i, i + p.len(), p) {
            return true;
        }
        if i == last {
            return false;
        }
        i = i + 1;
    }
}

/// Whether an adapter with this alias and description is Tailscale's.
pub fn is_tailscale_adapter(alias: &str, description: &str) -> (res: bool)
    ensures
        res == tailscale_names(alias@, description@),
{
    let alias = lower_chars(alias);
    let description = lower_chars(description);
    let word = vec!['t', 'a', 'i', 'l', 's', 'c', 'a', 'l', 'e'];
    let npcap = vec![
        'n', 'p', 'c', 'a', 'p', ' ', 'p', 'a', 'c', 'k', 'e', 't', ' ', 'd', 'r', 'i', 'v', 'e', 'r',
    ];
    assert(word@ =~= tailscale_word());
    assert(npcap@ =~= npcap_words());
    has_prefix(&alias, &word) && !has_infix(&alias, &npcap) && !has_infix(&description, &npcap)
}

pub open spec fn row_totals(row: InterfaceRow) -> IfTotals {
    IfTotals { received_bytes: row.in_octets, sent_bytes: row.out_octets }
}

pub open spec fn row_is_tailscale(row: InterfaceRow) -> bool {
    tailscale_names(wide_text(row.alias@), wide_text(row.description@))
}

/// The counters of `rows` summed in order, saturating.
pub open spec fn sum_rows(rows: Seq<InterfaceRow>) -> IfTotals
    decreases rows.len(),
{
    if rows.len() == 0 {
        IfTotals { received_bytes: 0, sent_bytes: 0 }
    } else {
        sum_of(sum_rows(rows.drop_last()), row_totals(rows.last()))
    }
}

/// The counters of the Tailscale rows among `rows` summed in order, saturating.
pub open spec fn sum_tailscale_rows(rows: Seq<InterfaceRow>) -> IfTotals
    decreases rows.len(),
{
    if rows.len() == 0 {
        IfTotals { received_bytes: 0, sent_bytes: 0 }
    } else if row_is_tailscale(rows.last()) {
        sum_of(sum_tailscale_rows(rows.drop_last()), row_totals(rows.last()))
    } else {
        sum_tailscale_rows(rows.drop_last())
    }
}

pub open spec fn has_tailscale_row(rows: Seq<InterfaceRow>) -> bool {
    exists|i: int| 0 <= i < rows.len() && row_is_tailscale(#[trigger] rows[i])
}

/// Sums the interface table: every row into `all`, the Tailscale rows into
/// `tailscale`, which is absent when no row is Tailscale's.
pub fn network_totals(rows: &Vec<InterfaceRow>) -> (res: NetworkTotals)
    ensures
        res.all == sum_rows(rows@),
        res.tailscale == (if has_tailscale_row(rows@) {
            Some(sum_tailscale_rows(rows@))
        } else {
            None
        }),
{
    let mut all = IfTotals { received_bytes: 0, sent_bytes: 0 };
    let mut tailscale = IfTotals { received_bytes: 0, sent_bytes: 0 };
    let mut tailscale_found = false;
    let mut i: usize = 0;
    while i < rows.len()
        invariant
            0 <= i <= rows.len(),
            all == sum_rows(rows@.take(i as int)),
            tailscale == sum_tailscale_rows(rows@.take(i as int)),
            tailscale_found == has_tailscale_row(rows@.take(i as int)),
        decreases rows.len() - i,
    {
        let row = &rows[i];
        let ghost prefix = rows@.take(i as int);
        let ghost next = rows@.take(i + 1);
        assert(next.drop_last() =~= prefix);
        assert(next.last() == rows@[i as int]);
        all = add_totals(all, IfTotals { received_bytes: row.in_octets, sent_bytes: row.out_octets });
        let alias = wide_array_to_string(row.alias.as_slice());
        let description = wide_array_to_string(row.description.as_slice());
        let is_tailscale = is_tailscale_adapter(alias.as_str(), description.as_str());
        if is_tailscale {
            tailscale_found = true;
            tailscale = add_totals(
                tailscale,
                IfTotals { received_bytes: row.in_octets, sent_bytes: row.out_octets },
            );
        }
        proof {
            if is_tailscale {
                assert(row_is_tailscale(next[i as int]));
            } else {
                assert forall|j: int| 0 <= j < next.len() && row_is_tailscale(
                    #[trigger] next[j],
                ) implies has_tailscale_row(prefix) by {
                    assert(prefix[j] == next[j]);
                }
            }
            if has_tailscale_row(prefix) {
                let j = choose|j: int| 0 <= j < prefix.len() && row_is_tailscale(#[trigger] prefix[j]);
                assert(next[j] == prefix[j]);
            }
        }
        i = i + 1;
    }
    assert(rows@.take(rows.len() as int) =~= rows@);
    NetworkTotals { all, tailscale: if tailscale_found {
        Some(tailscale)
    } else {
        None
    } }
}

/// The Tailscale totals never exceed the totals over all interfaces.
pub proof fn lemma_tailscale_within_all(rows: Seq<InterfaceRow>)
    ensures
        sum_tailscale_rows(rows).received_bytes <= sum_rows(rows).received_bytes,
        sum_tailscale_rows(rows).sent_bytes <= sum_rows(rows).sent_bytes,
    decreases rows.len(),
{
    if rows.len() > 0 {
        lemma_tailscale_within_all(rows.drop_last());
    }
}

/// Installed memory in bytes from the size in kilobytes that the system
/// reports, if it reports one; a zero size counts as none.
pub fn installed_memory_bytes(reported_kb: Option<u64>) -> (res: Option<u64>)
    ensures
        res == (match reported_kb {
            Some(kb) => if kb == 0 {
                None
            } else if kb * 1024 > u64::MAX {
                Some(u64::MAX)
            } else {
                Some((kb * 1024) as u64)
            },
            None => None,
        }),
{
    match reported_kb {
        Some(kb) => {
            let bytes = match kb.checked_mul(1024) {
                Some(b) => b,
                None => u64::MAX,
            };
            if bytes > 0 {
                Some(bytes)
            } else {
                None
            }
        },
        None => None,
    }
}

} // verus!
