//! Rows of the CSV log: every field quoted, inner quotes doubled.
use vstd::prelude::*;
use crate::text::{str_chars, string_of};

verus! {

/// What one character of a field becomes inside the quotes.
pub open spec fn quoted_char(c: char) -> Seq<char> {
    if c == '"' {
        seq!['"', '"']
    } else {
        seq![c]
    }
}

/// `s` with every `"` doubled.
pub open spec fn doubled(s: Seq<char>) -> Seq<char>
    decreases s.len(),
{
    if s.len() == 0 {
        seq![]
    } else {
        quoted_char(s[0]) + doubled(s.drop_first())
    }
}

/// A field as the log writes it: in quotes, with inner quotes doubled.
pub open spec fn escaped_field(s: Seq<char>) -> Seq<char> {
    seq!['"'] + doubled(s) + seq!['"']
}

/// Fields escaped and joined with commas.
pub open spec fn csv_text(fields: Seq<Seq<char>>) -> Seq<char>
    decreases fields.len(),
{
    if fields.len() == 0 {
        seq![]
    } else if fields.len() == 1 {
        escaped_field(fields[0])
    } else {
        csv_text(fields.drop_last()) + seq![','] + escaped_field(fields.last())
    }
}

/// The body of a quoted field read back: each `""` stands for one `"`.
pub open spec fn unquoted(s: Seq<char>) -> Seq<char>
    decreases s.len(),
{
    if s.len() == 0 {
        seq![]
    } else if s.len() >= 2 && s[0] == '"' && s[1] == '"' {
        seq!['"'] + unquoted(s.skip(2))
    } else {
        seq![s[0]] + unquoted(s.drop_first())
    }
}

proof fn lemma_doubled_push(s: Seq<char>, c: char)
    ensures
        doubled(s.push(c)) == doubled(s) + quoted_char(c),
    decreases s.len(),
{
    if s.len() == 0 {
        assert(s.push(c).drop_first() =~= Seq::<char>::empty());
        assert(s.push(c)[0] == c);
        assert(doubled(Seq::<char>::empty()) =~= Seq::<char>::empty());
        assert(doubled(s) =~= Seq::<char>::empty());
        assert(doubled(s.push(c)) =~= quoted_char(c) + doubled(Seq::<char>::empty()));
        assert(doubled(s.push(c)) =~= doubled(s) + quoted_char(c));
    } else {
        assert(s.push(c).drop_first() =~= s.drop_first().push(c));
        lemma_doubled_push(s.drop_first(), c);
        assert(doubled(s.push(c)) =~= doubled(s) + quoted_char(c));
    }
}

/// Appends `escaped_field(v)`.
fn push_escaped(out: &mut Vec<char>, v: &Vec<char>)
    ensures
        final(out)@ == old(out)@ + escaped_field(v@),
{
    let ghost start = old(out)@;
    out.push('"');
    let mut i: usize = 0;
    while i < v.len()
        invariant
            0 <= i <= v.len(),
            out@ == start + seq!['"'] + doubled(v@.take(i as int)),
        decreases v.len() - i,
    {
        let c = v[i];
        proof {
            assert(v@.take(i + 1) =~= v@.take(i as int).push(c));
            lemma_doubled_push(v@.take(i as int), c);
        }
        if c == '"' {
            out.push('"');
            out.push('"');
        } else {
            out.push(c);
        }
        i = i + 1;
        assert(out@ =~= start + seq!['"'] + doubled(v@.take(i as int)));
    }
    out.push('"');
    assert(v@.take(v.len() as int) =~= v@);
    assert(out@ =~= start + escaped_field(v@));
}

/// A field in quotes, with each inner quote doubled.
pub fn csv_escape(field: &str) -> (res: String)
    ensures
        res@ == escaped_field(field@),
{
    let v = str_chars(field);
    let mut out: Vec<char> = Vec::new();
    push_escaped(&mut out, &v);
    assert(out@ =~= escaped_field(field@));
    string_of(&out)
}

/// One line of the log: the fields escaped and joined with commas.
pub fn csv_line(fields: &Vec<String>) -> (res: String)
    ensures
        res@ == csv_text(fields@.map_values(|f: String| f@)),
{
    let ghost views = fields@.map_values(|f: String| f@);
    let mut out: Vec<char> = Vec::new();
    let mut i: usize = 0;
    while i < fields.len()
        invariant
            0 <= i <= fields.len(),
            views == fields@.map_values(|f: String| f@),
            out@ == csv_text(views.take(i as int)),
        decreases fields.len() - i,
    {
        let v = str_chars(fields[i].as_str());
        let ghost before = out@;
        if i > 0 {
            out.push(',');
        }
        push_escaped(&mut out, &v);
        proof {
            let next = views.take(i + 1);
            assert(next.drop_last() =~= views.take(i as int));
            assert(next.last() == v@);
            if i == 0 {
                assert(before =~= Seq::<char>::empty());
                assert(out@ =~= escaped_field(v@));
            } else {
                assert(out@ =~= before + seq![','] + escaped_field(v@));
            }
        }
        i = i + 1;
    }
    assert(views.take(fields.len() as int) =~= views);
    string_of(&out)
}

proof fn lemma_unquoted_doubled_append(s: Seq<char>, rest: Seq<char>)
    requires
        rest.len() == 0 || rest[0] != '"',
    ensures
        unquoted(doubled(s) + rest) == s + unquoted(rest),
    decreases s.len(),
{
    if s.len() == 0 {
        assert(doubled(s) + rest =~= rest);
        assert(s + unquoted(rest) =~= unquoted(rest));
    } else {
        let c = s[0];
        let t = doubled(s.drop_first()) + rest;
        lemma_unquoted_doubled_append(s.drop_first(), rest);
        if c == '"' {
            let w = seq!['"', '"'] + t;
            assert(doubled(s) + rest =~= w);
            assert(w.skip(2) =~= t);
        } else {
            let w = seq![c] + t;
            assert(doubled(s) + rest =~= w);
            assert(w.drop_first() =~= t);
        }
        assert(s =~= seq![c] + s.drop_first());
        assert(s + unquoted(rest) =~= seq![c] + (s.drop_first() + unquoted(rest)));
    }
}

/// Reading an escaped field back gives the field: the quotes come off and
/// each doubled quote stands for one.
pub proof fn lemma_escape_reversible(s: Seq<char>)
    ensures
        escaped_field(s)[0] == '"',
        escaped_field(s).last() == '"',
        unquoted(escaped_field(s).subrange(1, escaped_field(s).len() - 1)) == s,
{
    let e = escaped_field(s);
    assert(e.subrange(1, e.len() - 1) =~= doubled(s));
    lemma_unquoted_doubled_append(s, Seq::<char>::empty());
    assert(doubled(s) + Seq::<char>::empty() =~= doubled(s));
    assert(s + unquoted(Seq::<char>::empty()) =~= s);
}

} // verus!
