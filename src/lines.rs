//! Splitting text into lines, as `str::lines` does.

use vstd::prelude::*;

use crate::name_map::texts;

verus! {

/// Drops a carriage return that ends a line.
pub open spec fn trim_cr(l: Seq<char>) -> Seq<char> {
    if l.len() > 0 && l.last() == '\r' {
        l.drop_last()
    } else {
        l
    }
}

/// Splits what remains of a text into lines, `cur` being the part of the
/// current line already read. A line ends at `\n`, and a `\r` before it is
/// dropped; the last line needs no `\n`, and an empty one after a final `\n`
/// is no line.
pub open spec fn split_from(s: Seq<char>, cur: Seq<char>) -> Seq<Seq<char>>
    decreases s.len(),
{
    if s.len() == 0 {
        if cur.len() == 0 {
            Seq::empty()
        } else {
            seq![cur]
        }
    } else if s[0] == '\n' {
        seq![trim_cr(cur)] + split_from(s.drop_first(), Seq::empty())
    } else {
        split_from(s.drop_first(), cur.push(s[0]))
    }
}

/// The lines of a text.
pub open spec fn lines(s: Seq<char>) -> Seq<Seq<char>> {
    split_from(s, Seq::empty())
}

proof fn lemma_split_step(s: Seq<char>, i: int, cur: Seq<char>)
    requires
        0 <= i < s.len(),
    ensures
        s[i] == '\n' ==> split_from(s.skip(i), cur) == seq![trim_cr(cur)] + split_from(
            s.skip(i + 1),
            Seq::empty(),
        ),
        s[i] != '\n' ==> split_from(s.skip(i), cur) == split_from(s.skip(i + 1), cur.push(s[i])),
{
    assert(s.skip(i).drop_first() =~= s.skip(i + 1));
    assert(s.skip(i)[0] == s[i]);
}

/// The lines of `s`: split at `\n`, a `\r` before it dropped, with no empty
/// line after a final `\n`.
pub fn split_lines(s: &str) -> (r: Vec<String>)
    ensures
        texts(r@) == lines(s@),
{
    let ghost t = s@;
    let n = s.unicode_len();
    let mut out: Vec<String> = Vec::new();
    let mut start: usize = 0;
    let mut i: usize = 0;
    assert(t.skip(0) =~= t);
    assert(t.subrange(0, 0) =~= Seq::<char>::empty());
    assert(texts(out@) + lines(t) =~= lines(t));
    while i < n
        invariant
            n == t.len(),
            t == s@,
            start <= i <= n,
            lines(t) == texts(out@) + split_from(t.skip(i as int), t.subrange(start as int, i as int)),
        decreases n - i,
    {
        let c = s.get_char(i);
        proof {
            lemma_split_step(t, i as int, t.subrange(start as int, i as int));
        }
        if c == '\n' {
            let mut end = i;
            if end > start && s.get_char(end - 1) == '\r' {
                end = end - 1;
            }
            let line = s.substring_char(start, end);
            assert(line@ == trim_cr(t.subrange(start as int, i as int)));
            let ghost before = out@;
            out.push(String::from_str(line));
            proof {
                let l = line@;
                assert(texts(out@) =~= texts(before).push(l));
                assert(texts(before) + (seq![l] + split_from(t.skip(i + 1), Seq::empty())) =~= texts(before).push(l)
                    + split_from(t.skip(i + 1), Seq::empty()));
                assert(t.subrange(i + 1, i + 1) =~= Seq::<char>::empty());
            }
            start = i + 1;
        } else {
            assert(t.subrange(start as int, i as int).push(t[i as int]) =~= t.subrange(
                start as int,
                i + 1,
            ));
        }
        i += 1;
    }
    assert(t.skip(n as int) =~= Seq::<char>::empty());
    if start < n {
        let line = s.substring_char(start, n);
        let ghost before = out@;
        out.push(String::from_str(line));
        assert(texts(out@) =~= texts(before) + seq![line@]);
    } else {
        assert(texts(out@) + Seq::<Seq<char>>::empty() =~= texts(out@));
    }
    out
}

/// The text of a line up to its first tab.
pub open spec fn first_field(l: Seq<char>) -> Seq<char>
    decreases l.len(),
{
    if l.len() == 0 {
        l
    } else if l[0] == '\t' {
        Seq::empty()
    } else {
        seq![l[0]] + first_field(l.drop_first())
    }
}

/// The part of `l` before its first tab, or all of it.
pub fn first_field_of(l: &str) -> (r: String)
    ensures
        r@ == first_field(l@),
{
    let ghost t = l@;
    let n = l.unicode_len();
    let mut i: usize = 0;
    assert(t.skip(0) =~= t);
    while i < n
        invariant
            n == t.len(),
            t == l@,
            i <= n,
            first_field(t) == t.take(i as int) + first_field(t.skip(i as int)),
        decreases n - i,
    {
        assert(t.skip(i as int).drop_first() =~= t.skip(i + 1));
        assert(t.skip(i as int)[0] == t[i as int]);
        if l.get_char(i) == '\t' {
            assert(t.take(i as int) + Seq::<char>::empty() =~= t.take(i as int));
            return String::from_str(l.substring_char(0, i));
        }
        assert(t.take(i as int) + (seq![t[i as int]] + first_field(t.skip(i + 1))) =~= t.take(i + 1)
            + first_field(t.skip(i + 1)));
        i += 1;
    }
    assert(t.skip(n as int) =~= Seq::<char>::empty());
    assert(t.take(n as int) + Seq::<char>::empty() =~= t);
    String::from_str(l)
}

} // verus!
