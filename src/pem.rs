//! The text that inlining puts in place of a file reference: the file's
//! lines without empty lines and without PEM boundary lines.

use vstd::prelude::*;

use crate::lines::{lines, split_lines};
use crate::name_map::texts;

verus! {

/// Five dashes, the start of a PEM boundary line.
pub open spec fn dashes() -> Seq<char> {
    seq!['-', '-', '-', '-', '-']
}

/// A line that is kept: not empty, and not starting with five dashes.
pub open spec fn keep_line(l: Seq<char>) -> bool {
    l.len() > 0 && !(l.len() >= 5 && l.take(5) == dashes())
}

/// Adds line `l` to the kept text `acc`, after a newline where `acc` holds a
/// line already.
pub open spec fn join_step(acc: Seq<char>, l: Seq<char>) -> Seq<char> {
    if !keep_line(l) {
        acc
    } else if acc.len() == 0 {
        l
    } else {
        acc + seq!['\n'] + l
    }
}

/// The kept lines of `ls`, joined by newlines.
pub open spec fn join_kept(ls: Seq<Seq<char>>) -> Seq<char>
    decreases ls.len(),
{
    if ls.len() == 0 {
        Seq::empty()
    } else {
        join_step(join_kept(ls.drop_last()), ls.last())
    }
}

/// The body of a PEM file: its kept lines joined by newlines.
pub open spec fn pem_body(s: Seq<char>) -> Seq<char> {
    join_kept(lines(s))
}

fn starts_with_dashes(l: &str) -> (r: bool)
    requires
        l@.len() >= 5,
    ensures
        r == (l@.take(5) == dashes()),
{
    let mut k: usize = 0;
    while k < 5
        invariant
            k <= 5,
            l@.len() >= 5,
            forall|j: int| 0 <= j < k ==> l@[j] == '-',
        decreases 5 - k,
    {
        if l.get_char(k) != '-' {
            assert(l@.take(5)[k as int] != dashes()[k as int]);
            return false;
        }
        k += 1;
    }
    assert(l@.take(5) =~= dashes());
    true
}

fn push_line(out: &mut String, l: &str)
    ensures
        final(out)@ == join_step(old(out)@, l@),
{
    let n = l.unicode_len();
    if n == 0 {
        return;
    }
    if n >= 5 && starts_with_dashes(l) {
        return;
    }
    if out.unicode_len() > 0 {
        let nl = "\n";
        proof {
            reveal_strlit("\n");
        }
        out.append(nl);
    }
    out.append(l);
    assert(out@ =~= join_step(old(out)@, l@));
}

/// The lines of `contents` that are neither empty nor start with five
/// dashes, joined by newlines.
pub fn strip_pem(contents: &str) -> (r: String)
    ensures
        r@ == pem_body(contents@),
{
    let ls = split_lines(contents);
    let ghost v = texts(ls@);
    let mut out = String::new();
    let mut i: usize = 0;
    while i < ls.len()
        invariant
            i <= ls.len(),
            v == texts(ls@),
            v == lines(contents@),
            out@ == join_kept(v.take(i as int)),
        decreases ls.len() - i,
    {
        assert(v.take(i + 1).drop_last() =~= v.take(i as int));
        assert(v[i as int] == ls@[i as int]@);
        push_line(&mut out, ls[i].as_str());
        i += 1;
    }
    assert(v.take(i as int) =~= v);
    out
}

} // verus!
