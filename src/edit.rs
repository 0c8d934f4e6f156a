//! The text through which a user picks the clusters to keep: one line per
//! cluster, name and server; the names are read back from the edited text.

use vstd::prelude::*;

use crate::lines::{first_field, first_field_of, lines, split_lines};
use crate::name_map::{texts, NameMap};
use crate::wire::ClusterSpec;

verus! {

/// One line per cluster: its name, a tab, and its server in parentheses.
pub open spec fn listing(s: Seq<(Seq<char>, ClusterSpec)>) -> Seq<char>
    decreases s.len(),
{
    if s.len() == 0 {
        Seq::empty()
    } else {
        listing(s.drop_last()) + s.last().0 + "\t("@ + s.last().1.server@ + ")\n"@
    }
}

/// The clusters as text to edit, one line each.
pub fn cluster_listing(clusters: &NameMap<ClusterSpec>) -> (r: String)
    ensures
        r@ == listing(clusters@),
{
    let ghost s = clusters@;
    let mut r = String::new();
    let mut i: usize = 0;
    while i < clusters.len()
        invariant
            s == clusters@,
            i <= s.len(),
            r@ == listing(s.take(i as int)),
        decreases s.len() - i,
    {
        assert(s.take(i + 1).drop_last() =~= s.take(i as int));
        assert(s.take(i + 1).last() == s[i as int]);
        r.append(clusters.name_at(i).as_str());
        r.append("\t(");
        r.append(clusters.value_at(i).server.as_str());
        r.append(")\n");
        i += 1;
    }
    assert(s.take(i as int) =~= s);
    r
}

/// The names in an edited listing: of each line, the text before its first
/// tab.
pub fn kept_names(edited: &str) -> (r: Vec<String>)
    ensures
        texts(r@) == lines(edited@).map_values(|l: Seq<char>| first_field(l)),
{
    let ls = split_lines(edited);
    let ghost v = texts(ls@);
    let mut r: Vec<String> = Vec::new();
    let mut i: usize = 0;
    while i < ls.len()
        invariant
            i <= ls.len(),
            v == texts(ls@),
            texts(r@) == v.take(i as int).map_values(|l: Seq<char>| first_field(l)),
        decreases ls.len() - i,
    {
        let ghost before = r@;
        r.push(first_field_of(ls[i].as_str()));
        assert(texts(r@) =~= v.take(i + 1).map_values(|l: Seq<char>| first_field(l))) by {
            assert(texts(r@) =~= texts(before).push(first_field(ls@[i as int]@)));
        }
        i += 1;
    }
    assert(v.take(i as int) =~= v);
    r
}

} // verus!
