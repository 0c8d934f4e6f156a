//! Entries keyed by name, with names kept unique and the order of first
//! insertion kept.

use vstd::prelude::*;

verus! {

/// No two entries carry the same name.
pub open spec fn names_unique<V>(s: Seq<(Seq<char>, V)>) -> bool {
    forall|i: int, j: int|
        #![trigger s[i], s[j]]
        0 <= i < s.len() && 0 <= j < s.len() && i != j ==> s[i].0 != s[j].0
}

/// Some entry carries the name `k`.
pub open spec fn has_name<V>(s: Seq<(Seq<char>, V)>, k: Seq<char>) -> bool {
    exists|i: int| 0 <= i < s.len() && #[trigger] s[i].0 == k
}

/// The value of the last entry named `k`, if there is one.
pub open spec fn lookup<V>(s: Seq<(Seq<char>, V)>, k: Seq<char>) -> Option<V>
    decreases s.len(),
{
    if s.len() == 0 {
        None
    } else if s.last().0 == k {
        Some(s.last().1)
    } else {
        lookup(s.drop_last(), k)
    }
}

/// A position of an entry named `k` (the only one where names are unique).
pub open spec fn index_of<V>(s: Seq<(Seq<char>, V)>, k: Seq<char>) -> int {
    choose|i: int| 0 <= i < s.len() && #[trigger] s[i].0 == k
}

/// Sets the value under `k`: in place where the name is present, else at the end.
pub open spec fn put<V>(s: Seq<(Seq<char>, V)>, k: Seq<char>, v: V) -> Seq<(Seq<char>, V)> {
    if has_name(s, k) {
        s.update(index_of(s, k), (k, v))
    } else {
        s.push((k, v))
    }
}

/// Drops the entry named `k`, if there is one.
pub open spec fn without<V>(s: Seq<(Seq<char>, V)>, k: Seq<char>) -> Seq<(Seq<char>, V)> {
    if has_name(s, k) {
        s.remove(index_of(s, k))
    } else {
        s
    }
}

/// Puts the entries of `s` one after the other into an empty map: a later
/// entry replaces an earlier one of the same name.
pub open spec fn normalize<V>(s: Seq<(Seq<char>, V)>) -> Seq<(Seq<char>, V)>
    decreases s.len(),
{
    if s.len() == 0 {
        Seq::empty()
    } else {
        put(normalize(s.drop_last()), s.last().0, s.last().1)
    }
}

/// The entries of `s` whose name is among `keep`, in their order.
pub open spec fn keep_only<V>(s: Seq<(Seq<char>, V)>, keep: Seq<Seq<char>>) -> Seq<(Seq<char>, V)>
    decreases s.len(),
{
    if s.len() == 0 {
        s
    } else if keep.contains(s.last().0) {
        keep_only(s.drop_last(), keep).push(s.last())
    } else {
        keep_only(s.drop_last(), keep)
    }
}

/// The names of the entries, in order.
pub open spec fn names_of<V>(s: Seq<(Seq<char>, V)>) -> Seq<Seq<char>> {
    s.map_values(|e: (Seq<char>, V)| e.0)
}

/// The text of each string, in order.
pub open spec fn texts(v: Seq<String>) -> Seq<Seq<char>> {
    v.map_values(|s: String| s@)
}

pub proof fn lemma_lookup_present<V>(s: Seq<(Seq<char>, V)>, i: int)
    requires
        names_unique(s),
        0 <= i < s.len(),
    ensures
        lookup(s, s[i].0) == Some(s[i].1),
    decreases s.len(),
{
    if i != s.len() - 1 {
        assert(s.last() == s[s.len() - 1]);
        lemma_lookup_present(s.drop_last(), i);
    }
}

pub proof fn lemma_lookup_has_name<V>(s: Seq<(Seq<char>, V)>, k: Seq<char>)
    ensures
        lookup(s, k) is Some <==> has_name(s, k),
    decreases s.len(),
{
    if s.len() > 0 {
        lemma_lookup_has_name(s.drop_last(), k);
        if s.last().0 == k {
            assert(s[s.len() - 1].0 == k);
        } else if has_name(s, k) {
            let i = choose|i: int| 0 <= i < s.len() && #[trigger] s[i].0 == k;
            assert(s.drop_last()[i].0 == k);
        }
    }
}

pub proof fn lemma_index_of_unique<V>(s: Seq<(Seq<char>, V)>, i: int)
    requires
        names_unique(s),
        0 <= i < s.len(),
    ensures
        has_name(s, s[i].0),
        index_of(s, s[i].0) == i,
{
    assert(s[i].0 == s[i].0);
}

/// What `put` does to lookups, and that it keeps names unique.
pub proof fn lemma_put<V>(s: Seq<(Seq<char>, V)>, k: Seq<char>, v: V)
    requires
        names_unique(s),
    ensures
        names_unique(put(s, k, v)),
        has_name(put(s, k, v), k),
        forall|x: Seq<char>|
            #[trigger] lookup(put(s, k, v), x) == if x == k {
                Some(v)
            } else {
                lookup(s, x)
            },
{
    let t = put(s, k, v);
    if has_name(s, k) {
        let i = index_of(s, k);
        assert(names_unique(t)) by {
            assert forall|a: int, b: int|
                0 <= a < t.len() && 0 <= b < t.len() && a != b implies #[trigger] t[a].0
                != #[trigger] t[b].0 by {
                assert(t[a].0 == s[a].0 && t[b].0 == s[b].0);
            }
        }
        assert(t[i].0 == k);
        assert forall|x: Seq<char>|
            #[trigger] lookup(t, x) == if x == k {
                Some(v)
            } else {
                lookup(s, x)
            } by {
            if x == k {
                lemma_lookup_present(t, i);
            } else {
                lemma_lookup_has_name(s, x);
                lemma_lookup_has_name(t, x);
                if has_name(s, x) {
                    let j = index_of(s, x);
                    assert(t[j] == s[j]);
                    lemma_lookup_present(s, j);
                    lemma_lookup_present(t, j);
                } else {
                    assert(!has_name(t, x)) by {
                        if has_name(t, x) {
                            let j = index_of(t, x);
                            assert(s[j].0 == x);
                        }
                    }
                }
            }
        }
    } else {
        assert(t.drop_last() =~= s);
        assert(t[t.len() - 1].0 == k);
        assert(names_unique(t)) by {
            assert forall|a: int, b: int|
                0 <= a < t.len() && 0 <= b < t.len() && a != b implies #[trigger] t[a].0
                != #[trigger] t[b].0 by {
                if a < s.len() && b < s.len() {
                    assert(t[a] == s[a] && t[b] == s[b]);
                } else if a < s.len() {
                    assert(t[a] == s[a]);
                } else {
                    assert(t[b] == s[b]);
                }
            }
        }
    }
}

/// After `normalize` names are unique, and each name finds the value of its
/// last entry in the input.
pub proof fn lemma_normalize<V>(s: Seq<(Seq<char>, V)>)
    ensures
        names_unique(normalize(s)),
        forall|x: Seq<char>| #[trigger] lookup(normalize(s), x) == lookup(s, x),
    decreases s.len(),
{
    if s.len() > 0 {
        lemma_normalize(s.drop_last());
        lemma_put(normalize(s.drop_last()), s.last().0, s.last().1);
    }
}

/// A list whose names are unique comes out of `normalize` unchanged.
pub proof fn lemma_normalize_unique<V>(s: Seq<(Seq<char>, V)>)
    requires
        names_unique(s),
    ensures
        normalize(s) == s,
    decreases s.len(),
{
    if s.len() > 0 {
        let p = s.drop_last();
        assert(names_unique(p)) by {
            assert forall|a: int, b: int|
                0 <= a < p.len() && 0 <= b < p.len() && a != b implies #[trigger] p[a].0
                != #[trigger] p[b].0 by {
                assert(p[a] == s[a] && p[b] == s[b]);
            }
        }
        lemma_normalize_unique(p);
        assert(!has_name(p, s.last().0)) by {
            if has_name(p, s.last().0) {
                let j = index_of(p, s.last().0);
                assert(s[j] == p[j]);
                assert(s[s.len() - 1] == s.last());
            }
        }
        assert(p.push(s.last()) =~= s);
    }
}

/// A name is among the names of the entries exactly when some entry carries it.
pub proof fn lemma_names_of_contains<V>(s: Seq<(Seq<char>, V)>, k: Seq<char>)
    ensures
        names_of(s).contains(k) == has_name(s, k),
{
    if has_name(s, k) {
        let i = index_of(s, k);
        assert(names_of(s)[i] == k);
    }
    if names_of(s).contains(k) {
        let i = choose|i: int| 0 <= i < names_of(s).len() && names_of(s)[i] == k;
        assert(s[i].0 == k);
    }
}

/// Where `i` is the last position named `k`, `lookup` finds the value there.
pub proof fn lemma_lookup_last<V>(s: Seq<(Seq<char>, V)>, k: Seq<char>, i: int)
    requires
        0 <= i < s.len(),
        s[i].0 == k,
        forall|j: int| i < j < s.len() ==> s[j].0 != k,
    ensures
        lookup(s, k) == Some(s[i].1),
    decreases s.len(),
{
    if i != s.len() - 1 {
        assert(s[s.len() - 1].0 != k);
        let p = s.drop_last();
        assert forall|j: int| i < j < p.len() implies p[j].0 != k by {
            assert(p[j] == s[j]);
        }
        lemma_lookup_last(p, k, i);
    }
}

/// `keep_only` keeps names unique.
pub proof fn lemma_keep_only_unique<V>(s: Seq<(Seq<char>, V)>, keep: Seq<Seq<char>>)
    requires
        names_unique(s),
    ensures
        names_unique(keep_only(s, keep)),
        forall|k: Seq<char>| has_name(keep_only(s, keep), k) ==> has_name(s, k),
    decreases s.len(),
{
    if s.len() > 0 {
        let p = s.drop_last();
        assert(names_unique(p)) by {
            assert forall|a: int, b: int|
                0 <= a < p.len() && 0 <= b < p.len() && a != b implies #[trigger] p[a].0
                != #[trigger] p[b].0 by {
                assert(p[a] == s[a] && p[b] == s[b]);
            }
        }
        lemma_keep_only_unique(p, keep);
        let r = keep_only(p, keep);
        assert forall|k: Seq<char>| has_name(r, k) implies has_name(s, k) by {
            assert(has_name(p, k));
            let j = index_of(p, k);
            assert(s[j] == p[j]);
        }
        if keep.contains(s.last().0) {
            let t = r.push(s.last());
            assert(!has_name(r, s.last().0)) by {
                if has_name(r, s.last().0) {
                    assert(has_name(p, s.last().0));
                    let j = index_of(p, s.last().0);
                    assert(s[j] == p[j]);
                    assert(s[s.len() - 1] == s.last());
                }
            }
            assert forall|a: int, b: int|
                0 <= a < t.len() && 0 <= b < t.len() && a != b implies #[trigger] t[a].0
                != #[trigger] t[b].0 by {
                if a < r.len() && b < r.len() {
                    assert(t[a] == r[a] && t[b] == r[b]);
                } else if a < r.len() {
                    assert(t[a] == r[a]);
                } else {
                    assert(t[b] == r[b]);
                }
            }
            assert forall|k: Seq<char>| has_name(t, k) implies has_name(s, k) by {
                let j = choose|j: int| 0 <= j < t.len() && #[trigger] t[j].0 == k;
                if j < r.len() {
                    assert(t[j] == r[j]);
                    assert(has_name(r, k));
                } else {
                    assert(s[s.len() - 1] == s.last());
                }
            }
        }
    }
}

/// Whether `k` is among the strings of `v`.
pub fn contains_text(v: &Vec<String>, k: &String) -> (r: bool)
    ensures
        r == texts(v@).contains(k@),
{
    let mut i: usize = 0;
    while i < v.len()
        invariant
            i <= v.len(),
            forall|j: int| 0 <= j < i ==> v@[j]@ != k@,
        decreases v.len() - i,
    {
        if v[i] == *k {
            assert(texts(v@)[i as int] == k@);
            return true;
        }
        i += 1;
    }
    assert(!texts(v@).contains(k@)) by {
        if texts(v@).contains(k@) {
            let j = choose|j: int| 0 <= j < v@.len() && texts(v@)[j] == k@;
            assert(v@[j]@ == k@);
        }
    }
    false
}

/// Entries keyed by name. Names are unique; entries keep the order in which
/// their names were first inserted.
#[derive(Debug)]
pub struct NameMap<V> {
    entries: Vec<(String, V)>,
}

impl<V> View for NameMap<V> {
    type V = Seq<(Seq<char>, V)>;

    closed spec fn view(&self) -> Seq<(Seq<char>, V)> {
        self.entries@.map_values(|e: (String, V)| (e.0@, e.1))
    }
}

impl<V> NameMap<V> {
    #[verifier::type_invariant]
    spec fn inv(&self) -> bool {
        names_unique(self@)
    }

    /// An empty map.
    pub fn new() -> (r: Self)
        ensures
            r@ == Seq::<(Seq<char>, V)>::empty(),
    {
        let r = NameMap { entries: Vec::new() };
        assert(r@ =~= Seq::<(Seq<char>, V)>::empty());
        r
    }

    /// The number of entries.
    pub fn len(&self) -> (r: usize)
        ensures
            r == self@.len(),
    {
        self.entries.len()
    }

    fn find(&self, name: &String) -> (r: Option<usize>)
        ensures
            match r {
                Some(i) => i < self@.len() && self@[i as int].0 == name@,
                None => !has_name(self@, name@),
            },
    {
        let mut i: usize = 0;
        while i < self.entries.len()
            invariant
                i <= self.entries.len(),
                forall|j: int| 0 <= j < i ==> self@[j].0 != name@,
            decreases self.entries.len() - i,
        {
            if self.entries[i].0 == *name {
                return Some(i);
            }
            i += 1;
        }
        None
    }

    /// Whether some entry carries `name`.
    pub fn contains_key(&self, name: &String) -> (r: bool)
        ensures
            r == has_name(self@, name@),
    {
        self.find(name).is_some()
    }

    /// The value under `name`, if any.
    pub fn get(&self, name: &String) -> (r: Option<&V>)
        ensures
            r is Some == has_name(self@, name@),
            match r {
                Some(v) => lookup(self@, name@) == Some(*v),
                None => lookup(self@, name@) is None,
            },
    {
        proof {
            use_type_invariant(self);
            lemma_lookup_has_name(self@, name@);
        }
        match self.find(name) {
            Some(i) => {
                proof {
                    lemma_lookup_present(self@, i as int);
                }
                Some(&self.entries[i].1)
            },
            None => None,
        }
    }

    /// Sets the value under `name`, replacing the value that was there.
    pub fn insert(&mut self, name: String, value: V)
        ensures
            names_unique(final(self)@),
            final(self)@ == put(old(self)@, name@, value),
            has_name(final(self)@, name@),
            lookup(final(self)@, name@) == Some(value),
            final(self)@.len() == old(self)@.len() + if has_name(old(self)@, name@) {
                0int
            } else {
                1int
            },
    {
        proof {
            use_type_invariant(&*self);
            lemma_put(self@, name@, value);
        }
        let ghost k = name@;
        let found = self.find(&name);
        proof {
            if let Some(i) = found {
                lemma_index_of_unique(self@, i as int);
            }
        }
        let mut entries: Vec<(String, V)> = Vec::new();
        std::mem::swap(&mut entries, &mut self.entries);
        match found {
            Some(i) => entries.set(i, (name, value)),
            None => entries.push((name, value)),
        }
        assert(entries@.map_values(|e: (String, V)| (e.0@, e.1)) =~= put(old(self)@, k, value));
        self.entries = entries;
    }

    /// Drops the entry under `name` and returns its value, if there is one.
    pub fn remove(&mut self, name: &String) -> (r: Option<V>)
        ensures
            names_unique(final(self)@),
            r == lookup(old(self)@, name@),
            final(self)@ == without(old(self)@, name@),
    {
        proof {
            use_type_invariant(&*self);
            lemma_lookup_has_name(self@, name@);
        }
        match self.find(name) {
            Some(i) => {
                proof {
                    lemma_index_of_unique(self@, i as int);
                    lemma_lookup_present(self@, i as int);
                }
                let mut entries: Vec<(String, V)> = Vec::new();
                std::mem::swap(&mut entries, &mut self.entries);
                let (_, v) = entries.remove(i);
                let ghost t = entries@.map_values(|e: (String, V)| (e.0@, e.1));
                assert(t =~= without(old(self)@, name@));
                assert(names_unique(t)) by {
                    let s = old(self)@;
                    assert forall|a: int, b: int|
                        0 <= a < t.len() && 0 <= b < t.len() && a != b implies #[trigger] t[a].0
                        != #[trigger] t[b].0 by {
                        let a2 = if a < i { a } else { a + 1 };
                        let b2 = if b < i { b } else { b + 1 };
                        assert(t[a] == s[a2] && t[b] == s[b2]);
                    }
                }
                self.entries = entries;
                Some(v)
            },
            None => None,
        }
    }

    /// Keeps the entries whose name is among `keep`, in their order.
    pub fn retain_names(&mut self, keep: &Vec<String>)
        ensures
            names_unique(final(self)@),
            final(self)@ == keep_only(old(self)@, texts(keep@)),
    {
        proof {
            use_type_invariant(&*self);
        }
        let ghost s = self@;
        let mut rest: Vec<(String, V)> = Vec::new();
        std::mem::swap(&mut rest, &mut self.entries);
        assert(rest@.map_values(|e: (String, V)| (e.0@, e.1)) == s);
        let mut kept: Vec<(String, V)> = Vec::new();
        for e in it: rest.into_iter()
            invariant
                it.seq().map_values(|e: (String, V)| (e.0@, e.1)) == s,
                kept@.map_values(|e: (String, V)| (e.0@, e.1)) == keep_only(
                    s.take(it.index() as int),
                    texts(keep@),
                ),
        {
            let ghost n = it.index();
            let (k, v) = e;
            assert((k@, v) == s[n as int]);
            if contains_text(keep, &k) {
                kept.push((k, v));
            }
            assert(s.take(n + 1).drop_last() =~= s.take(n as int));
            assert(kept@.map_values(|e: (String, V)| (e.0@, e.1)) =~= keep_only(
                s.take(n + 1),
                texts(keep@),
            ));
        }
        assert(s.take(s.len() as int) =~= s);
        proof {
            lemma_keep_only_unique(s, texts(keep@));
        }
        self.entries = kept;
    }

    /// The name of the entry at position `i`.
    pub fn name_at(&self, i: usize) -> (r: &String)
        requires
            i < self@.len(),
        ensures
            r@ == self@[i as int].0,
    {
        &self.entries[i].0
    }

    /// The value of the entry at position `i`.
    pub fn value_at(&self, i: usize) -> (r: &V)
        requires
            i < self@.len(),
        ensures
            *r == self@[i as int].1,
    {
        &self.entries[i].1
    }

    /// The names of the entries, in order.
    pub fn names(&self) -> (r: Vec<String>)
        ensures
            texts(r@) == names_of(self@),
    {
        let mut r: Vec<String> = Vec::new();
        let mut i: usize = 0;
        while i < self.entries.len()
            invariant
                i <= self.entries.len(),
                texts(r@) == names_of(self@.take(i as int)),
            decreases self.entries.len() - i,
        {
            let ghost before = r@;
            r.push(self.entries[i].0.clone());
            assert(self@[i as int].0 == self.entries@[i as int].0@);
            assert(r@ == before.push(r@.last()));
            assert(r@.last()@ == self@[i as int].0);
            assert(texts(r@) =~= texts(before).push(self@[i as int].0));
            assert(names_of(self@.take(i + 1)) =~= names_of(self@.take(i as int)).push(self@[i as int].0));
            i += 1;
        }
        assert(self@.take(i as int) =~= self@);
        r
    }

    /// The names of the entries whose name is among `keep`, in order.
    pub fn names_among(&self, keep: &Vec<String>) -> (r: Vec<String>)
        ensures
            texts(r@) == names_of(keep_only(self@, texts(keep@))),
    {
        let ghost s = self@;
        let mut r: Vec<String> = Vec::new();
        let mut i: usize = 0;
        while i < self.entries.len()
            invariant
                s == self@,
                i <= self.entries.len(),
                texts(r@) == names_of(keep_only(s.take(i as int), texts(keep@))),
            decreases self.entries.len() - i,
        {
            assert(s.take(i + 1).drop_last() =~= s.take(i as int));
            assert(s.take(i + 1).last() == s[i as int]);
            assert(s[i as int].0 == self.entries@[i as int].0@);
            let ghost before = r@;
            if contains_text(keep, &self.entries[i].0) {
                r.push(self.entries[i].0.clone());
                assert(r@ == before.push(r@.last()));
                assert(texts(r@) =~= texts(before).push(s[i as int].0));
            }
            assert(texts(r@) =~= names_of(keep_only(s.take(i + 1), texts(keep@))));
            i += 1;
        }
        assert(s.take(i as int) =~= s);
        r
    }

    /// The entries as name and value, in order.
    pub fn into_entries(self) -> (r: Vec<(String, V)>)
        ensures
            r@.map_values(|e: (String, V)| (e.0@, e.1)) == self@,
    {
        self.entries
    }
}

} // verus!
