//! The kube config keyed by name, and its conversion to and from the wire shape.

use vstd::prelude::*;

use crate::name_map::{
    contains_text, has_name, keep_only, lemma_lookup_has_name, lemma_lookup_last,
    lemma_names_of_contains, lemma_normalize, lemma_normalize_unique, lookup, names_of,
    names_unique, normalize, texts, NameMap,
};
use crate::wire::{
    self, cluster_entries, context_entries, user_entries, ApiVersion, Cluster, ClusterSpec,
    Context, ContextSpec, Kind, User, UserSpec,
};

verus! {

/// Why an operation on a config failed.
#[derive(Debug)]
pub enum ConfigError {
    /// The current context names no context.
    MissingContext { name: String },
    /// Pruning would remove the current context.
    CurrentContextRemoved { name: String },
}

/// The contexts whose cluster is among `keep`, in order.
pub open spec fn on_clusters(s: Seq<(Seq<char>, ContextSpec)>, keep: Seq<Seq<char>>) -> Seq<
    (Seq<char>, ContextSpec),
>
    decreases s.len(),
{
    if s.len() == 0 {
        s
    } else if keep.contains(s.last().1.cluster@) {
        on_clusters(s.drop_last(), keep).push(s.last())
    } else {
        on_clusters(s.drop_last(), keep)
    }
}

/// The user named by each context, in order.
pub open spec fn users_of(s: Seq<(Seq<char>, ContextSpec)>) -> Seq<Seq<char>> {
    s.map_values(|e: (Seq<char>, ContextSpec)| e.1.user@)
}

/// The names that stay when a config is pruned.
#[derive(Debug)]
pub struct PrunePlan {
    pub clusters: Vec<String>,
    pub contexts: Vec<String>,
    pub users: Vec<String>,
}

/// A wire config whose names are unique within clusters, contexts and users
/// comes back through `from_wire` and `into_wire` with the same entries, in
/// the same order.
pub proof fn lemma_round_trip(kc: wire::KubeConfig)
    requires
        kc.names_unique(),
    ensures
        normalize(cluster_entries(kc.clusters@)) == cluster_entries(kc.clusters@),
        normalize(context_entries(kc.contexts@)) == context_entries(kc.contexts@),
        normalize(user_entries(kc.users@)) == user_entries(kc.users@),
{
    lemma_normalize_unique(cluster_entries(kc.clusters@));
    lemma_normalize_unique(context_entries(kc.contexts@));
    lemma_normalize_unique(user_entries(kc.users@));
}

/// Keying a list by name keeps one entry per name, and the entry kept for a
/// name carries the value of the last entry of that name in the list.
pub proof fn lemma_last_wins<V>(s: Seq<(Seq<char>, V)>, k: Seq<char>)
    ensures
        names_unique(normalize(s)),
        has_name(normalize(s), k) == has_name(s, k),
        forall|i: int|
            0 <= i < s.len() && #[trigger] s[i].0 == k && (forall|j: int|
                i < j < s.len() ==> s[j].0 != k) ==> lookup(normalize(s), k) == Some(s[i].1),
{
    lemma_normalize(s);
    lemma_lookup_has_name(s, k);
    lemma_lookup_has_name(normalize(s), k);
    assert forall|i: int|
        0 <= i < s.len() && #[trigger] s[i].0 == k && (forall|j: int|
            i < j < s.len() ==> s[j].0 != k) implies lookup(normalize(s), k) == Some(s[i].1) by {
        lemma_lookup_last(s, k, i);
    }
}

/// The kube config with clusters, contexts and users keyed by name.
#[derive(Debug)]
pub struct KubeConfig {
    pub contexts: NameMap<ContextSpec>,
    pub current_context: String,
    pub clusters: NameMap<ClusterSpec>,
    pub preferences: serde_yaml::Value,
    pub users: NameMap<UserSpec>,
}

fn clusters_by_name(v: Vec<Cluster>) -> (r: NameMap<ClusterSpec>)
    ensures
        r@ == normalize(cluster_entries(v@)),
{
    let ghost s = cluster_entries(v@);
    let mut r: NameMap<ClusterSpec> = NameMap::new();
    for c in it: v.into_iter()
        invariant
            cluster_entries(it.seq()) == s,
            r@ == normalize(s.take(it.index() as int)),
    {
        let ghost n = it.index();
        assert(s.take(n + 1).drop_last() =~= s.take(n as int));
        let Cluster { name, cluster } = c;
        r.insert(name, cluster);
    }
    assert(s.take(s.len() as int) =~= s);
    r
}

fn contexts_by_name(v: Vec<Context>) -> (r: NameMap<ContextSpec>)
    ensures
        r@ == normalize(context_entries(v@)),
{
    let ghost s = context_entries(v@);
    let mut r: NameMap<ContextSpec> = NameMap::new();
    for c in it: v.into_iter()
        invariant
            context_entries(it.seq()) == s,
            r@ == normalize(s.take(it.index() as int)),
    {
        let ghost n = it.index();
        assert(s.take(n + 1).drop_last() =~= s.take(n as int));
        let Context { name, context } = c;
        r.insert(name, context);
    }
    assert(s.take(s.len() as int) =~= s);
    r
}

fn users_by_name(v: Vec<User>) -> (r: NameMap<UserSpec>)
    ensures
        r@ == normalize(user_entries(v@)),
{
    let ghost s = user_entries(v@);
    let mut r: NameMap<UserSpec> = NameMap::new();
    for u in it: v.into_iter()
        invariant
            user_entries(it.seq()) == s,
            r@ == normalize(s.take(it.index() as int)),
    {
        let ghost n = it.index();
        assert(s.take(n + 1).drop_last() =~= s.take(n as int));
        let User { name, user } = u;
        r.insert(name, user);
    }
    assert(s.take(s.len() as int) =~= s);
    r
}

fn cluster_list(m: NameMap<ClusterSpec>) -> (r: Vec<Cluster>)
    ensures
        cluster_entries(r@) == m@,
{
    let ghost s = m@;
    let entries = m.into_entries();
    let mut r: Vec<Cluster> = Vec::new();
    for e in it: entries.into_iter()
        invariant
            it.seq().map_values(|e: (String, ClusterSpec)| (e.0@, e.1)) == s,
            cluster_entries(r@) == s.take(it.index() as int),
    {
        let ghost n = it.index();
        let ghost before = r@;
        let (name, cluster) = e;
        assert((name@, cluster) == s[n as int]);
        r.push(Cluster { name, cluster });
        assert(r@ == before.push(r@.last()));
        assert(cluster_entries(r@) =~= cluster_entries(before).push(s[n as int]));
        assert(s.take(n + 1) =~= s.take(n as int).push(s[n as int]));
    }
    assert(s.take(s.len() as int) =~= s);
    r
}

fn context_list(m: NameMap<ContextSpec>) -> (r: Vec<Context>)
    ensures
        context_entries(r@) == m@,
{
    let ghost s = m@;
    let entries = m.into_entries();
    let mut r: Vec<Context> = Vec::new();
    for e in it: entries.into_iter()
        invariant
            it.seq().map_values(|e: (String, ContextSpec)| (e.0@, e.1)) == s,
            context_entries(r@) == s.take(it.index() as int),
    {
        let ghost n = it.index();
        let ghost before = r@;
        let (name, context) = e;
        assert((name@, context) == s[n as int]);
        r.push(Context { name, context });
        assert(r@ == before.push(r@.last()));
        assert(context_entries(r@) =~= context_entries(before).push(s[n as int]));
        assert(s.take(n + 1) =~= s.take(n as int).push(s[n as int]));
    }
    assert(s.take(s.len() as int) =~= s);
    r
}

fn user_list(m: NameMap<UserSpec>) -> (r: Vec<User>)
    ensures
        user_entries(r@) == m@,
{
    let ghost s = m@;
    let entries = m.into_entries();
    let mut r: Vec<User> = Vec::new();
    for e in it: entries.into_iter()
        invariant
            it.seq().map_values(|e: (String, UserSpec)| (e.0@, e.1)) == s,
            user_entries(r@) == s.take(it.index() as int),
    {
        let ghost n = it.index();
        let ghost before = r@;
        let (name, user) = e;
        assert((name@, user) == s[n as int]);
        r.push(User { name, user });
        assert(r@ == before.push(r@.last()));
        assert(user_entries(r@) =~= user_entries(before).push(s[n as int]));
        assert(s.take(n + 1) =~= s.take(n as int).push(s[n as int]));
    }
    assert(s.take(s.len() as int) =~= s);
    r
}

impl KubeConfig {
    /// Keys the entries of the wire shape by name. Entries go in one after
    /// the other, so of two entries with one name the later one stays.
    pub fn from_wire(kc: wire::KubeConfig) -> (r: KubeConfig)
        ensures
            r.clusters@ == normalize(cluster_entries(kc.clusters@)),
            r.contexts@ == normalize(context_entries(kc.contexts@)),
            r.users@ == normalize(user_entries(kc.users@)),
            r.current_context == kc.current_context,
            r.preferences == kc.preferences,
    {
        let wire::KubeConfig {
            kind: _,
            api_version: _,
            contexts,
            current_context,
            clusters,
            preferences,
            users,
        } = kc;
        KubeConfig {
            contexts: contexts_by_name(contexts),
            current_context,
            clusters: clusters_by_name(clusters),
            preferences,
            users: users_by_name(users),
        }
    }

    /// Lists the entries in the wire shape, in the order of the maps, with
    /// the fixed `kind` and `apiVersion`.
    pub fn into_wire(self) -> (r: wire::KubeConfig)
        ensures
            r.kind == Kind::Config,
            r.api_version == ApiVersion::V1,
            cluster_entries(r.clusters@) == self.clusters@,
            context_entries(r.contexts@) == self.contexts@,
            user_entries(r.users@) == self.users@,
            r.current_context == self.current_context,
            r.preferences == self.preferences,
    {
        let KubeConfig { contexts, current_context, clusters, preferences, users } = self;
        wire::KubeConfig {
            kind: Kind::Config,
            api_version: ApiVersion::V1,
            contexts: context_list(contexts),
            current_context,
            clusters: cluster_list(clusters),
            preferences,
            users: user_list(users),
        }
    }

    /// The namespace of the current context: `Ok(None)` where that context
    /// has none, an error where no context carries the current name.
    pub fn current_namespace(&self) -> (r: Result<Option<String>, ConfigError>)
        ensures
            r is Err <==> !has_name(self.contexts@, self.current_context@),
            r matches Err(e) ==> e == (ConfigError::MissingContext {
                name: self.current_context,
            }),
            r matches Ok(ns) ==> lookup(self.contexts@, self.current_context@) matches Some(c)
                && ns == c.namespace,
    {
        match self.contexts.get(&self.current_context) {
            Some(c) => match &c.namespace {
                Some(ns) => Ok(Some(ns.clone())),
                None => Ok(None),
            },
            None => Err(ConfigError::MissingContext { name: self.current_context.clone() }),
        }
    }

    /// What stays when only the clusters named in `keep_clusters` are kept:
    /// those clusters, the contexts on them, and the users those contexts
    /// name. Fails where the current context would go.
    pub fn plan_prune(&self, keep_clusters: &Vec<String>) -> (r: Result<PrunePlan, ConfigError>)
        ensures
            r is Err <==> !has_name(
                on_clusters(self.contexts@, texts(keep_clusters@)),
                self.current_context@,
            ),
            r matches Err(e) ==> e == (ConfigError::CurrentContextRemoved {
                name: self.current_context,
            }),
            r matches Ok(p) ==> {
                &&& texts(p.clusters@) == names_of(
                    keep_only(self.clusters@, texts(keep_clusters@)),
                )
                &&& texts(p.contexts@) == names_of(
                    on_clusters(self.contexts@, texts(keep_clusters@)),
                )
                &&& texts(p.users@) == names_of(
                    keep_only(
                        self.users@,
                        users_of(on_clusters(self.contexts@, texts(keep_clusters@))),
                    ),
                )
            },
    {
        let ghost s = self.contexts@;
        let ghost kt = texts(keep_clusters@);
        let mut contexts: Vec<String> = Vec::new();
        let mut referenced: Vec<String> = Vec::new();
        let mut i: usize = 0;
        while i < self.contexts.len()
            invariant
                s == self.contexts@,
                kt == texts(keep_clusters@),
                i <= s.len(),
                texts(contexts@) == names_of(on_clusters(s.take(i as int), kt)),
                texts(referenced@) == users_of(on_clusters(s.take(i as int), kt)),
            decreases s.len() - i,
        {
            assert(s.take(i + 1).drop_last() =~= s.take(i as int));
            assert(s.take(i + 1).last() == s[i as int]);
            let ghost c0 = contexts@;
            let ghost r0 = referenced@;
            let c = self.contexts.value_at(i);
            if contains_text(keep_clusters, &c.cluster) {
                contexts.push(self.contexts.name_at(i).clone());
                referenced.push(c.user.clone());
                assert(contexts@ == c0.push(contexts@.last()));
                assert(referenced@ == r0.push(referenced@.last()));
                assert(texts(contexts@) =~= texts(c0).push(s[i as int].0));
                assert(texts(referenced@) =~= texts(r0).push(s[i as int].1.user@));
            }
            assert(texts(contexts@) =~= names_of(on_clusters(s.take(i + 1), kt)));
            assert(texts(referenced@) =~= users_of(on_clusters(s.take(i + 1), kt)));
            i += 1;
        }
        assert(s.take(i as int) =~= s);
        proof {
            lemma_names_of_contains(on_clusters(s, kt), self.current_context@);
        }
        if !contains_text(&contexts, &self.current_context) {
            return Err(ConfigError::CurrentContextRemoved { name: self.current_context.clone() });
        }
        let clusters = self.clusters.names_among(keep_clusters);
        let users = self.users.names_among(&referenced);
        Ok(PrunePlan { clusters, contexts, users })
    }

    /// Keeps only the entries that `plan` names.
    pub fn apply_prune(&mut self, plan: &PrunePlan)
        ensures
            final(self).clusters@ == keep_only(old(self).clusters@, texts(plan.clusters@)),
            final(self).contexts@ == keep_only(old(self).contexts@, texts(plan.contexts@)),
            final(self).users@ == keep_only(old(self).users@, texts(plan.users@)),
            final(self).current_context == old(self).current_context,
            final(self).preferences == old(self).preferences,
    {
        self.clusters.retain_names(&plan.clusters);
        self.contexts.retain_names(&plan.contexts);
        self.users.retain_names(&plan.users);
    }
}

} // verus!
