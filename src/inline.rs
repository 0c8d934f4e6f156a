//! Inlining: a file reference in a cluster or a user is replaced by the
//! stripped contents of that file. The files' contents are handed in, keyed
//! by path.

use vstd::prelude::*;

use crate::name_map::{has_name, lookup, NameMap};
use crate::pem::{pem_body, strip_pem};
use crate::wire::{Cluster, ClusterSpec, KubeConfig, User, UserSpec};

verus! {

/// Why inlining failed.
#[derive(Debug)]
pub enum InlineError {
    /// No contents were handed in for a referenced file.
    MissingFile { path: String },
}

/// The field pair needs a file whose contents were not handed in.
pub open spec fn pair_missing(
    path: Option<String>,
    data: Option<String>,
    files: Seq<(Seq<char>, String)>,
) -> bool {
    &&& data is None
    &&& path is Some
    &&& !has_name(files, path->0@)
}

/// `new_path` and `new_data` are what inlining makes of `path` and `data`:
/// with data present, or with no path, nothing changes; otherwise the path is
/// cleared and the data holds the stripped contents of the file.
pub open spec fn pair_inlined(
    path: Option<String>,
    data: Option<String>,
    files: Seq<(Seq<char>, String)>,
    new_path: Option<String>,
    new_data: Option<String>,
) -> bool {
    if data is Some || path is None {
        new_path == path && new_data == data
    } else {
        &&& new_path is None
        &&& new_data matches Some(d)
        &&& lookup(files, path->0@) matches Some(c)
        &&& d@ == pem_body(c@)
    }
}

impl ClusterSpec {
    /// The certificate authority needs a file that was not handed in.
    pub open spec fn missing_file(&self, files: Seq<(Seq<char>, String)>) -> bool {
        pair_missing(self.certificate_authority, self.certificate_authority_data, files)
    }

    /// `new` is this spec after inlining.
    pub open spec fn inlined_to(&self, new: ClusterSpec, files: Seq<(Seq<char>, String)>) -> bool {
        &&& pair_inlined(
            self.certificate_authority,
            self.certificate_authority_data,
            files,
            new.certificate_authority,
            new.certificate_authority_data,
        )
        &&& new.insecure_skip_tls_verify == self.insecure_skip_tls_verify
        &&& new.server == self.server
        &&& new.extensions == self.extensions
    }
}

impl UserSpec {
    /// The client certificate or key needs a file that was not handed in.
    pub open spec fn missing_file(&self, files: Seq<(Seq<char>, String)>) -> bool {
        match self {
            UserSpec::Token { .. } => false,
            UserSpec::Cert {
                client_certificate,
                client_certificate_data,
                client_key,
                client_key_data,
            } => pair_missing(*client_certificate, *client_certificate_data, files)
                || pair_missing(*client_key, *client_key_data, files),
        }
    }

    /// `new` is this spec after inlining.
    pub open spec fn inlined_to(&self, new: UserSpec, files: Seq<(Seq<char>, String)>) -> bool {
        match self {
            UserSpec::Token { .. } => new == *self,
            UserSpec::Cert {
                client_certificate: c,
                client_certificate_data: cd,
                client_key: k,
                client_key_data: kd,
            } => match new {
                UserSpec::Cert {
                    client_certificate: c2,
                    client_certificate_data: cd2,
                    client_key: k2,
                    client_key_data: kd2,
                } => pair_inlined(*c, *cd, files, c2, cd2) && pair_inlined(*k, *kd, files, k2, kd2),
                UserSpec::Token { .. } => false,
            },
        }
    }
}

/// The path that the field pair needs read, if any.
pub open spec fn pair_need(path: Option<String>, data: Option<String>) -> Seq<Seq<char>> {
    if data is None && path is Some {
        seq![path->0@]
    } else {
        Seq::empty()
    }
}

/// The paths that the clusters need read, in order.
pub open spec fn cluster_needs(s: Seq<Cluster>) -> Seq<Seq<char>>
    decreases s.len(),
{
    if s.len() == 0 {
        Seq::empty()
    } else {
        cluster_needs(s.drop_last()) + pair_need(
            s.last().cluster.certificate_authority,
            s.last().cluster.certificate_authority_data,
        )
    }
}

/// The paths that one user needs read, certificate before key.
pub open spec fn user_need(u: UserSpec) -> Seq<Seq<char>> {
    match u {
        UserSpec::Token { .. } => Seq::empty(),
        UserSpec::Cert { client_certificate, client_certificate_data, client_key, client_key_data } =>
            pair_need(client_certificate, client_certificate_data) + pair_need(
            client_key,
            client_key_data,
        ),
    }
}

/// The paths that the users need read, in order.
pub open spec fn user_needs(s: Seq<User>) -> Seq<Seq<char>>
    decreases s.len(),
{
    if s.len() == 0 {
        Seq::empty()
    } else {
        user_needs(s.drop_last()) + user_need(s.last().user)
    }
}

/// Inlining a field pair a second time changes nothing.
pub proof fn lemma_pair_idempotent(
    path: Option<String>,
    data: Option<String>,
    files: Seq<(Seq<char>, String)>,
    path2: Option<String>,
    data2: Option<String>,
    path3: Option<String>,
    data3: Option<String>,
)
    requires
        pair_inlined(path, data, files, path2, data2),
        pair_inlined(path2, data2, files, path3, data3),
    ensures
        !pair_missing(path2, data2, files),
        path3 == path2,
        data3 == data2,
{
}

fn pair_missing_path(path: &Option<String>, data: &Option<String>, files: &NameMap<String>) -> (r:
    Option<String>)
    ensures
        r is Some == pair_missing(*path, *data, files@),
        r matches Some(p) ==> *path == Some(p) && !has_name(files@, p@),
{
    if data.is_some() {
        return None;
    }
    match path {
        Some(p) => if files.contains_key(p) {
            None
        } else {
            Some(p.clone())
        },
        None => None,
    }
}

fn inline_data(path: &mut Option<String>, data: &mut Option<String>, files: &NameMap<String>)
    requires
        !pair_missing(*old(path), *old(data), files@),
    ensures
        pair_inlined(*old(path), *old(data), files@, *final(path), *final(data)),
{
    if data.is_some() {
        return;
    }
    let inlined = match path {
        Some(p) => match files.get(p) {
            Some(c) => strip_pem(c.as_str()),
            None => return ,
        },
        None => return ,
    };
    *data = Some(inlined);
    *path = None;
}

impl KubeConfig {
    /// Some cluster or user needs a file that was not handed in.
    pub open spec fn missing_file(&self, files: Seq<(Seq<char>, String)>) -> bool {
        ||| exists|i: int|
            0 <= i < self.clusters@.len() && #[trigger] self.clusters@[i].cluster.missing_file(
                files,
            )
        ||| exists|i: int|
            0 <= i < self.users@.len() && #[trigger] self.users@[i].user.missing_file(files)
    }

    /// `new` is this config after inlining: each cluster and user inlined in
    /// place, all else unchanged.
    pub open spec fn inlined_to(&self, new: KubeConfig, files: Seq<(Seq<char>, String)>) -> bool {
        &&& new.kind == self.kind
        &&& new.api_version == self.api_version
        &&& new.contexts == self.contexts
        &&& new.current_context == self.current_context
        &&& new.preferences == self.preferences
        &&& new.clusters@.len() == self.clusters@.len()
        &&& forall|i: int|
            #![trigger new.clusters@[i]]
            0 <= i < self.clusters@.len() ==> {
                &&& new.clusters@[i].name == self.clusters@[i].name
                &&& self.clusters@[i].cluster.inlined_to(new.clusters@[i].cluster, files)
            }
        &&& new.users@.len() == self.users@.len()
        &&& forall|i: int|
            #![trigger new.users@[i]]
            0 <= i < self.users@.len() ==> {
                &&& new.users@[i].name == self.users@[i].name
                &&& self.users@[i].user.inlined_to(new.users@[i].user, files)
            }
    }
}

/// Inlining is idempotent: a config that has been inlined needs no file,
/// and inlining it again with the same files changes nothing.
pub proof fn lemma_inline_idempotent(
    a: KubeConfig,
    b: KubeConfig,
    c: KubeConfig,
    files: Seq<(Seq<char>, String)>,
)
    requires
        a.inlined_to(b, files),
        b.inlined_to(c, files),
    ensures
        !b.missing_file(files),
        c.clusters@ == b.clusters@,
        c.users@ == b.users@,
        c.contexts == b.contexts,
        c.current_context == b.current_context,
        c.preferences == b.preferences,
        c.kind == b.kind,
        c.api_version == b.api_version,
{
    assert forall|i: int| 0 <= i < b.clusters@.len() implies !#[trigger] b.clusters@[i].cluster.missing_file(
        files,
    ) && c.clusters@[i] == b.clusters@[i] by {
        let (x, y, z) = (a.clusters@[i].cluster, b.clusters@[i].cluster, c.clusters@[i].cluster);
        lemma_pair_idempotent(
            x.certificate_authority,
            x.certificate_authority_data,
            files,
            y.certificate_authority,
            y.certificate_authority_data,
            z.certificate_authority,
            z.certificate_authority_data,
        );
    }
    assert forall|i: int| 0 <= i < b.users@.len() implies !#[trigger] b.users@[i].user.missing_file(
        files,
    ) && c.users@[i] == b.users@[i] by {
        let (x, y, z) = (a.users@[i].user, b.users@[i].user, c.users@[i].user);
        match (x, y, z) {
            (
                UserSpec::Cert {
                    client_certificate: c1,
                    client_certificate_data: cd1,
                    client_key: k1,
                    client_key_data: kd1,
                },
                UserSpec::Cert {
                    client_certificate: c2,
                    client_certificate_data: cd2,
                    client_key: k2,
                    client_key_data: kd2,
                },
                UserSpec::Cert {
                    client_certificate: c3,
                    client_certificate_data: cd3,
                    client_key: k3,
                    client_key_data: kd3,
                },
            ) => {
                lemma_pair_idempotent(c1, cd1, files, c2, cd2, c3, cd3);
                lemma_pair_idempotent(k1, kd1, files, k2, kd2, k3, kd3);
            },
            _ => {},
        }
    }
    assert(c.clusters@ =~= b.clusters@);
    assert(c.users@ =~= b.users@);
}

proof fn lemma_cluster_need_listed(s: Seq<Cluster>, i: int)
    requires
        0 <= i < s.len(),
    ensures
        ({
            let c = s[i].cluster;
            pair_need(c.certificate_authority, c.certificate_authority_data).len() > 0
                ==> cluster_needs(s).contains(c.certificate_authority->0@)
        }),
    decreases s.len(),
{
    let c = s[i].cluster;
    let need = pair_need(c.certificate_authority, c.certificate_authority_data);
    if need.len() > 0 {
        if i == s.len() - 1 {
            let p = cluster_needs(s.drop_last());
            assert((p + need)[p.len() as int] == c.certificate_authority->0@);
        } else {
            assert(s.drop_last()[i] == s[i]);
            lemma_cluster_need_listed(s.drop_last(), i);
            let p = cluster_needs(s.drop_last());
            let k = choose|k: int| 0 <= k < p.len() && p[k] == c.certificate_authority->0@;
            assert(cluster_needs(s)[k] == p[k]);
        }
    }
}

proof fn lemma_user_need_listed(s: Seq<User>, i: int, x: Seq<char>)
    requires
        0 <= i < s.len(),
        user_need(s[i].user).contains(x),
    ensures
        user_needs(s).contains(x),
    decreases s.len(),
{
    let p = user_needs(s.drop_last());
    let n = user_need(s.last().user);
    if i == s.len() - 1 {
        let k = choose|k: int| 0 <= k < n.len() && n[k] == x;
        assert((p + n)[p.len() + k] == x);
    } else {
        assert(s.drop_last()[i] == s[i]);
        lemma_user_need_listed(s.drop_last(), i, x);
        let k = choose|k: int| 0 <= k < p.len() && p[k] == x;
        assert((p + n)[k] == x);
    }
}

/// Handing in the contents of every file that `referenced_files` lists is
/// enough: inlining then needs no other file.
pub proof fn lemma_referenced_files_suffice(kc: KubeConfig, files: Seq<(Seq<char>, String)>)
    requires
        forall|p: Seq<char>|
            (cluster_needs(kc.clusters@) + user_needs(kc.users@)).contains(p) ==> has_name(
                files,
                p,
            ),
    ensures
        !kc.missing_file(files),
{
    let a = cluster_needs(kc.clusters@);
    let b = user_needs(kc.users@);
    assert forall|i: int| 0 <= i < kc.clusters@.len() implies !#[trigger] kc.clusters@[i].cluster.missing_file(
        files,
    ) by {
        lemma_cluster_need_listed(kc.clusters@, i);
        let c = kc.clusters@[i].cluster;
        if c.missing_file(files) {
            let x = c.certificate_authority->0@;
            let k = choose|k: int| 0 <= k < a.len() && a[k] == x;
            assert((a + b)[k] == x);
        }
    }
    assert forall|i: int| 0 <= i < kc.users@.len() implies !#[trigger] kc.users@[i].user.missing_file(
        files,
    ) by {
        match kc.users@[i].user {
            UserSpec::Token { .. } => {},
            UserSpec::Cert { client_certificate, client_certificate_data, client_key, client_key_data } => {
                let n = user_need(kc.users@[i].user);
                let n1 = pair_need(client_certificate, client_certificate_data);
                let n2 = pair_need(client_key, client_key_data);
                if pair_missing(client_certificate, client_certificate_data, files) {
                    let x = client_certificate->0@;
                    assert(n[0] == x);
                    lemma_user_need_listed(kc.users@, i, x);
                    let k = choose|k: int| 0 <= k < b.len() && b[k] == x;
                    assert((a + b)[a.len() + k] == x);
                }
                if pair_missing(client_key, client_key_data, files) {
                    let x = client_key->0@;
                    assert(n[n1.len() as int] == x);
                    lemma_user_need_listed(kc.users@, i, x);
                    let k = choose|k: int| 0 <= k < b.len() && b[k] == x;
                    assert((a + b)[a.len() + k] == x);
                }
            },
        }
    }
}

impl KubeConfig {
    /// The paths of the files that inlining needs, clusters first, in order.
    pub fn referenced_files(&self) -> (r: Vec<String>)
        ensures
            r@.map_values(|s: String| s@) == cluster_needs(self.clusters@) + user_needs(
                self.users@,
            ),
    {
        let mut r: Vec<String> = Vec::new();
        let mut i: usize = 0;
        while i < self.clusters.len()
            invariant
                i <= self.clusters@.len(),
                r@.map_values(|s: String| s@) == cluster_needs(self.clusters@.take(i as int)),
            decreases self.clusters@.len() - i,
        {
            let c = &self.clusters[i].cluster;
            let ghost before = r@;
            if c.certificate_authority_data.is_none() {
                if let Some(p) = &c.certificate_authority {
                    r.push(p.clone());
                }
            }
            assert(self.clusters@.take(i + 1).drop_last() =~= self.clusters@.take(i as int));
            assert(r@.map_values(|s: String| s@) =~= before.map_values(|s: String| s@) + pair_need(
                c.certificate_authority,
                c.certificate_authority_data,
            ));
            i += 1;
        }
        assert(self.clusters@.take(i as int) =~= self.clusters@);
        let ghost head = r@.map_values(|s: String| s@);
        let mut j: usize = 0;
        assert(head + user_needs(self.users@.take(0)) =~= head);
        while j < self.users.len()
            invariant
                j <= self.users@.len(),
                r@.map_values(|s: String| s@) == head + user_needs(self.users@.take(j as int)),
            decreases self.users@.len() - j,
        {
            let ghost before = r@;
            match &self.users[j].user {
                UserSpec::Token { .. } => {},
                UserSpec::Cert {
                    client_certificate,
                    client_certificate_data,
                    client_key,
                    client_key_data,
                } => {
                    if client_certificate_data.is_none() {
                        if let Some(p) = client_certificate {
                            r.push(p.clone());
                        }
                    }
                    let ghost mid = r@;
                    assert(mid.map_values(|s: String| s@) =~= before.map_values(|s: String| s@)
                        + pair_need(*client_certificate, *client_certificate_data));
                    if client_key_data.is_none() {
                        if let Some(p) = client_key {
                            r.push(p.clone());
                        }
                    }
                    assert(r@.map_values(|s: String| s@) =~= mid.map_values(|s: String| s@)
                        + pair_need(*client_key, *client_key_data));
                },
            }
            assert(self.users@.take(j + 1).drop_last() =~= self.users@.take(j as int));
            assert(r@.map_values(|s: String| s@) =~= before.map_values(|s: String| s@) + user_need(
                self.users@[j as int].user,
            ));
            assert(head + user_needs(self.users@.take(j + 1)) =~= head + user_needs(
                self.users@.take(j as int),
            ) + user_need(self.users@[j as int].user));
            j += 1;
        }
        assert(self.users@.take(j as int) =~= self.users@);
        r
    }

    /// The path of a needed file that `files` lacks, if there is one.
    pub fn missing_path(&self, files: &NameMap<String>) -> (r: Option<String>)
        ensures
            r is Some == self.missing_file(files@),
            r matches Some(p) ==> !has_name(files@, p@),
    {
        let mut i: usize = 0;
        while i < self.clusters.len()
            invariant
                i <= self.clusters@.len(),
                forall|k: int| 0 <= k < i ==> !#[trigger] self.clusters@[k].cluster.missing_file(files@),
            decreases self.clusters@.len() - i,
        {
            if let Some(p) = self.clusters[i].cluster.missing_path(files) {
                return Some(p);
            }
            i += 1;
        }
        let mut j: usize = 0;
        while j < self.users.len()
            invariant
                j <= self.users@.len(),
                forall|k: int| 0 <= k < self.clusters@.len() ==> !#[trigger] self.clusters@[k].cluster.missing_file(files@),
                forall|k: int| 0 <= k < j ==> !#[trigger] self.users@[k].user.missing_file(files@),
            decreases self.users@.len() - j,
        {
            if let Some(p) = self.users[j].user.missing_path(files) {
                return Some(p);
            }
            j += 1;
        }
        None
    }

    /// Inlines every cluster and user. Where a needed file is not in
    /// `files`, fails and changes nothing.
    pub fn inline(&mut self, files: &NameMap<String>) -> (r: Result<(), InlineError>)
        ensures
            r is Err <==> old(self).missing_file(files@),
            r matches Err(InlineError::MissingFile { path }) ==> !has_name(files@, path@),
            r is Err ==> *final(self) == *old(self),
            r is Ok ==> old(self).inlined_to(*final(self), files@),
    {
        if let Some(path) = self.missing_path(files) {
            return Err(InlineError::MissingFile { path });
        }
        let ghost old_clusters = self.clusters@;
        let mut clusters: Vec<Cluster> = Vec::new();
        std::mem::swap(&mut clusters, &mut self.clusters);
        for c in it: clusters.into_iter()
            invariant
                it.seq() == old_clusters,
                old_clusters == old(self).clusters@,
                !old(self).missing_file(files@),
                self.users == old(self).users,
                self.kind == old(self).kind,
                self.api_version == old(self).api_version,
                self.contexts == old(self).contexts,
                self.current_context == old(self).current_context,
                self.preferences == old(self).preferences,
                forall|k: int| 0 <= k < old_clusters.len() ==> !#[trigger] old_clusters[k].cluster.missing_file(files@),
                self.clusters@.len() == it.index(),
                forall|k: int|
                    #![trigger self.clusters@[k]]
                    0 <= k < it.index() ==> {
                        &&& self.clusters@[k].name == old_clusters[k].name
                        &&& old_clusters[k].cluster.inlined_to(self.clusters@[k].cluster, files@)
                    },
        {
            let ghost n = it.index();
            let Cluster { name, mut cluster } = c;
            assert(!old_clusters[n as int].cluster.missing_file(files@));
            let _ = cluster.inline(files);
            self.clusters.push(Cluster { name, cluster });
        }
        let ghost old_users = self.users@;
        let mut users: Vec<User> = Vec::new();
        std::mem::swap(&mut users, &mut self.users);
        for u in it: users.into_iter()
            invariant
                it.seq() == old_users,
                old_users == old(self).users@,
                !old(self).missing_file(files@),
                self.kind == old(self).kind,
                self.api_version == old(self).api_version,
                self.contexts == old(self).contexts,
                self.current_context == old(self).current_context,
                self.preferences == old(self).preferences,
                self.clusters@.len() == old(self).clusters@.len(),
                forall|k: int|
                    #![trigger self.clusters@[k]]
                    0 <= k < old(self).clusters@.len() ==> {
                        &&& self.clusters@[k].name == old(self).clusters@[k].name
                        &&& old(self).clusters@[k].cluster.inlined_to(self.clusters@[k].cluster, files@)
                    },
                forall|k: int| 0 <= k < old_users.len() ==> !#[trigger] old_users[k].user.missing_file(files@),
                self.users@.len() == it.index(),
                forall|k: int|
                    #![trigger self.users@[k]]
                    0 <= k < it.index() ==> {
                        &&& self.users@[k].name == old_users[k].name
                        &&& old_users[k].user.inlined_to(self.users@[k].user, files@)
                    },
        {
            let ghost n = it.index();
            let User { name, mut user } = u;
            assert(!old_users[n as int].user.missing_file(files@));
            let _ = user.inline(files);
            self.users.push(User { name, user });
        }
        Ok(())
    }
}

impl ClusterSpec {
    /// The path of a needed file that `files` lacks, if there is one.
    pub fn missing_path(&self, files: &NameMap<String>) -> (r: Option<String>)
        ensures
            r is Some == self.missing_file(files@),
            r matches Some(p) ==> self.certificate_authority == Some(p) && !has_name(files@, p@),
    {
        pair_missing_path(&self.certificate_authority, &self.certificate_authority_data, files)
    }

    /// Replaces the certificate authority path by the stripped contents of
    /// the file, unless the data is there already. Changes nothing where the
    /// file is not in `files`.
    pub fn inline(&mut self, files: &NameMap<String>) -> (r: Result<(), InlineError>)
        ensures
            r is Err <==> old(self).missing_file(files@),
            r matches Err(InlineError::MissingFile { path }) ==> old(self).certificate_authority
                == Some(path) && !has_name(files@, path@),
            r is Err ==> *final(self) == *old(self),
            r is Ok ==> old(self).inlined_to(*final(self), files@),
    {
        match self.missing_path(files) {
            Some(path) => Err(InlineError::MissingFile { path }),
            None => {
                inline_data(
                    &mut self.certificate_authority,
                    &mut self.certificate_authority_data,
                    files,
                );
                Ok(())
            },
        }
    }
}

impl UserSpec {
    /// The path of a needed file that `files` lacks, certificate before key.
    pub fn missing_path(&self, files: &NameMap<String>) -> (r: Option<String>)
        ensures
            r is Some == self.missing_file(files@),
            r matches Some(p) ==> (self matches UserSpec::Cert { client_certificate, client_key, .. }
                && (client_certificate == Some(p) || client_key == Some(p))),
            r matches Some(p) ==> !has_name(files@, p@),
    {
        match self {
            UserSpec::Token { .. } => None,
            UserSpec::Cert {
                client_certificate,
                client_certificate_data,
                client_key,
                client_key_data,
            } => match pair_missing_path(client_certificate, client_certificate_data, files) {
                Some(p) => Some(p),
                None => pair_missing_path(client_key, client_key_data, files),
            },
        }
    }

    /// Replaces the client certificate and key paths by the stripped
    /// contents of their files, where the data is not there already. Changes
    /// nothing where a needed file is not in `files`.
    pub fn inline(&mut self, files: &NameMap<String>) -> (r: Result<(), InlineError>)
        ensures
            r is Err <==> old(self).missing_file(files@),
            r matches Err(InlineError::MissingFile { path }) ==> !has_name(files@, path@),
            r is Err ==> *final(self) == *old(self),
            r is Ok ==> old(self).inlined_to(*final(self), files@),
    {
        if let Some(path) = self.missing_path(files) {
            return Err(InlineError::MissingFile { path });
        }
        match self {
            UserSpec::Token { .. } => Ok(()),
            UserSpec::Cert {
                client_certificate,
                client_certificate_data,
                client_key,
                client_key_data,
            } => {
                inline_data(client_certificate, client_certificate_data, files);
                inline_data(client_key, client_key_data, files);
                Ok(())
            },
        }
    }
}

} // verus!
