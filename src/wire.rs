//! The kube config as it stands in the file: ordered lists of named entries.

use vstd::prelude::*;

use crate::name_map::names_unique;

verus! {

/// Declares `serde_yaml::Value` so that opaque pass-through values can be
/// carried in the library's types.
#[verifier::external_type_specification]
#[verifier::external_body]
pub struct ExYamlValue(serde_yaml::Value);

/// The settings of one context: which user, which cluster, which namespace.
#[derive(Debug)]
pub struct ContextSpec {
    pub user: String,
    pub namespace: Option<String>,
    pub cluster: String,
    pub extensions: Option<serde_yaml::Value>,
}

/// A named context.
#[derive(Debug)]
pub struct Context {
    pub name: String,
    pub context: ContextSpec,
}

/// How to reach one cluster. Paths are held as text.
#[derive(Debug)]
pub struct ClusterSpec {
    pub certificate_authority_data: Option<String>,
    pub certificate_authority: Option<String>,
    pub insecure_skip_tls_verify: Option<serde_yaml::Value>,
    pub server: String,
    pub extensions: Option<serde_yaml::Value>,
}

/// A named cluster.
#[derive(Debug)]
pub struct Cluster {
    pub name: String,
    pub cluster: ClusterSpec,
}

/// The credentials of one user: a bearer token, or client certificate and key.
#[derive(Debug)]
pub enum UserSpec {
    Token { token: String },
    Cert {
        client_certificate: Option<String>,
        client_certificate_data: Option<String>,
        client_key: Option<String>,
        client_key_data: Option<String>,
    },
}

/// Why a user's fields make no user spec.
#[derive(PartialEq, Eq, Structural, Clone, Copy, Debug)]
pub enum UserFieldsError {
    /// A token together with certificate or key fields.
    Ambiguous,
    /// Neither a token nor any certificate or key field.
    Empty,
}

impl UserSpec {
    /// Picks the variant by the fields present: a token alone makes a token
    /// user, certificate or key fields without a token make a certificate
    /// user; both kinds together, or no field at all, are refused.
    pub fn from_fields(
        token: Option<String>,
        client_certificate: Option<String>,
        client_certificate_data: Option<String>,
        client_key: Option<String>,
        client_key_data: Option<String>,
    ) -> (r: Result<UserSpec, UserFieldsError>)
        ensures
            ({
                let any_cert = client_certificate is Some || client_certificate_data is Some
                    || client_key is Some || client_key_data is Some;
                &&& (token is Some && any_cert) <==> r == Err::<UserSpec, _>(
                    UserFieldsError::Ambiguous,
                )
                &&& (token is None && !any_cert) <==> r == Err::<UserSpec, _>(
                    UserFieldsError::Empty,
                )
                &&& (token is Some && !any_cert) ==> r == Ok::<_, UserFieldsError>(
                    UserSpec::Token { token: token->0 },
                )
                &&& (token is None && any_cert) ==> r == Ok::<_, UserFieldsError>(
                    UserSpec::Cert {
                        client_certificate,
                        client_certificate_data,
                        client_key,
                        client_key_data,
                    },
                )
            }),
    {
        let any_cert = client_certificate.is_some() || client_certificate_data.is_some()
            || client_key.is_some() || client_key_data.is_some();
        match token {
            Some(token) => if any_cert {
                Err(UserFieldsError::Ambiguous)
            } else {
                Ok(UserSpec::Token { token })
            },
            None => if any_cert {
                Ok(
                    UserSpec::Cert {
                        client_certificate,
                        client_certificate_data,
                        client_key,
                        client_key_data,
                    },
                )
            } else {
                Err(UserFieldsError::Empty)
            },
        }
    }
}

/// A named user.
#[derive(Debug)]
pub struct User {
    pub name: String,
    pub user: UserSpec,
}

/// The one supported `apiVersion`, written `v1`.
#[derive(PartialEq, Eq, Structural, Clone, Copy, Debug)]
pub enum ApiVersion {
    V1,
}

/// The one supported `kind`, written `Config`.
#[derive(PartialEq, Eq, Structural, Clone, Copy, Debug)]
pub enum Kind {
    Config,
}

/// The clusters as name and spec, in order.
pub open spec fn cluster_entries(v: Seq<Cluster>) -> Seq<(Seq<char>, ClusterSpec)> {
    v.map_values(|c: Cluster| (c.name@, c.cluster))
}

/// The contexts as name and spec, in order.
pub open spec fn context_entries(v: Seq<Context>) -> Seq<(Seq<char>, ContextSpec)> {
    v.map_values(|c: Context| (c.name@, c.context))
}

/// The users as name and spec, in order.
pub open spec fn user_entries(v: Seq<User>) -> Seq<(Seq<char>, UserSpec)> {
    v.map_values(|u: User| (u.name@, u.user))
}

/// The whole file.
#[derive(Debug)]
pub struct KubeConfig {
    pub kind: Kind,
    pub api_version: ApiVersion,
    pub contexts: Vec<Context>,
    pub current_context: String,
    pub clusters: Vec<Cluster>,
    pub preferences: serde_yaml::Value,
    pub users: Vec<User>,
}

impl KubeConfig {
    /// No two clusters, no two contexts and no two users share a name.
    pub open spec fn names_unique(&self) -> bool {
        &&& names_unique(cluster_entries(self.clusters@))
        &&& names_unique(context_entries(self.contexts@))
        &&& names_unique(user_entries(self.users@))
    }
}

} // verus!
