use rustkube::wire;
use rustkube::{
    ApiVersion, Cluster, ClusterSpec, ConfigError, Context, ContextSpec, Kind, KubeConfig, NameMap,
    User, UserSpec,
};
use serde_yaml::Value;

fn cluster(name: &str, server: &str) -> Cluster {
    Cluster {
        name: name.to_string(),
        cluster: ClusterSpec {
            certificate_authority_data: None,
            certificate_authority: None,
            insecure_skip_tls_verify: None,
            server: server.to_string(),
            extensions: None,
        },
    }
}

fn context(name: &str, cluster: &str, user: &str, namespace: Option<&str>) -> Context {
    Context {
        name: name.to_string(),
        context: ContextSpec {
            user: user.to_string(),
            namespace: namespace.map(|s| s.to_string()),
            cluster: cluster.to_string(),
            extensions: None,
        },
    }
}

fn token_user(name: &str, token: &str) -> User {
    User {
        name: name.to_string(),
        user: UserSpec::Token {
            token: token.to_string(),
        },
    }
}

fn wire_config(
    clusters: Vec<Cluster>,
    contexts: Vec<Context>,
    users: Vec<User>,
    current: &str,
) -> wire::KubeConfig {
    wire::KubeConfig {
        kind: Kind::Config,
        api_version: ApiVersion::V1,
        contexts,
        current_context: current.to_string(),
        clusters,
        preferences: Value::Null,
        users,
    }
}

fn names<V>(m: &NameMap<V>) -> Vec<String> {
    m.names()
}

#[test]
fn round_trip_keeps_entries() {
    let w = wire_config(
        vec![cluster("b", "https://b"), cluster("a", "https://a")],
        vec![context("ctx1", "a", "alice", Some("dev"))],
        vec![token_user("alice", "t1"), token_user("bob", "t2")],
        "ctx1",
    );
    let back = KubeConfig::from_wire(w).into_wire();
    assert_eq!(back.kind, Kind::Config);
    assert_eq!(back.api_version, ApiVersion::V1);
    assert_eq!(back.current_context, "ctx1");
    assert_eq!(back.preferences, Value::Null);
    let cs: Vec<(String, String)> = back
        .clusters
        .iter()
        .map(|c| (c.name.clone(), c.cluster.server.clone()))
        .collect();
    assert_eq!(
        cs,
        vec![
            ("b".to_string(), "https://b".to_string()),
            ("a".to_string(), "https://a".to_string())
        ]
    );
    assert_eq!(back.contexts.len(), 1);
    assert_eq!(back.contexts[0].name, "ctx1");
    assert_eq!(back.contexts[0].context.namespace.as_deref(), Some("dev"));
    let us: Vec<String> = back.users.iter().map(|u| u.name.clone()).collect();
    assert_eq!(us, vec!["alice".to_string(), "bob".to_string()]);
}

#[test]
fn duplicate_names_keep_the_later_entry() {
    let w = wire_config(
        vec![
            cluster("a", "https://first"),
            cluster("b", "https://b"),
            cluster("a", "https://second"),
        ],
        vec![],
        vec![],
        "",
    );
    let kc = KubeConfig::from_wire(w);
    assert_eq!(kc.clusters.len(), 2);
    assert_eq!(names(&kc.clusters), vec!["a".to_string(), "b".to_string()]);
    let a = kc.clusters.get(&"a".to_string()).unwrap();
    assert_eq!(a.server, "https://second");
}

#[test]
fn current_namespace_found() {
    let w = wire_config(
        vec![cluster("c", "https://c")],
        vec![context("ctx1", "c", "u", Some("dev"))],
        vec![],
        "ctx1",
    );
    let kc = KubeConfig::from_wire(w);
    assert_eq!(kc.current_namespace().unwrap(), Some("dev".to_string()));
}

#[test]
fn current_namespace_absent() {
    let w = wire_config(vec![], vec![context("ctx1", "c", "u", None)], vec![], "ctx1");
    let kc = KubeConfig::from_wire(w);
    assert_eq!(kc.current_namespace().unwrap(), None);
}

#[test]
fn current_namespace_missing_context() {
    let w = wire_config(vec![], vec![context("other", "c", "u", None)], vec![], "ctx1");
    let kc = KubeConfig::from_wire(w);
    match kc.current_namespace() {
        Err(ConfigError::MissingContext { name }) => assert_eq!(name, "ctx1"),
        r => panic!("unexpected {:?}", r),
    }
}

fn prune_fixture() -> KubeConfig {
    KubeConfig::from_wire(wire_config(
        vec![cluster("prod", "https://p"), cluster("dev", "https://d")],
        vec![
            context("p", "prod", "admin", None),
            context("d", "dev", "dev-user", None),
            context("d2", "dev", "admin", None),
        ],
        vec![
            token_user("admin", "t"),
            token_user("dev-user", "t"),
            token_user("stale", "t"),
        ],
        "d",
    ))
}

#[test]
fn prune_keeps_contexts_and_users_of_kept_clusters() {
    let mut kc = prune_fixture();
    let plan = kc.plan_prune(&vec!["dev".to_string()]).unwrap();
    assert_eq!(plan.clusters, vec!["dev".to_string()]);
    assert_eq!(plan.contexts, vec!["d".to_string(), "d2".to_string()]);
    assert_eq!(plan.users, vec!["admin".to_string(), "dev-user".to_string()]);
    kc.apply_prune(&plan);
    assert_eq!(names(&kc.clusters), vec!["dev".to_string()]);
    assert_eq!(names(&kc.contexts), vec!["d".to_string(), "d2".to_string()]);
    assert_eq!(
        names(&kc.users),
        vec!["admin".to_string(), "dev-user".to_string()]
    );
    assert_eq!(kc.current_context, "d");
}

#[test]
fn prune_refuses_to_drop_current_context() {
    let kc = prune_fixture();
    match kc.plan_prune(&vec!["prod".to_string()]) {
        Err(ConfigError::CurrentContextRemoved { name }) => assert_eq!(name, "d"),
        r => panic!("unexpected {:?}", r),
    }
}

#[test]
fn name_map_operations() {
    let mut m: NameMap<u32> = NameMap::new();
    assert_eq!(m.len(), 0);
    m.insert("x".to_string(), 1);
    m.insert("y".to_string(), 2);
    m.insert("x".to_string(), 3);
    assert_eq!(m.len(), 2);
    assert_eq!(m.get(&"x".to_string()), Some(&3));
    assert!(m.contains_key(&"y".to_string()));
    assert!(!m.contains_key(&"z".to_string()));
    assert_eq!(m.get(&"z".to_string()), None);
    assert_eq!(m.remove(&"x".to_string()), Some(3));
    assert_eq!(m.remove(&"x".to_string()), None);
    assert_eq!(names(&m), vec!["y".to_string()]);
    m.insert("a".to_string(), 4);
    m.insert("b".to_string(), 5);
    m.retain_names(&vec!["b".to_string(), "y".to_string()]);
    assert_eq!(names(&m), vec!["y".to_string(), "b".to_string()]);
    assert_eq!(m.name_at(1), "b");
    assert_eq!(*m.value_at(1), 5);
    assert_eq!(
        m.names_among(&vec!["b".to_string()]),
        vec!["b".to_string()]
    );
    let entries = m.into_entries();
    assert_eq!(entries, vec![("y".to_string(), 2), ("b".to_string(), 5)]);
}

#[test]
fn user_variant_from_token_only() {
    let u = UserSpec::from_fields(Some("t".to_string()), None, None, None, None).unwrap();
    assert!(matches!(u, UserSpec::Token { token } if token == "t"));
}

#[test]
fn user_variant_from_certificate_data() {
    let u = UserSpec::from_fields(None, None, Some("abc".to_string()), None, None).unwrap();
    match u {
        UserSpec::Cert {
            client_certificate,
            client_certificate_data,
            client_key,
            client_key_data,
        } => {
            assert_eq!(client_certificate, None);
            assert_eq!(client_certificate_data.as_deref(), Some("abc"));
            assert_eq!(client_key, None);
            assert_eq!(client_key_data, None);
        }
        other => panic!("unexpected {:?}", other),
    }
}

#[test]
fn user_variant_both_refused() {
    let r = UserSpec::from_fields(
        Some("t".to_string()),
        None,
        Some("abc".to_string()),
        None,
        None,
    );
    assert!(matches!(r, Err(rustkube::UserFieldsError::Ambiguous)));
}

#[test]
fn user_variant_empty_refused() {
    let r = UserSpec::from_fields(None, None, None, None, None);
    assert!(matches!(r, Err(rustkube::UserFieldsError::Empty)));
}
