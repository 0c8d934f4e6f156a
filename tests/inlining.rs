use rustkube::wire;
use rustkube::{
    config_path, kube_dir, strip_pem, ApiVersion, Cluster, ClusterSpec, InlineError, Kind,
    NameMap, User, UserSpec,
};
use serde_yaml::Value;

fn files(entries: &[(&str, &str)]) -> NameMap<String> {
    let mut m = NameMap::new();
    for (p, c) in entries {
        m.insert(p.to_string(), c.to_string());
    }
    m
}

fn spec_with_path(path: &str) -> ClusterSpec {
    ClusterSpec {
        certificate_authority_data: None,
        certificate_authority: Some(path.to_string()),
        insecure_skip_tls_verify: None,
        server: "https://s".to_string(),
        extensions: None,
    }
}

const CERT: &str = "-----BEGIN CERTIFICATE-----\nABC123\n-----END CERTIFICATE-----\n";

#[test]
fn strip_pem_single_line() {
    assert_eq!(strip_pem(CERT), "ABC123");
}

#[test]
fn strip_pem_joins_with_newlines_and_drops_empty_lines() {
    let s = "-----BEGIN X-----\r\nAB\r\n\nCD\n-----END X-----\nEF";
    assert_eq!(strip_pem(s), "AB\nCD\nEF");
}

#[test]
fn strip_pem_empty_and_boundaries_only() {
    assert_eq!(strip_pem(""), "");
    assert_eq!(strip_pem("-----\n\n-----END"), "");
    assert_eq!(strip_pem("----x\n"), "----x");
}

#[test]
fn cluster_inline_reads_path() {
    let mut spec = spec_with_path("/ca.pem");
    spec.inline(&files(&[("/ca.pem", CERT)])).unwrap();
    assert_eq!(spec.certificate_authority, None);
    assert_eq!(spec.certificate_authority_data.as_deref(), Some("ABC123"));
    assert_eq!(spec.server, "https://s");
}

#[test]
fn cluster_inline_keeps_existing_data() {
    let mut spec = spec_with_path("/ca.pem");
    spec.certificate_authority_data = Some("OLD".to_string());
    spec.inline(&files(&[("/ca.pem", CERT)])).unwrap();
    assert_eq!(spec.certificate_authority.as_deref(), Some("/ca.pem"));
    assert_eq!(spec.certificate_authority_data.as_deref(), Some("OLD"));
}

#[test]
fn cluster_inline_missing_file() {
    let mut spec = spec_with_path("/nope.pem");
    match spec.inline(&files(&[])) {
        Err(InlineError::MissingFile { path }) => assert_eq!(path, "/nope.pem"),
        r => panic!("unexpected {:?}", r),
    }
    assert_eq!(spec.certificate_authority.as_deref(), Some("/nope.pem"));
    assert_eq!(spec.certificate_authority_data, None);
}

#[test]
fn user_inline_cert_and_key() {
    let mut u = UserSpec::Cert {
        client_certificate: Some("/c".to_string()),
        client_certificate_data: None,
        client_key: Some("/k".to_string()),
        client_key_data: None,
    };
    u.inline(&files(&[("/c", CERT), ("/k", "-----BEGIN KEY-----\nKEY1\nKEY2\n")]))
        .unwrap();
    match u {
        UserSpec::Cert {
            client_certificate,
            client_certificate_data,
            client_key,
            client_key_data,
        } => {
            assert_eq!(client_certificate, None);
            assert_eq!(client_certificate_data.as_deref(), Some("ABC123"));
            assert_eq!(client_key, None);
            assert_eq!(client_key_data.as_deref(), Some("KEY1\nKEY2"));
        }
        other => panic!("unexpected {:?}", other),
    }
}

fn sample() -> wire::KubeConfig {
    wire::KubeConfig {
        kind: Kind::Config,
        api_version: ApiVersion::V1,
        contexts: vec![],
        current_context: "c".to_string(),
        clusters: vec![Cluster {
            name: "a".to_string(),
            cluster: spec_with_path("/ca.pem"),
        }],
        preferences: Value::Null,
        users: vec![User {
            name: "u".to_string(),
            user: UserSpec::Cert {
                client_certificate: Some("/c".to_string()),
                client_certificate_data: None,
                client_key: None,
                client_key_data: Some("K".to_string()),
            },
        }],
    }
}

#[test]
fn config_inline_lists_and_inlines_files() {
    let mut kc = sample();
    assert_eq!(
        kc.referenced_files(),
        vec!["/ca.pem".to_string(), "/c".to_string()]
    );
    let f = files(&[("/ca.pem", CERT), ("/c", "-----B-----\nCC\n")]);
    kc.inline(&f).unwrap();
    assert_eq!(
        kc.clusters[0].cluster.certificate_authority_data.as_deref(),
        Some("ABC123")
    );
    assert!(kc.referenced_files().is_empty());
    match &kc.users[0].user {
        UserSpec::Cert {
            client_certificate_data,
            client_key_data,
            ..
        } => {
            assert_eq!(client_certificate_data.as_deref(), Some("CC"));
            assert_eq!(client_key_data.as_deref(), Some("K"));
        }
        other => panic!("unexpected {:?}", other),
    }
}

#[test]
fn config_inline_twice_same_as_once() {
    let f = files(&[("/ca.pem", CERT), ("/c", "X\nY\n")]);
    let mut once = sample();
    once.inline(&f).unwrap();
    let mut twice = sample();
    twice.inline(&f).unwrap();
    twice.inline(&f).unwrap();
    assert_eq!(format!("{:?}", once), format!("{:?}", twice));
}

#[test]
fn config_inline_missing_changes_nothing() {
    let mut kc = sample();
    let before = format!("{:?}", kc);
    match kc.inline(&files(&[("/ca.pem", CERT)])) {
        Err(InlineError::MissingFile { path }) => assert_eq!(path, "/c"),
        r => panic!("unexpected {:?}", r),
    }
    assert_eq!(format!("{:?}", kc), before);
}

#[test]
fn kube_paths() {
    assert_eq!(kube_dir("/home/me"), "/home/me/.kube");
    assert_eq!(kube_dir("/home/me/"), "/home/me/.kube");
    assert_eq!(kube_dir(""), ".kube");
    assert_eq!(config_path("/root"), "/root/.kube/config");
}
