use rustkube::lines::{first_field_of, split_lines};
use rustkube::{cluster_listing, kept_names, ClusterSpec, NameMap};

fn spec(server: &str) -> ClusterSpec {
    ClusterSpec {
        certificate_authority_data: None,
        certificate_authority: None,
        insecure_skip_tls_verify: None,
        server: server.to_string(),
        extensions: None,
    }
}

#[test]
fn split_lines_like_std() {
    for s in ["", "a", "a\n", "a\r\nb", "\n\nx\r", "a\n\nb\n", "\r\n"] {
        let expected: Vec<String> = s.lines().map(|l| l.to_string()).collect();
        assert_eq!(split_lines(s), expected, "input {:?}", s);
    }
}

#[test]
fn first_field_stops_at_tab() {
    assert_eq!(first_field_of("prod\t(https://p)"), "prod");
    assert_eq!(first_field_of("plain"), "plain");
    assert_eq!(first_field_of("\tx"), "");
}

#[test]
fn listing_and_reading_back() {
    let mut m = NameMap::new();
    m.insert("prod".to_string(), spec("https://p"));
    m.insert("dev".to_string(), spec("https://d"));
    let text = cluster_listing(&m);
    assert_eq!(text, "prod\t(https://p)\ndev\t(https://d)\n");
    assert_eq!(
        kept_names(&text),
        vec!["prod".to_string(), "dev".to_string()]
    );
    assert_eq!(kept_names("dev\t(x)\r\n"), vec!["dev".to_string()]);
}
