use abixio::boot::{cache_peers, credentials_missing, listen_address};
use abixio::config::{duration_fits, expand_ranges, parse_duration, Config, KnownPaths};
use abixio::time::Duration;

fn paths(n: usize) -> Vec<String> {
    (0..n).map(|i| format!("/base/d{}", i)).collect()
}

fn known(dirs: Vec<String>) -> KnownPaths {
    KnownPaths { files: vec![], dirs }
}

fn config_with(volumes: Vec<String>) -> Config {
    Config {
        listen: ":10000".to_string(),
        tls_cert: None,
        tls_key: None,
        nodes: Vec::new(),
        volumes,
        no_auth: false,
        scan_interval: "10m".to_string(),
        heal_interval: "24h".to_string(),
        mrf_workers: 2,
        write_tier: "file".to_string(),
        write_cache: 256,
    }
}

#[test]
fn valid_single_volume() {
    let mut cfg = config_with(paths(1));
    assert!(cfg.expand_and_validate(&known(paths(1))).is_ok());
}

#[test]
fn valid_multiple_volumes() {
    let mut cfg = config_with(paths(4));
    assert!(cfg.expand_and_validate(&known(paths(4))).is_ok());
}

#[test]
fn invalid_no_volumes() {
    let mut cfg = config_with(vec![]);
    assert!(cfg.expand_and_validate(&known(vec![])).is_err());
}

#[test]
fn invalid_volume_path_missing() {
    let mut cfg = config_with(vec!["/tmp/nonexistent_abixio_test".to_string()]);
    assert!(cfg.expand_and_validate(&known(vec![])).is_err());
}

#[test]
fn defaults() {
    let cfg = config_with(paths(2));
    assert_eq!(cfg.listen, ":10000");
    assert_eq!(cfg.scan_interval_duration(), Duration::from_secs(600));
    assert_eq!(cfg.heal_interval_duration(), Duration::from_secs(86400));
    assert_eq!(cfg.mrf_workers, 2);
    assert_eq!(cfg.volume_paths(), paths(2));
}

#[test]
fn expand_ranges_numeric() {
    assert_eq!(
        expand_ranges("/data{1...4}"),
        vec!["/data1", "/data2", "/data3", "/data4"]
    );
}

#[test]
fn expand_ranges_node_url() {
    assert_eq!(
        expand_ranges("http://node{1...3}:10000"),
        vec![
            "http://node1:10000",
            "http://node2:10000",
            "http://node3:10000"
        ]
    );
}

#[test]
fn expand_ranges_nested() {
    let result = expand_ranges("rack{1...2}-node{1...2}");
    assert_eq!(
        result,
        vec!["rack1-node1", "rack1-node2", "rack2-node1", "rack2-node2"]
    );
}

#[test]
fn a_range_behind_other_braces_is_expanded() {
    assert_eq!(expand_ranges("{x}-{1...2}"), vec!["{x}-1", "{x}-2"]);
    assert_eq!(expand_ranges("{a{1...2}"), vec!["{a1", "{a2"]);
    assert_eq!(expand_ranges("{x}{y...}"), vec!["{x}{y...}"]);
    assert_eq!(expand_ranges("{{1...2}...3}"), vec!["1", "2", "3", "2", "3"]);
    assert_eq!(expand_ranges("a{2...-1}"), vec!["a2", "a1", "a0", "a-1"]);
}

#[test]
fn a_range_expands_number_by_number() {
    let parts: Vec<String> =
        (1..=3).flat_map(|i| expand_ranges(&format!("p{}q{{a...b}}", i))).collect();
    assert_eq!(expand_ranges("p{1...3}q{a...b}"), parts);
}

#[test]
fn a_second_validation_changes_nothing() {
    let mut cfg = config_with(vec!["/d{0...1}".to_string()]);
    cfg.nodes = vec!["".to_string(), "http://n{1...2}:1".to_string()];
    let dirs = known(vec!["/d0".to_string(), "/d1".to_string()]);
    assert!(cfg.expand_and_validate(&dirs).is_ok());
    let (volumes, nodes) = (cfg.volumes.clone(), cfg.nodes.clone());
    assert_eq!(nodes, vec!["http://n1:1", "http://n2:1"]);
    assert!(cfg.expand_and_validate(&dirs).is_ok());
    assert_eq!((cfg.volumes, cfg.nodes), (volumes, nodes));
}

#[test]
fn expand_ranges_no_braces() {
    assert_eq!(expand_ranges("/data1"), vec!["/data1"]);
    assert_eq!(
        expand_ranges("http://node:10000"),
        vec!["http://node:10000"]
    );
}

#[test]
fn expand_ranges_single_value() {
    assert_eq!(expand_ranges("/data{3...3}"), vec!["/data3"]);
}

#[test]
fn expanded_names_have_no_more_ranges() {
    for name in expand_ranges("a{1...2}b{3...4}c") {
        assert_eq!(expand_ranges(&name), vec![name.clone()]);
    }
}

#[test]
fn expand_and_validate_expands_volumes() {
    let mut cfg = config_with(vec!["/base/d{0...2}".to_string()]);
    assert!(cfg.expand_and_validate(&known(paths(3))).is_ok());
    assert_eq!(cfg.volumes.len(), 3);
}

#[test]
fn parse_duration_works() {
    assert_eq!(parse_duration("10m"), Ok(Duration::from_secs(600)));
    assert_eq!(parse_duration("24h"), Ok(Duration::from_secs(86400)));
    assert_eq!(parse_duration("30s"), Ok(Duration::from_secs(30)));
    assert_eq!(parse_duration("1h30m"), Ok(Duration::from_secs(5400)));
    assert!(parse_duration("").is_err());
    assert!(parse_duration("abc").is_err());
}

#[test]
fn durations_that_do_not_fit_are_told_apart() {
    assert!(duration_fits("10m"));
    assert!(!duration_fits("18446744073709551615h"));
}

#[test]
fn certificate_and_key_go_together() {
    let mut cfg = config_with(paths(1));
    cfg.tls_cert = Some("/cert.pem".to_string());
    let files = KnownPaths { files: vec!["/cert.pem".to_string()], dirs: paths(1) };
    assert!(cfg.expand_and_validate(&files).is_err());
}

#[test]
fn keys_have_to_be_set_where_requests_are_checked() {
    assert!(credentials_missing(false, "", "secret"));
    assert!(credentials_missing(false, "key", ""));
    assert!(!credentials_missing(false, "key", "secret"));
    assert!(!credentials_missing(true, "", ""));
}

#[test]
fn cache_peers_are_the_other_nodes() {
    let nodes = vec![
        "http://a:1/".to_string(),
        "http://b:1".to_string(),
        "/".to_string(),
    ];
    assert_eq!(cache_peers(&nodes, "http://a:1"), vec!["http://b:1".to_string()]);
}

#[test]
fn a_port_alone_means_all_interfaces() {
    assert_eq!(listen_address(":10000"), "0.0.0.0:10000");
    assert_eq!(listen_address("127.0.0.1:9000"), "127.0.0.1:9000");
}

#[test]
fn every_mistake_has_its_message() {
    let message = |cfg: &mut Config, files: Vec<String>| {
        cfg.expand_and_validate(&KnownPaths { files, dirs: paths(1) }).unwrap_err()
    };
    assert_eq!(message(&mut config_with(vec![]), vec![]), "no volumes specified");
    assert_eq!(
        message(&mut config_with(vec!["/gone".to_string()]), vec![]),
        "volume path does not exist: /gone"
    );
    let mut cfg = config_with(paths(1));
    cfg.tls_cert = Some("/c".to_string());
    assert_eq!(
        message(&mut cfg, vec![]),
        "both --tls-cert and --tls-key must be provided together"
    );
    cfg.tls_key = Some("/k".to_string());
    assert_eq!(message(&mut cfg, vec![]), "tls cert path does not exist: /c");
    assert_eq!(message(&mut cfg, vec!["/c".to_string()]), "tls key path does not exist: /k");
    let mut cfg = config_with(paths(1));
    cfg.scan_interval = "soon".to_string();
    assert_eq!(message(&mut cfg, vec![]), "invalid scan_interval: soon");
    let mut cfg = config_with(paths(1));
    cfg.heal_interval = "5x".to_string();
    assert_eq!(message(&mut cfg, vec![]), "invalid heal_interval: 5x");
    let mut cfg = config_with(paths(1));
    cfg.write_tier = "tape".to_string();
    assert_eq!(
        message(&mut cfg, vec![]),
        "invalid write_tier: tape (expected file|wal|log|pool)"
    );
}

#[test]
fn empty_nodes_are_dropped() {
    let mut cfg = config_with(paths(1));
    cfg.nodes = vec![String::new(), "http://n{1...2}:1".to_string()];
    cfg.expand_and_validate(&known(paths(1))).unwrap();
    assert_eq!(cfg.nodes, vec!["http://n1:1", "http://n2:1"]);
}
