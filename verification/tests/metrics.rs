use abixio::cluster::{ClusterSummary, ServiceState};
use abixio::metrics::{record_request, record_s3, scrape, Change, Kind, Metric, StatusClass};
use abixio::time::Duration;

#[test]
fn status_class_mapping() {
    assert!(matches!(StatusClass::from_http_status(200), StatusClass::Okay));
    assert!(matches!(StatusClass::from_http_status(404), StatusClass::ClientErr));
    assert!(matches!(StatusClass::from_http_status(500), StatusClass::ServerErr));
    assert_eq!(StatusClass::Okay.as_str(), "ok");
    assert_eq!(StatusClass::ClientErr.as_str(), "client_err");
    assert_eq!(StatusClass::ServerErr.as_str(), "server_err");
}

#[test]
fn names_are_distinct_and_prefixed() {
    let mut names: Vec<&str> = Metric::all().into_iter().map(|m| m.name()).collect();
    let n = names.len();
    assert_eq!(n, 33);
    names.sort();
    names.dedup();
    assert_eq!(names.len(), n);
    assert!(names.iter().all(|m| m.starts_with("abixio_")));
    assert!(Metric::all().into_iter().all(|m| !m.help().is_empty()));
}

#[test]
fn a_request_is_counted_and_timed() {
    let d = Duration::from_millis(3);
    let updates = record_request("GetObject", StatusClass::Okay, d, 0, 128);
    assert_eq!(updates[0].metric.name(), "abixio_s3_requests_total");
    assert_eq!(updates[0].labels, vec!["GetObject".to_string(), "ok".to_string()]);
    assert!(matches!(updates[0].change, Change::Add(1)));
    assert!(updates.iter().any(|u| u.metric == Metric::S3RequestDuration
        && matches!(u.change, Change::Observe(_))));
    assert!(updates
        .iter()
        .any(|u| u.metric == Metric::S3BytesSent && matches!(u.change, Change::Add(128))));
    assert!(!updates.iter().any(|u| u.metric == Metric::S3BytesReceived));
    for u in &updates {
        assert_eq!(u.labels.len(), u.metric.labels().len());
    }
    let failed = record_s3("PutObject", 404, Duration::from_millis(12), 50, 0);
    assert_eq!(failed[0].labels, vec!["PutObject".to_string(), "client_err".to_string()]);
}

#[test]
fn a_scrape_reports_the_cluster() {
    let summary = ClusterSummary {
        enabled: true,
        cluster_id: "c".to_string(),
        node_id: "n".to_string(),
        state: ServiceState::Ready,
        epoch_id: 4,
        leader_id: "n".to_string(),
        peer_count: 1,
        voter_count: 2,
        reachable_voters: 2,
        quorum: 2,
        fenced_reason: None,
    };
    let updates = scrape(&summary, 7, 100, 5, 3);
    assert!(updates
        .iter()
        .any(|u| u.metric == Metric::MrfQueueDepth && matches!(u.change, Change::Become(7))));
    assert!(updates
        .iter()
        .any(|u| u.metric == Metric::ClusterEpochId && matches!(u.change, Change::Become(4))));
    assert_eq!(Metric::ClusterEpochId.kind(), Kind::Gauge);
    for u in &updates {
        assert_eq!(u.labels.len(), u.metric.labels().len());
    }
}
