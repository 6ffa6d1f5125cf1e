//! Supervisor decisions: strings, argument lists and polling policies.

use timeline_sync::control::{
    datadir_name, http_base_url, listen_addr, pid_file_path, safekeeper_connection_string,
    start_args, start_poll_action, status_url, stop_poll_action, stop_signal, timeline_create_url,
    HttpResponse, ProcessProbe, ResponseErrorMessageExt, SafekeeperHttpError,
    SafekeeperStartConfig, StartPollAction, StopPollAction,
};
use timeline_sync::ids::{NodeId, TenantId};

#[test]
fn connection_and_urls() {
    assert_eq!(
        safekeeper_connection_string(5454),
        b"postgresql://no_user@127.0.0.1:5454/no_db".to_vec()
    );
    let base = http_base_url(7676);
    assert_eq!(base, b"http://127.0.0.1:7676/v1".to_vec());
    assert_eq!(status_url(&base), b"http://127.0.0.1:7676/v1/status".to_vec());
    let tenant = TenantId([0xab; 16]);
    assert_eq!(
        timeline_create_url(&base, &tenant),
        b"http://127.0.0.1:7676/v1/tenant/abababababababababababababababab/timeline".to_vec()
    );
    assert_eq!(listen_addr(9898), b"127.0.0.1:9898".to_vec());
}

#[test]
fn datadir_and_pid_file() {
    assert_eq!(datadir_name(NodeId(7)), b"sk7".to_vec());
    assert_eq!(
        pid_file_path(&b"/data/safekeepers/sk7".to_vec()),
        b"/data/safekeepers/sk7/safekeeper.pid".to_vec()
    );
}

fn args_as_strings(cfg: &SafekeeperStartConfig) -> Vec<String> {
    start_args(cfg)
        .into_iter()
        .map(|a| String::from_utf8(a).unwrap())
        .collect()
}

#[test]
fn start_args_minimal() {
    let cfg = SafekeeperStartConfig {
        datadir: b"/data/sk1".to_vec(),
        id: NodeId(1),
        pg_port: 5454,
        http_port: 7676,
        sync: true,
        broker_endpoints: Vec::new(),
        broker_etcd_prefix: None,
        backup_threads: None,
        remote_storage: None,
        auth_enabled: false,
        base_data_dir: b"/data".to_vec(),
    };
    assert_eq!(
        args_as_strings(&cfg),
        vec![
            "-D",
            "/data/sk1",
            "--id",
            "1",
            "--listen-pg",
            "127.0.0.1:5454",
            "--listen-http",
            "127.0.0.1:7676",
            "--recall",
            "1 second",
            "--daemonize",
        ]
    );
}

#[test]
fn start_args_full() {
    let cfg = SafekeeperStartConfig {
        datadir: b"/data/sk2".to_vec(),
        id: NodeId(2),
        pg_port: 5455,
        http_port: 7677,
        sync: false,
        broker_endpoints: b"http://127.0.0.1:2379".to_vec(),
        broker_etcd_prefix: Some(b"cluster-1".to_vec()),
        backup_threads: Some(4),
        remote_storage: Some(b"s3://bucket/prefix".to_vec()),
        auth_enabled: true,
        base_data_dir: b"/data".to_vec(),
    };
    assert_eq!(
        args_as_strings(&cfg),
        vec![
            "-D",
            "/data/sk2",
            "--id",
            "2",
            "--listen-pg",
            "127.0.0.1:5455",
            "--listen-http",
            "127.0.0.1:7677",
            "--recall",
            "1 second",
            "--daemonize",
            "--no-sync",
            "--broker-endpoints",
            "http://127.0.0.1:2379",
            "--broker-etcd-prefix",
            "cluster-1",
            "--backup-threads",
            "4",
            "--remote-storage",
            "s3://bucket/prefix",
            "--auth-validation-public-key-path",
            "/data/auth_public_key.pem",
        ]
    );
}

#[test]
fn error_from_body_decisions() {
    let healthy = HttpResponse {
        status: 200,
        url: b"http://127.0.0.1:7676/v1/status".to_vec(),
        error_message: None,
    };
    assert!(healthy.error_from_body().is_ok());

    let with_body = HttpResponse {
        status: 500,
        url: b"http://127.0.0.1:7676/v1/status".to_vec(),
        error_message: Some(b"broken".to_vec()),
    };
    match with_body.error_from_body() {
        Err(SafekeeperHttpError::Response(m)) => {
            assert_eq!(String::from_utf8(m).unwrap(), "Error: broken")
        }
        other => panic!("A server error must become a response error, got {other:?}"),
    }

    let without_body = HttpResponse {
        status: 404,
        url: b"http://127.0.0.1:7676/v1/missing".to_vec(),
        error_message: None,
    };
    match without_body.error_from_body() {
        Err(SafekeeperHttpError::Response(m)) => {
            assert_eq!(
                String::from_utf8(m).unwrap(),
                "Http error (404) at http://127.0.0.1:7676/v1/missing."
            )
        }
        other => panic!("A client error must become a response error, got {other:?}"),
    }
}

#[test]
fn start_polling_policy() {
    assert_eq!(start_poll_action(1, &None), StartPollAction::Started);
    let refused = Some(SafekeeperHttpError::Transport {
        connect_refused: true,
        message: Vec::new(),
    });
    assert_eq!(
        start_poll_action(2, &refused),
        StartPollAction::RetryQuietly,
        "A refused connection is normal during the first tries"
    );
    assert_eq!(start_poll_action(5, &refused), StartPollAction::RetryWithNotice);
    let other = Some(SafekeeperHttpError::Transport {
        connect_refused: false,
        message: Vec::new(),
    });
    assert_eq!(start_poll_action(1, &other), StartPollAction::RetryWithNotice);
    let response = Some(SafekeeperHttpError::Response(b"bad".to_vec()));
    assert_eq!(
        start_poll_action(1, &response),
        StartPollAction::Fail,
        "An error response means the safekeeper failed to start"
    );
}

#[test]
fn stop_policy() {
    assert_eq!(stop_signal(false), 15, "A graceful stop sends SIGTERM");
    assert_eq!(stop_signal(true), 3, "An immediate stop sends SIGQUIT");
    assert_eq!(stop_poll_action(0, ProcessProbe::Gone), StopPollAction::Done);
    assert_eq!(
        stop_poll_action(10, ProcessProbe::Alive),
        StopPollAction::KeepWaiting { print_dot: true }
    );
    assert_eq!(
        stop_poll_action(11, ProcessProbe::Alive),
        StopPollAction::KeepWaiting { print_dot: false }
    );
    assert_eq!(
        stop_poll_action(0, ProcessProbe::ProbeFailed),
        StopPollAction::Fail
    );
}
