use quic_perf::campaign::Campaign;
use quic_perf::config::{AppConfig, EnvVars};
use quic_perf::rendezvous::{listener_key, redis_url, timeout_message, KeyPoll, WAIT_SECS};
use quic_perf::report::{
    format_list, render_labelled, render_report, render_results, FormattedStats, GBPS_DECIMALS,
    MS_DECIMALS,
};
use quic_perf::settings::{
    make_client_config, make_server_config, TransportSettings, ALPN, SERVER_NAME,
};
use quic_perf::wire::TestType;

fn empty_environment() -> EnvVars {
    EnvVars {
        is_dialer: None,
        redis_addr: None,
        test_key: None,
        upload_bytes: None,
        download_bytes: None,
        upload_iterations: None,
        download_iterations: None,
        latency_iterations: None,
    }
}

fn set(text: &str) -> Option<String> {
    Some(text.to_string())
}

#[test]
fn empty_environment_has_defaults() {
    let cfg = AppConfig::from_env(&empty_environment());
    assert!(!cfg.is_dialer);
    assert_eq!(cfg.redis_addr, "redis:6379");
    assert_eq!(cfg.test_key, "default");
    assert_eq!(cfg.upload_bytes, 1_073_741_824);
    assert_eq!(cfg.download_bytes, 1_073_741_824);
    assert_eq!((cfg.upload_iters, cfg.download_iters, cfg.latency_iters), (10, 10, 100));
}

#[test]
fn set_variables_are_used() {
    let cfg = AppConfig::from_env(&EnvVars {
        is_dialer: set("true"),
        redis_addr: set("host:1"),
        test_key: set(""),
        upload_bytes: set("18446744073709551615"),
        download_bytes: set("0"),
        upload_iterations: set("+3"),
        download_iterations: set("4"),
        latency_iterations: set("5"),
    });
    assert!(cfg.is_dialer);
    assert_eq!((cfg.redis_addr.as_str(), cfg.test_key.as_str()), ("host:1", ""));
    assert_eq!((cfg.upload_bytes, cfg.download_bytes), (u64::MAX, 0));
    assert_eq!((cfg.upload_iters, cfg.download_iters, cfg.latency_iters), (3, 4, 5));
}

#[test]
fn unreadable_numbers_have_defaults() {
    let cfg = AppConfig::from_env(&EnvVars {
        upload_bytes: set("18446744073709551616"),
        download_bytes: set(""),
        upload_iterations: set("-1"),
        download_iterations: set("3 "),
        latency_iterations: set("1e2"),
        ..empty_environment()
    });
    assert_eq!((cfg.upload_bytes, cfg.download_bytes), (1_073_741_824, 1_073_741_824));
    assert_eq!((cfg.upload_iters, cfg.download_iters, cfg.latency_iters), (10, 10, 100));
}

#[test]
fn only_true_makes_a_dialer() {
    for text in ["True", "1", "", "true ", "false"] {
        let vars = EnvVars { is_dialer: set(text), ..empty_environment() };
        assert!(!AppConfig::from_env(&vars).is_dialer, "{text}");
    }
}

fn small_run() -> Campaign {
    Campaign::new(&AppConfig::from_env(&EnvVars {
        upload_bytes: set("7"),
        download_bytes: set("9"),
        upload_iterations: set("2"),
        download_iterations: set("1"),
        latency_iterations: set("2"),
        ..empty_environment()
    }))
}

#[test]
fn tests_run_in_order() {
    let mut run = small_run();
    let upload = TestType::Upload { bytes: 7 };
    assert_eq!(run.next_test(), Some((upload, 1)));
    assert_eq!(run.next_test(), Some((upload, 1)));
    run.record(Some(10));
    assert_eq!(run.next_test(), Some((upload, 2)));
    run.record(None);
    assert_eq!(run.next_test(), Some((TestType::Download { bytes: 9 }, 1)));
    run.record(Some(20));
    assert_eq!(run.next_test(), Some((TestType::Latency, 1)));
    run.record(Some(30));
    assert_eq!(run.next_test(), Some((TestType::Latency, 2)));
    run.record(Some(31));
    assert_eq!(run.next_test(), None);
    assert_eq!(run.into_values(), (vec![10], vec![20], vec![30, 31]));
}

#[test]
fn run_ends_after_the_planned_tests() {
    let mut run = small_run();
    let mut tests = 0;
    while run.next_test().is_some() {
        run.record(None);
        tests += 1;
    }
    assert_eq!(tests, 5);
    run.record(Some(1));
    assert_eq!(run.into_values(), (vec![], vec![], vec![]));
}

#[test]
fn published_in_time_is_found() {
    let mut wait = KeyPoll::new(3);
    assert!(wait.asks());
    assert_eq!(wait.on_reply(None), None);
    assert_eq!(wait.on_reply(set("")), None);
    assert!(wait.asks());
    assert_eq!(wait.on_reply(set("/ip4/1.2.3.4")), set("/ip4/1.2.3.4"));
    assert!(!wait.asks());
    assert!(!KeyPoll::new(0).asks());
    assert_eq!(WAIT_SECS, 60);
}

fn wait(secs: u64, replies: &[Option<&str>]) -> Option<String> {
    let mut poll = KeyPoll::new(secs);
    let mut replies = replies.iter();
    while poll.asks() {
        let reply = replies.next().unwrap().map(|s| s.to_string());
        if let Some(value) = poll.on_reply(reply) {
            return Some(value);
        }
    }
    None
}

#[test]
fn wait_gives_the_first_answer() {
    let replies = [None, Some(""), Some("a"), Some("b")];
    assert_eq!(wait(0, &replies), None);
    assert_eq!(wait(2, &replies), None);
    assert_eq!(wait(3, &replies), set("a"));
    assert_eq!(wait(4, &replies), set("a"));
}

#[test]
fn listener_is_found_through_its_key() {
    assert_eq!(listener_key("abc"), "abc_listener_multiaddr");
    assert_eq!(redis_url("redis:6379"), "redis://redis:6379");
    assert_eq!(timeout_message("k"), "timeout waiting for Redis key: k");
}

fn written(n: &str, outliers: &[&str], samples: &[&str]) -> FormattedStats {
    let list = |items: &[&str]| items.iter().map(|s| s.to_string()).collect::<Vec<String>>();
    FormattedStats {
        min: format!("{n}1"),
        q1: format!("{n}2"),
        median: format!("{n}3"),
        q3: format!("{n}4"),
        max: format!("{n}5"),
        outliers: list(outliers),
        samples: list(samples),
    }
}

#[test]
fn list_stands_in_brackets() {
    assert_eq!(format_list(&vec![]), "[]");
    assert_eq!(format_list(&vec!["1.00".to_string()]), "[1.00]");
    assert_eq!(format_list(&vec!["1.00".to_string(), "2.50".to_string()]), "[1.00, 2.50]");
}

#[test]
fn results_are_reported_line_by_line() {
    let expected = "# Upload measurement\nupload:\n  iterations: 10\n  min: 0.1\n  q1: 0.2\n  \
        median: 0.3\n  q3: 0.4\n  max: 0.5\n  outliers: []\n  samples: [0.1, 0.5]\n  unit: Gbps\n";
    let stats = written("0.", &[], &["0.1", "0.5"]);
    assert_eq!(render_results("Upload", 10, &stats, "Gbps"), expected);
    assert_eq!(render_labelled("Upload", "upload", 10, &stats, "Gbps"), expected);
    assert_eq!((GBPS_DECIMALS, MS_DECIMALS), (2, 3));
}

#[test]
fn label_is_repeated_in_small_letters() {
    let stats = written("", &[], &[]);
    let text = render_results("A-Z [\u{c4}\u{130}] z", 0, &stats, "x");
    let small = "A-Z [\u{c4}\u{130}] z".to_lowercase();
    assert_ne!(small, "A-Z [\u{c4}\u{130}] z");
    assert_eq!(text.lines().nth(1), Some(format!("{small}:").as_str()));
    let text = render_results("MiXeD 09_", 0, &stats, "x");
    assert_eq!(text.lines().nth(1), Some("mixed 09_:"));
}

#[test]
fn report_has_three_parts() {
    let (up, down, lat) = (
        written("1.", &["9.00"], &["1.00"]),
        written("2.", &[], &[]),
        written("3.", &[], &[]),
    );
    let expected = format!(
        "{}\n{}\n{}",
        render_labelled("Upload", "upload", 1, &up, "Gbps"),
        render_labelled("Download", "download", 2, &down, "Gbps"),
        render_labelled("Latency", "latency", 3, &lat, "ms"),
    );
    assert_eq!(render_report(1, &up, 2, &down, 3, &lat), expected);
}

#[test]
fn both_sides_set_the_same_limits() {
    let expected = TransportSettings {
        max_idle_timeout_ms: 30_000,
        max_udp_payload: 65535,
        initial_max_data: 10_000_000_000,
        initial_max_stream_data: 10_000_000_000,
        initial_max_streams: 1000,
        disable_active_migration: true,
        verify_peer: None,
    };
    assert_eq!(make_server_config(), expected);
    assert_eq!(make_client_config(), TransportSettings { verify_peer: Some(false), ..expected });
    assert_eq!((ALPN, SERVER_NAME), ("perf", "localhost"));
}
