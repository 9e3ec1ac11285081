use antdash::app::{compute_speed, step_tick_rate, App, NodeReading, NodeStatus};
use antdash::fetch::{poll_result, FetchFailure};
use antdash::history::{push_sample, SPARKLINE_HISTORY_LENGTH};
use antdash::metrics::NodeMetrics;
use antdash::storage::Entry;
use std::collections::VecDeque;

const URL: &str = "http://127.0.0.1:1234";
const DIR: &str = "/nodes/node1";

fn one_node_app(now_ms: u64) -> App {
    App::new(
        vec![DIR.to_string()],
        vec![(DIR.to_string(), URL.to_string())],
        vec![(DIR.to_string(), format!("{}/record_store", DIR))],
        now_ms,
    )
}

fn inbound(bytes: u64) -> String {
    format!(
        "libp2p_bandwidth_bytes_total{{direction=\"Inbound\"}} {}\n\
         libp2p_bandwidth_bytes_total{{direction=\"Outbound\"}} {}\n",
        bytes, bytes
    )
}

fn ok(text: String) -> Vec<(String, Result<String, String>)> {
    vec![(URL.to_string(), Ok(text))]
}

fn history<'a>(t: &'a [(String, VecDeque<u64>)], url: &str) -> Vec<u64> {
    t.iter().find(|(k, _)| k == url).map(|(_, h)| h.iter().copied().collect()).unwrap_or_default()
}

fn latest_metrics(app: &App, url: &str) -> Option<NodeMetrics> {
    app.node_metrics.iter().find(|(k, _)| k == url).and_then(|(_, r)| match r {
        NodeReading::Metrics(m) => Some(*m),
        _ => None,
    })
}

#[test]
fn first_successful_poll_appends_zero() {
    let mut app = one_node_app(0);
    app.update_metrics(ok(inbound(1000)), 1000, &vec![]);
    let m = latest_metrics(&app, URL).expect("running");
    assert_eq!(m.bandwidth_inbound_bytes, Some(1000));
    assert_eq!(m.speed_in_bps, None);
    assert_eq!(m.speed_out_bps, None);
    assert_eq!(history(&app.speed_in_history, URL), vec![0]);
    assert_eq!(history(&app.speed_out_history, URL), vec![0]);
}

#[test]
fn steady_growth_gives_bytes_per_second() {
    let mut app = one_node_app(0);
    app.update_metrics(ok(inbound(1000)), 0, &vec![]);
    app.update_metrics(ok(inbound(3000)), 2000, &vec![]);
    let m = latest_metrics(&app, URL).expect("running");
    assert_eq!(m.speed_in_bps, Some(1000));
    assert_eq!(history(&app.speed_in_history, URL), vec![0, 1000]);
}

#[test]
fn counter_reset_gives_zero_speed() {
    let mut app = one_node_app(0);
    app.update_metrics(ok(inbound(5000)), 0, &vec![]);
    app.update_metrics(ok(inbound(200)), 1000, &vec![]);
    let m = latest_metrics(&app, URL).expect("running");
    assert_eq!(m.speed_in_bps, Some(0));
    assert_eq!(history(&app.speed_in_history, URL), vec![0, 0]);
}

#[test]
fn fetch_failure_mid_run_keeps_previous() {
    let mut app = one_node_app(0);
    app.update_metrics(ok(inbound(1000)), 0, &vec![]);
    assert!(matches!(app.node_status(&DIR.to_string()), NodeStatus::Running(_)));
    app.update_metrics(vec![(URL.to_string(), Err("Network error: refused".to_string()))], 1000, &vec![]);
    match app.node_status(&DIR.to_string()) {
        NodeStatus::Stopped(e) => assert_eq!(e, "Network error: refused"),
        other => panic!("unexpected status {:?}", other),
    }
    assert_eq!(history(&app.speed_in_history, URL), vec![0, 0]);
    assert_eq!(history(&app.speed_out_history, URL), vec![0, 0]);
    let prev = app.previous_metrics.iter().find(|(k, _)| k == URL).map(|(_, m)| *m).unwrap();
    assert_eq!(prev.bandwidth_inbound_bytes, Some(1000));
    // The next success measures from the retained snapshot.
    app.update_metrics(ok(inbound(5000)), 2000, &vec![]);
    let m = latest_metrics(&app, URL).expect("running");
    assert_eq!(m.speed_in_bps, Some(2000));
}

#[test]
fn no_time_elapsed_skips_speeds() {
    let mut app = one_node_app(500);
    app.update_metrics(ok(inbound(1000)), 500, &vec![]);
    app.update_metrics(ok(inbound(3000)), 500, &vec![]);
    let m = latest_metrics(&app, URL).expect("running");
    assert_eq!(m.speed_in_bps, None);
}

#[test]
fn history_is_capped_and_drops_oldest() {
    let mut app = one_node_app(0);
    for i in 0..70u64 {
        app.update_metrics(ok(inbound(1000 * i * i)), i * 1000, &vec![]);
    }
    let h = history(&app.speed_in_history, URL);
    assert_eq!(h.len(), SPARKLINE_HISTORY_LENGTH);
    assert_eq!(app.total_speed_in_history.len(), SPARKLINE_HISTORY_LENGTH);
    let mut d: VecDeque<u64> = (1..=60).collect();
    push_sample(&mut d, 61);
    assert_eq!(d.len(), 60);
    assert_eq!(d.front(), Some(&2));
    assert_eq!(d.back(), Some(&61));
}

#[test]
fn fleet_totals_count_successful_nodes_only() {
    let dirs = vec!["/n/a".to_string(), "/n/b".to_string(), "/n/c".to_string()];
    let urls = vec![
        ("/n/a".to_string(), "http://a".to_string()),
        ("/n/b".to_string(), "http://b".to_string()),
        ("/n/c".to_string(), "http://c".to_string()),
    ];
    let mut app = App::new(dirs, urls, vec![], 0);
    let text = |cpu: &str, recs: u64, peers: u64, reward: u64, bytes: u64| {
        format!(
            "ant_networking_process_cpu_usage_percentage {}\n\
             ant_networking_records_stored {}\n\
             ant_networking_connected_peers {}\n\
             ant_node_current_reward_wallet_balance {}\n\
             libp2p_bandwidth_bytes_total{{direction=\"Inbound\"}} {}\n\
             libp2p_bandwidth_bytes_total{{direction=\"Outbound\"}} {}\n",
            cpu, recs, peers, reward, bytes, bytes * 2
        )
    };
    app.update_metrics(
        vec![
            ("http://a".to_string(), Ok(text("1.5", 10, 3, 100, 1000))),
            ("http://b".to_string(), Ok(text("2.25", 20, 4, 200, 3000))),
            ("http://c".to_string(), Err("HTTP error: 500".to_string())),
        ],
        1000,
        &vec![],
    );
    let s = &app.summary;
    assert_eq!(s.total_cpu_usage, 3_750_000);
    assert_eq!(s.summary_total_records, 30);
    assert_eq!(s.summary_total_live_peers, 7);
    assert_eq!(s.summary_total_rewards, 300);
    assert_eq!(s.summary_total_data_in_bytes, 4000);
    assert_eq!(s.summary_total_data_out_bytes, 8000);
    assert_eq!(app.running_node_count(), 2);
}

#[test]
fn storage_totals_skip_unreadable_parts() {
    let mut app = App::new(
        vec!["/n/a".to_string(), "/n/b".to_string()],
        vec![],
        vec![
            ("/n/a".to_string(), "/n/a/record_store".to_string()),
            ("/n/b".to_string(), "/n/b/record_store".to_string()),
        ],
        0,
    );
    assert_eq!(app.summary.total_allocated_storage, 70_000_000_000);
    assert_eq!(app.summary.total_used_storage_bytes, None);
    let tree = Entry::Dir(vec![
        Entry::File(100),
        Entry::Unreadable,
        Entry::Dir(vec![Entry::File(20), Entry::Other]),
    ]);
    app.update_metrics(vec![], 1000, &vec![tree, Entry::Unreadable]);
    assert_eq!(app.summary.total_used_storage_bytes, Some(120));
    assert_eq!(app.summary.storage_unreadable_nodes, 1);
}

#[test]
fn speed_formula_and_reset() {
    assert_eq!(compute_speed(1000, 3000, 2000), 1000);
    assert_eq!(compute_speed(5000, 200, 1000), 0);
    assert_eq!(compute_speed(0, 1, 3), 333);
    assert_eq!(compute_speed(0, u64::MAX, 1), u64::MAX);
}

#[test]
fn reconcile_assigns_new_urls_to_known_dirs() {
    let mut app = App::new(
        vec!["/n/a".to_string(), "/n/b".to_string()],
        vec![("/n/a".to_string(), "http://a".to_string())],
        vec![],
        0,
    );
    assert!(matches!(app.node_status(&"/n/b".to_string()), NodeStatus::Unknown));
    assert!(matches!(app.node_status(&"/n/a".to_string()), NodeStatus::Fetching));
    let same = vec![("/n/a".to_string(), "http://a".to_string())];
    assert!(!app.reconcile_discovery(&same));
    assert_eq!(app.status_message, None);
    let found = vec![
        ("/n/b".to_string(), "http://b".to_string()),
        ("/n/z".to_string(), "http://z".to_string()),
    ];
    assert!(app.reconcile_discovery(&found));
    assert_eq!(app.status_message.as_deref(), Some("Node URLs updated."));
    assert!(matches!(app.node_status(&"/n/b".to_string()), NodeStatus::Fetching));
    assert_eq!(app.nodes.len(), 2);
    assert!(app.node_urls.iter().all(|(d, _)| d != "/n/z"));
}

#[test]
fn tick_rate_steps_through_levels() {
    let mut app = one_node_app(0);
    assert_eq!(app.tick_rate_ms, 1000);
    app.adjust_tick_rate(true);
    assert_eq!(app.tick_rate_ms, 2000);
    app.adjust_tick_rate(false);
    app.adjust_tick_rate(false);
    assert_eq!(app.tick_rate_ms, 500);
    assert_eq!(step_tick_rate(3_600_000, true), 3_600_000);
    assert_eq!(step_tick_rate(100, false), 100);
    assert_eq!(step_tick_rate(150, true), 200);
    assert_eq!(step_tick_rate(150, false), 100);
    assert_eq!(step_tick_rate(10, true), 100);
    assert_eq!(step_tick_rate(u64::MAX, false), 3_600_000);
}

#[test]
fn chart_data_enumerates_history() {
    let mut app = one_node_app(0);
    app.update_metrics(ok(inbound(1000)), 0, &vec![]);
    app.update_metrics(ok(inbound(3000)), 2000, &vec![]);
    assert_eq!(app.chart_data_in(&URL.to_string()), vec![(0, 0), (1, 1000)]);
    assert_eq!(app.chart_data_out(&"http://none".to_string()), vec![]);
}

#[test]
fn scrolling_stays_in_range() {
    let mut app = App::new(vec!["a".into(), "b".into(), "c".into()], vec![], vec![], 0);
    app.scroll_up();
    assert_eq!(app.scroll_offset, 0);
    app.scroll_down();
    app.scroll_down();
    app.scroll_down();
    assert_eq!(app.scroll_offset, 2);
    app.clamp_scroll(2);
    assert_eq!(app.scroll_offset, 1);
    app.clamp_scroll(5);
    assert_eq!(app.scroll_offset, 0);
}

#[test]
fn failure_messages_name_their_kind() {
    assert_eq!(FetchFailure::Network("refused".to_string()).message(), "Network error: refused");
    assert_eq!(FetchFailure::HttpStatus("500".to_string()).message(), "HTTP error: 500");
    assert_eq!(FetchFailure::BodyRead("eof".to_string()).message(), "Read body error: eof");
    assert_eq!(poll_result(Ok("body".to_string())), Ok("body".to_string()));
    assert_eq!(
        poll_result(Err(FetchFailure::Network("x".to_string()))),
        Err("Network error: x".to_string())
    );
}
