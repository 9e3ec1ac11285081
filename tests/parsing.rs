use antdash::metrics::{parse_decimal, parse_metrics, Decimal, NodeMetrics};
use antdash::text::{chars_of, parse_u64};

const SAMPLE: &str = "# HELP ant_node_uptime Uptime\n\
# TYPE ant_node_uptime gauge\n\
ant_node_uptime 3661\n\
ant_networking_process_memory_used_mb 123.45\n\
ant_networking_process_cpu_usage_percentage 2.5\n\
ant_networking_connected_peers 12\n\
ant_networking_peers_in_routing_table 200\n\
ant_networking_estimated_network_size 5000\n\
libp2p_bandwidth_bytes_total{direction=\"Inbound\"} 1000\n\
libp2p_bandwidth_bytes_total{direction=\"Outbound\"} 2000\n\
ant_networking_records_stored 42\n\
ant_node_put_record_err_total 1\n\
ant_node_current_reward_wallet_balance 77\n\
libp2p_swarm_connections_incoming_error_total{error=\"a\"} 3\n\
libp2p_swarm_connections_incoming_error_total{error=\"b\"} 4\n\
libp2p_swarm_outgoing_connection_error_total{peer=\"x\"} 0\n\
some_other_metric 9\n";

#[test]
fn parses_every_recognised_metric() {
    let m = parse_metrics(SAMPLE);
    assert_eq!(m.uptime_seconds, Some(3661));
    assert_eq!(m.memory_used_mb, Some(Decimal { millionths: 123_450_000 }));
    assert_eq!(m.cpu_usage_percentage, Some(Decimal { millionths: 2_500_000 }));
    assert_eq!(m.connected_peers, Some(12));
    assert_eq!(m.peers_in_routing_table, Some(200));
    assert_eq!(m.estimated_network_size, Some(5000));
    assert_eq!(m.bandwidth_inbound_bytes, Some(1000));
    assert_eq!(m.bandwidth_outbound_bytes, Some(2000));
    assert_eq!(m.records_stored, Some(42));
    assert_eq!(m.put_record_errors, Some(1));
    assert_eq!(m.reward_wallet_balance, Some(77));
    assert_eq!(m.incoming_connection_errors, Some(7));
    assert_eq!(m.outgoing_connection_errors, Some(0));
    assert_eq!(m.kad_get_closest_peers_errors, None);
    assert_eq!(m.speed_in_bps, None);
    assert_eq!(m.speed_out_bps, None);
}

#[test]
fn parsing_twice_gives_the_same_record() {
    assert_eq!(parse_metrics(SAMPLE), parse_metrics(SAMPLE));
}

#[test]
fn empty_text_gives_an_all_absent_record() {
    assert_eq!(parse_metrics(""), NodeMetrics::empty());
    assert_eq!(parse_metrics("\n\n# only comments\n"), NodeMetrics::empty());
}

#[test]
fn unreadable_value_leaves_field_absent() {
    let m = parse_metrics("ant_node_uptime abc\nant_networking_connected_peers -3\n");
    assert_eq!(m.uptime_seconds, None);
    assert_eq!(m.connected_peers, None);
}

#[test]
fn later_line_replaces_earlier_reading() {
    let m = parse_metrics("ant_node_uptime 5\nant_node_uptime 9\n");
    assert_eq!(m.uptime_seconds, Some(9));
}

#[test]
fn crlf_lines_and_missing_final_newline() {
    let m = parse_metrics("ant_node_uptime 5\r\nant_networking_records_stored 8");
    assert_eq!(m.uptime_seconds, Some(5));
    assert_eq!(m.records_stored, Some(8));
}

#[test]
fn summed_family_present_only_with_a_line() {
    let m = parse_metrics("# libp2p_kad_query_result_get_closest_peers_error_total help\n");
    assert_eq!(m.kad_get_closest_peers_errors, None);
    let m = parse_metrics(
        "libp2p_kad_query_result_get_closest_peers_error_total{e=\"a\"} 2\n\
         libp2p_kad_query_result_get_closest_peers_error_total{e=\"b\"} bad\n",
    );
    assert_eq!(m.kad_get_closest_peers_errors, Some(2));
}

#[test]
fn bandwidth_without_direction_is_ignored() {
    let m = parse_metrics("libp2p_bandwidth_bytes_total{kind=\"x\"} 5\n");
    assert_eq!(m.bandwidth_inbound_bytes, None);
    assert_eq!(m.bandwidth_outbound_bytes, None);
}

#[test]
fn line_with_name_only_is_skipped() {
    let m = parse_metrics("ant_node_uptime\n");
    assert_eq!(m.uptime_seconds, None);
}

#[test]
fn u64_text_rules() {
    assert_eq!(parse_u64(&chars_of("42")), Some(42));
    assert_eq!(parse_u64(&chars_of("+42")), Some(42));
    assert_eq!(parse_u64(&chars_of("+")), None);
    assert_eq!(parse_u64(&chars_of("")), None);
    assert_eq!(parse_u64(&chars_of("18446744073709551615")), Some(u64::MAX));
    assert_eq!(parse_u64(&chars_of("18446744073709551616")), None);
    assert_eq!(parse_u64(&chars_of("1.0")), None);
}

#[test]
fn decimal_text_rules() {
    assert_eq!(parse_decimal(&chars_of("12")), Some(Decimal { millionths: 12_000_000 }));
    assert_eq!(parse_decimal(&chars_of("0.5")), Some(Decimal { millionths: 500_000 }));
    assert_eq!(parse_decimal(&chars_of(".25")), Some(Decimal { millionths: 250_000 }));
    assert_eq!(parse_decimal(&chars_of("3.")), Some(Decimal { millionths: 3_000_000 }));
    assert_eq!(parse_decimal(&chars_of("+1.1234567")), Some(Decimal { millionths: 1_123_456 }));
    assert_eq!(parse_decimal(&chars_of(".")), None);
    assert_eq!(parse_decimal(&chars_of("1.2.3")), None);
    assert_eq!(parse_decimal(&chars_of("-1.0")), None);
    assert_eq!(parse_decimal(&chars_of("NaN")), None);
    assert_eq!(parse_decimal(&chars_of("18446744073710")), None);
}

#[test]
fn default_record_is_empty() {
    assert_eq!(NodeMetrics::default(), NodeMetrics::empty());
}
