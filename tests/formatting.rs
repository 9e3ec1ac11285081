use antdash::cli::derive_log_glob;
use antdash::formatters::{
    create_list_item_cells, create_placeholder_cells, format_duration_human, format_float,
    format_option, format_option_u64_bytes, format_peers, format_speed_bps, format_uptime,
    get_cpu_color, node_display_name, CpuColor,
};
use antdash::metrics::{parse_metrics, Decimal};

#[test]
fn option_values() {
    assert_eq!(format_option(Some(42)), "42");
    assert_eq!(format_option(Some(0)), "0");
    assert_eq!(format_option(None), "-");
}

#[test]
fn uptime_text() {
    assert_eq!(format_uptime(Some(3661)), "01:01:01");
    assert_eq!(format_uptime(Some(90061)), "1d 01:01:01");
    assert_eq!(format_uptime(Some(0)), "00:00:00");
    assert_eq!(format_uptime(None), "-");
}

#[test]
fn decimals_rounded_to_places() {
    assert_eq!(format_float(Some(Decimal { millionths: 2_500_000 }), 2), "2.50");
    assert_eq!(format_float(Some(Decimal { millionths: 123_456_789 }), 1), "123.5");
    assert_eq!(format_float(Some(Decimal { millionths: 12_345_000 }), 2), "12.34");
    assert_eq!(format_float(Some(Decimal { millionths: 12_355_000 }), 2), "12.36");
    assert_eq!(format_float(Some(Decimal { millionths: 50_000 }), 1), "0.0");
    assert_eq!(format_float(Some(Decimal { millionths: 7_000_000 }), 0), "7");
    assert_eq!(format_float(Some(Decimal { millionths: 1_500_000 }), 8), "1.50000000");
    assert_eq!(format_float(None, 2), "-");
}

#[test]
fn peers_text() {
    assert_eq!(format_peers(Some(3), Some(10)), "3/10");
    assert_eq!(format_peers(Some(3), None), "3/-");
    assert_eq!(format_peers(None, Some(10)), "-/10");
    assert_eq!(format_peers(None, None), "-");
}

#[test]
fn byte_sizes_use_si_units() {
    assert_eq!(format_option_u64_bytes(Some(1_000_000)), "1 MB");
    assert_eq!(format_option_u64_bytes(Some(1_500)), "1.50 kB");
    assert_eq!(format_option_u64_bytes(None), "-");
    assert_eq!(format_speed_bps(Some(1000)), "1 kB/s");
    assert_eq!(format_speed_bps(None), "-");
}

#[test]
fn durations() {
    assert_eq!(format_duration_human(100), "100ms");
    assert_eq!(format_duration_human(1000), "1s");
    assert_eq!(format_duration_human(30_000), "30s");
    assert_eq!(format_duration_human(90_000), "2min");
    assert_eq!(format_duration_human(150_000), "2min");
    assert_eq!(format_duration_human(3_600_000), "1hr");
}

#[test]
fn node_names() {
    assert_eq!(node_display_name("/a/b/node1"), "node1");
    assert_eq!(node_display_name("/a/b/node1/"), "node1");
    assert_eq!(node_display_name("node1"), "node1");
    assert_eq!(node_display_name("/"), "/");
    assert_eq!(node_display_name("/a/.."), "/a/..");
}

#[test]
fn placeholder_cells() {
    let cells = create_placeholder_cells("/nodes/node7");
    assert_eq!(
        cells,
        vec!["node7", "          -", "     -", "    -", "    -", "      -", "      -", "       -", "  -"]
    );
}

#[test]
fn list_item_cells() {
    let m = parse_metrics(
        "ant_node_uptime 90061\n\
         ant_networking_process_memory_used_mb 123.46\n\
         ant_networking_process_cpu_usage_percentage 2.5\n\
         ant_networking_connected_peers 12\n\
         ant_networking_records_stored 42\n\
         ant_node_put_record_err_total 1\n\
         libp2p_swarm_outgoing_connection_error_total 2\n",
    );
    let cells = create_list_item_cells("/nodes/node7", &m);
    assert_eq!(
        cells,
        vec!["node7", "1d 01:01:01", "123.5MB", "2.50%", "12", "-", "42", "-", "3"]
    );
}

#[test]
fn cpu_colours() {
    assert_eq!(get_cpu_color(80_000_000), CpuColor::Magenta);
    assert_eq!(get_cpu_color(50_000_000), CpuColor::Red);
    assert_eq!(get_cpu_color(30_000_000), CpuColor::Orange);
    assert_eq!(get_cpu_color(10_000_000), CpuColor::Yellow);
    assert_eq!(get_cpu_color(9_999_999), CpuColor::Green);
}

#[test]
fn log_glob_from_node_glob() {
    assert_eq!(derive_log_glob("/x/*", "logs/antnode.log"), "/x/*/logs/antnode.log");
    assert_eq!(derive_log_glob("/x/*/", "logs/antnode.log"), "/x/*/logs/antnode.log");
    assert_eq!(derive_log_glob("/x/node*", "logs/antnode.log"), "/x/node*/logs/antnode.log");
    assert_eq!(derive_log_glob("/x/node1", "logs/antnode.log"), "/x/node1/*/logs/antnode.log");
    assert_eq!(derive_log_glob("", "logs/antnode.log"), "*/logs/antnode.log");
}
