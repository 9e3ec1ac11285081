use antdash::discovery::{find_metrics_nodes, find_node_directories, process_log_file};
use antdash::storage::{dir_size, Entry};

fn log(addr: &str) -> String {
    format!("starting\nINFO Metrics server on {} ready\nmore\n", addr)
}

#[test]
fn last_announcement_wins() {
    let text = "Metrics server on http://127.0.0.1:1\nnoise\nMetrics server on http://127.0.0.1:2\n";
    assert_eq!(process_log_file(text), Some("http://127.0.0.1:2".to_string()));
}

#[test]
fn no_announcement_gives_none() {
    assert_eq!(process_log_file("nothing here\n"), None);
    assert_eq!(process_log_file(""), None);
    assert_eq!(process_log_file("Metrics server on \n"), None);
}

#[test]
fn only_the_first_fifty_lines_are_scanned() {
    let mut text = String::new();
    text.push_str("Metrics server on early\n");
    for _ in 0..49 {
        text.push_str("filler\n");
    }
    text.push_str("Metrics server on late\n");
    assert_eq!(process_log_file(&text), Some("early".to_string()));
}

#[test]
fn shared_url_is_kept_once() {
    let logs = vec![
        ("/n/b".to_string(), log("http://same")),
        ("/n/a".to_string(), log("http://same")),
        ("/n/c".to_string(), log("http://other")),
        ("/n/d".to_string(), "no address\n".to_string()),
    ];
    let found = find_metrics_nodes(&logs);
    assert_eq!(
        found,
        vec![
            ("/n/a".to_string(), "http://same".to_string()),
            ("/n/c".to_string(), "http://other".to_string()),
        ]
    );
}

#[test]
fn results_are_sorted_by_directory() {
    let logs = vec![
        ("/n/c".to_string(), log("http://3")),
        ("/n/a".to_string(), log("http://1")),
        ("/n/b".to_string(), log("http://2")),
    ];
    let found = find_metrics_nodes(&logs);
    let dirs: Vec<&str> = found.iter().map(|(d, _)| d.as_str()).collect();
    assert_eq!(dirs, vec!["/n/a", "/n/b", "/n/c"]);
}

#[test]
fn unreadable_subdirectory_is_skipped() {
    let tree = Entry::Dir(vec![
        Entry::Dir(vec![Entry::File(10), Entry::File(5)]),
        Entry::Unreadable,
        Entry::Dir(vec![Entry::File(7)]),
        Entry::Other,
    ]);
    assert_eq!(dir_size(&tree), Some(22));
}

#[test]
fn unreadable_top_fails_and_file_counts_itself() {
    assert_eq!(dir_size(&Entry::Unreadable), None);
    assert_eq!(dir_size(&Entry::File(42)), Some(42));
    assert_eq!(dir_size(&Entry::Dir(vec![])), Some(0));
    assert_eq!(
        dir_size(&Entry::Dir(vec![Entry::File(u64::MAX), Entry::File(1)])),
        Some(u64::MAX)
    );
}

#[test]
fn node_directories_sorted_once() {
    let dirs = vec!["/n/c".to_string(), "/n/a".to_string(), "/n/b".to_string(), "/n/a".to_string()];
    assert_eq!(
        find_node_directories(dirs),
        vec!["/n/a".to_string(), "/n/b".to_string(), "/n/c".to_string()]
    );
}
