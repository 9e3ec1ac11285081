//! The aggregation engine: the node registry, the latest reading of every
//! endpoint, bounded speed histories, and fleet-wide totals.

use vstd::prelude::*;
use std::collections::VecDeque;
use crate::history::{push_capped, push_sample, SPARKLINE_HISTORY_LENGTH};
use crate::metrics::{parse_metrics, parse_metrics_spec, NodeMetrics};
use crate::storage::{dir_size, sampled_size, Entry};
use crate::table::{
    find_key, keys_unique, lemma_table_empty, lemma_table_index, table_set, table_view,
};

verus! {

/// Storage set aside for each node with a record store: 35 GB.
pub const STORAGE_PER_NODE_BYTES: u64 = 35_000_000_000;

/// The latest thing known about one metrics endpoint.
#[derive(Debug)]
pub enum NodeReading {
    /// The endpoint was (re)discovered and has not been polled since.
    Fetching,
    /// The last poll succeeded and produced these metrics.
    Metrics(NodeMetrics),
    /// The last poll failed with this message.
    Failed(String),
}

/// The status of a node, derived from the registry and the latest readings.
#[derive(Debug)]
pub enum NodeStatus {
    /// No metrics URL is known for the node.
    Unknown,
    /// A URL is known but no poll result has come back yet.
    Fetching,
    /// The last poll succeeded.
    Running(NodeMetrics),
    /// The last poll failed.
    Stopped(String),
}

/// Fleet-wide totals, recomputed on every update from the successful readings.
#[derive(Debug)]
pub struct FleetSummary {
    /// Sum of CPU percentages, in millionths of a percent.
    pub total_cpu_usage: u128,
    /// Nodes with a record store, times [`STORAGE_PER_NODE_BYTES`].
    pub total_allocated_storage: u128,
    /// Bytes used under the record stores; absent before the first update.
    pub total_used_storage_bytes: Option<u128>,
    /// Record stores whose top directory could not be read at the last update;
    /// each counts as zero bytes in the used total.
    pub storage_unreadable_nodes: u64,
    pub summary_total_in_speed: u128,
    pub summary_total_out_speed: u128,
    pub summary_total_data_in_bytes: u128,
    pub summary_total_data_out_bytes: u128,
    pub summary_total_records: u128,
    pub summary_total_rewards: u128,
    pub summary_total_live_peers: u128,
}

/// Holds the engine's state.
pub struct App {
    /// Discovered node directories, in discovery order.
    pub nodes: Vec<String>,
    /// Node directory to metrics URL.
    pub node_urls: Vec<(String, String)>,
    /// Metrics URL to its latest reading.
    pub node_metrics: Vec<(String, NodeReading)>,
    /// Node directory to the record-store directory used for storage accounting.
    pub node_record_store_paths: Vec<(String, String)>,
    /// Metrics URL to its last successfully parsed metrics.
    pub previous_metrics: Vec<(String, NodeMetrics)>,
    /// Time of the last update, in milliseconds on the caller's monotonic clock.
    pub last_update_ms: u64,
    /// Time of the update before that.
    pub previous_update_ms: u64,
    /// Metrics URL to its inbound speed history.
    pub speed_in_history: Vec<(String, VecDeque<u64>)>,
    /// Metrics URL to its outbound speed history.
    pub speed_out_history: Vec<(String, VecDeque<u64>)>,
    pub total_speed_in_history: VecDeque<u64>,
    pub total_speed_out_history: VecDeque<u64>,
    pub summary: FleetSummary,
    pub status_message: Option<String>,
    /// The first node row shown.
    pub scroll_offset: usize,
    /// The update interval in milliseconds.
    pub tick_rate_ms: u64,
}

// ---------------------------------------------------------------------------
// Model

/// A history table as a map from URL to samples.
pub open spec fn hist_view(t: Seq<(String, VecDeque<u64>)>) -> Map<Seq<char>, Seq<u64>> {
    table_view(t).map_values(|d: VecDeque<u64>| d@)
}

/// Every history in the map is within the cap.
pub open spec fn histories_bounded(h: Map<Seq<char>, Seq<u64>>) -> bool {
    forall|k: Seq<char>| #[trigger] h.contains_key(k) ==> h[k].len() <= SPARKLINE_HISTORY_LENGTH
}

/// The history stored under `url`, empty when there is none.
pub open spec fn history_of(h: Map<Seq<char>, Seq<u64>>, url: Seq<char>) -> Seq<u64> {
    if h.contains_key(url) {
        h[url]
    } else {
        Seq::empty()
    }
}

/// The per-endpoint part of the state that a poll result changes.
pub struct PollState {
    pub latest: Map<Seq<char>, NodeReading>,
    pub previous: Map<Seq<char>, NodeMetrics>,
    pub history_in: Map<Seq<char>, Seq<u64>>,
    pub history_out: Map<Seq<char>, Seq<u64>>,
}

/// Speed in bytes per second between two cumulative counts `dt_ms`
/// milliseconds apart: the growth over the time, rounded down (and capped at
/// `u64::MAX`); zero when the count went down, which is a counter reset.
pub open spec fn speed_spec(prev: u64, cur: u64, dt_ms: u64) -> u64 {
    if cur >= prev {
        let v = (cur - prev) * 1000 / (dt_ms as int);
        if v > u64::MAX {
            u64::MAX
        } else {
            v as u64
        }
    } else {
        0
    }
}

/// A speed, when both counts are present.
pub open spec fn speed_between(prev: Option<u64>, cur: Option<u64>, dt_ms: u64) -> Option<u64> {
    match (prev, cur) {
        (Some(p), Some(c)) => Some(speed_spec(p, c, dt_ms)),
        _ => None,
    }
}

/// Freshly parsed metrics with the speeds filled in from the previous snapshot,
/// when there is one and time has passed (`dt_ms > 0`).
pub open spec fn with_speeds(m: NodeMetrics, prev: Option<NodeMetrics>, dt_ms: u64) -> NodeMetrics {
    match prev {
        Some(p) => if dt_ms > 0 {
            NodeMetrics {
                speed_in_bps: speed_between(p.bandwidth_inbound_bytes, m.bandwidth_inbound_bytes, dt_ms),
                speed_out_bps: speed_between(
                    p.bandwidth_outbound_bytes,
                    m.bandwidth_outbound_bytes,
                    dt_ms,
                ),
                ..m
            }
        } else {
            m
        },
        None => m,
    }
}

/// The history sample for a speed: the speed, or zero when there is none.
pub open spec fn sample_of(speed: Option<u64>) -> u64 {
    match speed {
        Some(v) => v,
        None => 0,
    }
}

/// The previous snapshot of `url`, if any.
pub open spec fn previous_of(p: Map<Seq<char>, NodeMetrics>, url: Seq<char>) -> Option<NodeMetrics> {
    if p.contains_key(url) {
        Some(p[url])
    } else {
        None
    }
}

/// How one poll result for `url` changes the state.
///
/// A success stores the parsed metrics, with speeds, as the latest reading and
/// as the new previous snapshot, and appends the speeds to the histories. A
/// failure stores the message, appends zero to both histories, and keeps the
/// previous snapshot for the next delta.
pub open spec fn poll_step(
    s: PollState,
    url: Seq<char>,
    result: Result<String, String>,
    dt_ms: u64,
) -> PollState {
    match result {
        Ok(raw) => {
            let m = with_speeds(parse_metrics_spec(raw@), previous_of(s.previous, url), dt_ms);
            PollState {
                latest: s.latest.insert(url, NodeReading::Metrics(m)),
                previous: s.previous.insert(url, m),
                history_in: s.history_in.insert(
                    url,
                    push_capped(history_of(s.history_in, url), sample_of(m.speed_in_bps)),
                ),
                history_out: s.history_out.insert(
                    url,
                    push_capped(history_of(s.history_out, url), sample_of(m.speed_out_bps)),
                ),
            }
        },
        Err(e) => PollState {
            latest: s.latest.insert(url, NodeReading::Failed(e)),
            previous: s.previous,
            history_in: s.history_in.insert(url, push_capped(history_of(s.history_in, url), 0)),
            history_out: s.history_out.insert(url, push_capped(history_of(s.history_out, url), 0)),
        },
    }
}

/// The poll results applied in order.
pub open spec fn poll_steps(
    s: PollState,
    results: Seq<(String, Result<String, String>)>,
    dt_ms: u64,
) -> PollState
    decreases results.len(),
{
    if results.len() == 0 {
        s
    } else {
        let before = poll_steps(s, results.drop_last(), dt_ms);
        poll_step(before, results.last().0@, results.last().1, dt_ms)
    }
}

/// Milliseconds from `since` to `now`; zero when the clock did not advance.
pub open spec fn elapsed_ms(since: u64, now: u64) -> u64 {
    if now > since {
        (now - since) as u64
    } else {
        0
    }
}

/// A value read from an optional counter (absent counts zero).
pub open spec fn count_of(v: Option<u64>) -> nat {
    match v {
        Some(x) => x as nat,
        None => 0,
    }
}

/// A fleet total: which field of the successful readings it sums.
pub enum FleetField {
    /// CPU percentage, in millionths.
    Cpu,
    SpeedIn,
    SpeedOut,
    DataIn,
    DataOut,
    Records,
    Rewards,
    Peers,
}

/// The value of field `f` in `m` (an absent value counts zero).
pub open spec fn field_value(m: NodeMetrics, f: FleetField) -> nat {
    match f {
        FleetField::Cpu => match m.cpu_usage_percentage {
            Some(d) => d.millionths as nat,
            None => 0,
        },
        FleetField::SpeedIn => count_of(m.speed_in_bps),
        FleetField::SpeedOut => count_of(m.speed_out_bps),
        FleetField::DataIn => count_of(m.bandwidth_inbound_bytes),
        FleetField::DataOut => count_of(m.bandwidth_outbound_bytes),
        FleetField::Records => count_of(m.records_stored),
        FleetField::Rewards => count_of(m.reward_wallet_balance),
        FleetField::Peers => count_of(m.connected_peers),
    }
}

/// What a reading adds to a fleet total: its field when it is a success.
pub open spec fn running_value(r: NodeReading, f: FleetField) -> nat {
    match r {
        NodeReading::Metrics(m) => field_value(m, f),
        _ => 0,
    }
}

/// The total of field `f` over the successful readings of a table.
pub open spec fn running_sum(t: Seq<(String, NodeReading)>, f: FleetField) -> nat
    decreases t.len(),
{
    if t.len() == 0 {
        0
    } else {
        running_sum(t.drop_last(), f) + running_value(t.last().1, f)
    }
}

/// Bytes used under the sampled record stores; an unreadable one counts zero.
pub open spec fn used_storage(trees: Seq<Entry>) -> nat
    decreases trees.len(),
{
    if trees.len() == 0 {
        0
    } else {
        used_storage(trees.drop_last()) + match sampled_size(trees.last()) {
            Some(n) => n as nat,
            None => 0,
        }
    }
}

/// The number of sampled record stores whose top could not be read.
pub open spec fn unreadable_count(trees: Seq<Entry>) -> nat
    decreases trees.len(),
{
    if trees.len() == 0 {
        0
    } else {
        unreadable_count(trees.drop_last()) + if sampled_size(trees.last()) is None {
            1nat
        } else {
            0nat
        }
    }
}

/// `n` as a history sample: capped at `u64::MAX`.
pub open spec fn sample_of_total(n: nat) -> u64 {
    if n > u64::MAX {
        u64::MAX
    } else {
        n as u64
    }
}

impl App {
    /// The state that poll results change.
    pub open spec fn poll_state(&self) -> PollState {
        PollState {
            latest: table_view(self.node_metrics@),
            previous: table_view(self.previous_metrics@),
            history_in: hist_view(self.speed_in_history@),
            history_out: hist_view(self.speed_out_history@),
        }
    }

    /// The data fields (all but the status message, the scroll offset and the
    /// tick rate) are as in `o`.
    pub open spec fn same_data(&self, o: &App) -> bool {
        &&& self.nodes == o.nodes
        &&& self.node_urls == o.node_urls
        &&& self.node_metrics == o.node_metrics
        &&& self.node_record_store_paths == o.node_record_store_paths
        &&& self.previous_metrics == o.previous_metrics
        &&& self.last_update_ms == o.last_update_ms
        &&& self.previous_update_ms == o.previous_update_ms
        &&& self.speed_in_history == o.speed_in_history
        &&& self.speed_out_history == o.speed_out_history
        &&& self.total_speed_in_history == o.total_speed_in_history
        &&& self.total_speed_out_history == o.total_speed_out_history
        &&& self.summary == o.summary
    }

    /// The tables have distinct keys and every history is within the cap.
    pub open spec fn wf(&self) -> bool {
        &&& keys_unique(self.node_urls@)
        &&& keys_unique(self.node_metrics@)
        &&& keys_unique(self.node_record_store_paths@)
        &&& keys_unique(self.previous_metrics@)
        &&& keys_unique(self.speed_in_history@)
        &&& keys_unique(self.speed_out_history@)
        &&& histories_bounded(hist_view(self.speed_in_history@))
        &&& histories_bounded(hist_view(self.speed_out_history@))
        &&& self.total_speed_in_history@.len() <= SPARKLINE_HISTORY_LENGTH
        &&& self.total_speed_out_history@.len() <= SPARKLINE_HISTORY_LENGTH
    }
}

// ---------------------------------------------------------------------------
// Executable parts

/// The speed between two cumulative byte counts taken `dt_ms` milliseconds
/// apart, in bytes per second rounded down; zero after a counter reset.
pub fn compute_speed(prev: u64, cur: u64, dt_ms: u64) -> (r: u64)
    requires
        dt_ms > 0,
    ensures
        r == speed_spec(prev, cur, dt_ms),
        cur < prev ==> r == 0,
{
    if cur >= prev {
        let v: u128 = ((cur - prev) as u128 * 1000) / dt_ms as u128;
        if v > u64::MAX as u128 {
            u64::MAX
        } else {
            v as u64
        }
    } else {
        0
    }
}

fn speed_of_counts(prev: Option<u64>, cur: Option<u64>, dt_ms: u64) -> (r: Option<u64>)
    requires
        dt_ms > 0,
    ensures
        r == speed_between(prev, cur, dt_ms),
{
    match (prev, cur) {
        (Some(p), Some(c)) => Some(compute_speed(p, c, dt_ms)),
        _ => None,
    }
}

/// A copy of a history.
fn copy_history(h: &VecDeque<u64>) -> (r: VecDeque<u64>)
    ensures
        r@ == h@,
{
    let mut r: VecDeque<u64> = VecDeque::new();
    let mut i: usize = 0;
    while i < h.len()
        invariant
            i <= h.len(),
            r@ == h@.subrange(0, i as int),
        decreases h.len() - i,
    {
        r.push_back(h[i]);
        i = i + 1;
    }
    r
}

/// Appends `x` to the history of `url`, creating it when there is none.
fn push_history(t: &mut Vec<(String, VecDeque<u64>)>, url: &String, x: u64)
    requires
        keys_unique(old(t)@),
        histories_bounded(hist_view(old(t)@)),
    ensures
        keys_unique(final(t)@),
        histories_bounded(hist_view(final(t)@)),
        hist_view(final(t)@) == hist_view(old(t)@).insert(
            url@,
            push_capped(history_of(hist_view(old(t)@), url@), x),
        ),
{
    let ghost before = hist_view(t@);
    let mut h = match find_key(t, url) {
        Some(i) => {
            proof {
                lemma_table_index(t@, i as int);
            }
            copy_history(&t[i].1)
        },
        None => {
            assert(!table_view(t@).contains_key(url@));
            VecDeque::new()
        },
    };
    assert(h@ == history_of(before, url@));
    push_sample(&mut h, x);
    let ghost pushed = h@;
    proof {
        crate::history::lemma_push_capped_bounded_fifo(history_of(before, url@), x);
    }
    table_set(t, url.clone(), h);
    assert(hist_view(t@) =~= before.insert(url@, pushed));
}

/// Applies one poll result to the four tables it changes.
fn record_result(
    latest: &mut Vec<(String, NodeReading)>,
    previous: &mut Vec<(String, NodeMetrics)>,
    history_in: &mut Vec<(String, VecDeque<u64>)>,
    history_out: &mut Vec<(String, VecDeque<u64>)>,
    url: &String,
    result: &Result<String, String>,
    dt_ms: u64,
)
    requires
        keys_unique(old(latest)@),
        keys_unique(old(previous)@),
        keys_unique(old(history_in)@),
        keys_unique(old(history_out)@),
        histories_bounded(hist_view(old(history_in)@)),
        histories_bounded(hist_view(old(history_out)@)),
    ensures
        keys_unique(final(latest)@),
        keys_unique(final(previous)@),
        keys_unique(final(history_in)@),
        keys_unique(final(history_out)@),
        histories_bounded(hist_view(final(history_in)@)),
        histories_bounded(hist_view(final(history_out)@)),
        poll_step(
            PollState {
                latest: table_view(old(latest)@),
                previous: table_view(old(previous)@),
                history_in: hist_view(old(history_in)@),
                history_out: hist_view(old(history_out)@),
            },
            url@,
            *result,
            dt_ms,
        ) == (PollState {
            latest: table_view(final(latest)@),
            previous: table_view(final(previous)@),
            history_in: hist_view(final(history_in)@),
            history_out: hist_view(final(history_out)@),
        }),
{
    match result {
        Ok(raw) => {
            let parsed = parse_metrics(raw.as_str());
            let prev = match find_key(previous, url) {
                Some(i) => {
                    proof {
                        lemma_table_index(previous@, i as int);
                    }
                    Some(previous[i].1)
                },
                None => {
                    assert(!table_view(previous@).contains_key(url@));
                    None
                },
            };
            assert(prev == previous_of(table_view(previous@), url@));
            let m = match prev {
                Some(p) => if dt_ms > 0 {
                    NodeMetrics {
                        speed_in_bps: speed_of_counts(
                            p.bandwidth_inbound_bytes,
                            parsed.bandwidth_inbound_bytes,
                            dt_ms,
                        ),
                        speed_out_bps: speed_of_counts(
                            p.bandwidth_outbound_bytes,
                            parsed.bandwidth_outbound_bytes,
                            dt_ms,
                        ),
                        ..parsed
                    }
                } else {
                    parsed
                },
                None => parsed,
            };
            let speed_in = match m.speed_in_bps {
                Some(v) => v,
                None => 0,
            };
            let speed_out = match m.speed_out_bps {
                Some(v) => v,
                None => 0,
            };
            push_history(history_in, url, speed_in);
            push_history(history_out, url, speed_out);
            table_set(previous, url.clone(), m);
            table_set(latest, url.clone(), NodeReading::Metrics(m));
        },
        Err(e) => {
            table_set(latest, url.clone(), NodeReading::Failed(e.clone()));
            push_history(history_in, url, 0);
            push_history(history_out, url, 0);
        },
    }
}

/// Applies the poll results in order to the four tables they change.
fn apply_results(
    latest: &mut Vec<(String, NodeReading)>,
    previous: &mut Vec<(String, NodeMetrics)>,
    history_in: &mut Vec<(String, VecDeque<u64>)>,
    history_out: &mut Vec<(String, VecDeque<u64>)>,
    results: &Vec<(String, Result<String, String>)>,
    dt_ms: u64,
)
    requires
        keys_unique(old(latest)@),
        keys_unique(old(previous)@),
        keys_unique(old(history_in)@),
        keys_unique(old(history_out)@),
        histories_bounded(hist_view(old(history_in)@)),
        histories_bounded(hist_view(old(history_out)@)),
    ensures
        keys_unique(final(latest)@),
        keys_unique(final(previous)@),
        keys_unique(final(history_in)@),
        keys_unique(final(history_out)@),
        histories_bounded(hist_view(final(history_in)@)),
        histories_bounded(hist_view(final(history_out)@)),
        poll_steps(
            PollState {
                latest: table_view(old(latest)@),
                previous: table_view(old(previous)@),
                history_in: hist_view(old(history_in)@),
                history_out: hist_view(old(history_out)@),
            },
            results@,
            dt_ms,
        ) == (PollState {
            latest: table_view(final(latest)@),
            previous: table_view(final(previous)@),
            history_in: hist_view(final(history_in)@),
            history_out: hist_view(final(history_out)@),
        }),
{
    let ghost init = PollState {
        latest: table_view(latest@),
        previous: table_view(previous@),
        history_in: hist_view(history_in@),
        history_out: hist_view(history_out@),
    };
    let mut i: usize = 0;
    while i < results.len()
        invariant
            i <= results.len(),
            keys_unique(latest@),
            keys_unique(previous@),
            keys_unique(history_in@),
            keys_unique(history_out@),
            histories_bounded(hist_view(history_in@)),
            histories_bounded(hist_view(history_out@)),
            poll_steps(init, results@.subrange(0, i as int), dt_ms) == (PollState {
                latest: table_view(latest@),
                previous: table_view(previous@),
                history_in: hist_view(history_in@),
                history_out: hist_view(history_out@),
            }),
        decreases results.len() - i,
    {
        let ghost done = results@.subrange(0, i + 1);
        assert(done.drop_last() == results@.subrange(0, i as int));
        assert(done.last() == results@[i as int]);
        record_result(
            latest,
            previous,
            history_in,
            history_out,
            &results[i].0,
            &results[i].1,
            dt_ms,
        );
        i = i + 1;
    }
    assert(results@.subrange(0, results.len() as int) == results@);
}

/// Fleet totals over the successful readings.
struct RunningTotals {
    cpu: u128,
    speed_in: u128,
    speed_out: u128,
    data_in: u128,
    data_out: u128,
    records: u128,
    rewards: u128,
    peers: u128,
}

proof fn lemma_running_sum_step(t: Seq<(String, NodeReading)>, i: int, f: FleetField)
    requires
        0 <= i < t.len(),
    ensures
        running_sum(t.subrange(0, i + 1), f) == running_sum(t.subrange(0, i), f) + running_value(
            t[i].1,
            f,
        ),
{
    let s = t.subrange(0, i + 1);
    assert(s.drop_last() == t.subrange(0, i));
    assert(s.last() == t[i]);
}

fn count_or_zero(v: Option<u64>) -> (r: u64)
    ensures
        r == count_of(v),
{
    match v {
        Some(x) => x,
        None => 0,
    }
}

/// Sums the fleet totals over the successful readings of `t`.
fn running_totals(t: &Vec<(String, NodeReading)>) -> (r: RunningTotals)
    ensures
        r.cpu == running_sum(t@, FleetField::Cpu),
        r.speed_in == running_sum(t@, FleetField::SpeedIn),
        r.speed_out == running_sum(t@, FleetField::SpeedOut),
        r.data_in == running_sum(t@, FleetField::DataIn),
        r.data_out == running_sum(t@, FleetField::DataOut),
        r.records == running_sum(t@, FleetField::Records),
        r.rewards == running_sum(t@, FleetField::Rewards),
        r.peers == running_sum(t@, FleetField::Peers),
{
    let mut r = RunningTotals {
        cpu: 0,
        speed_in: 0,
        speed_out: 0,
        data_in: 0,
        data_out: 0,
        records: 0,
        rewards: 0,
        peers: 0,
    };
    let mut i: usize = 0;
    while i < t.len()
        invariant
            i <= t.len(),
            r.cpu == running_sum(t@.subrange(0, i as int), FleetField::Cpu),
            r.speed_in == running_sum(t@.subrange(0, i as int), FleetField::SpeedIn),
            r.speed_out == running_sum(t@.subrange(0, i as int), FleetField::SpeedOut),
            r.data_in == running_sum(t@.subrange(0, i as int), FleetField::DataIn),
            r.data_out == running_sum(t@.subrange(0, i as int), FleetField::DataOut),
            r.records == running_sum(t@.subrange(0, i as int), FleetField::Records),
            r.rewards == running_sum(t@.subrange(0, i as int), FleetField::Rewards),
            r.peers == running_sum(t@.subrange(0, i as int), FleetField::Peers),
            r.cpu <= i * 18446744073709551615,
            r.speed_in <= i * 18446744073709551615,
            r.speed_out <= i * 18446744073709551615,
            r.data_in <= i * 18446744073709551615,
            r.data_out <= i * 18446744073709551615,
            r.records <= i * 18446744073709551615,
            r.rewards <= i * 18446744073709551615,
            r.peers <= i * 18446744073709551615,
        decreases t.len() - i,
    {
        proof {
            lemma_running_sum_step(t@, i as int, FleetField::Cpu);
            lemma_running_sum_step(t@, i as int, FleetField::SpeedIn);
            lemma_running_sum_step(t@, i as int, FleetField::SpeedOut);
            lemma_running_sum_step(t@, i as int, FleetField::DataIn);
            lemma_running_sum_step(t@, i as int, FleetField::DataOut);
            lemma_running_sum_step(t@, i as int, FleetField::Records);
            lemma_running_sum_step(t@, i as int, FleetField::Rewards);
            lemma_running_sum_step(t@, i as int, FleetField::Peers);
        }
        match &t[i].1 {
            NodeReading::Metrics(m) => {
                let cpu: u64 = match m.cpu_usage_percentage {
                    Some(d) => d.millionths,
                    None => 0,
                };
                r.cpu = r.cpu + cpu as u128;
                r.speed_in = r.speed_in + count_or_zero(m.speed_in_bps) as u128;
                r.speed_out = r.speed_out + count_or_zero(m.speed_out_bps) as u128;
                r.data_in = r.data_in + count_or_zero(m.bandwidth_inbound_bytes) as u128;
                r.data_out = r.data_out + count_or_zero(m.bandwidth_outbound_bytes) as u128;
                r.records = r.records + count_or_zero(m.records_stored) as u128;
                r.rewards = r.rewards + count_or_zero(m.reward_wallet_balance) as u128;
                r.peers = r.peers + count_or_zero(m.connected_peers) as u128;
            },
            _ => {},
        }
        i = i + 1;
    }
    assert(t@.subrange(0, t.len() as int) == t@);
    r
}

/// Bytes used under the sampled record stores, and how many could not be read.
fn storage_totals(trees: &Vec<Entry>) -> (r: (u128, u64))
    ensures
        r.0 == used_storage(trees@),
        r.1 == unreadable_count(trees@),
{
    let mut used: u128 = 0;
    let mut unreadable: u64 = 0;
    let mut i: usize = 0;
    while i < trees.len()
        invariant
            i <= trees.len(),
            used == used_storage(trees@.subrange(0, i as int)),
            unreadable == unreadable_count(trees@.subrange(0, i as int)),
            used <= i * 18446744073709551615,
            unreadable <= i,
        decreases trees.len() - i,
    {
        let ghost s = trees@.subrange(0, i + 1);
        assert(s.drop_last() == trees@.subrange(0, i as int));
        assert(s.last() == trees@[i as int]);
        match dir_size(&trees[i]) {
            Some(n) => {
                used = used + n as u128;
            },
            None => {
                unreadable = unreadable + 1;
            },
        }
        i = i + 1;
    }
    assert(trees@.subrange(0, trees.len() as int) == trees@);
    (used, unreadable)
}

/// The URLs mapped from node directories, later pairs replacing earlier ones.
pub open spec fn pairs_map<V>(s: Seq<(String, V)>) -> Map<Seq<char>, V>
    decreases s.len(),
{
    if s.len() == 0 {
        Map::empty()
    } else {
        pairs_map(s.drop_last()).insert(s.last().0@, s.last().1)
    }
}

/// Every URL of the pairs, awaiting its first poll.
pub open spec fn fetching_map(s: Seq<(String, String)>) -> Map<Seq<char>, NodeReading>
    decreases s.len(),
{
    if s.len() == 0 {
        Map::empty()
    } else {
        fetching_map(s.drop_last()).insert(s.last().1@, NodeReading::Fetching)
    }
}

/// A table holding the pairs, later pairs replacing earlier ones.
fn table_from_pairs(pairs: &Vec<(String, String)>) -> (r: Vec<(String, String)>)
    ensures
        keys_unique(r@),
        table_view(r@) == pairs_map(pairs@),
{
    let mut r: Vec<(String, String)> = Vec::new();
    proof {
        lemma_table_empty(r@);
    }
    let mut i: usize = 0;
    while i < pairs.len()
        invariant
            i <= pairs.len(),
            keys_unique(r@),
            table_view(r@) == pairs_map(pairs@.subrange(0, i as int)),
        decreases pairs.len() - i,
    {
        let ghost s = pairs@.subrange(0, i + 1);
        assert(s.drop_last() == pairs@.subrange(0, i as int));
        assert(s.last() == pairs@[i as int]);
        table_set(&mut r, pairs[i].0.clone(), pairs[i].1.clone());
        i = i + 1;
    }
    assert(pairs@.subrange(0, pairs.len() as int) == pairs@);
    r
}

/// The update interval a new engine starts with: one second.
pub const DEFAULT_TICK_RATE_MS: u64 = 1000;

impl App {
    /// Creates the engine from the initial discovery.
    ///
    /// `discovered_node_dirs` are the node directories found; `initial_node_urls`
    /// the (directory, metrics URL) pairs found in their logs; and
    /// `record_store_paths` the (directory, record-store directory) pairs of the
    /// nodes that have a record store. `now_ms` is the current time.
    pub fn new(
        discovered_node_dirs: Vec<String>,
        initial_node_urls: Vec<(String, String)>,
        record_store_paths: Vec<(String, String)>,
        now_ms: u64,
    ) -> (r: App)
        ensures
            r.wf(),
            r.nodes@ == discovered_node_dirs@,
            table_view(r.node_urls@) == pairs_map(initial_node_urls@),
            table_view(r.node_metrics@) == fetching_map(initial_node_urls@),
            table_view(r.node_record_store_paths@) == pairs_map(record_store_paths@),
            r.previous_metrics@.len() == 0,
            r.speed_in_history@.len() == 0,
            r.speed_out_history@.len() == 0,
            r.total_speed_in_history@.len() == 0,
            r.total_speed_out_history@.len() == 0,
            r.summary.total_allocated_storage == r.node_record_store_paths@.len()
                * STORAGE_PER_NODE_BYTES,
            r.summary.total_used_storage_bytes is None,
            r.summary.storage_unreadable_nodes == 0,
            r.summary.total_cpu_usage == 0,
            r.summary.summary_total_in_speed == 0,
            r.summary.summary_total_out_speed == 0,
            r.summary.summary_total_data_in_bytes == 0,
            r.summary.summary_total_data_out_bytes == 0,
            r.summary.summary_total_records == 0,
            r.summary.summary_total_rewards == 0,
            r.summary.summary_total_live_peers == 0,
            r.last_update_ms == now_ms,
            r.previous_update_ms == now_ms,
            r.status_message is None,
            r.scroll_offset == 0,
            r.tick_rate_ms == DEFAULT_TICK_RATE_MS,
    {
        let node_urls = table_from_pairs(&initial_node_urls);
        let mut metrics: Vec<(String, NodeReading)> = Vec::new();
        proof {
            lemma_table_empty(metrics@);
        }
        let mut i: usize = 0;
        while i < initial_node_urls.len()
            invariant
                i <= initial_node_urls.len(),
                keys_unique(metrics@),
                table_view(metrics@) == fetching_map(initial_node_urls@.subrange(0, i as int)),
            decreases initial_node_urls.len() - i,
        {
            let ghost s = initial_node_urls@.subrange(0, i + 1);
            assert(s.drop_last() == initial_node_urls@.subrange(0, i as int));
            assert(s.last() == initial_node_urls@[i as int]);
            table_set(&mut metrics, initial_node_urls[i].1.clone(), NodeReading::Fetching);
            i = i + 1;
        }
        assert(initial_node_urls@.subrange(0, initial_node_urls.len() as int)
            == initial_node_urls@);
        let stores = table_from_pairs(&record_store_paths);
        let allocated: u128 = stores.len() as u128 * STORAGE_PER_NODE_BYTES as u128;
        let empty_in: Vec<(String, VecDeque<u64>)> = Vec::new();
        let empty_out: Vec<(String, VecDeque<u64>)> = Vec::new();
        let empty_prev: Vec<(String, NodeMetrics)> = Vec::new();
        proof {
            lemma_table_empty(empty_in@);
            lemma_table_empty(empty_out@);
            lemma_table_empty(empty_prev@);
            assert(hist_view(empty_in@) =~= Map::<Seq<char>, Seq<u64>>::empty());
            assert(hist_view(empty_out@) =~= Map::<Seq<char>, Seq<u64>>::empty());
        }
        App {
            nodes: discovered_node_dirs,
            node_urls,
            node_metrics: metrics,
            node_record_store_paths: stores,
            previous_metrics: empty_prev,
            last_update_ms: now_ms,
            previous_update_ms: now_ms,
            speed_in_history: empty_in,
            speed_out_history: empty_out,
            total_speed_in_history: VecDeque::new(),
            total_speed_out_history: VecDeque::new(),
            summary: FleetSummary {
                total_cpu_usage: 0,
                total_allocated_storage: allocated,
                total_used_storage_bytes: None,
                storage_unreadable_nodes: 0,
                summary_total_in_speed: 0,
                summary_total_out_speed: 0,
                summary_total_data_in_bytes: 0,
                summary_total_data_out_bytes: 0,
                summary_total_records: 0,
                summary_total_rewards: 0,
                summary_total_live_peers: 0,
            },
            status_message: None,
            scroll_offset: 0,
            tick_rate_ms: DEFAULT_TICK_RATE_MS,
        }
    }

    /// Applies one tick's poll results, taken at `now_ms`, and recomputes the
    /// fleet totals; `record_stores` are the record-store trees sampled for
    /// this tick.
    ///
    /// The latest readings are rebuilt from this tick's results alone; speeds
    /// are measured over the time since the update before the last one, and
    /// are not computed when the clock did not advance.
    pub fn update_metrics(
        &mut self,
        results: Vec<(String, Result<String, String>)>,
        now_ms: u64,
        record_stores: &Vec<Entry>,
    )
        requires
            old(self).wf(),
        ensures
            final(self).wf(),
            final(self).poll_state() == poll_steps(
                PollState { latest: Map::empty(), ..old(self).poll_state() },
                results@,
                elapsed_ms(old(self).previous_update_ms, now_ms),
            ),
            final(self).summary.total_cpu_usage == running_sum(
                final(self).node_metrics@,
                FleetField::Cpu,
            ),
            final(self).summary.summary_total_in_speed == running_sum(
                final(self).node_metrics@,
                FleetField::SpeedIn,
            ),
            final(self).summary.summary_total_out_speed == running_sum(
                final(self).node_metrics@,
                FleetField::SpeedOut,
            ),
            final(self).summary.summary_total_data_in_bytes == running_sum(
                final(self).node_metrics@,
                FleetField::DataIn,
            ),
            final(self).summary.summary_total_data_out_bytes == running_sum(
                final(self).node_metrics@,
                FleetField::DataOut,
            ),
            final(self).summary.summary_total_records == running_sum(
                final(self).node_metrics@,
                FleetField::Records,
            ),
            final(self).summary.summary_total_rewards == running_sum(
                final(self).node_metrics@,
                FleetField::Rewards,
            ),
            final(self).summary.summary_total_live_peers == running_sum(
                final(self).node_metrics@,
                FleetField::Peers,
            ),
            final(self).total_speed_in_history@ == push_capped(
                old(self).total_speed_in_history@,
                sample_of_total(final(self).summary.summary_total_in_speed as nat),
            ),
            final(self).total_speed_out_history@ == push_capped(
                old(self).total_speed_out_history@,
                sample_of_total(final(self).summary.summary_total_out_speed as nat),
            ),
            final(self).summary.total_allocated_storage == old(self).node_record_store_paths@.len()
                * STORAGE_PER_NODE_BYTES,
            final(self).summary.total_used_storage_bytes == Some(
                used_storage(record_stores@) as u128,
            ),
            final(self).summary.storage_unreadable_nodes == unreadable_count(record_stores@),
            final(self).previous_update_ms == old(self).last_update_ms,
            final(self).last_update_ms == now_ms,
            final(self).nodes == old(self).nodes,
            final(self).node_urls == old(self).node_urls,
            final(self).node_record_store_paths == old(self).node_record_store_paths,
            final(self).status_message == old(self).status_message,
            final(self).scroll_offset == old(self).scroll_offset,
            final(self).tick_rate_ms == old(self).tick_rate_ms,
    {
        let dt_ms: u64 = if now_ms > self.previous_update_ms {
            now_ms - self.previous_update_ms
        } else {
            0
        };
        let mut latest: Vec<(String, NodeReading)> = Vec::new();
        proof {
            lemma_table_empty(latest@);
        }
        apply_results(
            &mut latest,
            &mut self.previous_metrics,
            &mut self.speed_in_history,
            &mut self.speed_out_history,
            &results,
            dt_ms,
        );
        self.node_metrics = latest;
        self.previous_update_ms = self.last_update_ms;
        self.last_update_ms = now_ms;

        let totals = running_totals(&self.node_metrics);
        self.summary.total_cpu_usage = totals.cpu;
        self.summary.summary_total_in_speed = totals.speed_in;
        self.summary.summary_total_out_speed = totals.speed_out;
        self.summary.summary_total_data_in_bytes = totals.data_in;
        self.summary.summary_total_data_out_bytes = totals.data_out;
        self.summary.summary_total_records = totals.records;
        self.summary.summary_total_rewards = totals.rewards;
        self.summary.summary_total_live_peers = totals.peers;

        let total_in: u64 = if totals.speed_in > u64::MAX as u128 {
            u64::MAX
        } else {
            totals.speed_in as u64
        };
        let total_out: u64 = if totals.speed_out > u64::MAX as u128 {
            u64::MAX
        } else {
            totals.speed_out as u64
        };
        push_sample(&mut self.total_speed_in_history, total_in);
        push_sample(&mut self.total_speed_out_history, total_out);

        self.summary.total_allocated_storage = self.node_record_store_paths.len() as u128
            * STORAGE_PER_NODE_BYTES as u128;
        let (used, unreadable) = storage_totals(record_stores);
        self.summary.total_used_storage_bytes = Some(used);
        self.summary.storage_unreadable_nodes = unreadable;
    }
}

/// `d` is one of the node directories.
pub open spec fn has_node(nodes: Seq<String>, d: Seq<char>) -> bool {
    exists|i: int| 0 <= i < nodes.len() && #[trigger] nodes[i]@ == d
}

/// The registry and latest readings after the discovered (directory, URL)
/// pairs, with whether any changed. A pair counts for a known directory whose
/// URL is absent or different; its URL then awaits its first poll.
pub open spec fn reconcile_spec(
    nodes: Seq<String>,
    urls: Map<Seq<char>, String>,
    latest: Map<Seq<char>, NodeReading>,
    found: Seq<(String, String)>,
) -> (Map<Seq<char>, String>, Map<Seq<char>, NodeReading>, bool)
    decreases found.len(),
{
    if found.len() == 0 {
        (urls, latest, false)
    } else {
        let before = reconcile_spec(nodes, urls, latest, found.drop_last());
        let dir = found.last().0;
        let url = found.last().1;
        if has_node(nodes, dir@) && !(before.0.contains_key(dir@) && before.0[dir@]@ == url@) {
            (before.0.insert(dir@, url), before.1.insert(url@, NodeReading::Fetching), true)
        } else {
            before
        }
    }
}

/// Whether `d` is one of the node directories.
fn contains_node(nodes: &Vec<String>, d: &String) -> (r: bool)
    ensures
        r == has_node(nodes@, d@),
{
    let mut i: usize = 0;
    while i < nodes.len()
        invariant
            i <= nodes.len(),
            forall|j: int| 0 <= j < i ==> #[trigger] nodes@[j]@ != d@,
        decreases nodes.len() - i,
    {
        if nodes[i] == *d {
            return true;
        }
        i = i + 1;
    }
    false
}

/// The update intervals that the tick rate steps through, in milliseconds.
pub open spec fn tick_level(i: int) -> u64 {
    if i <= 0 {
        100
    } else if i == 1 {
        200
    } else if i == 2 {
        500
    } else if i == 3 {
        1000
    } else if i == 4 {
        2000
    } else if i == 5 {
        5000
    } else if i == 6 {
        10_000
    } else if i == 7 {
        30_000
    } else if i == 8 {
        60_000
    } else if i == 9 {
        300_000
    } else if i == 10 {
        600_000
    } else if i == 11 {
        1_800_000
    } else {
        3_600_000
    }
}

/// How many tick levels there are.
pub const TICK_LEVEL_COUNT: usize = 13;

/// Executable form of [`tick_level`].
fn tick_level_ms(i: usize) -> (r: u64)
    ensures
        r == tick_level(i as int),
{
    if i == 0 {
        100
    } else if i == 1 {
        200
    } else if i == 2 {
        500
    } else if i == 3 {
        1000
    } else if i == 4 {
        2000
    } else if i == 5 {
        5000
    } else if i == 6 {
        10_000
    } else if i == 7 {
        30_000
    } else if i == 8 {
        60_000
    } else if i == 9 {
        300_000
    } else if i == 10 {
        600_000
    } else if i == 11 {
        1_800_000
    } else {
        3_600_000
    }
}

/// The next slower interval: the smallest level above `current`, or the
/// largest level when none is above.
pub open spec fn slower_tick(current: u64) -> u64 {
    if exists|i: int| 0 <= i < 13 && tick_level(i) > current {
        tick_level(choose|i: int| 0 <= i < 13 && tick_level(i) > current && forall|j: int|
            0 <= j < i ==> tick_level(j) <= current)
    } else {
        tick_level(12)
    }
}

/// The next faster interval: the largest level below `current`, or the
/// smallest level when none is below.
pub open spec fn faster_tick(current: u64) -> u64 {
    if exists|i: int| 0 <= i < 13 && tick_level(i) < current {
        tick_level(choose|i: int| 0 <= i < 13 && tick_level(i) < current && forall|j: int|
            i < j < 13 ==> tick_level(j) >= current)
    } else {
        tick_level(0)
    }
}

/// The interval after one step: slower when `increase`, else faster.
pub open spec fn next_tick_rate(current: u64, increase: bool) -> u64 {
    if increase {
        slower_tick(current)
    } else {
        faster_tick(current)
    }
}

/// Executable form of [`next_tick_rate`].
pub fn step_tick_rate(current: u64, increase: bool) -> (r: u64)
    ensures
        r == next_tick_rate(current, increase),
{
    if increase {
        let mut i: usize = 0;
        while i < TICK_LEVEL_COUNT
            invariant
                i <= 13,
                increase,
                forall|j: int| 0 <= j < i ==> tick_level(j) <= current,
            decreases 13 - i,
        {
            let level = tick_level_ms(i);
            if level > current {
                assert(tick_level(i as int) > current);
                let ghost c = choose|k: int|
                    0 <= k < 13 && tick_level(k) > current && forall|j: int|
                        0 <= j < k ==> tick_level(j) <= current;
                assert(0 <= c < 13 && tick_level(c) > current);
                assert(c == i as int);
                return level;
            }
            i = i + 1;
        }
        tick_level_ms(12)
    } else {
        let mut i: usize = TICK_LEVEL_COUNT;
        while i > 0
            invariant
                i <= 13,
                !increase,
                forall|j: int| i <= j < 13 ==> tick_level(j) >= current,
            decreases i,
        {
            let level = tick_level_ms(i - 1);
            if level < current {
                assert(tick_level(i - 1) < current);
                let ghost c = choose|k: int|
                    0 <= k < 13 && tick_level(k) < current && forall|j: int|
                        k < j < 13 ==> tick_level(j) >= current;
                assert(0 <= c < 13 && tick_level(c) < current);
                assert(c == i - 1);
                return level;
            }
            i = i - 1;
        }
        tick_level_ms(0)
    }
}

/// The index of a history sample and its value, for charting.
pub open spec fn chart_points(h: Seq<u64>) -> Seq<(u64, u64)> {
    Seq::new(h.len(), |i: int| (i as u64, h[i]))
}

/// The chart points of a history.
fn chart_of(h: &VecDeque<u64>) -> (r: Vec<(u64, u64)>)
    ensures
        r@ == chart_points(h@),
{
    let mut r: Vec<(u64, u64)> = Vec::new();
    let mut i: usize = 0;
    while i < h.len()
        invariant
            i <= h.len(),
            r@ == chart_points(h@).subrange(0, i as int),
        decreases h.len() - i,
    {
        r.push((i as u64, h[i]));
        i = i + 1;
    }
    r
}

/// The status of node directory `dir`: unknown without a URL, fetching until
/// a poll result for the URL came back, then running or stopped.
pub open spec fn status_spec(
    urls: Map<Seq<char>, String>,
    latest: Map<Seq<char>, NodeReading>,
    dir: Seq<char>,
) -> NodeStatus {
    if !urls.contains_key(dir) {
        NodeStatus::Unknown
    } else {
        let url = urls[dir]@;
        if !latest.contains_key(url) {
            NodeStatus::Fetching
        } else {
            match latest[url] {
                NodeReading::Fetching => NodeStatus::Fetching,
                NodeReading::Metrics(m) => NodeStatus::Running(m),
                NodeReading::Failed(e) => NodeStatus::Stopped(e),
            }
        }
    }
}

/// The nodes among `nodes` whose status is running.
pub open spec fn running_count_spec(
    nodes: Seq<String>,
    urls: Map<Seq<char>, String>,
    latest: Map<Seq<char>, NodeReading>,
) -> nat
    decreases nodes.len(),
{
    if nodes.len() == 0 {
        0
    } else {
        running_count_spec(nodes.drop_last(), urls, latest) + if status_spec(
            urls,
            latest,
            nodes.last()@,
        ) is Running {
            1nat
        } else {
            0nat
        }
    }
}

impl App {
    /// Takes in the (directory, URL) pairs of a rediscovery. A known directory
    /// whose URL is new or changed gets it, and the URL awaits its first poll.
    /// Directories are never added or removed here. Returns whether anything
    /// changed, and then sets the status message.
    pub fn reconcile_discovery(&mut self, found: &Vec<(String, String)>) -> (updated: bool)
        requires
            old(self).wf(),
        ensures
            final(self).wf(),
            (table_view(final(self).node_urls@), table_view(final(self).node_metrics@), updated)
                == reconcile_spec(
                old(self).nodes@,
                table_view(old(self).node_urls@),
                table_view(old(self).node_metrics@),
                found@,
            ),
            updated ==> (final(self).status_message matches Some(m) && m@
                == "Node URLs updated."@),
            !updated ==> final(self).status_message == old(self).status_message,
            final(self).last_update_ms == old(self).last_update_ms,
            final(self).previous_update_ms == old(self).previous_update_ms,
            final(self).total_speed_in_history == old(self).total_speed_in_history,
            final(self).total_speed_out_history == old(self).total_speed_out_history,
            final(self).summary == old(self).summary,
            final(self).scroll_offset == old(self).scroll_offset,
            final(self).tick_rate_ms == old(self).tick_rate_ms,
            final(self).nodes == old(self).nodes,
            final(self).previous_metrics == old(self).previous_metrics,
            final(self).speed_in_history == old(self).speed_in_history,
            final(self).speed_out_history == old(self).speed_out_history,
            final(self).node_record_store_paths == old(self).node_record_store_paths,
    {
        let mut updated = false;
        let mut i: usize = 0;
        while i < found.len()
            invariant
                i <= found.len(),
                self.wf(),
                (table_view(self.node_urls@), table_view(self.node_metrics@), updated)
                    == reconcile_spec(
                    old(self).nodes@,
                    table_view(old(self).node_urls@),
                    table_view(old(self).node_metrics@),
                    found@.subrange(0, i as int),
                ),
                self.nodes == old(self).nodes,
                self.previous_metrics == old(self).previous_metrics,
                self.speed_in_history == old(self).speed_in_history,
                self.speed_out_history == old(self).speed_out_history,
                self.node_record_store_paths == old(self).node_record_store_paths,
                self.status_message == old(self).status_message,
                self.last_update_ms == old(self).last_update_ms,
                self.previous_update_ms == old(self).previous_update_ms,
                self.total_speed_in_history == old(self).total_speed_in_history,
                self.total_speed_out_history == old(self).total_speed_out_history,
                self.summary == old(self).summary,
                self.scroll_offset == old(self).scroll_offset,
                self.tick_rate_ms == old(self).tick_rate_ms,
            decreases found.len() - i,
        {
            let ghost s = found@.subrange(0, i + 1);
            assert(s.drop_last() == found@.subrange(0, i as int));
            assert(s.last() == found@[i as int]);
            let dir = &found[i].0;
            let url = &found[i].1;
            if contains_node(&self.nodes, dir) {
                let same = match find_key(&self.node_urls, dir) {
                    Some(j) => {
                        proof {
                            lemma_table_index(self.node_urls@, j as int);
                        }
                        self.node_urls[j].1 == *url
                    },
                    None => {
                        assert(!table_view(self.node_urls@).contains_key(dir@));
                        false
                    },
                };
                if !same {
                    table_set(&mut self.node_urls, dir.clone(), url.clone());
                    table_set(&mut self.node_metrics, url.clone(), NodeReading::Fetching);
                    updated = true;
                }
            }
            i = i + 1;
        }
        assert(found@.subrange(0, found.len() as int) == found@);
        if updated {
            self.status_message = Some(crate::text::string_from_chars(
                &crate::text::chars_of("Node URLs updated."),
            ));
        }
        updated
    }

    /// Steps the update interval through the tick levels: to the next slower
    /// level when `increase`, else to the next faster one.
    pub fn adjust_tick_rate(&mut self, increase: bool)
        ensures
            final(self).tick_rate_ms == next_tick_rate(old(self).tick_rate_ms, increase),
            final(self).same_data(old(self)),
            final(self).status_message == old(self).status_message,
            final(self).scroll_offset == old(self).scroll_offset,
    {
        self.tick_rate_ms = step_tick_rate(self.tick_rate_ms, increase);
    }

    /// The status of node directory `dir`.
    pub fn node_status(&self, dir: &String) -> (r: NodeStatus)
        requires
            self.wf(),
        ensures
            r == status_spec(table_view(self.node_urls@), table_view(self.node_metrics@), dir@),
    {
        match find_key(&self.node_urls, dir) {
            None => {
                assert(!table_view(self.node_urls@).contains_key(dir@));
                NodeStatus::Unknown
            },
            Some(i) => {
                proof {
                    lemma_table_index(self.node_urls@, i as int);
                }
                let url = &self.node_urls[i].1;
                match find_key(&self.node_metrics, url) {
                    None => {
                        assert(!table_view(self.node_metrics@).contains_key(url@));
                        NodeStatus::Fetching
                    },
                    Some(j) => {
                        proof {
                            lemma_table_index(self.node_metrics@, j as int);
                        }
                        match &self.node_metrics[j].1 {
                            NodeReading::Fetching => NodeStatus::Fetching,
                            NodeReading::Metrics(m) => NodeStatus::Running(*m),
                            NodeReading::Failed(e) => NodeStatus::Stopped(e.clone()),
                        }
                    },
                }
            },
        }
    }

    /// How many of the discovered nodes are running.
    pub fn running_node_count(&self) -> (r: usize)
        requires
            self.wf(),
        ensures
            r == running_count_spec(
                self.nodes@,
                table_view(self.node_urls@),
                table_view(self.node_metrics@),
            ),
    {
        let mut count: usize = 0;
        let mut i: usize = 0;
        while i < self.nodes.len()
            invariant
                i <= self.nodes.len(),
                self.wf(),
                count <= i,
                count == running_count_spec(
                    self.nodes@.subrange(0, i as int),
                    table_view(self.node_urls@),
                    table_view(self.node_metrics@),
                ),
            decreases self.nodes.len() - i,
        {
            let ghost s = self.nodes@.subrange(0, i + 1);
            assert(s.drop_last() == self.nodes@.subrange(0, i as int));
            assert(s.last() == self.nodes@[i as int]);
            match self.node_status(&self.nodes[i]) {
                NodeStatus::Running(_) => {
                    count = count + 1;
                },
                _ => {},
            }
            i = i + 1;
        }
        assert(self.nodes@.subrange(0, self.nodes.len() as int) == self.nodes@);
        count
    }

    /// The inbound speed history of `url` as (index, value) chart points;
    /// empty when there is none.
    pub fn chart_data_in(&self, url: &String) -> (r: Vec<(u64, u64)>)
        requires
            self.wf(),
        ensures
            r@ == chart_points(history_of(hist_view(self.speed_in_history@), url@)),
    {
        match find_key(&self.speed_in_history, url) {
            Some(i) => {
                proof {
                    lemma_table_index(self.speed_in_history@, i as int);
                }
                chart_of(&self.speed_in_history[i].1)
            },
            None => {
                assert(!hist_view(self.speed_in_history@).contains_key(url@));
                Vec::new()
            },
        }
    }

    /// The outbound speed history of `url` as (index, value) chart points;
    /// empty when there is none.
    pub fn chart_data_out(&self, url: &String) -> (r: Vec<(u64, u64)>)
        requires
            self.wf(),
        ensures
            r@ == chart_points(history_of(hist_view(self.speed_out_history@), url@)),
    {
        match find_key(&self.speed_out_history, url) {
            Some(i) => {
                proof {
                    lemma_table_index(self.speed_out_history@, i as int);
                }
                chart_of(&self.speed_out_history[i].1)
            },
            None => {
                assert(!hist_view(self.speed_out_history@).contains_key(url@));
                Vec::new()
            },
        }
    }

    /// Scrolls the node list up by one row.
    pub fn scroll_up(&mut self)
        ensures
            final(self).same_data(old(self)),
            final(self).status_message == old(self).status_message,
            final(self).tick_rate_ms == old(self).tick_rate_ms,
            final(self).scroll_offset == if old(self).scroll_offset > 0 {
                (old(self).scroll_offset - 1) as usize
            } else {
                0
            },
    {
        if self.scroll_offset > 0 {
            self.scroll_offset = self.scroll_offset - 1;
        }
    }

    /// Scrolls the node list down by one row, stopping at the last node.
    pub fn scroll_down(&mut self)
        ensures
            final(self).same_data(old(self)),
            final(self).status_message == old(self).status_message,
            final(self).tick_rate_ms == old(self).tick_rate_ms,
            old(self).nodes.len() == 0 ==> final(self).scroll_offset == old(self).scroll_offset,
            old(self).nodes.len() > 0 ==> final(self).scroll_offset == if old(self).scroll_offset
                + 1 < old(self).nodes.len() - 1 {
                old(self).scroll_offset + 1
            } else {
                old(self).nodes.len() - 1
            },
    {
        let n = self.nodes.len();
        if n > 0 {
            let max_offset = n - 1;
            if self.scroll_offset < max_offset {
                self.scroll_offset = self.scroll_offset + 1;
            } else {
                self.scroll_offset = max_offset;
            }
        }
    }

    /// Keeps the scroll offset within the rows that can be shown:
    /// `visible_rows` at a time; zero when every node fits.
    pub fn clamp_scroll(&mut self, visible_rows: usize)
        ensures
            final(self).same_data(old(self)),
            final(self).status_message == old(self).status_message,
            final(self).tick_rate_ms == old(self).tick_rate_ms,
            old(self).nodes.len() > visible_rows ==> final(self).scroll_offset == if old(
                self,
            ).scroll_offset < old(self).nodes.len() - visible_rows {
                old(self).scroll_offset as int
            } else {
                old(self).nodes.len() - visible_rows
            },
            old(self).nodes.len() <= visible_rows ==> final(self).scroll_offset == 0,
    {
        let n = self.nodes.len();
        if n > visible_rows {
            let most = n - visible_rows;
            if self.scroll_offset > most {
                self.scroll_offset = most;
            }
        } else {
            self.scroll_offset = 0;
        }
    }
}

// ---------------------------------------------------------------------------
// Laws

/// After a counter reset the recorded speed is zero, never negative; while the
/// count grows it is the growth per second, rounded down. Both hold for the
/// reading stored and for the sample appended to the history.
pub proof fn lemma_counter_reset_speed(
    s: PollState,
    url: Seq<char>,
    raw: String,
    dt_ms: u64,
    prev: u64,
    cur: u64,
)
    requires
        dt_ms > 0,
        s.previous.contains_key(url),
        s.previous[url].bandwidth_inbound_bytes == Some(prev),
        parse_metrics_spec(raw@).bandwidth_inbound_bytes == Some(cur),
    ensures
        ({
            let after = poll_step(s, url, Ok(raw), dt_ms);
            &&& after.latest[url] matches NodeReading::Metrics(m) && m.speed_in_bps == Some(
                speed_spec(prev, cur, dt_ms),
            )
            &&& cur < prev ==> after.history_in[url].last() == 0
            &&& cur >= prev ==> after.history_in[url].last() == speed_spec(prev, cur, dt_ms)
            &&& speed_spec(prev, cur, dt_ms) == if cur < prev {
                0
            } else if (cur - prev) * 1000 / (dt_ms as int) > u64::MAX {
                u64::MAX as int
            } else {
                (cur - prev) * 1000 / (dt_ms as int)
            }
        }),
{
    let m = with_speeds(parse_metrics_spec(raw@), previous_of(s.previous, url), dt_ms);
    let h = history_of(s.history_in, url);
    assert(push_capped(h, sample_of(m.speed_in_bps)).last() == sample_of(m.speed_in_bps));
}

/// However many poll results are applied, every history stays within the cap.
pub proof fn lemma_histories_stay_bounded(
    s: PollState,
    results: Seq<(String, Result<String, String>)>,
    dt_ms: u64,
)
    requires
        histories_bounded(s.history_in),
        histories_bounded(s.history_out),
    ensures
        histories_bounded(poll_steps(s, results, dt_ms).history_in),
        histories_bounded(poll_steps(s, results, dt_ms).history_out),
    decreases results.len(),
{
    if results.len() > 0 {
        lemma_histories_stay_bounded(s, results.drop_last(), dt_ms);
        let before = poll_steps(s, results.drop_last(), dt_ms);
        let url = results.last().0@;
        crate::history::lemma_push_capped_bounded_fifo(history_of(before.history_in, url), 0);
        crate::history::lemma_push_capped_bounded_fifo(history_of(before.history_out, url), 0);
        match results.last().1 {
            Ok(raw) => {
                let m = with_speeds(
                    parse_metrics_spec(raw@),
                    previous_of(before.previous, url),
                    dt_ms,
                );
                crate::history::lemma_push_capped_bounded_fifo(
                    history_of(before.history_in, url),
                    sample_of(m.speed_in_bps),
                );
                crate::history::lemma_push_capped_bounded_fifo(
                    history_of(before.history_out, url),
                    sample_of(m.speed_out_bps),
                );
            },
            Err(_) => {},
        }
    }
}

/// A fleet total is the sum over exactly the successful readings: the
/// readings that are failures or still fetching add nothing.
pub proof fn lemma_totals_count_successes_only(t: Seq<(String, NodeReading)>, f: FleetField)
    ensures
        running_sum(t, f) == running_sum(
            t.filter(|e: (String, NodeReading)| e.1 is Metrics),
            f,
        ),
    decreases t.len(),
{
    reveal(Seq::filter);
    if t.len() > 0 {
        lemma_totals_count_successes_only(t.drop_last(), f);
        let pred = |e: (String, NodeReading)| e.1 is Metrics;
        let sub = t.drop_last().filter(pred);
        if pred(t.last()) {
            assert(t.filter(pred) == sub.push(t.last()));
            assert(sub.push(t.last()).drop_last() == sub);
        } else {
            assert(t.filter(pred) == sub);
        }
    }
}

} // verus!
