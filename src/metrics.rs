//! The metric record of one node and the parser that reads it from the
//! Prometheus-style text that a node serves.

use vstd::prelude::*;
use crate::text::{
    all_digits, chars_of, chars_equal, contains, contains_seq, digits_to_u64, digits_value,
    first_and_last_words, first_word, has_prefix, has_two_words, is_digit, last_word, parse_u64,
    parse_u64_spec, slice_chars, starts_with,
};

verus! {

/// One million: a [`Decimal`] holds its value in millionths.
pub const MILLION: u64 = 1_000_000;

/// A non-negative decimal number, held exactly in millionths.
///
/// Readings such as CPU percentage and memory use arrive as decimal text;
/// digits past the sixth after the point are dropped.
#[derive(Clone, Copy, Debug, PartialEq, Eq, Structural)]
pub struct Decimal {
    pub millionths: u64,
}

/// Latest snapshot of one node's metrics. An absent field is a metric that the
/// last successful poll did not report (or did not report in a readable form).
///
/// The two speed fields are derived by the aggregation engine from successive
/// cumulative byte counts; the parser never fills them.
#[derive(Clone, Copy, Debug, PartialEq, Eq, Structural)]
pub struct NodeMetrics {
    pub uptime_seconds: Option<u64>,
    pub memory_used_mb: Option<Decimal>,
    pub cpu_usage_percentage: Option<Decimal>,
    pub connected_peers: Option<u64>,
    pub peers_in_routing_table: Option<u64>,
    pub estimated_network_size: Option<u64>,
    pub bandwidth_inbound_bytes: Option<u64>,
    pub bandwidth_outbound_bytes: Option<u64>,
    pub records_stored: Option<u64>,
    pub put_record_errors: Option<u64>,
    pub reward_wallet_balance: Option<u64>,
    pub incoming_connection_errors: Option<u64>,
    pub outgoing_connection_errors: Option<u64>,
    pub kad_get_closest_peers_errors: Option<u64>,
    /// Inbound bandwidth in bytes per second, rounded down.
    pub speed_in_bps: Option<u64>,
    /// Outbound bandwidth in bytes per second, rounded down.
    pub speed_out_bps: Option<u64>,
}

/// The record with every field absent.
pub open spec fn empty_metrics() -> NodeMetrics {
    NodeMetrics {
        uptime_seconds: None,
        memory_used_mb: None,
        cpu_usage_percentage: None,
        connected_peers: None,
        peers_in_routing_table: None,
        estimated_network_size: None,
        bandwidth_inbound_bytes: None,
        bandwidth_outbound_bytes: None,
        records_stored: None,
        put_record_errors: None,
        reward_wallet_balance: None,
        incoming_connection_errors: None,
        outgoing_connection_errors: None,
        kad_get_closest_peers_errors: None,
        speed_in_bps: None,
        speed_out_bps: None,
    }
}

impl NodeMetrics {
    /// The record with every field absent.
    pub fn empty() -> (r: NodeMetrics)
        ensures
            r == empty_metrics(),
    {
        NodeMetrics {
            uptime_seconds: None,
            memory_used_mb: None,
            cpu_usage_percentage: None,
            connected_peers: None,
            peers_in_routing_table: None,
            estimated_network_size: None,
            bandwidth_inbound_bytes: None,
            bandwidth_outbound_bytes: None,
            records_stored: None,
            put_record_errors: None,
            reward_wallet_balance: None,
            incoming_connection_errors: None,
            outgoing_connection_errors: None,
            kad_get_closest_peers_errors: None,
            speed_in_bps: None,
            speed_out_bps: None,
        }
    }
}

impl Default for NodeMetrics {
    /// The record with every field absent.
    fn default() -> (r: NodeMetrics)
        ensures
            r == empty_metrics(),
    {
        NodeMetrics::empty()
    }
}

// ---------------------------------------------------------------------------
// Decimal text

/// The index of the first `c` in `s` at or after `i`, or `s.len()`.
pub open spec fn index_of_from(s: Seq<char>, c: char, i: int) -> int
    decreases s.len() - i,
{
    if 0 <= i < s.len() && s[i] != c {
        index_of_from(s, c, i + 1)
    } else {
        i
    }
}

/// The first six fractional digits, padded with zeros.
pub open spec fn six_digits(f: Seq<char>) -> Seq<char> {
    Seq::new(6, |k: int| if k < f.len() { f[k] } else { '0' })
}

/// The decimal text that this library reads: an optional `+`, then digits with
/// an optional fractional part (`12`, `12.5`, `12.`, `.5`), at least one digit
/// in all. The value is in millionths, rounded down; text whose value does not
/// fit in a `u64` of millionths is not read.
pub open spec fn parse_decimal_spec(s: Seq<char>) -> Option<Decimal> {
    let d = if s.len() > 0 && s[0] == '+' {
        s.drop_first()
    } else {
        s
    };
    let k = index_of_from(d, '.', 0);
    let whole = d.subrange(0, k);
    let frac = if k < d.len() {
        d.subrange(k + 1, d.len() as int)
    } else {
        Seq::empty()
    };
    let value = digits_value(whole) * 1_000_000 + digits_value(six_digits(frac));
    if all_digits(whole) && all_digits(frac) && whole.len() + frac.len() > 0 && value
        <= u64::MAX {
        Some(Decimal { millionths: value as u64 })
    } else {
        None
    }
}

proof fn lemma_index_of_from_bounds(s: Seq<char>, c: char, i: int)
    requires
        0 <= i <= s.len(),
    ensures
        i <= index_of_from(s, c, i) <= s.len(),
    decreases s.len() - i,
{
    if i < s.len() && s[i] != c {
        lemma_index_of_from_bounds(s, c, i + 1);
    }
}

/// Digits that are all zero spell zero.
proof fn lemma_zeros_value(z: Seq<char>)
    requires
        forall|k: int| 0 <= k < z.len() ==> z[k] == '0',
    ensures
        digits_value(z) == 0,
    decreases z.len(),
{
    if z.len() > 0 {
        lemma_zeros_value(z.drop_last());
    }
}

/// Whether `v[from..]` holds only ASCII digits.
fn all_digits_from(v: &Vec<char>, from: usize) -> (r: bool)
    requires
        from <= v.len(),
    ensures
        r == all_digits(v@.subrange(from as int, v.len() as int)),
{
    let ghost f = v@.subrange(from as int, v.len() as int);
    let mut j = from;
    while j < v.len()
        invariant
            from <= j <= v.len(),
            f == v@.subrange(from as int, v.len() as int),
            forall|q: int| 0 <= q < j - from ==> is_digit(#[trigger] f[q]),
        decreases v.len() - j,
    {
        if !('0' <= v[j] && v[j] <= '9') {
            assert(!is_digit(f[j - from]));
            return false;
        }
        j = j + 1;
    }
    true
}

/// Positions before `p` that do not hold `c` are passed over.
proof fn lemma_index_of_from_skip(s: Seq<char>, c: char, i: int, p: int)
    requires
        0 <= i <= p <= s.len(),
        forall|j: int| i <= j < p ==> s[j] != c,
    ensures
        index_of_from(s, c, i) == index_of_from(s, c, p),
    decreases p - i,
{
    if i < p {
        lemma_index_of_from_skip(s, c, i + 1, p);
    }
}

/// The value of the first six fractional digits in `v[from..]`, padded with zeros.
fn six_digits_value(v: &Vec<char>, from: usize) -> (r: u64)
    requires
        from <= v.len(),
        all_digits(v@.subrange(from as int, v.len() as int)),
    ensures
        r == digits_value(six_digits(v@.subrange(from as int, v.len() as int))),
        r < 1_000_000,
{
    let ghost f = v@.subrange(from as int, v.len() as int);
    let ghost six = six_digits(f);
    let mut acc: u64 = 0;
    let mut k: usize = 0;
    while k < 6
        invariant
            k <= 6,
            from <= v.len(),
            f == v@.subrange(from as int, v.len() as int),
            all_digits(f),
            six == six_digits(f),
            acc == digits_value(six.subrange(0, k as int)),
            acc < 1_000_000,
            k == 0 ==> acc < 1,
            k == 1 ==> acc < 10,
            k == 2 ==> acc < 100,
            k == 3 ==> acc < 1000,
            k == 4 ==> acc < 10000,
            k == 5 ==> acc < 100000,
        decreases 6 - k,
    {
        let c = if k < v.len() - from {
            v[from + k]
        } else {
            '0'
        };
        assert(six[k as int] == c);
        assert(is_digit(c)) by {
            if k < v.len() - from {
                assert(f[k as int] == c);
            }
        }
        assert(six.subrange(0, k + 1).drop_last() == six.subrange(0, k as int));
        acc = acc * 10 + (c as u32 - '0' as u32) as u64;
        k = k + 1;
    }
    assert(six.subrange(0, 6) == six);
    acc
}

/// Reads decimal text as [`parse_decimal_spec`] describes.
pub fn parse_decimal(s: &Vec<char>) -> (r: Option<Decimal>)
    ensures
        r == parse_decimal_spec(s@),
{
    let start: usize = if s.len() > 0 && s[0] == '+' {
        1
    } else {
        0
    };
    let ghost d = s@.subrange(start as int, s.len() as int);
    assert(d == (if s@.len() > 0 && s@[0] == '+' {
        s@.drop_first()
    } else {
        s@
    }));
    // The whole part: digits up to the first other character.
    let mut i = start;
    while i < s.len() && '0' <= s[i] && s[i] <= '9'
        invariant
            start <= i <= s.len(),
            d == s@.subrange(start as int, s.len() as int),
            forall|j: int| 0 <= j < i - start ==> is_digit(#[trigger] d[j]),
        decreases s.len() - i,
    {
        i = i + 1;
    }
    let p = i - start;
    // `p` is where the whole part ends; the point, if any, stands there.
    assert forall|j: int| 0 <= j < p implies d[j] != '.' by {
        assert(is_digit(d[j]));
    }
    proof {
        lemma_index_of_from_skip(d, '.', 0, p as int);
    }
    assert(all_digits(d.subrange(0, p as int)));
    let has_point = i < s.len() && s[i] == '.';
    if i < s.len() && !has_point {
        // A character that is neither a digit nor the point.
        proof {
            assert(d[p as int] == s@[i as int]);
            assert(!is_digit(d[p as int]));
            lemma_index_of_from_bounds(d, '.', p + 1);
            let k = index_of_from(d, '.', 0);
            assert(k > p);
            assert(d.subrange(0, k)[p as int] == d[p as int]);
        }
        return None;
    }
    let frac_start: usize = if has_point {
        i + 1
    } else {
        i
    };
    if !all_digits_from(s, frac_start) {
        proof {
            if has_point {
                assert(index_of_from(d, '.', p as int) == p);
                let frac = d.subrange(p + 1, d.len() as int);
                assert(frac == s@.subrange(frac_start as int, s.len() as int));
            } else {
                assert(s@.subrange(frac_start as int, s.len() as int).len() == 0);
            }
        }
        return None;
    }
    let ghost frac = if has_point {
        d.subrange(p + 1, d.len() as int)
    } else {
        Seq::<char>::empty()
    };
    proof {
        if has_point {
            assert(index_of_from(d, '.', p as int) == p);
            assert(frac == s@.subrange(frac_start as int, s.len() as int));
        } else {
            assert(i == s.len());
            assert(index_of_from(d, '.', p as int) == p);
            assert(d.subrange(0, p as int) == d);
        }
    }
    if p == 0 && frac_start >= s.len() {
        return None;
    }
    let whole = digits_to_u64(s, start, i);
    assert(s@.subrange(start as int, i as int) == d.subrange(0, p as int));
    let fraction: u64 = if has_point {
        assert(all_digits(s@.subrange(frac_start as int, s.len() as int)));
        six_digits_value(s, frac_start)
    } else {
        assert(six_digits(frac) == seq!['0', '0', '0', '0', '0', '0']);
        proof {
            lemma_zeros_value(six_digits(frac));
        }
        0
    };
    match whole {
        None => None,
        Some(w) => match w.checked_mul(MILLION) {
            None => None,
            Some(scaled) => match scaled.checked_add(fraction) {
                None => None,
                Some(v) => Some(Decimal { millionths: v }),
            },
        },
    }
}

// ---------------------------------------------------------------------------
// The metric text

/// `a + b`, or `u64::MAX` when the sum does not fit.
pub open spec fn sat_add(a: u64, b: u64) -> u64 {
    if a + b > u64::MAX {
        u64::MAX
    } else {
        (a + b) as u64
    }
}

/// A running sum of a counter family: present once a line of the family was
/// seen; a line whose value cannot be read adds nothing.
pub open spec fn add_reading(acc: Option<u64>, v: Option<u64>) -> Option<u64> {
    let a = match acc {
        Some(x) => x,
        None => 0u64,
    };
    let b = match v {
        Some(x) => x,
        None => 0u64,
    };
    Some(sat_add(a, b))
}

/// How one line of metric text changes the record.
///
/// Blank lines, comments and lines without a value are skipped. The first word
/// names the metric and the last word is its value. A metric read twice keeps
/// the later reading; the three error families are summed over their lines.
pub open spec fn apply_line(m: NodeMetrics, line: Seq<char>) -> NodeMetrics {
    if line.len() == 0 || line[0] == '#' || !has_two_words(line) {
        m
    } else {
        let name = first_word(line);
        let value = last_word(line);
        if name == "ant_node_uptime"@ {
            NodeMetrics { uptime_seconds: parse_u64_spec(value), ..m }
        } else if name == "ant_networking_process_memory_used_mb"@ {
            NodeMetrics { memory_used_mb: parse_decimal_spec(value), ..m }
        } else if name == "ant_networking_process_cpu_usage_percentage"@ {
            NodeMetrics { cpu_usage_percentage: parse_decimal_spec(value), ..m }
        } else if name == "ant_networking_connected_peers"@ {
            NodeMetrics { connected_peers: parse_u64_spec(value), ..m }
        } else if name == "ant_networking_peers_in_routing_table"@ {
            NodeMetrics { peers_in_routing_table: parse_u64_spec(value), ..m }
        } else if name == "ant_networking_estimated_network_size"@ {
            NodeMetrics { estimated_network_size: parse_u64_spec(value), ..m }
        } else if name == "ant_networking_records_stored"@ {
            NodeMetrics { records_stored: parse_u64_spec(value), ..m }
        } else if name == "ant_node_put_record_err_total"@ {
            NodeMetrics { put_record_errors: parse_u64_spec(value), ..m }
        } else if name == "ant_node_current_reward_wallet_balance"@ {
            NodeMetrics { reward_wallet_balance: parse_u64_spec(value), ..m }
        } else if has_prefix(name, "libp2p_bandwidth_bytes_total"@) {
            if contains_seq(line, "direction=\"Inbound\""@) {
                NodeMetrics { bandwidth_inbound_bytes: parse_u64_spec(value), ..m }
            } else if contains_seq(line, "direction=\"Outbound\""@) {
                NodeMetrics { bandwidth_outbound_bytes: parse_u64_spec(value), ..m }
            } else {
                m
            }
        } else if has_prefix(name, "libp2p_swarm_connections_incoming_error_total"@) {
            NodeMetrics {
                incoming_connection_errors: add_reading(
                    m.incoming_connection_errors,
                    parse_u64_spec(value),
                ),
                ..m
            }
        } else if has_prefix(name, "libp2p_swarm_outgoing_connection_error_total"@) {
            NodeMetrics {
                outgoing_connection_errors: add_reading(
                    m.outgoing_connection_errors,
                    parse_u64_spec(value),
                ),
                ..m
            }
        } else if has_prefix(name, "libp2p_kad_query_result_get_closest_peers_error_total"@) {
            NodeMetrics {
                kad_get_closest_peers_errors: add_reading(
                    m.kad_get_closest_peers_errors,
                    parse_u64_spec(value),
                ),
                ..m
            }
        } else {
            m
        }
    }
}

/// Drops one carriage return that ends a line.
pub open spec fn strip_cr(l: Seq<char>) -> Seq<char> {
    if l.len() > 0 && l.last() == '\r' {
        l.drop_last()
    } else {
        l
    }
}

/// The lines of `t` from the line that starts at `start`, scanning from `i`.
pub open spec fn lines_from(t: Seq<char>, start: int, i: int) -> Seq<Seq<char>>
    decreases t.len() - i,
{
    if 0 <= i < t.len() {
        if t[i] == '\n' {
            seq![strip_cr(t.subrange(start, i))] + lines_from(t, i + 1, i + 1)
        } else {
            lines_from(t, start, i + 1)
        }
    } else if 0 <= start < t.len() {
        seq![t.subrange(start, t.len() as int)]
    } else {
        Seq::empty()
    }
}

/// The lines of `t` as `str::lines` yields them: split at `\n`, a `\r` before
/// the `\n` dropped, no empty line after a final `\n`.
pub open spec fn text_lines(t: Seq<char>) -> Seq<Seq<char>> {
    lines_from(t, 0, 0)
}

/// Applies the lines in order.
pub open spec fn apply_lines(m: NodeMetrics, lines: Seq<Seq<char>>) -> NodeMetrics
    decreases lines.len(),
{
    if lines.len() == 0 {
        m
    } else {
        apply_lines(apply_line(m, lines[0]), lines.drop_first())
    }
}

/// The record that a metric text describes.
pub open spec fn parse_metrics_spec(t: Seq<char>) -> NodeMetrics {
    apply_lines(empty_metrics(), text_lines(t))
}

/// The metric names and labels, as characters.
struct MetricNames {
    uptime: Vec<char>,
    memory: Vec<char>,
    cpu: Vec<char>,
    connected: Vec<char>,
    routing: Vec<char>,
    network_size: Vec<char>,
    records: Vec<char>,
    put_errors: Vec<char>,
    reward: Vec<char>,
    bandwidth: Vec<char>,
    inbound: Vec<char>,
    outbound: Vec<char>,
    incoming_errors: Vec<char>,
    outgoing_errors: Vec<char>,
    kad_errors: Vec<char>,
}

impl MetricNames {
    spec fn wf(&self) -> bool {
        &&& self.uptime@ == "ant_node_uptime"@
        &&& self.memory@ == "ant_networking_process_memory_used_mb"@
        &&& self.cpu@ == "ant_networking_process_cpu_usage_percentage"@
        &&& self.connected@ == "ant_networking_connected_peers"@
        &&& self.routing@ == "ant_networking_peers_in_routing_table"@
        &&& self.network_size@ == "ant_networking_estimated_network_size"@
        &&& self.records@ == "ant_networking_records_stored"@
        &&& self.put_errors@ == "ant_node_put_record_err_total"@
        &&& self.reward@ == "ant_node_current_reward_wallet_balance"@
        &&& self.bandwidth@ == "libp2p_bandwidth_bytes_total"@
        &&& self.inbound@ == "direction=\"Inbound\""@
        &&& self.outbound@ == "direction=\"Outbound\""@
        &&& self.incoming_errors@ == "libp2p_swarm_connections_incoming_error_total"@
        &&& self.outgoing_errors@ == "libp2p_swarm_outgoing_connection_error_total"@
        &&& self.kad_errors@ == "libp2p_kad_query_result_get_closest_peers_error_total"@
    }

    fn new() -> (r: MetricNames)
        ensures
            r.wf(),
    {
        MetricNames {
            uptime: chars_of("ant_node_uptime"),
            memory: chars_of("ant_networking_process_memory_used_mb"),
            cpu: chars_of("ant_networking_process_cpu_usage_percentage"),
            connected: chars_of("ant_networking_connected_peers"),
            routing: chars_of("ant_networking_peers_in_routing_table"),
            network_size: chars_of("ant_networking_estimated_network_size"),
            records: chars_of("ant_networking_records_stored"),
            put_errors: chars_of("ant_node_put_record_err_total"),
            reward: chars_of("ant_node_current_reward_wallet_balance"),
            bandwidth: chars_of("libp2p_bandwidth_bytes_total"),
            inbound: chars_of("direction=\"Inbound\""),
            outbound: chars_of("direction=\"Outbound\""),
            incoming_errors: chars_of("libp2p_swarm_connections_incoming_error_total"),
            outgoing_errors: chars_of("libp2p_swarm_outgoing_connection_error_total"),
            kad_errors: chars_of("libp2p_kad_query_result_get_closest_peers_error_total"),
        }
    }
}

/// Executable form of [`add_reading`].
fn add_to_sum(acc: Option<u64>, v: Option<u64>) -> (r: Option<u64>)
    ensures
        r == add_reading(acc, v),
{
    let a = match acc {
        Some(x) => x,
        None => 0,
    };
    let b = match v {
        Some(x) => x,
        None => 0,
    };
    Some(a.saturating_add(b))
}

/// Executable form of [`apply_line`].
fn apply_metric_line(names: &MetricNames, m: NodeMetrics, line: &Vec<char>) -> (r: NodeMetrics)
    requires
        names.wf(),
    ensures
        r == apply_line(m, line@),
{
    if line.len() == 0 || line[0] == '#' {
        return m;
    }
    let (name, value) = match first_and_last_words(line) {
        Some(words) => words,
        None => {
            return m;
        },
    };
    if chars_equal(&name, &names.uptime) {
        NodeMetrics { uptime_seconds: parse_u64(&value), ..m }
    } else if chars_equal(&name, &names.memory) {
        NodeMetrics { memory_used_mb: parse_decimal(&value), ..m }
    } else if chars_equal(&name, &names.cpu) {
        NodeMetrics { cpu_usage_percentage: parse_decimal(&value), ..m }
    } else if chars_equal(&name, &names.connected) {
        NodeMetrics { connected_peers: parse_u64(&value), ..m }
    } else if chars_equal(&name, &names.routing) {
        NodeMetrics { peers_in_routing_table: parse_u64(&value), ..m }
    } else if chars_equal(&name, &names.network_size) {
        NodeMetrics { estimated_network_size: parse_u64(&value), ..m }
    } else if chars_equal(&name, &names.records) {
        NodeMetrics { records_stored: parse_u64(&value), ..m }
    } else if chars_equal(&name, &names.put_errors) {
        NodeMetrics { put_record_errors: parse_u64(&value), ..m }
    } else if chars_equal(&name, &names.reward) {
        NodeMetrics { reward_wallet_balance: parse_u64(&value), ..m }
    } else if starts_with(&name, &names.bandwidth) {
        if contains(line, &names.inbound) {
            NodeMetrics { bandwidth_inbound_bytes: parse_u64(&value), ..m }
        } else if contains(line, &names.outbound) {
            NodeMetrics { bandwidth_outbound_bytes: parse_u64(&value), ..m }
        } else {
            m
        }
    } else if starts_with(&name, &names.incoming_errors) {
        NodeMetrics {
            incoming_connection_errors: add_to_sum(m.incoming_connection_errors, parse_u64(&value)),
            ..m
        }
    } else if starts_with(&name, &names.outgoing_errors) {
        NodeMetrics {
            outgoing_connection_errors: add_to_sum(m.outgoing_connection_errors, parse_u64(&value)),
            ..m
        }
    } else if starts_with(&name, &names.kad_errors) {
        NodeMetrics {
            kad_get_closest_peers_errors: add_to_sum(
                m.kad_get_closest_peers_errors,
                parse_u64(&value),
            ),
            ..m
        }
    } else {
        m
    }
}

/// Parses the raw metrics text into a [`NodeMetrics`] record.
///
/// Never fails: metrics that are missing or unreadable stay absent, and the
/// speed fields are always absent.
pub fn parse_metrics(metrics_data: &str) -> (r: NodeMetrics)
    ensures
        r == parse_metrics_spec(metrics_data@),
        r.speed_in_bps is None,
        r.speed_out_bps is None,
{
    let t = chars_of(metrics_data);
    let names = MetricNames::new();
    let mut m = NodeMetrics::empty();
    let mut start: usize = 0;
    let mut i: usize = 0;
    while i < t.len()
        invariant
            start <= i <= t.len(),
            t@ == metrics_data@,
            names.wf(),
            parse_metrics_spec(t@) == apply_lines(m, lines_from(t@, start as int, i as int)),
            m.speed_in_bps is None,
            m.speed_out_bps is None,
        decreases t.len() - i,
    {
        if t[i] == '\n' {
            let end: usize = if i > start && t[i - 1] == '\r' {
                i - 1
            } else {
                i
            };
            let line = slice_chars(&t, start, end);
            let ghost l = strip_cr(t@.subrange(start as int, i as int));
            assert(line@ == l);
            let ghost rest = lines_from(t@, i + 1, i + 1);
            assert((seq![l] + rest)[0] == l);
            assert((seq![l] + rest).drop_first() == rest);
            m = apply_metric_line(&names, m, &line);
            start = i + 1;
        }
        i = i + 1;
    }
    if start < t.len() {
        let line = slice_chars(&t, start, t.len());
        let ghost l = t@.subrange(start as int, t.len() as int);
        assert(lines_from(t@, start as int, t.len() as int) == seq![l]);
        assert(seq![l][0] == l);
        assert(seq![l].drop_first() == Seq::<Seq<char>>::empty());
        assert(apply_lines(m, seq![l]) == apply_lines(
            apply_line(m, l),
            Seq::<Seq<char>>::empty(),
        ));
        m = apply_metric_line(&names, m, &line);
    } else {
        assert(lines_from(t@, start as int, t.len() as int) == Seq::<Seq<char>>::empty());
    }
    m
}

/// Parsing is a function of the text alone: the same text always gives the
/// same record, with the speed fields absent.
pub proof fn lemma_parse_is_pure(a: Seq<char>, b: Seq<char>)
    requires
        a == b,
    ensures
        parse_metrics_spec(a) == parse_metrics_spec(b),
        parse_metrics_spec(a).speed_in_bps is None,
        parse_metrics_spec(a).speed_out_bps is None,
{
    lemma_apply_lines_keeps_speeds(empty_metrics(), text_lines(a));
}

/// Lines never set the speed fields.
proof fn lemma_apply_lines_keeps_speeds(m: NodeMetrics, lines: Seq<Seq<char>>)
    ensures
        apply_lines(m, lines).speed_in_bps == m.speed_in_bps,
        apply_lines(m, lines).speed_out_bps == m.speed_out_bps,
    decreases lines.len(),
{
    if lines.len() > 0 {
        lemma_apply_lines_keeps_speeds(apply_line(m, lines[0]), lines.drop_first());
    }
}

} // verus!
