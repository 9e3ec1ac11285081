//! Text for the node table and the summary: numbers, sizes, durations.

use vstd::prelude::*;
use crate::metrics::{Decimal, NodeMetrics};
use crate::text::{chars_of, string_from_chars};

verus! {

// ---------------------------------------------------------------------------
// Building text

/// The character of a decimal digit.
pub open spec fn digit_char(d: nat) -> char {
    if d == 0 {
        '0'
    } else if d == 1 {
        '1'
    } else if d == 2 {
        '2'
    } else if d == 3 {
        '3'
    } else if d == 4 {
        '4'
    } else if d == 5 {
        '5'
    } else if d == 6 {
        '6'
    } else if d == 7 {
        '7'
    } else if d == 8 {
        '8'
    } else {
        '9'
    }
}

/// `n` in decimal, as `Display` writes an unsigned integer.
pub open spec fn decimal_text(n: nat) -> Seq<char>
    decreases n,
{
    if n < 10 {
        seq![digit_char(n)]
    } else {
        decimal_text(n / 10).push(digit_char(n % 10))
    }
}

fn digit(d: u64) -> (r: char)
    requires
        d < 10,
    ensures
        r == digit_char(d as nat),
{
    if d == 0 {
        '0'
    } else if d == 1 {
        '1'
    } else if d == 2 {
        '2'
    } else if d == 3 {
        '3'
    } else if d == 4 {
        '4'
    } else if d == 5 {
        '5'
    } else if d == 6 {
        '6'
    } else if d == 7 {
        '7'
    } else if d == 8 {
        '8'
    } else {
        '9'
    }
}

/// The decimal digits of `n`.
pub fn decimal_chars(n: u64) -> (r: Vec<char>)
    ensures
        r@ == decimal_text(n as nat),
    decreases n,
{
    if n < 10 {
        let mut v: Vec<char> = Vec::new();
        v.push(digit(n));
        v
    } else {
        let mut v = decimal_chars(n / 10);
        v.push(digit(n % 10));
        v
    }
}

/// Appends `w` to `v`.
pub fn extend_chars(v: &mut Vec<char>, w: &Vec<char>)
    ensures
        final(v)@ == old(v)@ + w@,
{
    let mut i: usize = 0;
    while i < w.len()
        invariant
            i <= w.len(),
            v@ == old(v)@ + w@.subrange(0, i as int),
        decreases w.len() - i,
    {
        v.push(w[i]);
        i = i + 1;
    }
    assert(w@.subrange(0, w.len() as int) == w@);
}

/// Appends the characters of `s` to `v`.
pub fn extend_str(v: &mut Vec<char>, s: &str)
    ensures
        final(v)@ == old(v)@ + s@,
{
    let w = chars_of(s);
    extend_chars(v, &w);
}

/// `n` in decimal, padded with a leading zero to two digits (`{:02}`).
pub open spec fn two_digits(n: nat) -> Seq<char> {
    if n < 10 {
        seq!['0', digit_char(n)]
    } else {
        decimal_text(n)
    }
}

fn push_two_digits(v: &mut Vec<char>, n: u64)
    ensures
        final(v)@ == old(v)@ + two_digits(n as nat),
{
    if n < 10 {
        v.push('0');
        v.push(digit(n));
        assert(v@ == old(v)@ + seq!['0', digit_char(n as nat)]);
    } else {
        let d = decimal_chars(n);
        extend_chars(v, &d);
    }
}

/// `n` spaces.
pub open spec fn spaces(n: nat) -> Seq<char> {
    Seq::new(n, |i: int| ' ')
}

/// `s` right-aligned in a field of `width` characters (`{:>width}`).
pub open spec fn pad_left(s: Seq<char>, width: nat) -> Seq<char> {
    if s.len() < width {
        spaces((width - s.len()) as nat) + s
    } else {
        s
    }
}

/// `s` right-aligned in a field of `width` characters.
pub fn right_aligned(s: &str, width: usize) -> (r: String)
    ensures
        r@ == pad_left(s@, width as nat),
{
    let w = chars_of(s);
    let mut v: Vec<char> = Vec::new();
    if w.len() < width {
        let n = width - w.len();
        let mut i: usize = 0;
        while i < n
            invariant
                i <= n,
                v@ == spaces(i as nat),
            decreases n - i,
        {
            v.push(' ');
            i = i + 1;
            assert(v@ == spaces(i as nat));
        }
    }
    extend_chars(&mut v, &w);
    string_from_chars(&v)
}

// ---------------------------------------------------------------------------
// Formatters

/// A dash, the text for a value that is absent.
pub open spec fn dash() -> Seq<char> {
    "-"@
}

fn dash_string() -> (r: String)
    ensures
        r@ == dash(),
{
    string_from_chars(&chars_of("-"))
}

/// The value in decimal, or a dash when absent.
pub fn format_option(opt: Option<u64>) -> (r: String)
    ensures
        r@ == match opt {
            Some(v) => decimal_text(v as nat),
            None => dash(),
        },
{
    match opt {
        Some(v) => string_from_chars(&decimal_chars(v)),
        None => dash_string(),
    }
}

/// Uptime as `Dd HH:MM:SS`, or `HH:MM:SS` under a day.
pub open spec fn uptime_text(s: nat) -> Seq<char> {
    let days = s / 86400;
    let clock = two_digits((s % 86400) / 3600) + ":"@ + two_digits((s % 3600) / 60) + ":"@
        + two_digits(s % 60);
    if days > 0 {
        decimal_text(days) + "d "@ + clock
    } else {
        clock
    }
}

/// Formats an uptime in seconds, or a dash when absent.
pub fn format_uptime(seconds: Option<u64>) -> (r: String)
    ensures
        r@ == match seconds {
            Some(s) => uptime_text(s as nat),
            None => dash(),
        },
{
    match seconds {
        Some(s) => {
            let days = s / 86400;
            let hours = (s % 86400) / 3600;
            let minutes = (s % 3600) / 60;
            let secs = s % 60;
            let mut v: Vec<char> = Vec::new();
            if days > 0 {
                let d = decimal_chars(days);
                extend_chars(&mut v, &d);
                extend_str(&mut v, "d ");
            }
            let ghost prefix = v@;
            push_two_digits(&mut v, hours);
            extend_str(&mut v, ":");
            push_two_digits(&mut v, minutes);
            extend_str(&mut v, ":");
            push_two_digits(&mut v, secs);
            assert(v@ == prefix + (two_digits(hours as nat) + ":"@ + two_digits(minutes as nat)
                + ":"@ + two_digits(secs as nat)));
            string_from_chars(&v)
        },
        None => dash_string(),
    }
}

/// `n / d` rounded to the nearest integer, ties to even.
pub open spec fn div_round_even(n: nat, d: nat) -> nat
    recommends
        d > 0,
{
    let q = n / d;
    let r = n % d;
    if 2 * r > d || (2 * r == d && q % 2 == 1) {
        q + 1
    } else {
        q
    }
}

fn round_half_even(n: u64, d: u64) -> (r: u64)
    requires
        d > 0,
    ensures
        r == div_round_even(n as nat, d as nat),
{
    let q = n / d;
    let rem = n % d;
    if (rem as u128) * 2 > d as u128 || ((rem as u128) * 2 == d as u128 && q % 2 == 1) {
        assert(q < u64::MAX) by (nonlinear_arith)
            requires
                q == n / d,
                rem == n % d,
                d > 0,
                2 * rem >= d,
        ;
        q + 1
    } else {
        q
    }
}

/// `10^p`.
pub open spec fn pow10(p: nat) -> nat
    decreases p,
{
    if p == 0 {
        1
    } else {
        10 * pow10((p - 1) as nat)
    }
}

fn pow10_exec(p: usize) -> (r: u64)
    requires
        p <= 6,
    ensures
        r == pow10(p as nat),
        r <= 1_000_000,
        r > 0,
{
    let mut r: u64 = 1;
    let mut i: usize = 0;
    while i < p
        invariant
            i <= p <= 6,
            r == pow10(i as nat),
            r <= pow10(i as nat),
            i == 0 ==> r == 1,
            i == 1 ==> r == 10,
            i == 2 ==> r == 100,
            i == 3 ==> r == 1000,
            i == 4 ==> r == 10000,
            i == 5 ==> r == 100000,
            i == 6 ==> r == 1000000,
        decreases p - i,
    {
        r = r * 10;
        i = i + 1;
    }
    r
}

/// `n` in decimal, padded with zeros on the left to `width` digits.
pub open spec fn zero_padded(n: nat, width: nat) -> Seq<char> {
    let t = decimal_text(n);
    if t.len() < width {
        Seq::new((width - t.len()) as nat, |i: int| '0') + t
    } else {
        t
    }
}

/// A decimal rounded to `precision` places, ties to even, written with
/// exactly that many digits after the point (`{:.precision$}`). Past the sixth
/// place the digits are zeros.
pub open spec fn decimal_places_text(value: Decimal, precision: nat) -> Seq<char> {
    if precision > 6 {
        rounded_text(value, 6) + Seq::new((precision - 6) as nat, |i: int| '0')
    } else {
        rounded_text(value, precision)
    }
}

/// A decimal rounded to `precision` places, for `precision` up to six.
pub open spec fn rounded_text(value: Decimal, precision: nat) -> Seq<char> {
    let units = div_round_even(value.millionths as nat, pow10((6 - precision) as nat));
    let whole = units / pow10(precision);
    let frac = units % pow10(precision);
    if precision == 0 {
        decimal_text(whole)
    } else {
        decimal_text(whole) + "."@ + zero_padded(frac, precision)
    }
}

/// Formats a decimal to `precision` places, or a dash when absent.
pub fn format_float(opt: Option<Decimal>, precision: usize) -> (r: String)
    ensures
        r@ == match opt {
            Some(v) => decimal_places_text(v, precision as nat),
            None => dash(),
        },
{
    match opt {
        None => dash_string(),
        Some(v) => {
            if precision <= 6 {
                let c = rounded_chars(v, precision);
                string_from_chars(&c)
            } else {
                let mut c = rounded_chars(v, 6);
                let n = precision - 6;
                let ghost base = c@;
                let mut i: usize = 0;
                while i < n
                    invariant
                        i <= n,
                        c@ == base + Seq::new(i as nat, |k: int| '0'),
                    decreases n - i,
                {
                    c.push('0');
                    i = i + 1;
                    assert(c@ == base + Seq::new(i as nat, |k: int| '0'));
                }
                string_from_chars(&c)
            }
        },
    }
}

/// The characters of a decimal rounded to `precision` places.
fn rounded_chars(v: Decimal, precision: usize) -> (r: Vec<char>)
    requires
        precision <= 6,
    ensures
        r@ == rounded_text(v, precision as nat),
{
    let scale = pow10_exec(6 - precision);
    let units = round_half_even(v.millionths, scale);
    let p = pow10_exec(precision);
    let whole = units / p;
    let frac = units % p;
    let mut out = decimal_chars(whole);
    if precision > 0 {
        extend_str(&mut out, ".");
        let f = decimal_chars(frac);
        let mut pad: Vec<char> = Vec::new();
        if f.len() < precision {
            let n = precision - f.len();
            let mut i: usize = 0;
            while i < n
                invariant
                    i <= n,
                    pad@ == Seq::new(i as nat, |k: int| '0'),
                decreases n - i,
            {
                pad.push('0');
                i = i + 1;
                assert(pad@ == Seq::new(i as nat, |k: int| '0'));
            }
        }
        extend_chars(&mut pad, &f);
        extend_chars(&mut out, &pad);
    }
    out
}

/// Peers as `live/routing`, with a dash for an absent count, or a single
/// dash when both are absent.
pub fn format_peers(connected: Option<u32>, total: Option<u32>) -> (r: String)
    ensures
        r@ == match (connected, total) {
            (Some(c), Some(t)) => decimal_text(c as nat) + "/"@ + decimal_text(t as nat),
            (Some(c), None) => decimal_text(c as nat) + "/-"@,
            (None, Some(t)) => "-/"@ + decimal_text(t as nat),
            (None, None) => dash(),
        },
{
    match (connected, total) {
        (Some(c), Some(t)) => {
            let mut v = decimal_chars(c as u64);
            extend_str(&mut v, "/");
            let w = decimal_chars(t as u64);
            extend_chars(&mut v, &w);
            string_from_chars(&v)
        },
        (Some(c), None) => {
            let mut v = decimal_chars(c as u64);
            extend_str(&mut v, "/-");
            string_from_chars(&v)
        },
        (None, Some(t)) => {
            let mut v = chars_of("-/");
            let w = decimal_chars(t as u64);
            extend_chars(&mut v, &w);
            string_from_chars(&v)
        },
        (None, None) => dash_string(),
    }
}

/// The text that `humansize` gives a byte count with its decimal (SI) options,
/// such as `1 MB`.
pub uninterp spec fn decimal_size_text(n: u64) -> Seq<char>;

/// Relies on `humansize::format_size` with `humansize::DECIMAL`: the text
/// depends on the byte count alone.
#[verifier::external_body]
fn format_size_decimal(n: u64) -> (r: String)
    ensures
        r@ == decimal_size_text(n),
{
    humansize::format_size(n, humansize::DECIMAL)
}

/// A byte count in SI units, or a dash when absent.
pub fn format_option_u64_bytes(opt: Option<u64>) -> (r: String)
    ensures
        r@ == match opt {
            Some(v) => decimal_size_text(v),
            None => dash(),
        },
{
    match opt {
        Some(v) => format_size_decimal(v),
        None => dash_string(),
    }
}

/// A speed in bytes per second as SI units per second, or a dash when absent.
pub fn format_speed_bps(speed_bps: Option<u64>) -> (r: String)
    ensures
        r@ == match speed_bps {
            Some(v) => decimal_size_text(v) + "/s"@,
            None => dash(),
        },
{
    match speed_bps {
        Some(v) => {
            let s = format_size_decimal(v);
            let mut c = chars_of(s.as_str());
            extend_str(&mut c, "/s");
            string_from_chars(&c)
        },
        None => dash_string(),
    }
}

/// An update interval in milliseconds as text: milliseconds under a second,
/// else whole seconds, minutes or hours, rounded to the nearest (ties to even).
pub open spec fn duration_text(ms: nat) -> Seq<char> {
    if ms < 1000 {
        decimal_text(ms) + "ms"@
    } else if ms < 60_000 {
        decimal_text(div_round_even(ms, 1000)) + "s"@
    } else if ms < 3_600_000 {
        decimal_text(div_round_even(ms, 60_000)) + "min"@
    } else {
        decimal_text(div_round_even(ms, 3_600_000)) + "hr"@
    }
}

/// Formats an update interval given in milliseconds.
pub fn format_duration_human(millis: u64) -> (r: String)
    ensures
        r@ == duration_text(millis as nat),
{
    let (n, unit) = if millis < 1000 {
        (millis, "ms")
    } else if millis < 60_000 {
        (round_half_even(millis, 1000), "s")
    } else if millis < 3_600_000 {
        (round_half_even(millis, 60_000), "min")
    } else {
        (round_half_even(millis, 3_600_000), "hr")
    };
    let mut v = decimal_chars(n);
    extend_str(&mut v, unit);
    string_from_chars(&v)
}

// ---------------------------------------------------------------------------
// Node rows

/// The last component of a path, ignoring trailing slashes; the whole path
/// when that component is empty or `..`.
pub open spec fn node_name(path: Seq<char>) -> Seq<char> {
    let t = path.subrange(0, trim_slashes_end(path, path.len() as int));
    let s = component_start(t, t.len() as int);
    let name = t.subrange(s, t.len() as int);
    if name.len() == 0 || name == ".."@ {
        path
    } else {
        name
    }
}

/// Where the path ends once trailing slashes are dropped.
pub open spec fn trim_slashes_end(p: Seq<char>, j: int) -> int
    decreases j,
{
    if 0 < j <= p.len() && p[j - 1] == '/' {
        trim_slashes_end(p, j - 1)
    } else {
        j
    }
}

/// Where the component ending at `j` starts.
pub open spec fn component_start(p: Seq<char>, j: int) -> int
    decreases j,
{
    if 0 < j <= p.len() && p[j - 1] != '/' {
        component_start(p, j - 1)
    } else {
        j
    }
}

/// The name shown for a node: the last component of its directory.
pub fn node_display_name(root_path: &str) -> (r: String)
    ensures
        r@ == node_name(root_path@),
{
    let p = chars_of(root_path);
    let mut e = p.len();
    while e > 0 && p[e - 1] == '/'
        invariant
            e <= p.len(),
            trim_slashes_end(p@, p.len() as int) == trim_slashes_end(p@, e as int),
        decreases e,
    {
        e = e - 1;
    }
    let t = crate::text::slice_chars(&p, 0, e);
    let mut s = e;
    while s > 0 && t[s - 1] != '/'
        invariant
            s <= e == t.len(),
            component_start(t@, t.len() as int) == component_start(t@, s as int),
        decreases s,
    {
        s = s - 1;
    }
    let name = crate::text::slice_chars(&t, s, e);
    let dots = chars_of("..");
    if name.len() == 0 || crate::text::chars_equal(&name, &dots) {
        string_from_chars(&p)
    } else {
        string_from_chars(&name)
    }
}

/// Cells for a node without metrics: its name and a dash in each column.
pub fn create_placeholder_cells(root_path: &str) -> (r: Vec<String>)
    ensures
        r@.len() == 9,
        r@[0]@ == node_name(root_path@),
        r@[1]@ == pad_left(dash(), 11),
        r@[2]@ == pad_left(dash(), 6),
        r@[3]@ == pad_left(dash(), 5),
        r@[4]@ == pad_left(dash(), 5),
        r@[5]@ == pad_left(dash(), 7),
        r@[6]@ == pad_left(dash(), 7),
        r@[7]@ == pad_left(dash(), 8),
        r@[8]@ == pad_left(dash(), 3),
{
    let mut v: Vec<String> = Vec::new();
    v.push(node_display_name(root_path));
    v.push(right_aligned("-", 11));
    v.push(right_aligned("-", 6));
    v.push(right_aligned("-", 5));
    v.push(right_aligned("-", 5));
    v.push(right_aligned("-", 7));
    v.push(right_aligned("-", 7));
    v.push(right_aligned("-", 8));
    v.push(right_aligned("-", 3));
    v
}

/// A counter, absent counting zero.
pub open spec fn or_zero(v: Option<u64>) -> nat {
    match v {
        Some(x) => x as nat,
        None => 0,
    }
}

/// The errors a node reports, summed (capped at `u64::MAX`).
pub open spec fn total_errors(m: NodeMetrics) -> u64 {
    let t = or_zero(m.put_record_errors) + or_zero(m.incoming_connection_errors) + or_zero(
        m.outgoing_connection_errors,
    ) + or_zero(m.kad_get_closest_peers_errors);
    if t > u64::MAX {
        u64::MAX
    } else {
        t as u64
    }
}

fn value_or_zero(v: Option<u64>) -> (r: u64)
    ensures
        r == or_zero(v),
{
    match v {
        Some(x) => x,
        None => 0,
    }
}

/// Cells for a node with metrics: name, uptime, memory, CPU, live peers,
/// routing-table peers, records, reward and the error total.
pub fn create_list_item_cells(root_path: &str, metrics: &NodeMetrics) -> (r: Vec<String>)
    ensures
        r@.len() == 9,
        r@[0]@ == node_name(root_path@),
        r@[1]@ == match metrics.uptime_seconds {
            Some(s) => uptime_text(s as nat),
            None => dash(),
        },
        r@[2]@ == match metrics.memory_used_mb {
            Some(v) => decimal_places_text(v, 1),
            None => dash(),
        } + "MB"@,
        r@[3]@ == match metrics.cpu_usage_percentage {
            Some(v) => decimal_places_text(v, 2),
            None => dash(),
        } + "%"@,
        r@[4]@ == match metrics.connected_peers {
            Some(v) => decimal_text(v as nat),
            None => dash(),
        },
        r@[5]@ == match metrics.peers_in_routing_table {
            Some(v) => decimal_text(v as nat),
            None => dash(),
        },
        r@[6]@ == match metrics.records_stored {
            Some(v) => decimal_text(v as nat),
            None => dash(),
        },
        r@[7]@ == match metrics.reward_wallet_balance {
            Some(v) => decimal_text(v as nat),
            None => dash(),
        },
        r@[8]@ == decimal_text(total_errors(*metrics) as nat),
{
    let errors = value_or_zero(metrics.put_record_errors).saturating_add(
        value_or_zero(metrics.incoming_connection_errors),
    ).saturating_add(value_or_zero(metrics.outgoing_connection_errors)).saturating_add(
        value_or_zero(metrics.kad_get_closest_peers_errors),
    );
    let mem = format_float(metrics.memory_used_mb, 1);
    let mut mem_cell = chars_of(mem.as_str());
    extend_str(&mut mem_cell, "MB");
    let cpu = format_float(metrics.cpu_usage_percentage, 2);
    let mut cpu_cell = chars_of(cpu.as_str());
    extend_str(&mut cpu_cell, "%");
    let mut v: Vec<String> = Vec::new();
    v.push(node_display_name(root_path));
    v.push(format_uptime(metrics.uptime_seconds));
    v.push(string_from_chars(&mem_cell));
    v.push(string_from_chars(&cpu_cell));
    v.push(format_option(metrics.connected_peers));
    v.push(format_option(metrics.peers_in_routing_table));
    v.push(format_option(metrics.records_stored));
    v.push(format_option(metrics.reward_wallet_balance));
    v.push(string_from_chars(&decimal_chars(errors)));
    v
}

/// How busy a CPU reading is, from low to very high.
#[derive(Clone, Copy, Debug, PartialEq, Eq, Structural)]
pub enum CpuColor {
    Green,
    Yellow,
    Orange,
    Red,
    Magenta,
}

/// The colour for a CPU percentage given in millionths: magenta from 75%, red
/// from 50%, orange from 25%, yellow from 10%, green below.
pub fn get_cpu_color(percentage_millionths: u128) -> (r: CpuColor)
    ensures
        r == if percentage_millionths >= 75_000_000 {
            CpuColor::Magenta
        } else if percentage_millionths >= 50_000_000 {
            CpuColor::Red
        } else if percentage_millionths >= 25_000_000 {
            CpuColor::Orange
        } else if percentage_millionths >= 10_000_000 {
            CpuColor::Yellow
        } else {
            CpuColor::Green
        },
{
    if percentage_millionths >= 75_000_000 {
        CpuColor::Magenta
    } else if percentage_millionths >= 50_000_000 {
        CpuColor::Red
    } else if percentage_millionths >= 25_000_000 {
        CpuColor::Orange
    } else if percentage_millionths >= 10_000_000 {
        CpuColor::Yellow
    } else {
        CpuColor::Green
    }
}

} // verus!
