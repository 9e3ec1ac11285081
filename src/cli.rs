//! Command-line settings and the paths derived from them.

use vstd::prelude::*;
use crate::formatters::{component_start, extend_chars, extend_str, trim_slashes_end};
use crate::text::{chars_of, slice_chars, string_from_chars};

verus! {

/// Command-line arguments.
pub struct Cli {
    /// Glob pattern for the root directories of the running nodes.
    pub path: String,
    /// Glob pattern for the log files to scan for metrics server addresses;
    /// derived from `path` when absent.
    pub log_path: Option<String>,
}

/// `b` appended to path `a` as `PathBuf::push` does for a relative `b`: with a
/// `/` between them unless `a` is empty or already ends in one.
pub open spec fn join_path(a: Seq<char>, b: Seq<char>) -> Seq<char> {
    if a.len() == 0 {
        b
    } else if a.last() == '/' {
        a + b
    } else {
        a + "/"@ + b
    }
}

/// The pattern already stands for every node directory: it ends in `*`, or
/// its last component is `*`.
pub open spec fn ends_in_wildcard(g: Seq<char>) -> bool {
    let t = g.subrange(0, trim_slashes_end(g, g.len() as int));
    ||| (g.len() > 0 && g.last() == '*')
    ||| t.subrange(component_start(t, t.len() as int), t.len() as int) == "*"@
}

/// The log glob for a node glob: the node glob, with `/*` added unless it
/// already ends in a wildcard, joined with the log file's path inside a node.
pub open spec fn log_glob_spec(node_glob: Seq<char>, log_file: Seq<char>) -> Seq<char> {
    let base = if ends_in_wildcard(node_glob) {
        node_glob
    } else {
        join_path(node_glob, "*"@)
    };
    join_path(base, log_file)
}

fn join_into(a: Vec<char>, b: &Vec<char>) -> (r: Vec<char>)
    ensures
        r@ == join_path(a@, b@),
{
    let mut a = a;
    if a.len() > 0 && a[a.len() - 1] != '/' {
        extend_str(&mut a, "/");
    }
    extend_chars(&mut a, b);
    a
}

/// The glob for the log files of the nodes that `node_glob` matches, where
/// `log_file` is the log's path inside a node directory.
pub fn derive_log_glob(node_glob: &str, log_file: &str) -> (r: String)
    ensures
        r@ == log_glob_spec(node_glob@, log_file@),
{
    let g = chars_of(node_glob);
    let mut e = g.len();
    while e > 0 && g[e - 1] == '/'
        invariant
            e <= g.len(),
            trim_slashes_end(g@, g.len() as int) == trim_slashes_end(g@, e as int),
        decreases e,
    {
        e = e - 1;
    }
    let t = slice_chars(&g, 0, e);
    let mut s = e;
    while s > 0 && t[s - 1] != '/'
        invariant
            s <= e == t.len(),
            component_start(t@, t.len() as int) == component_start(t@, s as int),
        decreases s,
    {
        s = s - 1;
    }
    let last = slice_chars(&t, s, e);
    let star = chars_of("*");
    let wildcard = (g.len() > 0 && g[g.len() - 1] == '*') || crate::text::chars_equal(
        &last,
        &star,
    );
    let base = if wildcard {
        g
    } else {
        join_into(g, &star)
    };
    let file = chars_of(log_file);
    string_from_chars(&join_into(base, &file))
}

} // verus!
