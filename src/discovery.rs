//! Endpoint discovery: each node announces its metrics server in its log with a
//! line `Metrics server on <address>`; the last such line read names the URL.

use vstd::prelude::*;
use crate::metrics::{strip_cr, text_lines, lines_from};
use crate::table::{find_key, keys_unique, lemma_table_empty, lemma_table_index, table_set, table_view};
use crate::text::{chars_of, is_ws, is_whitespace, matches_at, occurs_at, skip_non_whitespace,
    skip_word, slice_chars, string_from_chars};

verus! {

/// How many lines at the start of a log are scanned for the announcement.
pub const LOG_SCAN_LINES: usize = 50;

/// The text that introduces the address.
pub open spec fn announcement() -> Seq<char> {
    "Metrics server on "@
}

/// An announcement starts at `p` and is followed by an address character.
pub open spec fn announced_at(l: Seq<char>, p: int) -> bool {
    &&& occurs_at(l, announcement(), p)
    &&& p + announcement().len() < l.len()
    &&& !is_ws(l[p + announcement().len()])
}

/// The first position at or after `p` where an address is announced, or `l.len()`.
pub open spec fn first_announcement_from(l: Seq<char>, p: int) -> int
    decreases l.len() - p,
{
    if p < 0 || p >= l.len() {
        l.len() as int
    } else if announced_at(l, p) {
        p
    } else {
        first_announcement_from(l, p + 1)
    }
}

/// The address a line announces: the run of non-whitespace characters after
/// the leftmost `Metrics server on ` that is followed by one.
pub open spec fn address_in_line(l: Seq<char>) -> Option<Seq<char>> {
    let p = first_announcement_from(l, 0);
    if p < l.len() {
        let a = p + announcement().len();
        Some(l.subrange(a, skip_word(l, a)))
    } else {
        None
    }
}

/// The address of the last announcing line among `ls`.
pub open spec fn last_address(ls: Seq<Seq<char>>) -> Option<Seq<char>>
    decreases ls.len(),
{
    if ls.len() == 0 {
        None
    } else {
        match address_in_line(ls.last()) {
            Some(a) => Some(a),
            None => last_address(ls.drop_last()),
        }
    }
}

/// The metrics address a log announces within its first [`LOG_SCAN_LINES`] lines.
pub open spec fn log_address(t: Seq<char>) -> Option<Seq<char>> {
    last_address(first_lines(text_lines(t)))
}

/// The first [`LOG_SCAN_LINES`] lines, or all when there are fewer.
pub open spec fn first_lines(ls: Seq<Seq<char>>) -> Seq<Seq<char>> {
    if ls.len() > LOG_SCAN_LINES {
        ls.take(LOG_SCAN_LINES as int)
    } else {
        ls
    }
}

/// The address that `line` announces, if any.
fn address_of_line(line: &Vec<char>, marker: &Vec<char>) -> (r: Option<Vec<char>>)
    requires
        marker@ == announcement(),
    ensures
        r matches Some(a) ==> address_in_line(line@) == Some(a@),
        r is None ==> address_in_line(line@) is None,
{
    let mut p: usize = 0;
    while p < line.len()
        invariant
            p <= line.len(),
            marker@ == announcement(),
            first_announcement_from(line@, 0) == first_announcement_from(line@, p as int),
        decreases line.len() - p,
    {
        if marker.len() < line.len() - p && matches_at(line, marker, p) && !is_whitespace(
            line[p + marker.len()],
        ) {
            let a = p + marker.len();
            assert(announced_at(line@, p as int));
            let e = skip_non_whitespace(line, a);
            return Some(slice_chars(line, a, e));
        }
        p = p + 1;
    }
    None
}

/// The metrics address that a log's text announces: the address of the last
/// announcing line among its first [`LOG_SCAN_LINES`] lines.
pub fn process_log_file(content: &str) -> (r: Option<String>)
    ensures
        r matches Some(a) ==> log_address(content@) == Some(a@),
        r is None ==> log_address(content@) is None,
{
    let t = chars_of(content);
    let marker = chars_of("Metrics server on ");
    let mut found: Option<Vec<char>> = None;
    let mut count: usize = 0;
    let mut start: usize = 0;
    let mut i: usize = 0;
    let ghost mut done: Seq<Seq<char>> = Seq::empty();
    while i < t.len() && count < LOG_SCAN_LINES
        invariant
            start <= i <= t.len(),
            t@ == content@,
            marker@ == announcement(),
            count == done.len(),
            count <= LOG_SCAN_LINES,
            text_lines(t@) == done + lines_from(t@, start as int, i as int),
            match found {
                Some(a) => last_address(done) == Some(a@),
                None => last_address(done) is None,
            },
        decreases t.len() - i,
    {
        if t[i] == '\n' {
            let end: usize = if i > start && t[i - 1] == '\r' {
                i - 1
            } else {
                i
            };
            let line = slice_chars(&t, start, end);
            let ghost l = strip_cr(t@.subrange(start as int, i as int));
            assert(line@ == l);
            let ghost rest = lines_from(t@, i + 1, i + 1);
            assert(done + (seq![l] + rest) == done.push(l) + rest);
            assert(done.push(l).drop_last() == done);
            match address_of_line(&line, &marker) {
                Some(a) => {
                    found = Some(a);
                },
                None => {},
            }
            proof {
                done = done.push(l);
            }
            count = count + 1;
            start = i + 1;
        }
        i = i + 1;
    }
    if count < LOG_SCAN_LINES && start < t.len() {
        let line = slice_chars(&t, start, t.len());
        let ghost l = t@.subrange(start as int, t.len() as int);
        assert(lines_from(t@, start as int, t.len() as int) == seq![l]);
        assert(done.push(l).drop_last() == done);
        match address_of_line(&line, &marker) {
            Some(a) => {
                found = Some(a);
            },
            None => {},
        }
        proof {
            assert(done + seq![l] == done.push(l));
            done = done.push(l);
            assert(text_lines(t@) == done);
        }
    } else if count < LOG_SCAN_LINES {
        assert(lines_from(t@, start as int, t.len() as int) == Seq::<Seq<char>>::empty());
        assert(done + Seq::<Seq<char>>::empty() == done);
    } else {
        proof {
            let ls = done + lines_from(t@, start as int, i as int);
            if ls.len() > LOG_SCAN_LINES {
                assert(ls.take(LOG_SCAN_LINES as int) == done);
            } else {
                assert(ls == done);
            }
        }
    }
    match found {
        Some(a) => Some(string_from_chars(&a)),
        None => None,
    }
}

// ---------------------------------------------------------------------------
// Ordering

/// `a` comes before `b`: the order of `String`, character by character.
pub open spec fn chars_lt(a: Seq<char>, b: Seq<char>) -> bool
    decreases a.len(),
{
    if a.len() == 0 {
        b.len() > 0
    } else if b.len() == 0 {
        false
    } else if a[0] != b[0] {
        a[0] < b[0]
    } else {
        chars_lt(a.drop_first(), b.drop_first())
    }
}

proof fn lemma_lt_irreflexive(a: Seq<char>)
    ensures
        !chars_lt(a, a),
    decreases a.len(),
{
    if a.len() > 0 {
        lemma_lt_irreflexive(a.drop_first());
    }
}

proof fn lemma_lt_transitive(a: Seq<char>, b: Seq<char>, c: Seq<char>)
    requires
        chars_lt(a, b),
        chars_lt(b, c),
    ensures
        chars_lt(a, c),
    decreases a.len(),
{
    if a.len() > 0 && b.len() > 0 && c.len() > 0 && a[0] == b[0] && b[0] == c[0] {
        lemma_lt_transitive(a.drop_first(), b.drop_first(), c.drop_first());
    }
}

proof fn lemma_lt_total(a: Seq<char>, b: Seq<char>)
    requires
        a != b,
    ensures
        chars_lt(a, b) || chars_lt(b, a),
    decreases a.len(),
{
    if a.len() == 0 {
        assert(b.len() > 0) by {
            if b.len() == 0 {
                assert(a =~= b);
            }
        }
    } else if b.len() > 0 && a[0] == b[0] {
        if a.drop_first() == b.drop_first() {
            assert(a.drop_first().len() == b.drop_first().len());
            assert(a.len() == b.len());
            assert(a =~= b) by {
                assert forall|i: int| 0 <= i < a.len() implies a[i] == b[i] by {
                    if i > 0 {
                        assert(a[i] == a.drop_first()[i - 1]);
                        assert(b[i] == b.drop_first()[i - 1]);
                    }
                }
            }
        }
        lemma_lt_total(a.drop_first(), b.drop_first());
    }
}

/// Executable form of [`chars_lt`] on strings.
pub fn string_less(a: &String, b: &String) -> (r: bool)
    ensures
        r == chars_lt(a@, b@),
{
    let x = chars_of(a.as_str());
    let y = chars_of(b.as_str());
    let mut i: usize = 0;
    assert(x@.subrange(0, x.len() as int) == x@);
    assert(y@.subrange(0, y.len() as int) == y@);
    while i < x.len() && i < y.len() && x[i] == y[i]
        invariant
            i <= x.len(),
            i <= y.len(),
            chars_lt(x@, y@) == chars_lt(
                x@.subrange(i as int, x.len() as int),
                y@.subrange(i as int, y.len() as int),
            ),
        decreases x.len() - i,
    {
        let ghost xs = x@.subrange(i as int, x.len() as int);
        let ghost ys = y@.subrange(i as int, y.len() as int);
        assert(xs.drop_first() == x@.subrange(i + 1, x.len() as int));
        assert(ys.drop_first() == y@.subrange(i + 1, y.len() as int));
        i = i + 1;
    }
    let ghost xs = x@.subrange(i as int, x.len() as int);
    let ghost ys = y@.subrange(i as int, y.len() as int);
    if i == x.len() {
        i < y.len()
    } else if i == y.len() {
        false
    } else {
        assert(xs[0] == x@[i as int] && ys[0] == y@[i as int]);
        x[i] < y[i]
    }
}

/// (directory, URL) pairs ordered by directory, then by URL.
pub open spec fn pair_lt(a: (Seq<char>, Seq<char>), b: (Seq<char>, Seq<char>)) -> bool {
    chars_lt(a.0, b.0) || (a.0 == b.0 && chars_lt(a.1, b.1))
}

proof fn lemma_pair_lt_facts(a: (Seq<char>, Seq<char>), b: (Seq<char>, Seq<char>), c: (Seq<char>, Seq<char>))
    ensures
        !pair_lt(a, a),
        pair_lt(a, b) && pair_lt(b, c) ==> pair_lt(a, c),
        a != b ==> pair_lt(a, b) || pair_lt(b, a),
{
    lemma_lt_irreflexive(a.0);
    lemma_lt_irreflexive(a.1);
    if pair_lt(a, b) && pair_lt(b, c) {
        if chars_lt(a.0, b.0) && chars_lt(b.0, c.0) {
            lemma_lt_transitive(a.0, b.0, c.0);
        }
        if a.0 == b.0 && b.0 == c.0 {
            lemma_lt_transitive(a.1, b.1, c.1);
        }
    }
    if a != b {
        if a.0 != b.0 {
            lemma_lt_total(a.0, b.0);
        } else {
            assert(a.1 != b.1);
            lemma_lt_total(a.1, b.1);
        }
    }
}

/// The characters of a (directory, URL) pair.
pub open spec fn pair_view(p: (String, String)) -> (Seq<char>, Seq<char>) {
    (p.0@, p.1@)
}

/// The (directory, address) pairs announced by the logs, in order: each log
/// is given as its node directory and its text.
pub open spec fn announced_pairs(logs: Seq<(String, String)>) -> Seq<(Seq<char>, Seq<char>)>
    decreases logs.len(),
{
    if logs.len() == 0 {
        Seq::empty()
    } else {
        let before = announced_pairs(logs.drop_last());
        match log_address(logs.last().1@) {
            Some(a) => before.push((logs.last().0@, a)),
            None => before,
        }
    }
}

/// An entry of `r` has the URL of `c`, with a directory that does not come after `c`'s.
pub open spec fn url_kept(r: Seq<(String, String)>, c: (Seq<char>, Seq<char>)) -> bool {
    exists|i: int| 0 <= i < r.len() && #[trigger] r[i].1@ == c.1 && !chars_lt(c.0, r[i].0@)
}

/// `r` is what discovery makes of `logs`: strictly sorted by (directory, URL),
/// one entry per URL, each an announced pair, and each announced URL kept with
/// a directory that does not come after any directory announcing it.
pub open spec fn discovered(logs: Seq<(String, String)>, r: Seq<(String, String)>) -> bool {
    &&& strictly_sorted(r)
    &&& forall|i: int, j: int|
        0 <= i < r.len() && 0 <= j < r.len() && i != j ==> #[trigger] r[i].1@ != #[trigger] r[j].1@
    &&& forall|i: int| 0 <= i < r.len() ==> announced_pairs(logs).contains(pair_view(#[trigger] r[i]))
    &&& forall|k: int|
        0 <= k < announced_pairs(logs).len() ==> url_kept(r, #[trigger] announced_pairs(logs)[k])
}

/// Two node directories whose logs announce the same URL leave exactly one
/// entry for that URL.
pub proof fn lemma_shared_url_kept_once(
    logs: Seq<(String, String)>,
    r: Seq<(String, String)>,
    k1: int,
    k2: int,
)
    requires
        discovered(logs, r),
        0 <= k1 < announced_pairs(logs).len(),
        0 <= k2 < announced_pairs(logs).len(),
        announced_pairs(logs)[k1].1 == announced_pairs(logs)[k2].1,
    ensures
        exists|i: int| 0 <= i < r.len() && #[trigger] r[i].1@ == announced_pairs(logs)[k1].1,
        forall|i: int, j: int|
            0 <= i < r.len() && 0 <= j < r.len() && #[trigger] r[i].1@ == announced_pairs(logs)[k1].1
                && #[trigger] r[j].1@ == announced_pairs(logs)[k1].1 ==> i == j,
{
    assert(url_kept(r, announced_pairs(logs)[k1]));
}

/// Strictly increasing by [`pair_lt`].
pub open spec fn strictly_sorted(r: Seq<(String, String)>) -> bool {
    forall|i: int, j: int|
        0 <= i < j < r.len() ==> pair_lt(#[trigger] pair_view(r[i]), #[trigger] pair_view(r[j]))
}

/// The announced pairs of the logs, as strings.
fn announced(logs: &Vec<(String, String)>) -> (r: Vec<(String, String)>)
    ensures
        r@.len() == announced_pairs(logs@).len(),
        forall|k: int| 0 <= k < r@.len() ==> pair_view(#[trigger] r@[k]) == announced_pairs(logs@)[k],
{
    let mut r: Vec<(String, String)> = Vec::new();
    let mut i: usize = 0;
    while i < logs.len()
        invariant
            i <= logs.len(),
            r@.len() == announced_pairs(logs@.subrange(0, i as int)).len(),
            forall|k: int|
                0 <= k < r@.len() ==> pair_view(#[trigger] r@[k]) == announced_pairs(
                    logs@.subrange(0, i as int),
                )[k],
        decreases logs.len() - i,
    {
        let ghost s = logs@.subrange(0, i + 1);
        assert(s.drop_last() == logs@.subrange(0, i as int));
        assert(s.last() == logs@[i as int]);
        match process_log_file(logs[i].1.as_str()) {
            Some(a) => {
                r.push((logs[i].0.clone(), a));
            },
            None => {},
        }
        i = i + 1;
    }
    assert(logs@.subrange(0, logs.len() as int) == logs@);
    r
}

/// Inserts `x` into the strictly sorted `r` at its place; `x` differs from
/// every element.
fn insert_sorted(r: &mut Vec<(String, String)>, x: (String, String))
    requires
        strictly_sorted(old(r)@),
        forall|i: int| 0 <= i < old(r)@.len() ==> pair_view(#[trigger] old(r)@[i]) != pair_view(x),
    ensures
        strictly_sorted(final(r)@),
        final(r)@.len() == old(r)@.len() + 1,
        exists|p: int| 0 <= p <= old(r)@.len() && final(r)@ == old(r)@.insert(p, x),
{
    let mut pos: usize = 0;
    while pos < r.len() && !(string_less(&x.0, &r[pos].0) || (r[pos].0 == x.0 && string_less(
        &x.1,
        &r[pos].1,
    )))
        invariant
            pos <= r@.len(),
            forall|i: int| 0 <= i < pos ==> !pair_lt(pair_view(x), #[trigger] pair_view(r@[i])),
        decreases r@.len() - pos,
    {
        pos = pos + 1;
    }
    let ghost before = r@;
    proof {
        assert forall|i: int| 0 <= i < pos implies pair_lt(
            #[trigger] pair_view(before[i]),
            pair_view(x),
        ) by {
            lemma_pair_lt_facts(pair_view(x), pair_view(before[i]), pair_view(x));
        }
    }
    r.insert(pos, x);
    proof {
        let after = r@;
        assert(after == before.insert(pos as int, x));
        assert forall|i: int, j: int| 0 <= i < j < after.len() implies pair_lt(
            #[trigger] pair_view(after[i]),
            #[trigger] pair_view(after[j]),
        ) by {
            if j < pos {
                assert(after[i] == before[i] && after[j] == before[j]);
            } else if j == pos {
                assert(after[i] == before[i]);
            } else if i == pos {
                assert(after[j] == before[j - 1]);
                if j - 1 > pos {
                    lemma_pair_lt_facts(pair_view(x), pair_view(before[pos as int]), pair_view(
                        before[j - 1],
                    ));
                }
            } else if i < pos {
                assert(after[i] == before[i] && after[j] == before[j - 1]);
                lemma_pair_lt_facts(pair_view(before[i]), pair_view(x), pair_view(before[j - 1]));
            } else {
                assert(after[i] == before[i - 1] && after[j] == before[j - 1]);
            }
        }
    }
}

/// The node directories and metrics URLs that the logs announce: sorted by
/// directory (then URL), with one entry per URL, that of the first directory
/// announcing it. Each log is given as its node directory and its text.
pub fn find_metrics_nodes(logs: &Vec<(String, String)>) -> (r: Vec<(String, String)>)
    ensures
        discovered(logs@, r@),
{
    let c = announced(logs);
    let ghost cs = announced_pairs(logs@);
    // URL -> the least directory announcing it.
    let mut best: Vec<(String, String)> = Vec::new();
    proof {
        lemma_table_empty(best@);
    }
    let mut n: usize = 0;
    while n < c.len()
        invariant
            n <= c@.len(),
            c@.len() == cs.len(),
            forall|k: int| 0 <= k < c@.len() ==> pair_view(#[trigger] c@[k]) == cs[k],
            keys_unique(best@),
            forall|u: Seq<char>|
                #[trigger] table_view(best@).contains_key(u) ==> cs.contains(
                    (table_view(best@)[u]@, u),
                ),
            forall|k: int|
                0 <= k < n ==> table_view(best@).contains_key(#[trigger] cs[k].1) && !chars_lt(
                    cs[k].0,
                    table_view(best@)[cs[k].1]@,
                ),
        decreases c@.len() - n,
    {
        let d = &c[n].0;
        let u = &c[n].1;
        assert(cs[n as int] == (d@, u@));
        let replace = match find_key(&best, u) {
            None => {
                assert(!table_view(best@).contains_key(u@));
                true
            },
            Some(j) => {
                proof {
                    lemma_table_index(best@, j as int);
                }
                string_less(d, &best[j].1)
            },
        };
        if replace {
            let ghost old_view = table_view(best@);
            table_set(&mut best, u.clone(), d.clone());
            proof {
                lemma_lt_irreflexive(d@);
                assert(cs.contains((d@, u@))) by {
                    assert(cs[n as int] == (d@, u@));
                }
                assert forall|k: int| 0 <= k < n + 1 implies table_view(best@).contains_key(
                    #[trigger] cs[k].1,
                ) && !chars_lt(cs[k].0, table_view(best@)[cs[k].1]@) by {
                    if k < n && cs[k].1 == u@ {
                        if chars_lt(cs[k].0, d@) {
                            lemma_lt_transitive(cs[k].0, d@, old_view[u@]@);
                        }
                    }
                }
            }
        }
        n = n + 1;
    }
    // Sort the survivors.
    let mut r: Vec<(String, String)> = Vec::new();
    let mut m: usize = 0;
    while m < best.len()
        invariant
            m <= best@.len(),
            keys_unique(best@),
            strictly_sorted(r@),
            r@.len() == m,
            forall|i: int|
                0 <= i < m ==> r@.contains((#[trigger] best@[i].1, best@[i].0)),
            forall|e: int|
                0 <= e < r@.len() ==> exists|i: int|
                    0 <= i < m && #[trigger] r@[e] == (best@[i].1, best@[i].0),
        decreases best@.len() - m,
    {
        let x = (best[m].1.clone(), best[m].0.clone());
        proof {
            assert forall|i: int| 0 <= i < r@.len() implies pair_view(#[trigger] r@[i])
                != pair_view(x) by {
                let w = choose|w: int| 0 <= w < m && #[trigger] r@[i] == (best@[w].1, best@[w].0);
                assert(best@[w].0@ != best@[m as int].0@);
            }
        }
        let ghost before = r@;
        insert_sorted(&mut r, x);
        proof {
            let p = choose|p: int| 0 <= p <= before.len() && r@ == before.insert(p, x);
            assert forall|i: int| 0 <= i < m + 1 implies r@.contains(
                (#[trigger] best@[i].1, best@[i].0),
            ) by {
                if i == m {
                    assert(r@[p] == x);
                } else {
                    let w = choose|w: int| 0 <= w < before.len() && before[w] == (best@[i].1, best@[i].0);
                    if w < p {
                        assert(r@[w] == before[w]);
                    } else {
                        assert(r@[w + 1] == before[w]);
                    }
                }
            }
            assert forall|e: int| 0 <= e < r@.len() implies exists|i: int|
                0 <= i < m + 1 && #[trigger] r@[e] == (best@[i].1, best@[i].0) by {
                if e == p {
                    assert(r@[e] == (best@[m as int].1, best@[m as int].0));
                } else if e < p {
                    assert(r@[e] == before[e]);
                } else {
                    assert(r@[e] == before[e - 1]);
                }
            }
        }
        m = m + 1;
    }
    proof {
        assert forall|i: int, j: int|
            0 <= i < r@.len() && 0 <= j < r@.len() && i != j implies #[trigger] r@[i].1@
            != #[trigger] r@[j].1@ by {
            let wi = choose|w: int| 0 <= w < m && #[trigger] r@[i] == (best@[w].1, best@[w].0);
            let wj = choose|w: int| 0 <= w < m && #[trigger] r@[j] == (best@[w].1, best@[w].0);
            if wi == wj {
                if i < j {
                    lemma_pair_lt_facts(pair_view(r@[i]), pair_view(r@[j]), pair_view(r@[j]));
                } else {
                    lemma_pair_lt_facts(pair_view(r@[j]), pair_view(r@[i]), pair_view(r@[i]));
                }
            }
        }
        assert forall|i: int| 0 <= i < r@.len() implies cs.contains(
            pair_view(#[trigger] r@[i]),
        ) by {
            let w = choose|w: int| 0 <= w < m && #[trigger] r@[i] == (best@[w].1, best@[w].0);
            lemma_table_index(best@, w);
        }
        assert forall|k: int| 0 <= k < cs.len() implies url_kept(r@, #[trigger] cs[k]) by {
            let u = cs[k].1;
            assert(table_view(best@).contains_key(u));
            let w = choose|w: int| 0 <= w < best@.len() && #[trigger] best@[w].0@ == u;
            lemma_table_index(best@, w);
            assert(r@.contains((best@[w].1, best@[w].0)));
            let i = choose|i: int| 0 <= i < r@.len() && r@[i] == (best@[w].1, best@[w].0);
            assert(r@[i].1@ == u);
        }
    }
    r
}

/// `d` is one of `dirs`.
pub open spec fn lists_dir(dirs: Seq<String>, d: Seq<char>) -> bool {
    exists|i: int| 0 <= i < dirs.len() && #[trigger] dirs[i]@ == d
}

/// Strictly increasing by [`chars_lt`].
pub open spec fn dirs_sorted(r: Seq<String>) -> bool {
    forall|i: int, j: int| 0 <= i < j < r.len() ==> chars_lt(#[trigger] r[i]@, #[trigger] r[j]@)
}

/// The node directories among the paths a glob matched: sorted, each once.
/// `directories` holds the matched paths that are directories.
pub fn find_node_directories(directories: Vec<String>) -> (r: Vec<String>)
    ensures
        dirs_sorted(r@),
        forall|d: Seq<char>| lists_dir(r@, d) <==> lists_dir(directories@, d),
{
    let mut r: Vec<String> = Vec::new();
    let mut n: usize = 0;
    while n < directories.len()
        invariant
            n <= directories@.len(),
            dirs_sorted(r@),
            forall|d: Seq<char>|
                lists_dir(r@, d) <==> lists_dir(directories@.subrange(0, n as int), d),
        decreases directories@.len() - n,
    {
        let x = directories[n].clone();
        let ghost prefix = directories@.subrange(0, n as int);
        let ghost next = directories@.subrange(0, n + 1);
        assert forall|d: Seq<char>| lists_dir(next, d) <==> (lists_dir(prefix, d) || d == x@) by {
            if lists_dir(next, d) {
                let i = choose|i: int| 0 <= i < next.len() && #[trigger] next[i]@ == d;
                if i < n {
                    assert(prefix[i]@ == d);
                }
            }
            if lists_dir(prefix, d) {
                let i = choose|i: int| 0 <= i < prefix.len() && #[trigger] prefix[i]@ == d;
                assert(next[i]@ == d);
            }
            if d == x@ {
                assert(next[n as int]@ == d);
            }
        }
        let mut pos: usize = 0;
        while pos < r.len() && string_less(&r[pos], &x)
            invariant
                pos <= r@.len(),
                forall|i: int| 0 <= i < pos ==> chars_lt(#[trigger] r@[i]@, x@),
            decreases r@.len() - pos,
        {
            pos = pos + 1;
        }
        let duplicate = pos < r.len() && r[pos] == x;
        if !duplicate {
            let ghost before = r@;
            proof {
                if pos < before.len() {
                    lemma_lt_total(before[pos as int]@, x@);
                }
            }
            r.insert(pos, x);
            proof {
                let after = r@;
                assert forall|i: int, j: int| 0 <= i < j < after.len() implies chars_lt(
                    #[trigger] after[i]@,
                    #[trigger] after[j]@,
                ) by {
                    if j < pos {
                        assert(after[i] == before[i] && after[j] == before[j]);
                    } else if j == pos {
                        assert(after[i] == before[i]);
                    } else if i == pos {
                        assert(after[j] == before[j - 1]);
                        if j - 1 > pos {
                            lemma_lt_transitive(x@, before[pos as int]@, before[j - 1]@);
                        }
                    } else if i < pos {
                        assert(after[i] == before[i] && after[j] == before[j - 1]);
                        if pos < before.len() {
                            lemma_lt_transitive(before[i]@, x@, before[pos as int]@);
                            if j - 1 > pos {
                                lemma_lt_transitive(before[i]@, before[pos as int]@, before[j - 1]@);
                            }
                        } else {
                            assert(false);
                        }
                    } else {
                        assert(after[i] == before[i - 1] && after[j] == before[j - 1]);
                    }
                }
                assert forall|d: Seq<char>| lists_dir(after, d) <==> (lists_dir(before, d) || d
                    == x@) by {
                    if lists_dir(after, d) {
                        let i = choose|i: int| 0 <= i < after.len() && #[trigger] after[i]@ == d;
                        if i < pos {
                            assert(before[i]@ == d);
                        } else if i > pos {
                            assert(before[i - 1]@ == d);
                        }
                    }
                    if lists_dir(before, d) {
                        let i = choose|i: int| 0 <= i < before.len() && #[trigger] before[i]@ == d;
                        if i < pos {
                            assert(after[i]@ == d);
                        } else {
                            assert(after[i + 1]@ == d);
                        }
                    }
                    if d == x@ {
                        assert(after[pos as int]@ == d);
                    }
                }
            }
        } else {
            assert(r@[pos as int]@ == x@);
        }
        n = n + 1;
    }
    assert(directories@.subrange(0, directories@.len() as int) == directories@);
    r
}

} // verus!
