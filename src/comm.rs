use vstd::prelude::*;
use crate::reconcile::{tagged, Comm};
use crate::runs::{lemma_runs, run_start, runs, runs_of};
use crate::snap::Snap;
use crate::text::{concat, push_char, views};

verus! {

/// How the two-way comparison of two snapshot lists is shown.
#[derive(Copy, Clone, Debug)]
pub struct CommOpts {
    /// Show each run of snapshots on one side by its first one and a count.
    pub collapse: bool,
    /// Show each run of snapshots on one side by its first and last ones and a count.
    pub collapse_keep_both_ends: bool,
    /// Oldest first (newest first otherwise).
    pub order_asc: bool,
}

impl Default for CommOpts {
    fn default() -> (r: CommOpts)
        ensures
            !r.collapse && !r.collapse_keep_both_ends && !r.order_asc,
    {
        CommOpts { collapse: false, collapse_keep_both_ends: false, order_asc: false }
    }
}

/// Width of one column of the comparison.
pub const INDENT_WIDTH: usize = 12;

/// The indentation of a side's column: left, both, right.
pub open spec fn indent_of(side: Comm) -> nat {
    match side {
        Comm::LEFT => 0,
        Comm::BOTH => 12,
        Comm::RIGHT => 24,
    }
}

pub open spec fn side_key(side: Comm) -> u8 {
    match side {
        Comm::LEFT => 0,
        Comm::BOTH => 1,
        Comm::RIGHT => 2,
    }
}

pub open spec fn spaces(n: nat) -> Seq<char> {
    Seq::new(n, |i: int| ' ')
}

pub open spec fn digit_char(d: int) -> char {
    if d == 0 { '0' } else if d == 1 { '1' } else if d == 2 { '2' } else if d == 3 { '3' } else if d == 4 {
        '4'
    } else if d == 5 { '5' } else if d == 6 { '6' } else if d == 7 { '7' } else if d == 8 { '8' } else { '9' }
}

/// The decimal digits of `n`, without leading zeros.
pub open spec fn decimal_of(n: nat) -> Seq<char>
    decreases n,
{
    if n < 10 {
        seq![digit_char(n as int)]
    } else {
        decimal_of(n / 10).push(digit_char((n % 10) as int))
    }
}

/// The snapshots of a comparison in the order shown.
pub open spec fn shown_order(t: Seq<(Comm, Snap)>, asc: bool) -> Seq<(Comm, Snap)> {
    if asc { t } else { t.reverse() }
}

/// One line per snapshot: its name in its side's column.
pub open spec fn plain_lines(o: Seq<(Comm, Snap)>) -> Seq<Seq<char>> {
    o.map_values(|p: (Comm, Snap)| spaces(indent_of(p.0)) + p.1.name@)
}

pub open spec fn side_keys(o: Seq<(Comm, Snap)>) -> Seq<u8> {
    o.map_values(|p: (Comm, Snap)| side_key(p.0))
}

/// The lines of the run of `n` snapshots of `o` from `st`: its first snapshot, then a count of
/// the others; with `both_ends`, the count leaves out the last snapshot, which follows it.
pub open spec fn run_lines_at(o: Seq<(Comm, Snap)>, st: int, n: int, both_ends: bool) -> Seq<Seq<char>> {
    let pad = spaces(indent_of(o[st].0));
    let first = pad + o[st].1.name@;
    if !both_ends {
        seq![first, pad + "  (+"@ + decimal_of((n - 1) as nat) + ")"@]
    } else if n > 1 {
        seq![first, pad + "  (+"@ + decimal_of((n - 2) as nat) + ")"@, pad + o[st + n - 1].1.name@]
    } else {
        seq![first]
    }
}

/// The lines of run `j` of `o`, whose runs are `r`.
pub open spec fn run_lines(o: Seq<(Comm, Snap)>, r: Seq<(u8, usize)>, j: int, both_ends: bool) -> Seq<Seq<char>> {
    run_lines_at(o, run_start(r, j), r[j].1 as int, both_ends)
}

/// The lines of the runs before `j`.
pub open spec fn collapsed_lines(o: Seq<(Comm, Snap)>, r: Seq<(u8, usize)>, j: int, both_ends: bool) -> Seq<Seq<char>>
    decreases j,
{
    if j <= 0 {
        Seq::empty()
    } else {
        collapsed_lines(o, r, j - 1, both_ends) + run_lines(o, r, j - 1, both_ends)
    }
}

/// The lines that show a comparison `t` (tagged snapshots, oldest first) under `opts`.
pub open spec fn comm_lines(t: Seq<(Comm, Snap)>, opts: CommOpts) -> Seq<Seq<char>> {
    let o = shown_order(t, opts.order_asc);
    if !opts.collapse && !opts.collapse_keep_both_ends {
        plain_lines(o)
    } else {
        let r = runs(side_keys(o));
        collapsed_lines(o, r, r.len() as int, opts.collapse_keep_both_ends)
    }
}

/// The decimal digits of `n`.
pub fn decimal_text(n: usize) -> (r: String)
    ensures
        r@ == decimal_of(n as nat),
    decreases n,
{
    let d = n % 10;
    let c = if d == 0 { '0' } else if d == 1 { '1' } else if d == 2 { '2' } else if d == 3 { '3' } else if d == 4 {
        '4'
    } else if d == 5 { '5' } else if d == 6 { '6' } else if d == 7 { '7' } else if d == 8 { '8' } else { '9' };
    if n < 10 {
        let mut r = String::new();
        push_char(&mut r, c);
        assert(r@ =~= decimal_of(n as nat));
        r
    } else {
        let mut r = decimal_text(n / 10);
        push_char(&mut r, c);
        r
    }
}

/// `n` spaces.
fn spaces_text(n: usize) -> (r: String)
    ensures
        r@ == spaces(n as nat),
{
    let mut r = String::new();
    let mut i: usize = 0;
    while i < n
        invariant
            i <= n,
            r@ == spaces(i as nat),
        decreases n - i,
    {
        push_char(&mut r, ' ');
        i += 1;
        assert(r@ =~= spaces(i as nat));
    }
    r
}

fn indent_text(side: Comm) -> (r: String)
    ensures
        r@ == spaces(indent_of(side)),
{
    match side {
        Comm::LEFT => spaces_text(0),
        Comm::BOTH => spaces_text(INDENT_WIDTH),
        Comm::RIGHT => spaces_text(2 * INDENT_WIDTH),
    }
}


/// The comparison in the order shown.
fn shown<'a>(t: &Vec<(Comm, &'a Snap)>, asc: bool) -> (r: Vec<(Comm, &'a Snap)>)
    ensures
        tagged(r@) == shown_order(tagged(t@), asc),
{
    let mut r: Vec<(Comm, &'a Snap)> = Vec::new();
    let n = t.len();
    let mut i: usize = 0;
    while i < n
        invariant
            n == t@.len(),
            i <= n,
            r@.len() == i,
            forall|k: int| 0 <= k < i ==> #[trigger] r@[k] == (if asc { t@[k] } else { t@[n - 1 - k] }),
        decreases n - i,
    {
        if asc {
            r.push(t[i]);
        } else {
            r.push(t[n - 1 - i]);
        }
        i += 1;
    }
    assert(tagged(r@) =~= shown_order(tagged(t@), asc));
    r
}

/// One line per snapshot of `o`.
fn plain(o: &Vec<(Comm, &Snap)>) -> (r: Vec<String>)
    ensures
        views(r@) == plain_lines(tagged(o@)),
{
    let mut r: Vec<String> = Vec::new();
    let mut i: usize = 0;
    while i < o.len()
        invariant
            i <= o@.len(),
            views(r@) == plain_lines(tagged(o@)).subrange(0, i as int),
        decreases o@.len() - i,
    {
        let (side, snap) = o[i];
        let line = concat(indent_text(side).as_str(), snap.name.as_str());
        assert(tagged(o@)[i as int] == (side, *snap));
        assert(line@ == plain_lines(tagged(o@))[i as int]);
        let ghost before = views(r@);
        r.push(line);
        assert(views(r@) =~= before.push(line@));
        i += 1;
        assert(views(r@) =~= plain_lines(tagged(o@)).subrange(0, i as int));
    }
    assert(plain_lines(tagged(o@)).subrange(0, o@.len() as int) =~= plain_lines(tagged(o@)));
    r
}

/// The column key of each snapshot of `o`.
fn side_codes(o: &Vec<(Comm, &Snap)>) -> (r: Vec<u8>)
    ensures
        r@ == side_keys(tagged(o@)),
{
    let mut r: Vec<u8> = Vec::new();
    let mut i: usize = 0;
    while i < o.len()
        invariant
            i <= o@.len(),
            r@ == side_keys(tagged(o@)).subrange(0, i as int),
        decreases o@.len() - i,
    {
        let code: u8 = match o[i].0 {
            Comm::LEFT => 0,
            Comm::BOTH => 1,
            Comm::RIGHT => 2,
        };
        r.push(code);
        i += 1;
        assert(r@ =~= side_keys(tagged(o@)).subrange(0, i as int));
    }
    assert(r@ =~= side_keys(tagged(o@)));
    r
}

/// `pad`, then `  (+n)`.
fn count_line(pad: &String, n: usize) -> (r: String)
    ensures
        r@ == pad@ + "  (+"@ + decimal_of(n as nat) + ")"@,
{
    let mut r = concat(pad.as_str(), "  (+");
    r.append(decimal_text(n).as_str());
    r.append(")");
    r
}

/// Adds the lines of the run of `count` snapshots of `o` from `start`.
fn push_run_lines(lines: &mut Vec<String>, o: &Vec<(Comm, &Snap)>, start: usize, count: usize, both_ends: bool)
    requires
        1 <= count,
        start + count <= o@.len(),
    ensures
        views(final(lines)@) == views(old(lines)@) + run_lines_at(tagged(o@), start as int, count as int, both_ends),
{
    let len = o.len();
    assert(start + count <= len);
    let (side, first) = o[start];
    let pad = indent_text(side);
    lines.push(concat(pad.as_str(), first.name.as_str()));
    if !both_ends {
        lines.push(count_line(&pad, count - 1));
    } else if count > 1 {
        lines.push(count_line(&pad, count - 2));
        let (_, last) = o[start + count - 1];
        lines.push(concat(pad.as_str(), last.name.as_str()));
    }
    assert(views(lines@) =~= views(old(lines)@) + run_lines_at(tagged(o@), start as int, count as int, both_ends));
}

/// The lines of each run of snapshots on one side of `o`.
fn collapsed(o: &Vec<(Comm, &Snap)>, both_ends: bool) -> (r: Vec<String>)
    ensures
        views(r@) == collapsed_lines(tagged(o@), runs(side_keys(tagged(o@))), runs(side_keys(tagged(o@))).len() as int, both_ends),
{
    let ghost t = tagged(o@);
    let keys = side_codes(o);
    let n = keys.len();
    assert(keys@.len() == n);
    let rs = runs_of(&keys);
    proof {
        lemma_runs(keys@);
    }
    let mut lines: Vec<String> = Vec::new();
    let mut j: usize = 0;
    let mut start: usize = 0;
    while j < rs.len()
        invariant
            t == tagged(o@),
            keys@ == side_keys(t),
            keys@.len() == n,
            t.len() == n,
            rs@ == runs(keys@),
            j <= rs.len(),
            start == run_start(rs@, j as int),
            forall|k: int| 0 <= k < rs@.len() ==> (#[trigger] rs@[k]).1 >= 1,
            forall|k: int| 0 <= k <= rs@.len() ==> 0 <= #[trigger] run_start(rs@, k) <= keys@.len(),
            views(lines@) == collapsed_lines(t, rs@, j as int, both_ends),
        decreases rs.len() - j,
    {
        let count = rs[j].1;
        assert(run_start(rs@, j + 1) == start + count);
        assert(run_start(rs@, j + 1) <= keys@.len());
        assert(rs@[j as int].1 >= 1);
        assert(count >= 1 && start + count <= n);
        let ghost before = views(lines@);
        push_run_lines(&mut lines, o, start, count, both_ends);
        assert(run_lines(t, rs@, j as int, both_ends) == run_lines_at(t, start as int, count as int, both_ends));
        assert(collapsed_lines(t, rs@, j + 1, both_ends) == before + run_lines(t, rs@, j as int, both_ends));
        start = start + count;
        j += 1;
    }
    lines
}

/// The lines that show the comparison `comparison` (as [crate::dataset::Dataset::comm] gives
/// it, oldest first) under `opts`: each snapshot in its side's column, or each run of snapshots
/// on one side collapsed to its first (and last) snapshot and a count.
pub fn render_comm(comparison: &Vec<(Comm, &Snap)>, opts: CommOpts) -> (r: Vec<String>)
    requires
        !(opts.collapse && opts.collapse_keep_both_ends),
    ensures
        views(r@) == comm_lines(tagged(comparison@), opts),
{
    let o = shown(comparison, opts.order_asc);
    if !opts.collapse && !opts.collapse_keep_both_ends {
        plain(&o)
    } else {
        collapsed(&o, opts.collapse_keep_both_ends)
    }
}

} // verus!
