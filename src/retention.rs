use vstd::prelude::*;
use chrono::Datelike;
use crate::dataset::Dataset;
use crate::snap::{Snap, creation_in_range};
use crate::text::{lemma_split_on_absent, lemma_split_on_concat, lemma_split_on_nonempty, split_on, views};
use crate::runs::{joined, join_with, lemma_run_start_monotone, lemma_runs, run_start, runs, runs_of, runs_tile};

verus! {

/// Options of a retention run.
#[derive(Copy, Clone, Debug)]
pub struct RetentionOpts {
    /// Spare snapshots whose name is not a plain `YYYY-MM-DD` date.
    pub keep_unusual: bool,
    /// Run the destroy command rather than print it.
    pub run_directly: bool,
}

/// The name pattern of routine snapshots: a date, `YYYY-MM-DD`.
pub const ROUTINE_NAME_PATTERN: &'static str = "^\\d{4}-\\d{2}-\\d{2}$";

/// Seconds in a day, and the age under which a Sunday snapshot is kept (180 days).
pub const SECONDS_PER_DAY: i64 = 86400;
pub const SUNDAY_KEEP_SECONDS: i64 = 15552000;

/// Day of the week of an instant (seconds since the Unix epoch, UTC), Monday = 0; the epoch
/// fell on a Thursday.
pub open spec fn weekday_index(t: int) -> int {
    (t / 86400 + 3) % 7
}

/// Whether `pattern` (a regular expression) matches somewhere in `text`.
pub uninterp spec fn regex_matches(pattern: Seq<char>, text: Seq<char>) -> bool;

#[verifier::external_type_specification]
#[verifier::external_body]
pub struct ExRegexError(regex::Error);

/// Relies on chrono's `DateTime::from_timestamp` and `Datelike::weekday`: the day of the week of
/// an instant in its calendar range, as `Weekday::num_days_from_monday` numbers it.
#[verifier::external_body]
fn weekday_from_monday(secs: i64) -> (r: u32)
    requires
        creation_in_range(secs),
    ensures
        r == weekday_index(secs as int),
{
    chrono::DateTime::from_timestamp(secs, 0).unwrap().weekday().num_days_from_monday()
}

/// Relies on `regex::Regex::new` (which fails only on a pattern that is not a valid expression,
/// or one too large to compile) and `Regex::is_match`: whether the pattern matches somewhere in
/// the text. The routine name pattern (anchors, `\d`, counted repetitions and a literal `-`) is
/// valid syntax and small, so it compiles.
#[verifier::external_body]
fn regex_is_match(pattern: &str, text: &str) -> (r: Result<bool, regex::Error>)
    ensures
        r matches Ok(b) ==> b == regex_matches(pattern@, text@),
        pattern@ == ROUTINE_NAME_PATTERN@ ==> r is Ok,
{
    match regex::Regex::new(pattern) {
        Ok(re) => Ok(re.is_match(text)),
        Err(e) => Err(e),
    }
}

/// The keep verdict of a snapshot at instant `now`, given whether its name is a routine one.
/// A snapshot is kept if it was taken on a Sunday less than 180 days before `now`, if it has
/// holds, or, with `keep_unusual`, if its name is not a routine one.
pub open spec fn keeps(s: Snap, now: int, keep_unusual: bool, routine_name: bool) -> bool {
    ||| (weekday_index(s.creation as int) == 6 && now - s.creation < SUNDAY_KEEP_SECONDS)
    ||| s.holds > 0
    ||| (keep_unusual && !routine_name)
}

/// The keep verdict of `s` at instant `now` (`true`: keep), given whether its name is a routine
/// one.
pub fn keep_verdict(s: &Snap, now: i64, keep_unusual: bool, routine_name: bool) -> (r: bool)
    requires
        creation_in_range(s.creation),
    ensures
        r == keeps(*s, now as int, keep_unusual, routine_name),
{
    let sunday = weekday_from_monday(s.creation) == 6;
    let recent = (now as i128) - (s.creation as i128) < SUNDAY_KEEP_SECONDS as i128;
    (sunday && recent) || s.holds != 0 || (keep_unusual && !routine_name)
}

/// The keep verdict of `s` at instant `when` (seconds since the Unix epoch) under the basic
/// policy: a routine name is one that matches [ROUTINE_NAME_PATTERN].
pub fn basic_snap_retention_criteria(s: &Snap, when: i64, keep_unusual: bool) -> (r: bool)
    requires
        creation_in_range(s.creation),
    ensures
        r == keeps(*s, when as int, keep_unusual, regex_matches(ROUTINE_NAME_PATTERN@, s.name@)),
{
    match regex_is_match(ROUTINE_NAME_PATTERN, s.name.as_str()) {
        Ok(routine) => keep_verdict(s, when, keep_unusual, routine),
        Err(_) => {
            assert(false);
            true
        },
    }
}

/// The destroy argument of run `j` over the snapshot names `names`: its one name, or its first
/// and last names around `%`.
pub open spec fn run_part(r: Seq<(u8, usize)>, names: Seq<Seq<char>>, j: int) -> Seq<char> {
    let st = run_start(r, j);
    if r[j].1 == 1 {
        names[st]
    } else {
        names[st] + seq!['%'] + names[st + r[j].1 - 1]
    }
}

/// The destroy arguments of the runs before `j` that are not kept.
pub open spec fn deletion_parts(r: Seq<(u8, usize)>, names: Seq<Seq<char>>, j: int) -> Seq<Seq<char>>
    decreases j,
{
    if j <= 0 {
        Seq::empty()
    } else if r[j - 1].0 != DELETE {
        deletion_parts(r, names, j - 1)
    } else {
        deletion_parts(r, names, j - 1).push(run_part(r, names, j - 1))
    }
}

/// Key of a snapshot that is kept.
pub const KEEP: u8 = 1;

/// Key of a snapshot to destroy.
pub const DELETE: u8 = 0;

pub open spec fn verdict_key(keep: bool) -> u8 {
    if keep { KEEP } else { DELETE }
}

pub open spec fn verdict_keys(v: Seq<bool>) -> Seq<u8> {
    v.map_values(|b: bool| verdict_key(b))
}

pub open spec fn tagged_keys(t: Seq<(bool, &Snap)>) -> Seq<u8> {
    t.map_values(|p: (bool, &Snap)| verdict_key(p.0))
}

pub open spec fn tagged_names(t: Seq<(bool, &Snap)>) -> Seq<Seq<char>> {
    t.map_values(|p: (bool, &Snap)| p.1.name@)
}

/// The separator between destroy arguments: a comma, then a line continuation.
pub open spec fn destroy_separator() -> Seq<char> {
    seq![',', '\\', '\n']
}

/// Snapshot `i` is among those that the destroy argument of some run not kept stands for.
pub open spec fn destroyed_by(r: Seq<(u8, usize)>, i: int) -> bool {
    exists|j: int| 0 <= j < r.len() && r[j].0 == DELETE && #[trigger] run_start(r, j) <= i < run_start(r, j) + r[j].1
}

proof fn run_containing(r: Seq<(u8, usize)>, i: int, k: int) -> (j: int)
    requires
        0 <= k <= r.len(),
        run_start(r, k) <= i < run_start(r, r.len() as int),
    ensures
        k <= j < r.len(),
        run_start(r, j) <= i < run_start(r, j) + r[j].1,
    decreases r.len() - k,
{
    if k == r.len() {
        k
    } else if i < run_start(r, k + 1) {
        k
    } else {
        run_containing(r, i, k + 1)
    }
}

/// Decoding the destroy arguments gives back exactly the snapshots not kept: snapshot `i` is
/// among those that the argument of some run not kept stands for (its one name, or the names
/// from its first to its last) if and only if its verdict is `false`.
pub proof fn lemma_deletion_runs_cover(verdicts: Seq<bool>)
    requires
        verdicts.len() <= usize::MAX,
    ensures
        runs_tile(verdict_keys(verdicts), runs(verdict_keys(verdicts))),
        forall|i: int| 0 <= i < verdicts.len() ==> (destroyed_by(runs(verdict_keys(verdicts)), i) <==> !#[trigger] verdicts[i]),
{
    let keys = verdict_keys(verdicts);
    lemma_runs(keys);
    let r = runs(keys);
    assert forall|i: int| 0 <= i < verdicts.len() implies (destroyed_by(r, i) <==> !#[trigger] verdicts[i]) by {
        assert(run_start(r, 0) == 0);
        let j = run_containing(r, i, 0);
        assert(keys[i] == r[j].0);
        if destroyed_by(r, i) {
            let k = choose|k: int| 0 <= k < r.len() && r[k].0 == DELETE && #[trigger] run_start(r, k) <= i < run_start(r, k) + r[k].1;
            assert(keys[i] == r[k].0);
        }
    }
}


/// A snapshot name that the destroy argument leaves readable: not empty, and without a comma,
/// `%`, backslash or line break.
pub open spec fn plain_name(n: Seq<char>) -> bool {
    n.len() > 0 && forall|i: int| 0 <= i < n.len() ==> (#[trigger] n[i] != ',' && n[i] != '%' && n[i] != '\\' && n[i] != '\n')
}

pub open spec fn distinct_names(names: Seq<Seq<char>>) -> bool {
    forall|a: int, b: int| 0 <= a < names.len() && 0 <= b < names.len() && a != b ==> #[trigger] names[a] != #[trigger] names[b]
}

/// The destroy argument of piece `i` of a rendering split at its commas: the first piece as it
/// is, the others without the line continuation that begins them.
pub open spec fn piece_part(ps: Seq<Seq<char>>, i: int) -> Seq<char> {
    if i == 0 { ps[0] } else { ps[i].subrange(2, ps[i].len() as int) }
}

/// Name `n` is among those that the destroy argument `p` stands for, over the snapshot names
/// `names` in order: `x` stands for `x`, and `x%y` for the names from `x` through `y`.
pub open spec fn part_covers(p: Seq<char>, names: Seq<Seq<char>>, n: Seq<char>) -> bool {
    let f = split_on(p, '%');
    if f.len() == 1 {
        n == f[0]
    } else if f.len() == 2 {
        exists|a: int, b: int, k: int|
            0 <= a <= k <= b < names.len() && #[trigger] names[a] == f[0] && #[trigger] names[b] == f[1] && #[trigger] names[k] == n
    } else {
        false
    }
}

/// The names that a rendered destroy argument stands for: split it at its commas, and take
/// what each piece stands for.
pub open spec fn decoded(text: Seq<char>, names: Seq<Seq<char>>) -> Set<Seq<char>> {
    if text.len() == 0 {
        Set::empty()
    } else {
        let ps = split_on(text, ',');
        Set::new(|n: Seq<char>| exists|i: int| 0 <= i < ps.len() && #[trigger] part_covers(piece_part(ps, i), names, n))
    }
}

/// The rendering of the verdicts `v` over the snapshot names `names`.
pub open spec fn rendered(v: Seq<bool>, names: Seq<Seq<char>>) -> Seq<char> {
    let r = runs(verdict_keys(v));
    joined(deletion_parts(r, names, r.len() as int), destroy_separator())
}

proof fn lemma_part_covers(r: Seq<(u8, usize)>, names: Seq<Seq<char>>, j: int, n: Seq<char>)
    requires
        0 <= j < r.len(),
        r[j].1 >= 1,
        0 <= run_start(r, j),
        run_start(r, j) + r[j].1 <= names.len(),
        forall|i: int| 0 <= i < names.len() ==> plain_name(#[trigger] names[i]),
        distinct_names(names),
    ensures
        part_covers(run_part(r, names, j), names, n) <==> exists|k: int|
            run_start(r, j) <= k < run_start(r, j) + r[j].1 && #[trigger] names[k] == n,
        forall|i: int| 0 <= i < run_part(r, names, j).len() ==> run_part(r, names, j)[i] != ',',
        run_part(r, names, j).len() > 0,
{
    let st = run_start(r, j);
    let c = r[j].1 as int;
    let x = names[st];
    let y = names[st + c - 1];
    assert(plain_name(x));
    assert(plain_name(y));
    lemma_split_on_absent(x, '%');
    lemma_split_on_absent(y, '%');
    if c == 1 {
        if n == x {
            assert(names[st] == n);
        }
        assert(forall|i: int| 0 <= i < x.len() ==> #[trigger] x[i] != ',');
    } else {
        let p = run_part(r, names, j);
        assert(p == x + seq!['%'] + y);
        lemma_split_on_concat(x, y, '%');
        assert(split_on(p, '%') =~= seq![x, y]);
        if part_covers(p, names, n) {
            let (a, b, k) = choose|a: int, b: int, k: int|
                0 <= a <= k <= b < names.len() && #[trigger] names[a] == x && #[trigger] names[b] == y && #[trigger] names[k] == n;
            assert(a == st);
            assert(b == st + c - 1);
            assert(st <= k < st + c && names[k] == n);
        }
        if exists|k: int| st <= k < st + c && #[trigger] names[k] == n {
            let k = choose|k: int| st <= k < st + c && #[trigger] names[k] == n;
            assert(0 <= st <= k <= st + c - 1 < names.len() && names[st] == x && names[st + c - 1] == y && names[k] == n);
        }
        assert forall|i: int| 0 <= i < p.len() implies p[i] != ',' by {
            if i < x.len() {
                assert(p[i] == x[i]);
            } else if i > x.len() {
                assert(p[i] == y[i - x.len() - 1]);
            }
        }
    }
}

/// The facts about the runs of the verdicts that the decoding relies on.
pub open spec fn runs_fit(r: Seq<(u8, usize)>, len: int) -> bool {
    &&& forall|jj: int| 0 <= jj < r.len() ==> (#[trigger] r[jj]).1 >= 1
    &&& forall|jj: int| 0 <= jj < r.len() ==> 0 <= #[trigger] run_start(r, jj) && run_start(r, jj) + r[jj].1 <= len
}

proof fn lemma_parts_cover(r: Seq<(u8, usize)>, names: Seq<Seq<char>>, j: int, n: Seq<char>)
    requires
        0 <= j <= r.len(),
        runs_fit(r, names.len() as int),
        forall|i: int| 0 <= i < names.len() ==> plain_name(#[trigger] names[i]),
        distinct_names(names),
    ensures
        (exists|i: int| 0 <= i < deletion_parts(r, names, j).len() && #[trigger] part_covers(deletion_parts(r, names, j)[i], names, n))
            <==> (exists|jj: int, k: int| 0 <= jj < j && r[jj].0 == DELETE && run_start(r, jj) <= k < run_start(r, jj) + r[jj].1
                && #[trigger] names[k] == n && #[trigger] r[jj] == r[jj]),
        forall|i: int| 0 <= i < deletion_parts(r, names, j).len() ==> (#[trigger] deletion_parts(r, names, j)[i]).len() > 0
            && forall|q: int| 0 <= q < deletion_parts(r, names, j)[i].len() ==> deletion_parts(r, names, j)[i][q] != ',',
    decreases j,
{
    if j > 0 {
        lemma_parts_cover(r, names, j - 1, n);
        let prev = deletion_parts(r, names, j - 1);
        let cur = deletion_parts(r, names, j);
        assert(r[j - 1].1 >= 1);
        lemma_part_covers(r, names, j - 1, n);
        if r[j - 1].0 == DELETE {
            assert(cur == prev.push(run_part(r, names, j - 1)));
            if exists|i: int| 0 <= i < cur.len() && #[trigger] part_covers(cur[i], names, n) {
                let i = choose|i: int| 0 <= i < cur.len() && #[trigger] part_covers(cur[i], names, n);
                if i < prev.len() {
                    assert(prev[i] == cur[i]);
                    assert(part_covers(prev[i], names, n));
                } else {
                    let k = choose|k: int| run_start(r, j - 1) <= k < run_start(r, j - 1) + r[j - 1].1 && #[trigger] names[k] == n;
                    assert(r[j - 1] == r[j - 1]);
                }
            }
            if exists|jj: int, k: int| 0 <= jj < j && r[jj].0 == DELETE && run_start(r, jj) <= k < run_start(r, jj) + r[jj].1
                && #[trigger] names[k] == n && #[trigger] r[jj] == r[jj] {
                let (jj, k) = choose|jj: int, k: int| 0 <= jj < j && r[jj].0 == DELETE && run_start(r, jj) <= k < run_start(r, jj) + r[jj].1
                    && #[trigger] names[k] == n && #[trigger] r[jj] == r[jj];
                if jj < j - 1 {
                    assert(r[jj] == r[jj]);
                    let i = choose|i: int| 0 <= i < prev.len() && #[trigger] part_covers(prev[i], names, n);
                    assert(cur[i] == prev[i]);
                } else {
                    assert(part_covers(cur[prev.len() as int], names, n));
                }
            }
            assert forall|i: int| 0 <= i < cur.len() implies (#[trigger] cur[i]).len() > 0
                && forall|q: int| 0 <= q < cur[i].len() ==> cur[i][q] != ',' by {
                if i < prev.len() {
                    assert(cur[i] == prev[i]);
                } else {
                }
            }
        } else {
            assert(cur == prev);
            if exists|jj: int, k: int| 0 <= jj < j && r[jj].0 == DELETE && run_start(r, jj) <= k < run_start(r, jj) + r[jj].1
                && #[trigger] names[k] == n && #[trigger] r[jj] == r[jj] {
                let (jj, k) = choose|jj: int, k: int| 0 <= jj < j && r[jj].0 == DELETE && run_start(r, jj) <= k < run_start(r, jj) + r[jj].1
                    && #[trigger] names[k] == n && #[trigger] r[jj] == r[jj];
                assert(jj < j - 1);
                assert(r[jj] == r[jj]);
            }
        }
    }
}


proof fn lemma_split_joined(parts: Seq<Seq<char>>)
    requires
        parts.len() >= 1,
        forall|i: int| 0 <= i < parts.len() ==> forall|q: int| 0 <= q < (#[trigger] parts[i]).len() ==> parts[i][q] != ',',
    ensures
        split_on(joined(parts, destroy_separator()), ',').len() == parts.len(),
        forall|i: int| 0 <= i < parts.len() ==> piece_part(split_on(joined(parts, destroy_separator()), ','), i) == #[trigger] parts[i],
    decreases parts.len(),
{
    if parts.len() == 1 {
        let p0 = parts[0];
        assert(forall|q: int| 0 <= q < p0.len() ==> #[trigger] p0[q] != ',');
        lemma_split_on_absent(parts[0], ',');
    } else {
        let d = parts.drop_last();
        assert forall|i: int| 0 <= i < d.len() implies forall|q: int| 0 <= q < (#[trigger] d[i]).len() ==> d[i][q] != ',' by {
            assert(d[i] == parts[i]);
        }
        lemma_split_joined(d);
        let jd = joined(d, destroy_separator());
        let last = parts.last();
        assert(last == parts[parts.len() - 1]);
        assert(forall|q: int| 0 <= q < last.len() ==> #[trigger] last[q] != ',');
        let b = seq!['\\', '\n'] + last;
        assert(joined(parts, destroy_separator()) =~= jd + seq![','] + b);
        lemma_split_on_concat(jd, b, ',');
        assert forall|q: int| 0 <= q < b.len() implies b[q] != ',' by {
            if q >= 2 {
                assert(b[q] == last[q - 2]);
            }
        }
        lemma_split_on_absent(b, ',');
        let ps = split_on(joined(parts, destroy_separator()), ',');
        let pd = split_on(jd, ',');
        assert(ps == pd + seq![b]);
        assert forall|i: int| 0 <= i < parts.len() implies piece_part(ps, i) == #[trigger] parts[i] by {
            if i < d.len() {
                assert(ps[i] == pd[i]);
                assert(piece_part(pd, i) == d[i]);
            } else {
                assert(ps[i] == b);
                assert(b.subrange(2, b.len() as int) =~= last);
            }
        }
    }
}

pub open spec fn tagged_verdicts(t: Seq<(bool, &Snap)>) -> Seq<bool> {
    t.map_values(|p: (bool, &Snap)| p.0)
}

/// Decoding the rendered destroy argument gives back exactly the names of the snapshots not
/// kept: split it at its commas, read each piece as one name or as the names from `x` through
/// `y` for `x%y`. This holds for distinct names that are not empty and hold no comma, `%`,
/// backslash or line break.
pub proof fn lemma_rendering_decodes(verdicts: Seq<bool>, names: Seq<Seq<char>>)
    requires
        verdicts.len() == names.len() <= usize::MAX,
        forall|i: int| 0 <= i < names.len() ==> plain_name(#[trigger] names[i]),
        distinct_names(names),
    ensures
        decoded(rendered(verdicts, names), names) == Set::new(
            |n: Seq<char>| exists|i: int| 0 <= i < names.len() && !verdicts[i] && #[trigger] names[i] == n,
        ),
{
    let keys = verdict_keys(verdicts);
    let r = runs(keys);
    lemma_deletion_runs_cover(verdicts);
    assert(runs_fit(r, names.len() as int)) by {
        assert forall|jj: int| 0 <= jj < r.len() implies 0 <= #[trigger] run_start(r, jj) && run_start(r, jj) + r[jj].1 <= names.len() by {
            assert(run_start(r, jj + 1) == run_start(r, jj) + r[jj].1);
            assert(run_start(r, jj + 1) <= keys.len());
        }
    }
    let parts = deletion_parts(r, names, r.len() as int);
    let text = rendered(verdicts, names);
    let target = Set::new(|n: Seq<char>| exists|i: int| 0 <= i < names.len() && !verdicts[i] && #[trigger] names[i] == n);
    assert forall|n: Seq<char>| #[trigger] target.contains(n) <==> (exists|jj: int, k: int| 0 <= jj < r.len() && r[jj].0 == DELETE
        && run_start(r, jj) <= k < run_start(r, jj) + r[jj].1 && #[trigger] names[k] == n && #[trigger] r[jj] == r[jj]) by {
        if target.contains(n) {
            let i = choose|i: int| 0 <= i < names.len() && !verdicts[i] && #[trigger] names[i] == n;
            assert(destroyed_by(r, i));
            let jj = choose|jj: int| 0 <= jj < r.len() && r[jj].0 == DELETE && #[trigger] run_start(r, jj) <= i < run_start(r, jj) + r[jj].1;
            assert(r[jj] == r[jj]);
        }
        if exists|jj: int, k: int| 0 <= jj < r.len() && r[jj].0 == DELETE && run_start(r, jj) <= k < run_start(r, jj) + r[jj].1
            && #[trigger] names[k] == n && #[trigger] r[jj] == r[jj] {
            let (jj, k) = choose|jj: int, k: int| 0 <= jj < r.len() && r[jj].0 == DELETE && run_start(r, jj) <= k < run_start(r, jj) + r[jj].1
                && #[trigger] names[k] == n && #[trigger] r[jj] == r[jj];
            assert(destroyed_by(r, k));
            assert(!verdicts[k]);
        }
    }
    assert forall|n: Seq<char>| #[trigger] decoded(text, names).contains(n) <==> target.contains(n) by {
        lemma_parts_cover(r, names, r.len() as int, n);
        if parts.len() == 0 {
            assert(text =~= Seq::<char>::empty());
        } else {
            lemma_parts_cover(r, names, r.len() as int, n);
            lemma_split_joined(parts);
            lemma_split_on_nonempty(text, ',');
            let ps = split_on(text, ',');
            if text.len() == 0 {
                assert(ps =~= seq![Seq::<char>::empty()]);
                assert(piece_part(ps, 0) == parts[0]);
                assert(false);
            }
            if decoded(text, names).contains(n) {
                let i = choose|i: int| 0 <= i < ps.len() && #[trigger] part_covers(piece_part(ps, i), names, n);
                assert(piece_part(ps, i) == parts[i]);
            }
            if exists|i: int| 0 <= i < parts.len() && #[trigger] part_covers(parts[i], names, n) {
                let i = choose|i: int| 0 <= i < parts.len() && #[trigger] part_covers(parts[i], names, n);
                assert(piece_part(ps, i) == parts[i]);
            }
        }
    }
    assert(decoded(text, names) =~= target);
}

/// The run key of each verdict, in order.
fn verdict_codes(tagged: &Vec<(bool, &Snap)>) -> (r: Vec<u8>)
    ensures
        r@ == tagged_keys(tagged@),
{
    let mut keys: Vec<u8> = Vec::new();
    let mut i: usize = 0;
    while i < tagged.len()
        invariant
            i <= tagged@.len(),
            keys@ == tagged_keys(tagged@).subrange(0, i as int),
        decreases tagged@.len() - i,
    {
        keys.push(if tagged[i].0 { KEEP } else { DELETE });
        i += 1;
        assert(keys@ =~= tagged_keys(tagged@).subrange(0, i as int));
    }
    assert(keys@ =~= tagged_keys(tagged@));
    keys
}

/// The destroy argument of the `count` snapshots of `tagged` from `start`.
fn run_argument(tagged: &Vec<(bool, &Snap)>, start: usize, count: usize) -> (r: String)
    requires
        1 <= count,
        start + count <= tagged@.len(),
    ensures
        r@ == (if count == 1 {
            tagged_names(tagged@)[start as int]
        } else {
            tagged_names(tagged@)[start as int] + seq!['%'] + tagged_names(tagged@)[start + count - 1]
        }),
{
    let len = tagged.len();
    assert(start + count <= len);
    let first = &tagged[start].1.name;
    if count == 1 {
        first.clone()
    } else {
        let last = &tagged[start + count - 1].1.name;
        let mut p = first.clone();
        proof {
            reveal_strlit("%");
        }
        p.append("%");
        p.append(last.as_str());
        assert(p@ =~= tagged_names(tagged@)[start as int] + seq!['%'] + tagged_names(tagged@)[start + count - 1]);
        p
    }
}

/// The destroy arguments of the runs `rs` of `tagged` that are not kept.
fn deletion_arguments(tagged: &Vec<(bool, &Snap)>, keys: &Vec<u8>, rs: &Vec<(u8, usize)>) -> (parts: Vec<String>)
    requires
        keys@ == tagged_keys(tagged@),
        rs@ == runs(keys@),
    ensures
        views(parts@) == deletion_parts(rs@, tagged_names(tagged@), rs@.len() as int),
{
    let ghost names = tagged_names(tagged@);
    let n = keys.len();
    assert(keys@.len() == n);
    proof {
        lemma_runs(keys@);
    }
    let mut parts: Vec<String> = Vec::new();
    let mut j: usize = 0;
    let mut start: usize = 0;
    while j < rs.len()
        invariant
            keys@ == tagged_keys(tagged@),
            names == tagged_names(tagged@),
            rs@ == runs(keys@),
            j <= rs.len(),
            start == run_start(rs@, j as int),
            runs_tile(keys@, rs@),
            keys@.len() == n,
            views(parts@) == deletion_parts(rs@, names, j as int),
        decreases rs.len() - j,
    {
        let (key, count) = rs[j];
        assert(run_start(rs@, j + 1) == start + count);
        assert(run_start(rs@, j + 1) <= keys@.len());
        assert(rs@[j as int].1 >= 1);
        assert(count >= 1 && start + count <= keys@.len());
        if key == DELETE {
            let part = run_argument(tagged, start, count);
            assert(part@ == run_part(rs@, names, j as int));
            parts.push(part);
            assert(views(parts@) =~= deletion_parts(rs@, names, j as int).push(run_part(rs@, names, j as int)));
        }
        start = start + count;
        j += 1;
        assert(views(parts@) =~= deletion_parts(rs@, names, j as int));
    }
    parts
}

/// Renders the snapshots not kept as the argument of `zfs destroy <dataset>@<argument>`: each
/// run of consecutive snapshots not kept gives its one name, or `first%last`; these are joined
/// with a comma and a line continuation.
pub fn render_tagged_snaps_for_deletion(tagged_snaps: Vec<(bool, &Snap)>) -> (r: String)
    ensures
        r@ == rendered(tagged_verdicts(tagged_snaps@), tagged_names(tagged_snaps@)),
{
    let ghost t = tagged_snaps@;
    assert(tagged_keys(t) =~= verdict_keys(tagged_verdicts(t)));
    let keys = verdict_codes(&tagged_snaps);
    let rs = runs_of(&keys);
    let parts = deletion_arguments(&tagged_snaps, &keys, &rs);
    proof {
        reveal_strlit(",\\\n");
        assert(",\\\n"@ =~= destroy_separator());
    }
    join_with(&parts, ",\\\n")
}

impl Dataset {
    /// Pairs each snapshot, in order, with its keep verdict under `f` (`true`: keep).
    pub fn tag_snaps_for_deletion<F: Fn(&Snap) -> bool>(&self, f: F) -> (r: Vec<(bool, &Snap)>)
        requires
            forall|i: int| 0 <= i < self.snaps@.len() ==> f.requires((&self.snaps@[i],)),
        ensures
            r@.len() == self.snaps@.len(),
            forall|i: int| 0 <= i < r@.len() ==> *r@[i].1 == self.snaps@[i] && f.ensures((&self.snaps@[i],), r@[i].0),
    {
        let mut out: Vec<(bool, &Snap)> = Vec::new();
        let mut i: usize = 0;
        while i < self.snaps.len()
            invariant
                i <= self.snaps@.len(),
                out@.len() == i,
                forall|i: int| 0 <= i < self.snaps@.len() ==> f.requires((&self.snaps@[i],)),
                forall|k: int| 0 <= k < i ==> *out@[k].1 == self.snaps@[k] && f.ensures((&self.snaps@[k],), out@[k].0),
            decreases self.snaps@.len() - i,
        {
            let s = &self.snaps[i];
            let keep = f(s);
            out.push((keep, s));
            i += 1;
        }
        out
    }
}

} // verus!
