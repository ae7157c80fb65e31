use vstd::prelude::*;
use itertools::Itertools;
use crate::text::views;

verus! {

/// The maximal runs of equal keys of `keys`, in order, each as its key and its length.
pub open spec fn runs<T>(keys: Seq<T>) -> Seq<(T, usize)>
    decreases keys.len(),
{
    if keys.len() == 0 {
        Seq::empty()
    } else {
        let r = runs(keys.drop_last());
        if r.len() > 0 && r.last().0 == keys.last() {
            r.update(r.len() - 1, (keys.last(), (r.last().1 + 1) as usize))
        } else {
            r.push((keys.last(), 1usize))
        }
    }
}

/// Relies on itertools' `group_by`: consecutive elements with the same key form one group, so
/// the groups are the maximal runs of equal keys, in order.
#[verifier::external_body]
pub(crate) fn runs_of(keys: &Vec<u8>) -> (r: Vec<(u8, usize)>)
    ensures
        r@ == runs(keys@),
{
    keys.iter().group_by(|k| **k).into_iter().map(|(key, group)| (key, group.count())).collect()
}

/// Where run `j` starts: the total length of the runs before it.
pub open spec fn run_start<T>(r: Seq<(T, usize)>, j: int) -> int
    decreases j,
{
    if j <= 0 {
        0
    } else {
        run_start(r, j - 1) + r[j - 1].1
    }
}

/// The runs `r` tile `keys`: none is empty, together they span all of `keys`, and each spans
/// keys equal to its own.
pub open spec fn runs_tile<T>(keys: Seq<T>, r: Seq<(T, usize)>) -> bool {
    &&& run_start(r, r.len() as int) == keys.len()
    &&& forall|j: int| 0 <= j < r.len() ==> (#[trigger] r[j]).1 >= 1
    &&& forall|j: int| 0 <= j <= r.len() ==> 0 <= #[trigger] run_start(r, j) <= keys.len()
    &&& forall|j: int, i: int|
        0 <= j < r.len() && run_start(r, j) <= i < run_start(r, j) + r[j].1 ==> #[trigger] keys[i] == (
        #[trigger] r[j]).0
}

pub proof fn lemma_run_start_monotone<T>(r: Seq<(T, usize)>, j: int, k: int)
    requires
        0 <= j <= k <= r.len(),
    ensures
        run_start(r, j) <= run_start(r, k),
    decreases k - j,
{
    if j < k {
        lemma_run_start_monotone(r, j, k - 1);
    }
}

proof fn lemma_runs_extend<T>(keys: Seq<T>)
    requires
        0 < keys.len() <= usize::MAX,
        runs_tile(keys.drop_last(), runs(keys.drop_last())),
        runs(keys.drop_last()).len() > 0,
        runs(keys.drop_last()).last().0 == keys.last(),
    ensures
        runs_tile(keys, runs(keys)),
{
    let d = keys.drop_last();
    let r0 = runs(d);
    let r = runs(keys);
    let n = r0.len() - 1;
    assert(run_start(r0, n) >= 0);
    assert(r0[n].1 <= d.len());
    assert(r == r0.update(n, (keys.last(), (r0[n].1 + 1) as usize)));
    assert forall|j: int| 0 <= j <= n implies #[trigger] run_start(r, j) == run_start(r0, j) by {
        lemma_run_start_prefix(r0, r, j);
    }
    assert(run_start(r, n + 1) == run_start(r, n) + r[n].1);
    assert(run_start(r0, n + 1) == run_start(r0, n) + r0[n].1);
    assert forall|j: int, i: int|
        0 <= j < r.len() && run_start(r, j) <= i < run_start(r, j) + r[j].1
            implies #[trigger] keys[i] == (#[trigger] r[j]).0 by {
        if j < n {
            assert(r[j] == r0[j]);
            assert(run_start(r0, j + 1) == run_start(r0, j) + r0[j].1);
            lemma_run_start_monotone(r0, j + 1, n + 1);
            assert(d[i] == r0[j].0);
            assert(d[i] == keys[i]);
        } else if i < d.len() {
            assert(d[i] == r0[j].0);
            assert(d[i] == keys[i]);
        }
    }
    assert forall|j: int| 0 <= j <= r.len() implies 0 <= #[trigger] run_start(r, j) <= keys.len() by {
        if j <= n {
            assert(run_start(r0, j) <= d.len());
        }
    }
}

proof fn lemma_runs_new<T>(keys: Seq<T>)
    requires
        keys.len() > 0,
        runs_tile(keys.drop_last(), runs(keys.drop_last())),
        !(runs(keys.drop_last()).len() > 0 && runs(keys.drop_last()).last().0 == keys.last()),
    ensures
        runs_tile(keys, runs(keys)),
{
    let d = keys.drop_last();
    let r0 = runs(d);
    let r = runs(keys);
    let n0 = r0.len() as int;
    assert(r == r0.push((keys.last(), 1usize)));
    assert forall|j: int| 0 <= j <= n0 implies #[trigger] run_start(r, j) == run_start(r0, j) by {
        lemma_run_start_prefix(r0, r, j);
    }
    assert(run_start(r, n0 + 1) == run_start(r, n0) + r[n0].1);
    assert forall|j: int, i: int|
        0 <= j < r.len() && run_start(r, j) <= i < run_start(r, j) + r[j].1
            implies #[trigger] keys[i] == (#[trigger] r[j]).0 by {
        if j < n0 {
            assert(r[j] == r0[j]);
            assert(run_start(r0, j + 1) == run_start(r0, j) + r0[j].1);
            lemma_run_start_monotone(r0, j + 1, n0);
            assert(d[i] == r0[j].0);
            assert(d[i] == keys[i]);
        }
    }
    assert forall|j: int| 0 <= j <= r.len() implies 0 <= #[trigger] run_start(r, j) <= keys.len() by {
        if j <= n0 {
            assert(run_start(r0, j) <= d.len());
        }
    }
}

/// The maximal runs of `keys` tile it.
pub proof fn lemma_runs<T>(keys: Seq<T>)
    requires
        keys.len() <= usize::MAX,
    ensures
        runs_tile(keys, runs(keys)),
    decreases keys.len(),
{
    if keys.len() > 0 {
        lemma_runs(keys.drop_last());
        if runs(keys.drop_last()).len() > 0 && runs(keys.drop_last()).last().0 == keys.last() {
            lemma_runs_extend(keys);
        } else {
            lemma_runs_new(keys);
        }
    } else {
        assert(run_start(runs(keys), 0) == 0);
    }
}

proof fn lemma_run_start_prefix<T>(a: Seq<(T, usize)>, b: Seq<(T, usize)>, j: int)
    requires
        0 <= j <= a.len(),
        j <= b.len(),
        forall|k: int| 0 <= k < j ==> a[k] == b[k],
    ensures
        run_start(a, j) == run_start(b, j),
    decreases j,
{
    if j > 0 {
        lemma_run_start_prefix(a, b, j - 1);
    }
}

/// `parts` joined with `sep` between each two.
pub open spec fn joined(parts: Seq<Seq<char>>, sep: Seq<char>) -> Seq<char>
    decreases parts.len(),
{
    if parts.len() == 0 {
        Seq::empty()
    } else if parts.len() == 1 {
        parts[0]
    } else {
        joined(parts.drop_last(), sep) + sep + parts.last()
    }
}

/// Relies on itertools' `Itertools::join`: the elements, shown one after the other with `sep`
/// between each two.
#[verifier::external_body]
pub(crate) fn join_with(parts: &Vec<String>, sep: &str) -> (r: String)
    ensures
        r@ == joined(views(parts@), sep@),
{
    parts.iter().join(sep)
}

} // verus!
