use vstd::prelude::*;
use crate::snap::Snap;
use crate::dataset::Dataset;

verus! {

/// Which side of a two-way comparison a snapshot was found on.
#[derive(Copy, Clone, Debug, PartialEq, Eq, Structural)]
pub enum Comm {
    /// Only in the first (left, source) sequence.
    LEFT,
    /// In both sequences.
    BOTH,
    /// Only in the second (right, destination) sequence.
    RIGHT,
}

/// No snapshot of `a` and none of `b` share a creation instant unless they are the same
/// snapshot: the order of snapshots is then total across the two sequences.
pub open spec fn comparable(a: Seq<Snap>, b: Seq<Snap>) -> bool {
    forall|i: int, j: int|
        0 <= i < a.len() && 0 <= j < b.len() && #[trigger] a[i].creation == #[trigger] b[j].creation
            ==> a[i].guid == b[j].guid
}

/// The two-way merge of two snapshot sequences: walk both heads, emit the older one tagged with
/// its side, or both at once (tagged BOTH, taken from `a`) when they are the same snapshot; once a
/// side is drained, the rest of the other follows with its own tag.
pub open spec fn merge(a: Seq<Snap>, b: Seq<Snap>) -> Seq<(Comm, Snap)>
    decreases a.len() + b.len(),
{
    if a.len() == 0 {
        b.map_values(|s: Snap| (Comm::RIGHT, s))
    } else if b.len() == 0 {
        a.map_values(|s: Snap| (Comm::LEFT, s))
    } else if a[0].guid == b[0].guid {
        seq![(Comm::BOTH, a[0])] + merge(a.drop_first(), b.drop_first())
    } else if a[0].creation < b[0].creation {
        seq![(Comm::LEFT, a[0])] + merge(a.drop_first(), b)
    } else {
        seq![(Comm::RIGHT, b[0])] + merge(a, b.drop_first())
    }
}

/// The tagged snapshots that a sequence of tagged references points to.
pub open spec fn tagged(v: Seq<(Comm, &Snap)>) -> Seq<(Comm, Snap)> {
    v.map_values(|p: (Comm, &Snap)| (p.0, *p.1))
}

/// The position of the last element tagged BOTH, if any.
pub open spec fn last_both(m: Seq<(Comm, Snap)>) -> Option<int>
    decreases m.len(),
{
    if m.len() == 0 {
        None
    } else if m.last().0 == Comm::BOTH {
        Some(m.len() - 1)
    } else {
        last_both(m.drop_last())
    }
}


/// The snapshots of a merge that come from its first sequence (tagged LEFT or BOTH), in order.
pub open spec fn left_side(m: Seq<(Comm, Snap)>) -> Seq<Snap>
    decreases m.len(),
{
    if m.len() == 0 {
        Seq::empty()
    } else if m.last().0 == Comm::RIGHT {
        left_side(m.drop_last())
    } else {
        left_side(m.drop_last()).push(m.last().1)
    }
}

/// The guids of the snapshots of a merge that are on its second sequence (tagged RIGHT or BOTH),
/// in order.
pub open spec fn right_side_guids(m: Seq<(Comm, Snap)>) -> Seq<u64>
    decreases m.len(),
{
    if m.len() == 0 {
        Seq::empty()
    } else if m.last().0 == Comm::LEFT {
        right_side_guids(m.drop_last())
    } else {
        right_side_guids(m.drop_last()).push(m.last().1.guid)
    }
}

pub open spec fn guids(a: Seq<Snap>) -> Seq<u64> {
    a.map_values(|s: Snap| s.guid)
}

/// Some element of `m` carries the tag `t`.
pub open spec fn has_tag(m: Seq<(Comm, Snap)>, t: Comm) -> bool {
    exists|i: int| 0 <= i < m.len() && #[trigger] m[i].0 == t
}

proof fn lemma_left_side_add(x: Seq<(Comm, Snap)>, y: Seq<(Comm, Snap)>)
    ensures
        left_side(x + y) == left_side(x) + left_side(y),
        right_side_guids(x + y) == right_side_guids(x) + right_side_guids(y),
    decreases y.len(),
{
    if y.len() == 0 {
        assert(x + y =~= x);
        assert(left_side(x) + left_side(y) =~= left_side(x));
        assert(right_side_guids(x) + right_side_guids(y) =~= right_side_guids(x));
    } else {
        lemma_left_side_add(x, y.drop_last());
        assert((x + y).drop_last() =~= x + y.drop_last());
        assert((x + y).last() == y.last());
        assert(left_side(x) + left_side(y.drop_last()).push(y.last().1)
            =~= (left_side(x) + left_side(y.drop_last())).push(y.last().1));
        assert(right_side_guids(x) + right_side_guids(y.drop_last()).push(y.last().1.guid)
            =~= (right_side_guids(x) + right_side_guids(y.drop_last())).push(y.last().1.guid));
    }
}

proof fn lemma_sides_of_tagged_run(s: Seq<Snap>, t: Comm)
    ensures
        t == Comm::RIGHT ==> left_side(s.map_values(|x: Snap| (t, x))) == Seq::<Snap>::empty(),
        t == Comm::LEFT ==> left_side(s.map_values(|x: Snap| (t, x))) == s,
        t == Comm::LEFT ==> right_side_guids(s.map_values(|x: Snap| (t, x))) == Seq::<u64>::empty(),
        t == Comm::RIGHT ==> right_side_guids(s.map_values(|x: Snap| (t, x))) == guids(s),
    decreases s.len(),
{
    let m = s.map_values(|x: Snap| (t, x));
    if s.len() > 0 {
        lemma_sides_of_tagged_run(s.drop_last(), t);
        assert(m.drop_last() =~= s.drop_last().map_values(|x: Snap| (t, x)));
        assert(s.drop_last().push(s.last()) =~= s);
        assert(guids(s.drop_last()).push(s.last().guid) =~= guids(s));
    } else {
        assert(guids(s) =~= Seq::<u64>::empty());
    }
}

/// Each side of a merge is its input sequence: the first in full, the second by guid.
pub proof fn lemma_merge_sides(a: Seq<Snap>, b: Seq<Snap>)
    ensures
        left_side(merge(a, b)) == a,
        right_side_guids(merge(a, b)) == guids(b),
    decreases a.len() + b.len(),
{
    if a.len() == 0 {
        lemma_sides_of_tagged_run(b, Comm::RIGHT);
        assert(a =~= Seq::<Snap>::empty());
    } else if b.len() == 0 {
        lemma_sides_of_tagged_run(a, Comm::LEFT);
        assert(guids(b) =~= Seq::<u64>::empty());
    } else {
        let head: Seq<(Comm, Snap)>;
        let rest: Seq<(Comm, Snap)>;
        if a[0].guid == b[0].guid {
            head = seq![(Comm::BOTH, a[0])];
            rest = merge(a.drop_first(), b.drop_first());
            lemma_merge_sides(a.drop_first(), b.drop_first());
        } else if a[0].creation < b[0].creation {
            head = seq![(Comm::LEFT, a[0])];
            rest = merge(a.drop_first(), b);
            lemma_merge_sides(a.drop_first(), b);
        } else {
            head = seq![(Comm::RIGHT, b[0])];
            rest = merge(a, b.drop_first());
            lemma_merge_sides(a, b.drop_first());
        }
        assert(merge(a, b) == head + rest);
        lemma_left_side_add(head, rest);
        assert(head.drop_last() =~= Seq::<(Comm, Snap)>::empty());
        assert(left_side(head.drop_last()) =~= Seq::<Snap>::empty());
        assert(right_side_guids(head.drop_last()) =~= Seq::<u64>::empty());
        assert(seq![a[0]] + a.drop_first() =~= a);
        assert(seq![b[0].guid] + guids(b.drop_first()) =~= guids(b));
        assert(Seq::<Snap>::empty() + a =~= a);
        assert(Seq::<u64>::empty() + guids(b) =~= guids(b));
        assert(Seq::<Snap>::empty().push(a[0]) =~= seq![a[0]]);
        assert(Seq::<u64>::empty().push(b[0].guid) =~= seq![b[0].guid]);
        if a[0].guid == b[0].guid {
            assert(left_side(head) =~= seq![a[0]]);
            assert(right_side_guids(head) =~= seq![b[0].guid]);
        } else if a[0].creation < b[0].creation {
            assert(left_side(head) =~= seq![a[0]]);
            assert(right_side_guids(head) =~= Seq::<u64>::empty());
        } else {
            assert(left_side(head) =~= Seq::<Snap>::empty());
            assert(right_side_guids(head) =~= seq![b[0].guid]);
        }
    }
}

/// Where the last BOTH of a merge stands, and that none follows it.
pub proof fn lemma_last_both(m: Seq<(Comm, Snap)>)
    ensures
        last_both(m) is None <==> !has_tag(m, Comm::BOTH),
        last_both(m) matches Some(p) ==> 0 <= p < m.len() && m[p].0 == Comm::BOTH
            && forall|q: int| p < q < m.len() ==> #[trigger] m[q].0 != Comm::BOTH,
    decreases m.len(),
{
    if m.len() > 0 {
        lemma_last_both(m.drop_last());
        if m.last().0 != Comm::BOTH {
            let d = m.drop_last();
            if has_tag(m, Comm::BOTH) {
                let i = choose|i: int| 0 <= i < m.len() && #[trigger] m[i].0 == Comm::BOTH;
                assert(d[i].0 == Comm::BOTH);
            }
            if has_tag(d, Comm::BOTH) {
                let i = choose|i: int| 0 <= i < d.len() && #[trigger] d[i].0 == Comm::BOTH;
                assert(m[i].0 == Comm::BOTH);
            }
            if let Some(p) = last_both(m) {
                assert forall|q: int| p < q < m.len() implies #[trigger] m[q].0 != Comm::BOTH by {
                    if q < m.len() - 1 {
                        assert(d[q] == m[q]);
                    }
                }
            }
        } else {
            assert(m[m.len() - 1].0 == Comm::BOTH);
        }
    }
}


/// How two copies of a dataset stand to each other ("most recent common, up to date, or
/// divergence"). Each variant but the first carries the most recent snapshot found on both sides,
/// borrowed from the source.
#[derive(Debug)]
pub enum MRCUD<'a> {
    /// No snapshot in common.
    NoneInCommon,
    /// The most recent common snapshot is the last one on both sides.
    UpToDate(&'a Snap),
    /// Both sides have further snapshots after the most recent common one.
    Divergence(&'a Snap),
    /// Only the destination has further snapshots after the most recent common one.
    DestinationHasMore(&'a Snap),
    /// Only the source has further snapshots after the most recent common one.
    SourceHasMore(&'a Snap),
}

impl<'a> MRCUD<'a> {
    /// This classification is the one that the merge `m` of source and destination calls for:
    /// none without a BOTH; otherwise the kind follows from which sides appear after the last
    /// BOTH, and the carried snapshot is that BOTH's.
    pub open spec fn classifies(&self, m: Seq<(Comm, Snap)>) -> bool {
        match last_both(m) {
            None => *self is NoneInCommon,
            Some(p) => {
                let tail = m.subrange(p + 1, m.len() as int);
                let src_more = has_tag(tail, Comm::LEFT);
                let dst_more = has_tag(tail, Comm::RIGHT);
                match *self {
                    MRCUD::NoneInCommon => false,
                    MRCUD::UpToDate(s) => !src_more && !dst_more && *s == m[p].1,
                    MRCUD::SourceHasMore(s) => src_more && !dst_more && *s == m[p].1,
                    MRCUD::DestinationHasMore(s) => !src_more && dst_more && *s == m[p].1,
                    MRCUD::Divergence(s) => src_more && dst_more && *s == m[p].1,
                }
            },
        }
    }
}

/// Whether the snapshots of `a` and `b` can be merged: no two distinct snapshots, one on each
/// side, were taken at the same instant.
pub fn snaps_comparable(a: &Dataset, b: &Dataset) -> (r: bool)
    ensures
        r == comparable(a.snaps@, b.snaps@),
{
    let mut i: usize = 0;
    while i < a.snaps.len()
        invariant
            i <= a.snaps@.len(),
            forall|x: int, y: int|
                0 <= x < i && 0 <= y < b.snaps@.len() && #[trigger] a.snaps@[x].creation == #[trigger] b.snaps@[y].creation
                    ==> a.snaps@[x].guid == b.snaps@[y].guid,
        decreases a.snaps@.len() - i,
    {
        let mut j: usize = 0;
        while j < b.snaps.len()
            invariant
                i < a.snaps@.len(),
                j <= b.snaps@.len(),
                forall|x: int, y: int|
                    0 <= x < i && 0 <= y < b.snaps@.len() && #[trigger] a.snaps@[x].creation == #[trigger] b.snaps@[y].creation
                        ==> a.snaps@[x].guid == b.snaps@[y].guid,
                forall|y: int| 0 <= y < j && a.snaps@[i as int].creation == #[trigger] b.snaps@[y].creation
                    ==> a.snaps@[i as int].guid == b.snaps@[y].guid,
            decreases b.snaps@.len() - j,
        {
            if a.snaps[i].creation == b.snaps[j].creation && a.snaps[i].guid != b.snaps[j].guid {
                return false;
            }
            j += 1;
        }
        i += 1;
    }
    true
}

/// Takes two copies of the same dataset, each with its own snapshots, and tells which case of
/// [MRCUD] they fall into.
pub fn find_mrcud<'a>(source: &'a Dataset, destination: &Dataset) -> (r: MRCUD<'a>)
    requires
        comparable(source.snaps@, destination.snaps@),
    ensures
        r.classifies(merge(source.snaps@, destination.snaps@)),
{
    let (tags, mrc) = source.comm(destination);
    let ghost m = merge(source.snaps@, destination.snaps@);
    proof {
        lemma_last_both(m);
    }
    let p = match mrc {
        None => {
            return MRCUD::NoneInCommon;
        },
        Some(p) => p,
    };
    // Position in the source of the most recent common snapshot: the number of source-side
    // entries before it.
    let mut k: usize = 0;
    let mut i: usize = 0;
    while i < p
        invariant
            tagged(tags@) == m,
            last_both(m) == Some(p as int),
            i <= p < m.len(),
            k == left_side(m.subrange(0, i as int)).len(),
            k <= i,
        decreases p - i,
    {
        assert(m.subrange(0, i + 1).drop_last() =~= m.subrange(0, i as int));
        if tags[i].0 != Comm::RIGHT {
            k += 1;
        }
        i += 1;
    }
    proof {
        let pre = m.subrange(0, p as int);
        let upto = m.subrange(0, p + 1);
        let tail = m.subrange(p + 1, m.len() as int);
        assert(upto.drop_last() =~= pre);
        assert(m =~= upto + tail);
        lemma_left_side_add(upto, tail);
        lemma_merge_sides(source.snaps@, destination.snaps@);
        assert(left_side(upto) == left_side(pre).push(m[p as int].1));
        assert(source.snaps@ == left_side(pre).push(m[p as int].1) + left_side(tail));
        assert(source.snaps@[k as int] == m[p as int].1);
    }
    let common: &'a Snap = &source.snaps[k];
    assert(tags@.len() == m.len());
    assert(p < tags.len());
    let mut src_more = false;
    let mut dst_more = false;
    let mut j: usize = p + 1;
    let ghost tail = m.subrange(p + 1, m.len() as int);
    while j < tags.len()
        invariant
            tagged(tags@) == m,
            tail == m.subrange(p + 1, m.len() as int),
            p < j <= m.len(),
            src_more <==> exists|q: int| p < q < j && #[trigger] m[q].0 == Comm::LEFT,
            dst_more <==> exists|q: int| p < q < j && #[trigger] m[q].0 == Comm::RIGHT,
        decreases m.len() - j,
    {
        assert(m[j as int].0 == tags@[j as int].0);
        let ghost jj = j as int;
        if tags[j].0 == Comm::LEFT {
            src_more = true;
        } else if tags[j].0 == Comm::RIGHT {
            dst_more = true;
        }
        j += 1;
        assert forall|q: int| p < q < j && #[trigger] m[q].0 == Comm::LEFT implies src_more by {
            if q < jj {
            }
        }
        assert forall|q: int| p < q < j && #[trigger] m[q].0 == Comm::RIGHT implies dst_more by {
            if q < jj {
            }
        }
    }
    proof {
        if src_more {
            let q = choose|q: int| p < q < j && #[trigger] m[q].0 == Comm::LEFT;
            assert(tail[q - p - 1].0 == Comm::LEFT);
        }
        if has_tag(tail, Comm::LEFT) {
            let q = choose|q: int| 0 <= q < tail.len() && #[trigger] tail[q].0 == Comm::LEFT;
            assert(m[q + p + 1].0 == Comm::LEFT);
        }
        if dst_more {
            let q = choose|q: int| p < q < j && #[trigger] m[q].0 == Comm::RIGHT;
            assert(tail[q - p - 1].0 == Comm::RIGHT);
        }
        if has_tag(tail, Comm::RIGHT) {
            let q = choose|q: int| 0 <= q < tail.len() && #[trigger] tail[q].0 == Comm::RIGHT;
            assert(m[q + p + 1].0 == Comm::RIGHT);
        }
    }
    if src_more && dst_more {
        MRCUD::Divergence(common)
    } else if src_more {
        MRCUD::SourceHasMore(common)
    } else if dst_more {
        MRCUD::DestinationHasMore(common)
    } else {
        MRCUD::UpToDate(common)
    }
}


/// The classification is NoneInCommon exactly when the merge holds no snapshot tagged BOTH.
pub proof fn lemma_none_in_common_iff_no_both(a: Seq<Snap>, b: Seq<Snap>, r: MRCUD)
    requires
        r.classifies(merge(a, b)),
    ensures
        r is NoneInCommon <==> !has_tag(merge(a, b), Comm::BOTH),
{
    lemma_last_both(merge(a, b));
}

/// When the two sides are up to date, the snapshot carried is the last of the source, and the
/// last of the destination is that same snapshot.
pub proof fn lemma_up_to_date_is_last(a: Seq<Snap>, b: Seq<Snap>, r: MRCUD)
    requires
        r.classifies(merge(a, b)),
        r is UpToDate,
    ensures
        a.len() > 0,
        b.len() > 0,
        *r->UpToDate_0 == a.last(),
        r->UpToDate_0.guid == b.last().guid,
{
    let m = merge(a, b);
    lemma_last_both(m);
    lemma_merge_sides(a, b);
    let p = last_both(m)->Some_0;
    let tail = m.subrange(p + 1, m.len() as int);
    if tail.len() > 0 {
        assert(m[p + 1] == tail[0]);
        assert(tail[0].0 == Comm::LEFT || tail[0].0 == Comm::RIGHT || tail[0].0 == Comm::BOTH);
        assert(false);
    }
    assert(p == m.len() - 1);
    assert(left_side(m) == left_side(m.drop_last()).push(m[p].1));
    assert(right_side_guids(m) == right_side_guids(m.drop_last()).push(m[p].1.guid));
    assert(guids(b).last() == b.last().guid);
}

/// Creations strictly increase along `a`.
pub open spec fn strictly_increasing(a: Seq<Snap>) -> bool {
    forall|i: int, j: int| 0 <= i < j < a.len() ==> #[trigger] a[i].creation < #[trigger] a[j].creation
}

/// No two snapshots of `a` share a guid.
pub open spec fn distinct_guids(a: Seq<Snap>) -> bool {
    forall|i: int, j: int| 0 <= i < j < a.len() ==> #[trigger] a[i].guid != #[trigger] a[j].guid
}

/// A snapshot of `a` and one of `b` are the same (same guid) exactly when they were taken at the
/// same instant: a guid names one snapshot, with one creation time.
pub open spec fn consistent(a: Seq<Snap>, b: Seq<Snap>) -> bool {
    forall|i: int, j: int|
        0 <= i < a.len() && 0 <= j < b.len() ==> (#[trigger] a[i].guid == #[trigger] b[j].guid
            <==> a[i].creation == b[j].creation)
}

/// Some snapshot of `b` has the guid `g`.
pub open spec fn has_guid(b: Seq<Snap>, g: u64) -> bool {
    exists|j: int| 0 <= j < b.len() && #[trigger] b[j].guid == g
}

/// The number of snapshots of `a` that are also in `b`: the size of their intersection.
pub open spec fn shared_count(a: Seq<Snap>, b: Seq<Snap>) -> nat
    decreases a.len(),
{
    if a.len() == 0 {
        0
    } else {
        (if has_guid(b, a[0].guid) { 1nat } else { 0nat }) + shared_count(a.drop_first(), b)
    }
}

proof fn lemma_shared_count_drop_unmatched(a: Seq<Snap>, b: Seq<Snap>)
    requires
        b.len() > 0,
        forall|i: int| 0 <= i < a.len() ==> #[trigger] a[i].guid != b[0].guid,
    ensures
        shared_count(a, b) == shared_count(a, b.drop_first()),
    decreases a.len(),
{
    if a.len() > 0 {
        let g = a[0].guid;
        if has_guid(b, g) {
            let j = choose|j: int| 0 <= j < b.len() && #[trigger] b[j].guid == g;
            assert(b.drop_first()[j - 1].guid == g);
        }
        if has_guid(b.drop_first(), g) {
            let j = choose|j: int| 0 <= j < b.drop_first().len() && #[trigger] b.drop_first()[j].guid == g;
            assert(b[j + 1].guid == g);
        }
        assert forall|i: int| 0 <= i < a.drop_first().len() implies #[trigger] a.drop_first()[i].guid != b[0].guid by {
            assert(a.drop_first()[i] == a[i + 1]);
        }
        lemma_shared_count_drop_unmatched(a.drop_first(), b);
    }
}

proof fn lemma_shared_count_empty(a: Seq<Snap>, b: Seq<Snap>)
    requires
        b.len() == 0,
    ensures
        shared_count(a, b) == 0,
    decreases a.len(),
{
    if a.len() > 0 {
        lemma_shared_count_empty(a.drop_first(), b);
    }
}

/// For snapshot sequences without repeated guids, each in strictly increasing order of creation
/// (a guid found on both sides having one creation time), the merge holds each snapshot once:
/// `|a| + |b|` entries less the number of snapshots they share; and it keeps the order of both
/// inputs.
pub proof fn lemma_merge_length(a: Seq<Snap>, b: Seq<Snap>)
    requires
        strictly_increasing(a),
        strictly_increasing(b),
        distinct_guids(a),
        distinct_guids(b),
        consistent(a, b),
    ensures
        merge(a, b).len() == a.len() + b.len() - shared_count(a, b),
        left_side(merge(a, b)) == a,
        right_side_guids(merge(a, b)) == guids(b),
    decreases a.len() + b.len(),
{
    lemma_merge_sides(a, b);
    if a.len() == 0 {
    } else if b.len() == 0 {
        lemma_shared_count_empty(a, b);
    } else {
        let a1 = a.drop_first();
        let b1 = b.drop_first();
        assert forall|i: int, j: int| 0 <= i < j < a1.len() implies #[trigger] a1[i].creation < #[trigger] a1[j].creation by {
            assert(a1[i] == a[i + 1] && a1[j] == a[j + 1]);
        }
        assert forall|i: int, j: int| 0 <= i < j < b1.len() implies #[trigger] b1[i].creation < #[trigger] b1[j].creation by {
            assert(b1[i] == b[i + 1] && b1[j] == b[j + 1]);
        }
        assert forall|i: int, j: int| 0 <= i < j < a1.len() implies #[trigger] a1[i].guid != #[trigger] a1[j].guid by {
            assert(a1[i] == a[i + 1] && a1[j] == a[j + 1]);
        }
        assert forall|i: int, j: int| 0 <= i < j < b1.len() implies #[trigger] b1[i].guid != #[trigger] b1[j].guid by {
            assert(b1[i] == b[i + 1] && b1[j] == b[j + 1]);
        }
        assert forall|i: int, j: int| 0 <= i < a1.len() && 0 <= j < b.len() implies
            (#[trigger] a1[i].guid == #[trigger] b[j].guid <==> a1[i].creation == b[j].creation) by {
            assert(a1[i] == a[i + 1]);
        }
        assert forall|i: int, j: int| 0 <= i < a.len() && 0 <= j < b1.len() implies
            (#[trigger] a[i].guid == #[trigger] b1[j].guid <==> a[i].creation == b1[j].creation) by {
            assert(b1[j] == b[j + 1]);
        }
        assert forall|i: int, j: int| 0 <= i < a1.len() && 0 <= j < b1.len() implies
            (#[trigger] a1[i].guid == #[trigger] b1[j].guid <==> a1[i].creation == b1[j].creation) by {
            assert(a1[i] == a[i + 1]);
            assert(b1[j] == b[j + 1]);
        }
        if a[0].guid == b[0].guid {
            lemma_merge_length(a1, b1);
            assert(has_guid(b, a[0].guid));
            assert forall|i: int| 0 <= i < a1.len() implies #[trigger] a1[i].guid != b[0].guid by {
                assert(a1[i] == a[i + 1]);
            }
            lemma_shared_count_drop_unmatched(a1, b);
        } else if a[0].creation < b[0].creation {
            lemma_merge_length(a1, b);
            if has_guid(b, a[0].guid) {
                let j = choose|j: int| 0 <= j < b.len() && #[trigger] b[j].guid == a[0].guid;
                if j > 0 {
                    assert(b[0].creation < b[j].creation);
                }
                assert(false);
            }
        } else {
            assert(a[0].creation != b[0].creation);
            lemma_merge_length(a, b1);
            assert forall|i: int| 0 <= i < a.len() implies #[trigger] a[i].guid != b[0].guid by {
                if i > 0 {
                    assert(a[0].creation < a[i].creation);
                }
            }
            lemma_shared_count_drop_unmatched(a, b);
        }
    }
}

} // verus!
