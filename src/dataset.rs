use vstd::prelude::*;
use crate::snap::Snap;
use crate::machine::Machine;
use crate::text::{chars_of, find_char, first_pos, lemma_first_pos, lemma_first_pos_bounds, string_of_range};
use crate::reconcile::{Comm, comparable, merge, tagged, last_both};
use core::cmp::Ordering;

verus! {

/// Why an address was refused. Each variant holds the text that was refused.
#[derive(Debug)]
pub enum SpecParseError {
    /// A colon stands after a slash: a colon may only separate a host from the dataset.
    ColonAfterSlash(String),
    /// Nothing follows the colon that ends the host.
    ZeroLengthAfterColon(String),
    /// The dataset begins or ends with a slash.
    IllegalSlashes(String),
    /// The dataset holds a character other than an ASCII letter or digit, `-`, `_` and `/`.
    IllegalCharacters(String),
    /// The dataset has an empty component (`a//b` beyond the one relative marker).
    EmptyComponent(String),
}

/// The characters allowed in a dataset name.
pub open spec fn name_char(c: char) -> bool {
    ('a' <= c <= 'z') || ('A' <= c <= 'Z') || ('0' <= c <= '9') || c == '-' || c == '_' || c == '/'
}

pub open spec fn all_name_chars(d: Seq<char>) -> bool {
    forall|i: int| 0 <= i < d.len() ==> name_char(#[trigger] d[i])
}

/// The text begins or ends with a slash.
pub open spec fn slash_at_end(d: Seq<char>) -> bool {
    d.len() > 0 && (d[0] == '/' || d.last() == '/')
}

/// Two slashes in a row stand at `k`.
pub open spec fn pair_at(d: Seq<char>, k: int) -> bool {
    0 <= k && k + 1 < d.len() && d[k] == '/' && d[k + 1] == '/'
}

pub open spec fn no_pair(d: Seq<char>) -> bool {
    forall|k: int| !(#[trigger] pair_at(d, k))
}

/// Index of the first `//` in `d`, or the length of `d` when there is none.
pub open spec fn first_pair(d: Seq<char>) -> int
    decreases d.len(),
{
    if d.len() < 2 {
        d.len() as int
    } else if pair_at(d, 0) {
        0
    } else {
        1 + first_pair(d.drop_first())
    }
}

/// `d` with its first `//` made into `/`.
pub open spec fn normalize(d: Seq<char>) -> Seq<char> {
    let p = first_pair(d);
    if p < d.len() {
        d.subrange(0, p) + d.subrange(p + 1, d.len() as int)
    } else {
        d
    }
}

/// A dataset text that parses: allowed characters, no slash at either end, and no empty
/// component once the relative marker is made a plain separator.
pub open spec fn dataset_text_ok(d: Seq<char>) -> bool {
    &&& all_name_chars(d)
    &&& !slash_at_end(d)
    &&& no_pair(normalize(d))
}

/// The error that a dataset text draws, checks taken in order; `d` is not empty.
pub open spec fn dataset_text_error(d: Seq<char>, e: SpecParseError) -> bool {
    if !all_name_chars(d) {
        e matches SpecParseError::IllegalCharacters(v) && v@ == d
    } else if slash_at_end(d) {
        e matches SpecParseError::IllegalSlashes(v) && v@ == d
    } else {
        e matches SpecParseError::EmptyComponent(v) && v@ == d
    }
}

proof fn lemma_first_pair(d: Seq<char>, i: int)
    requires
        0 <= i <= d.len(),
        forall|k: int| 0 <= k < i ==> !pair_at(d, k),
        pair_at(d, i) || (i == d.len() && no_pair(d)),
    ensures
        first_pair(d) == i,
    decreases d.len(),
{
    if d.len() >= 2 && i > 0 {
        let t = d.drop_first();
        assert forall|k: int| 0 <= k < i - 1 implies !pair_at(t, k) by {
            assert(pair_at(t, k) == pair_at(d, k + 1));
        }
        assert(pair_at(t, i - 1) == pair_at(d, i));
        if i == d.len() {
            assert forall|k: int| !(#[trigger] pair_at(t, k)) by {
                assert(pair_at(t, k) == pair_at(d, k + 1));
            }
        }
        lemma_first_pair(t, i - 1);
    } else if d.len() < 2 && i == 0 && pair_at(d, 0) {
        assert(false);
    }
}

/// Index of the first `//` in `v`, or its length when there is none.
fn find_pair(v: &Vec<char>) -> (r: usize)
    ensures
        r == first_pair(v@),
        r <= v.len(),
        r < v.len() ==> pair_at(v@, r as int),
        r == v.len() ==> no_pair(v@),
{
    let mut i: usize = 0;
    let stop: usize = if v.len() == 0 { 0 } else { v.len() - 1 };
    while i < stop
        invariant
            i <= v.len(),
            stop == if v.len() == 0 { 0 } else { v.len() - 1 },
            forall|k: int| 0 <= k < i ==> !pair_at(v@, k),
        decreases v.len() - i,
    {
        if v[i] == '/' && v[i + 1] == '/' {
            proof {
                lemma_first_pair(v@, i as int);
            }
            return i;
        }
        i += 1;
    }
    assert forall|k: int| !(#[trigger] pair_at(v@, k)) by {
        if 0 <= k < i {
        }
        if k >= i {
            assert(!pair_at(v@, k));
        }
    }
    proof {
        lemma_first_pair(v@, v.len() as int);
    }
    v.len()
}


/// A dataset: its normalized full name, where its pool root ends, where the address that named it
/// held a relative marker (`//`), and its snapshots, oldest first.
#[derive(Debug)]
pub struct Dataset {
    /// Full name, pool included, with path separators normalized: `tank/webdata`, or `tank` for
    /// a pool root.
    pub fullname: String,
    /// Offset of the first `/` of `fullname` (its length when there is none): the pool root is
    /// `fullname[..pool_idx]`.
    pub pool_idx: usize,
    /// Offset in `fullname` of the `/` that stood where the address held `//`, if it did.
    pub relative_idx: Option<usize>,
    /// Snapshots, oldest first by creation.
    pub snaps: Vec<Snap>,
}


/// The text of an address before its colon, if it has one: the host.
pub open spec fn host_text(s: Seq<char>) -> Seq<char> {
    let c = first_pos(s, ':');
    if c < s.len() {
        s.subrange(0, c)
    } else {
        Seq::empty()
    }
}

/// The text of an address after its colon, if it has one: the dataset.
pub open spec fn dataset_text(s: Seq<char>) -> Seq<char> {
    let c = first_pos(s, ':');
    if c < s.len() {
        s.subrange(c + 1, s.len() as int)
    } else {
        s
    }
}

/// The first colon of the address comes after its first slash.
pub open spec fn colon_after_slash(s: Seq<char>) -> bool {
    let c = first_pos(s, ':');
    let l = first_pos(s, '/');
    c < s.len() && l < s.len() && c > l
}

/// An address that parses.
pub open spec fn address_ok(s: Seq<char>) -> bool {
    &&& !colon_after_slash(s)
    &&& dataset_text(s).len() > 0
    &&& dataset_text_ok(dataset_text(s))
}

/// The error that an address draws, checks taken in order.
pub open spec fn address_error(s: Seq<char>, e: SpecParseError) -> bool {
    if colon_after_slash(s) {
        e matches SpecParseError::ColonAfterSlash(v) && v@ == s
    } else if dataset_text(s).len() == 0 {
        e matches SpecParseError::ZeroLengthAfterColon(v) && v@ == s
    } else {
        dataset_text_error(dataset_text(s), e)
    }
}

/// The name `n` with the relative path `rel` added after a slash, when `rel` is not empty.
pub open spec fn appended(n: Seq<char>, rel: Seq<char>) -> Seq<char> {
    if rel.len() == 0 {
        n
    } else {
        n + seq!['/'] + rel
    }
}

/// Normalizing a dataset text that parses gives a name of allowed characters, with no slash at
/// either end and no empty component; the relative marker becomes a slash of that name.
proof fn lemma_normalize(d: Seq<char>)
    requires
        d.len() > 0,
        dataset_text_ok(d),
    ensures
        normalize(d).len() > 0,
        all_name_chars(normalize(d)),
        !slash_at_end(normalize(d)),
        no_pair(normalize(d)),
        first_pair(d) < d.len() ==> first_pair(d) < normalize(d).len() && normalize(d)[first_pair(d)] == '/',
        first_pair(d) < d.len() ==> normalize(d).len() == d.len() - 1,
{
    let p = first_pair(d);
    lemma_first_pair_bounds(d);
    if p < d.len() {
        let n = normalize(d);
        assert(pair_at(d, p));
        assert(p > 0);
        assert(n.len() == d.len() - 1);
        assert forall|i: int| 0 <= i < n.len() implies name_char(#[trigger] n[i]) by {
            if i < p {
                assert(n[i] == d[i]);
            } else {
                assert(n[i] == d[i + 1]);
            }
        }
        assert(n[0] == d[0]);
        assert(n.last() == d.last());
        assert(n[p] == d[p + 1]);
    }
}

proof fn lemma_first_pair_bounds(d: Seq<char>)
    ensures
        0 <= first_pair(d) <= d.len(),
        first_pair(d) < d.len() ==> pair_at(d, first_pair(d)),
        first_pair(d) == d.len() ==> no_pair(d),
    decreases d.len(),
{
    if d.len() >= 2 && !pair_at(d, 0) {
        let t = d.drop_first();
        lemma_first_pair_bounds(t);
        assert(pair_at(t, first_pair(t)) ==> pair_at(d, first_pair(t) + 1));
        if first_pair(d) == d.len() {
            assert forall|k: int| !(#[trigger] pair_at(d, k)) by {
                if k >= 1 {
                    assert(pair_at(d, k) == pair_at(t, k - 1));
                }
            }
        }
    } else if d.len() < 2 {
        assert forall|k: int| !(#[trigger] pair_at(d, k)) by {}
    }
}

fn is_name_char(c: char) -> (r: bool)
    ensures
        r == name_char(c),
{
    ('a' <= c && c <= 'z') || ('A' <= c && c <= 'Z') || ('0' <= c && c <= '9') || c == '-' || c == '_' || c == '/'
}

impl Dataset {
    /// The dataset invariant: a non-empty name of allowed characters, no slash at either end,
    /// no empty component; `pool_idx` at its first slash; the relative marker, if any, at a
    /// slash of the name.
    pub open spec fn wf(&self) -> bool {
        let n = self.fullname@;
        &&& n.len() > 0
        &&& all_name_chars(n)
        &&& !slash_at_end(n)
        &&& no_pair(n)
        &&& self.pool_idx == first_pos(n, '/')
        &&& (self.relative_idx matches Some(k) ==> k < n.len() && n[k as int] == '/')
    }

    /// The pool root: the name up to its first slash.
    pub open spec fn spec_pool(&self) -> Seq<char> {
        self.fullname@.subrange(0, self.pool_idx as int)
    }

    /// The relative path: what follows the relative marker, or nothing.
    pub open spec fn spec_relative(&self) -> Seq<char> {
        match self.relative_idx {
            Some(k) => self.fullname@.subrange(k + 1, self.fullname@.len() as int),
            None => Seq::empty(),
        }
    }

    /// This dataset is what the dataset text `d` parses to, with no snapshots yet.
    pub open spec fn parsed_from(&self, d: Seq<char>) -> bool {
        &&& self.wf()
        &&& self.fullname@ == normalize(d)
        &&& (self.relative_idx is Some <==> first_pair(d) < d.len())
        &&& (self.relative_idx matches Some(k) ==> k == first_pair(d))
        &&& self.snaps@.len() == 0
    }

    /// Parses the dataset part of an address (no host), such as `tank/webdata` or
    /// `tank//lxc/web`, where `//` marks the start of a relative path.
    pub fn from_str(value: &str) -> (r: Result<Dataset, SpecParseError>)
        requires
            value@.len() > 0,
        ensures
            r is Ok <==> dataset_text_ok(value@),
            r matches Ok(ds) ==> ds.parsed_from(value@),
            r matches Err(e) ==> dataset_text_error(value@, e),
    {
        let v = chars_of(value);
        let mut i: usize = 0;
        while i < v.len()
            invariant
                v@ == value@,
                i <= v.len(),
                forall|k: int| 0 <= k < i ==> name_char(#[trigger] v@[k]),
            decreases v.len() - i,
        {
            if !is_name_char(v[i]) {
                return Err(SpecParseError::IllegalCharacters(value.to_owned()));
            }
            i += 1;
        }
        if v[0] == '/' || v[v.len() - 1] == '/' {
            return Err(SpecParseError::IllegalSlashes(value.to_owned()));
        }
        let p = find_pair(&v);
        let mut norm: Vec<char> = Vec::new();
        let mut j: usize = 0;
        while j < v.len()
            invariant
                p == first_pair(v@),
                j <= v.len(),
                norm@ == (if p < j { v@.subrange(0, p as int) + v@.subrange(p + 1, j as int) } else { v@.subrange(0, j as int) }),
            decreases v.len() - j,
        {
            if j != p {
                norm.push(v[j]);
            }
            j += 1;
            assert(norm@ =~= (if p < j { v@.subrange(0, p as int) + v@.subrange(p + 1, j as int) } else { v@.subrange(0, j as int) }));
        }
        assert(norm@ =~= normalize(v@));
        let q = find_pair(&norm);
        if q < norm.len() {
            assert(pair_at(norm@, q as int));
            return Err(SpecParseError::EmptyComponent(value.to_owned()));
        }
        proof {
            assert(all_name_chars(v@));
            assert(!slash_at_end(v@));
            assert(no_pair(norm@));
            lemma_normalize(v@);
        }
        let pool_idx = find_char(&norm, '/');
        let fullname = string_of_range(&norm, 0, norm.len());
        assert(norm@.subrange(0, norm.len() as int) =~= norm@);
        let relative_idx = if p < v.len() { Some(p) } else { None };
        Ok(Dataset { fullname, pool_idx, relative_idx, snaps: Vec::new() })
    }

    /// The full name, pool included.
    pub fn fullname(&self) -> (r: &str)
        ensures
            r@ == self.fullname@,
    {
        self.fullname.as_str()
    }

    /// The pool root: the name up to its first slash.
    pub fn pool(&self) -> (r: &str)
        requires
            self.wf(),
        ensures
            r@ == self.spec_pool(),
    {
        proof {
            lemma_first_pos_bounds(self.fullname@, '/');
        }
        self.fullname.as_str().substring_char(0, self.pool_idx)
    }

    /// The relative path that the address marked with `//`, or an empty string.
    pub fn relative(&self) -> (r: &str)
        requires
            self.wf(),
        ensures
            r@ == self.spec_relative(),
    {
        match self.relative_idx {
            Some(idx) => {
                let s = self.fullname.as_str();
                let len = s.unicode_len();
                assert(idx < len);
                s.substring_char(idx + 1, len)
            },
            None => {
                proof {
                    reveal_strlit("");
                }
                ""
            },
        }
    }

    /// The oldest snapshot.
    pub fn oldest_snap(&self) -> (r: &Snap)
        requires
            self.snaps@.len() > 0,
        ensures
            *r == self.snaps@[0],
    {
        &self.snaps[0]
    }

    /// The newest snapshot.
    pub fn newest_snap(&self) -> (r: &Snap)
        requires
            self.snaps@.len() > 0,
        ensures
            *r == self.snaps@.last(),
    {
        &self.snaps[self.snaps.len() - 1]
    }

    /// The text shown for a dataset: its full name.
    pub fn display_name(&self) -> (r: String)
        ensures
            r@ == self.fullname@,
    {
        self.fullname.clone()
    }

    /// The dataset is a pool root: its name has no slash.
    pub fn is_pool_root(&self) -> (r: bool)
        requires
            self.wf(),
        ensures
            r <==> forall|i: int| 0 <= i < self.fullname@.len() ==> self.fullname@[i] != '/',
    {
        proof {
            lemma_first_pos_bounds(self.fullname@, '/');
        }
        self.pool_idx == self.fullname.as_str().unicode_len()
    }

    /// Adds the relative path of `other`, if it has one, to this dataset's name, after a slash:
    /// `zelda` with the relative path `lxc/web` of `ganon//lxc/web` becomes `zelda/lxc/web`.
    pub fn append_relative(&mut self, other: &Self)
        requires
            old(self).wf(),
            other.wf(),
        ensures
            final(self).wf(),
            final(self).fullname@ == appended(old(self).fullname@, other.spec_relative()),
            final(self).pool_idx == old(self).pool_idx,
            final(self).relative_idx == old(self).relative_idx,
            final(self).snaps@ == old(self).snaps@,
    {
        let rel = other.relative();
        if !rel.is_empty() {
            let ghost n = self.fullname@;
            let ghost o = other.fullname@;
            let ghost k = other.relative_idx->Some_0 as int;
            proof {
                reveal_strlit("/");
                assert(rel@ == o.subrange(k + 1, o.len() as int));
                assert(rel@[0] == o[k + 1]);
                assert(!pair_at(o, k));
                assert(rel@.last() == o.last());
                lemma_first_pos_bounds(n, '/');
            }
            self.fullname.append("/");
            self.fullname.append(rel);
            proof {
                let m = self.fullname@;
                let r = rel@;
                assert(m =~= n + seq!['/'] + r);
                assert forall|i: int| 0 <= i < m.len() implies name_char(#[trigger] m[i]) by {
                    if i < n.len() {
                        assert(m[i] == n[i]);
                    } else if i > n.len() {
                        assert(m[i] == o[k + 1 + i - n.len() - 1]);
                    }
                }
                assert forall|j: int| !(#[trigger] pair_at(m, j)) by {
                    if 0 <= j && j + 1 < m.len() && m[j] == '/' && m[j + 1] == '/' {
                        if j + 1 < n.len() {
                            assert(pair_at(n, j));
                        } else if j + 1 == n.len() {
                            assert(n.last() == m[j]);
                        } else if j == n.len() {
                            assert(m[j + 1] == r[0]);
                        } else {
                            assert(m[j] == o[k + 1 + j - n.len() - 1]);
                            assert(m[j + 1] == o[k + 1 + j + 1 - n.len() - 1]);
                            assert(pair_at(o, k + j - n.len()));
                        }
                    }
                }
                assert(m[0] == n[0]);
                assert(m.last() == o.last());
                let fp = first_pos(n, '/');
                if fp < n.len() {
                    lemma_first_pos(m, '/', fp);
                } else {
                    assert(m[n.len() as int] == '/');
                    lemma_first_pos(m, '/', n.len() as int);
                }
            }
        }
    }
}

/// The name of a dataset parsed from an address has no empty component and no slash at either
/// end.
pub proof fn lemma_parsed_name_normalized(s: Seq<char>)
    requires
        address_ok(s),
    ensures
        normalize(dataset_text(s)).len() > 0,
        no_pair(normalize(dataset_text(s))),
        !slash_at_end(normalize(dataset_text(s))),
{
    lemma_normalize(dataset_text(s));
}

/// Adding a relative path that is empty leaves the name as it is, so adding it twice is adding
/// it once.
pub proof fn lemma_append_relative_idempotent(n: Seq<char>, rel: Seq<char>)
    requires
        rel.len() == 0,
    ensures
        appended(n, rel) == n,
        appended(appended(n, rel), rel) == appended(n, rel),
{
}

/// Parses an address `[host:]dataset`, such as `tank/webdata`, `nas:tank/webdata` or
/// `nas:tank//lxc/web`, into the host and the dataset it names.
pub fn parse_spec(value: &str) -> (r: Result<(Machine, Dataset), SpecParseError>)
    ensures
        r is Ok <==> address_ok(value@),
        r matches Ok((m, ds)) ==> ds.parsed_from(dataset_text(value@)) && (host_text(value@).len() == 0
            ==> m is Local) && (host_text(value@).len() > 0 ==> (m matches Machine::Remote { host }
            && host@ == host_text(value@))),
        r matches Err(e) ==> address_error(value@, e),
{
    let v = chars_of(value);
    let colon = find_char(&v, ':');
    let slash = find_char(&v, '/');
    if colon < v.len() && slash < v.len() && colon > slash {
        return Err(SpecParseError::ColonAfterSlash(value.to_owned()));
    }
    let (host, dataset) = if colon < v.len() {
        (string_of_range(&v, 0, colon), string_of_range(&v, colon + 1, v.len()))
    } else {
        (String::new(), string_of_range(&v, 0, v.len()))
    };
    assert(v@.subrange(0, v.len() as int) =~= v@);
    if dataset.as_str().is_empty() {
        return Err(SpecParseError::ZeroLengthAfterColon(value.to_owned()));
    }
    let m = match Machine::from_str(host.as_str()) {
        Ok(m) => m,
        Err(e) => {
            return Err(e);
        },
    };
    match Dataset::from_str(dataset.as_str()) {
        Ok(ds) => Ok((m, ds)),
        Err(e) => Err(e),
    }
}

impl Dataset {
    /// Walks the snapshots of `self` and `other` (both oldest first) and returns every snapshot
    /// once, tagged with the side it was found on, together with the position of the last
    /// snapshot found on both sides (the most recent common one), if any.
    ///
    /// Snapshots tagged LEFT or BOTH are taken from `self`, those tagged RIGHT from `other`.
    pub fn comm<'a, 'b, 'c>(&'a self, other: &'b Self) -> (r: (Vec<(Comm, &'c Snap)>, Option<usize>))
        where
            'a: 'c,
            'b: 'c,
        requires
            comparable(self.snaps@, other.snaps@),
        ensures
            tagged(r.0@) == merge(self.snaps@, other.snaps@),
            r.1 matches Some(k) ==> last_both(tagged(r.0@)) == Some(k as int),
            r.1 is None ==> last_both(tagged(r.0@)) is None,
    {
        let ghost a = self.snaps@;
        let ghost b = other.snaps@;
        let mut out: Vec<(Comm, &'c Snap)> = Vec::new();
        let mut mrc: Option<usize> = None;
        let mut i: usize = 0;
        let mut j: usize = 0;
        assert(a.skip(0) =~= a);
        assert(b.skip(0) =~= b);
        assert(tagged(out@) + merge(a, b) =~= merge(a, b));
        while i < self.snaps.len() || j < other.snaps.len()
            invariant
                a == self.snaps@,
                b == other.snaps@,
                comparable(a, b),
                i <= a.len(),
                j <= b.len(),
                out@.len() <= i + j,
                tagged(out@) + merge(a.skip(i as int), b.skip(j as int)) == merge(a, b),
                mrc matches Some(k) ==> last_both(tagged(out@)) == Some(k as int),
                mrc is None ==> last_both(tagged(out@)) is None,
            decreases a.len() + b.len() - i - j,
        {
            let ghost rest_a = a.skip(i as int);
            let ghost rest_b = b.skip(j as int);
            let ghost before = tagged(out@);
            let side: Comm;
            let pick: &'c Snap;
            if i == self.snaps.len() {
                side = Comm::RIGHT;
                pick = &other.snaps[j];
                j += 1;
                assert(merge(rest_a, rest_b) =~= seq![(Comm::RIGHT, b[j - 1])] + merge(a.skip(i as int), b.skip(j as int)));
            } else if j == other.snaps.len() {
                side = Comm::LEFT;
                pick = &self.snaps[i];
                i += 1;
                assert(merge(rest_a, rest_b) =~= seq![(Comm::LEFT, a[i - 1])] + merge(a.skip(i as int), b.skip(j as int)));
            } else {
                let left = &self.snaps[i];
                let right = &other.snaps[j];
                assert(rest_a.drop_first() =~= a.skip(i + 1));
                assert(rest_b.drop_first() =~= b.skip(j + 1));
                match left.partial_cmp(right) {
                    Some(Ordering::Less) => {
                        side = Comm::LEFT;
                        pick = left;
                        i += 1;
                    },
                    Some(Ordering::Equal) => {
                        side = Comm::BOTH;
                        pick = left;
                        i += 1;
                        j += 1;
                    },
                    _ => {
                        assert(left.creation != right.creation || left.guid == right.guid);
                        side = Comm::RIGHT;
                        pick = right;
                        j += 1;
                    },
                }
            }
            if side == Comm::BOTH {
                mrc = Some(out.len());
            }
            out.push((side, pick));
            assert(tagged(out@) =~= before.push((side, *pick)));
            assert(tagged(out@).drop_last() =~= before);
            assert(tagged(out@) + merge(a.skip(i as int), b.skip(j as int)) =~= before + merge(rest_a, rest_b));
        }
        assert(a.skip(i as int) =~= Seq::<Snap>::empty());
        assert(b.skip(j as int) =~= Seq::<Snap>::empty());
        assert(merge(a.skip(i as int), b.skip(j as int)) =~= Seq::<(Comm, Snap)>::empty());
        assert(tagged(out@) =~= merge(a, b));
        (out, mrc)
    }
}

} // verus!
