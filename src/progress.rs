use vstd::prelude::*;
use crate::text::{
    chars_of, is_text, lemma_split_on_nonempty, parse_u64, parsed_u64, same_chars, split_chars, split_on,
    string_of,
};

verus! {

/// What follows the last `@` of `s` (all of `s` when it has none): a snapshot's short name.
pub open spec fn short_name(s: Seq<char>) -> Seq<char> {
    split_on(s, '@').last()
}

/// The fields of a line of the `zfs send -vP` error stream.
pub open spec fn fields(line: Seq<char>) -> Seq<Seq<char>> {
    split_on(line, '\t')
}

/// The header line that closes the header: `size`, then the size of the whole stream.
pub open spec fn size_line(line: Seq<char>) -> Option<u64> {
    let f = fields(line);
    if f[0] == "size"@ && f.len() >= 2 {
        parsed_u64(f[1])
    } else {
        None
    }
}

/// A header line that announces one snapshot of the stream, with its size: `full`, the
/// snapshot, its size; or `incremental`, the base, the snapshot, its size.
pub open spec fn item_line(line: Seq<char>) -> Option<(Seq<char>, u64)> {
    let f = fields(line);
    if f[0] == "full"@ && f.len() >= 3 && parsed_u64(f[2]) is Some {
        Some((short_name(f[1]), parsed_u64(f[2])->Some_0))
    } else if f[0] == "incremental"@ && f.len() >= 4 && parsed_u64(f[3]) is Some {
        Some((short_name(f[2]), parsed_u64(f[3])->Some_0))
    } else {
        None
    }
}

/// A progress line: the time, the bytes sent so far of the snapshot in flight, and that
/// snapshot.
pub open spec fn data_line(line: Seq<char>) -> Option<(Seq<char>, u64)> {
    let f = fields(line);
    if f.len() == 3 && parsed_u64(f[1]) is Some {
        Some((short_name(f[2]), parsed_u64(f[1])->Some_0))
    } else {
        None
    }
}

/// How the three progress bars move after a progress line.
#[derive(Copy, Clone, Debug, PartialEq, Eq, Structural)]
pub struct BarUpdate {
    /// Snapshots completed by this line, to add to the items bar.
    pub items_advanced: u64,
    /// Bytes to add to the total bar.
    pub total_advanced: u64,
    /// Size of the snapshot in flight: the length of the current bar.
    pub current_length: u64,
    /// Bytes sent of the snapshot in flight: the position of the current bar.
    pub current_position: u64,
}

/// What a line of the stream calls for.
#[derive(Debug, PartialEq, Eq)]
pub enum LineEffect {
    /// A header line was taken in; nothing to draw yet.
    Header,
    /// The header is complete: draw the bars for `items` snapshots, `total` bytes in all, the
    /// first snapshot being `current_length` bytes.
    Started { items: u64, total: u64, current_length: u64 },
    /// A progress line: move the bars.
    Advance(BarUpdate),
    /// The line does not read, or does not fit what came before.
    Malformed,
}

/// Follows the error stream of `zfs send -vP`, line by line, and tells how the progress bars
/// move: the snapshots announced by the header, the one in flight and the bytes sent of it.
#[derive(Debug)]
pub struct ProgressRenderer {
    /// The announced snapshots (short name, size), in order.
    pub items: Vec<(String, u64)>,
    /// The size of the whole stream.
    pub total_size: u64,
    /// The header is complete.
    pub started: bool,
    /// The snapshot in flight.
    pub cur_idx: usize,
    /// Bytes sent so far of the snapshot in flight.
    pub cur_xfer: u64,
}

pub open spec fn item_views(v: Seq<(String, u64)>) -> Seq<(Seq<char>, u64)> {
    v.map_values(|p: (String, u64)| (p.0@, p.1))
}

/// The first snapshot at or after `from` whose name is `name` (the length when there is none).
pub open spec fn next_named(items: Seq<(Seq<char>, u64)>, from: int, name: Seq<char>) -> int
    decreases items.len() - from,
{
    if from >= items.len() || from < 0 {
        items.len() as int
    } else if items[from].0 == name {
        from
    } else {
        next_named(items, from + 1, name)
    }
}

/// The sizes of the snapshots `from..to`, added up.
pub open spec fn size_sum(items: Seq<(Seq<char>, u64)>, from: int, to: int) -> int
    decreases to - from,
{
    if to <= from {
        0
    } else {
        size_sum(items, from, to - 1) + items[to - 1].1
    }
}

proof fn lemma_size_sum_monotone(items: Seq<(Seq<char>, u64)>, from: int, mid: int, to: int)
    requires
        from <= mid <= to,
    ensures
        size_sum(items, from, mid) <= size_sum(items, from, to),
    decreases to - mid,
{
    if mid < to {
        lemma_size_sum_monotone(items, from, mid, to - 1);
    }
}

proof fn lemma_next_named_bounds(items: Seq<(Seq<char>, u64)>, from: int, name: Seq<char>)
    requires
        0 <= from <= items.len(),
    ensures
        from <= next_named(items, from, name) <= items.len(),
    decreases items.len() - from,
{
    if from < items.len() && items[from].0 != name {
        lemma_next_named_bounds(items, from + 1, name);
    }
}

impl ProgressRenderer {
    pub open spec fn wf(&self) -> bool {
        self.started ==> self.items@.len() > 0 && self.cur_idx < self.items@.len()
    }

    /// A renderer that has seen nothing yet.
    pub fn new() -> (r: ProgressRenderer)
        ensures
            r.wf(),
            !r.started,
            r.items@.len() == 0,
    {
        ProgressRenderer { items: Vec::new(), total_size: 0, started: false, cur_idx: 0, cur_xfer: 0 }
    }

    /// The state and bar update that progress line `(name, xfer)` leads to, from `self`: on the
    /// snapshot in flight, the bars move by what was sent since the last line; on a later one,
    /// the rest of the one in flight and the whole of each one between are counted as sent.
    pub open spec fn advance(&self, name: Seq<char>, xfer: u64) -> Option<(usize, BarUpdate)> {
        let items = item_views(self.items@);
        let cur = self.cur_idx as int;
        if items[cur].0 == name {
            if xfer >= self.cur_xfer {
                Some((self.cur_idx, BarUpdate {
                    items_advanced: 0,
                    total_advanced: (xfer - self.cur_xfer) as u64,
                    current_length: items[cur].1,
                    current_position: xfer,
                }))
            } else {
                None
            }
        } else {
            let j = next_named(items, cur + 1, name);
            let total = items[cur].1 - self.cur_xfer + size_sum(items, cur + 1, j) + xfer;
            if j < items.len() && items[cur].1 >= self.cur_xfer && total <= u64::MAX {
                Some((j as usize, BarUpdate {
                    items_advanced: (j - cur) as u64,
                    total_advanced: total as u64,
                    current_length: items[j].1,
                    current_position: xfer,
                }))
            } else {
                None
            }
        }
    }

    /// Takes in one line of the stream (without its line break) and tells what it calls for.
    pub fn feed_line(&mut self, line: &str) -> (r: LineEffect)
        requires
            old(self).wf(),
        ensures
            final(self).wf(),
            feeds(old(self), final(self), line@, r),
    {
        proof {
            reveal_strlit("size");
            reveal_strlit("full");
            reveal_strlit("incremental");
        }
        let chars = chars_of(line);
        let f = split_chars(&chars, '\t');
        let ghost fv = fields(line@);
        proof {
            lemma_split_on_nonempty(line@, '\t');
        }
        assert(f@.len() == fv.len());
        assert(forall|k: int| 0 <= k < f@.len() ==> #[trigger] f@[k]@ == fv[k]);
        assert(f@[0]@ == fv[0]);
        if !self.started {
            if is_text(&f[0], "size") && f.len() >= 2 {
                assert(f@[1]@ == fv[1]);
                match parse_u64(string_of(&f[1]).as_str()) {
                    Some(t) => {
                        if self.items.len() == 0 {
                            return LineEffect::Malformed;
                        }
                        self.started = true;
                        self.total_size = t;
                        self.cur_idx = 0;
                        self.cur_xfer = 0;
                        return LineEffect::Started {
                            items: self.items.len() as u64,
                            total: t,
                            current_length: self.items[0].1,
                        };
                    },
                    None => {},
                }
            }
            let is_full = is_text(&f[0], "full");
            let is_incremental = is_text(&f[0], "incremental");
            if is_full && f.len() >= 3 {
                assert(f@[1]@ == fv[1] && f@[2]@ == fv[2]);
                if let Some(size) = parse_u64(string_of(&f[2]).as_str()) {
                    let name = last_piece(&f[1]);
                    self.items.push((name, size));
                    assert(item_views(self.items@) =~= item_views(old(self).items@).push(item_line(line@)->Some_0));
                    return LineEffect::Header;
                }
            } else if is_incremental && f.len() >= 4 {
                assert(f@[2]@ == fv[2] && f@[3]@ == fv[3]);
                if let Some(size) = parse_u64(string_of(&f[3]).as_str()) {
                    let name = last_piece(&f[2]);
                    self.items.push((name, size));
                    assert(item_views(self.items@) =~= item_views(old(self).items@).push(item_line(line@)->Some_0));
                    return LineEffect::Header;
                }
            }
            return LineEffect::Malformed;
        }
        if f.len() != 3 {
            return LineEffect::Malformed;
        }
        assert(f@[1]@ == fv[1] && f@[2]@ == fv[2]);
        let xfer = match parse_u64(string_of(&f[1]).as_str()) {
            Some(x) => x,
            None => {
                return LineEffect::Malformed;
            },
        };
        let name = chars_of(last_piece(&f[2]).as_str());
        let ghost items = item_views(self.items@);
        let cur = self.cur_idx;
        assert(items[cur as int] == (self.items@[cur as int].0@, self.items@[cur as int].1));
        if same_chars(&chars_of(self.items[cur].0.as_str()), &name) {
            if xfer < self.cur_xfer {
                return LineEffect::Malformed;
            }
            let u = BarUpdate {
                items_advanced: 0,
                total_advanced: xfer - self.cur_xfer,
                current_length: self.items[cur].1,
                current_position: xfer,
            };
            self.cur_xfer = xfer;
            return LineEffect::Advance(u);
        }
        if self.items[cur].1 < self.cur_xfer {
            return LineEffect::Malformed;
        }
        // The rest of the snapshot in flight, then each snapshot passed over in full.
        let mut total: u64 = self.items[cur].1 - self.cur_xfer;
        assert(cur < self.items.len());
        assert(data_line(line@) == Some((name@, xfer)));
        assert(items[cur as int].0 != name@);
        let mut j: usize = cur + 1;
        while j < self.items.len()
            invariant
                self.wf(),
                self.started,
                self.cur_idx == cur,
                items == item_views(self.items@),
                unchanged(old(self), self),
                data_line(line@) == Some((name@, xfer)),
                items[cur as int].0 != name@,
                cur < j <= items.len(),
                total == items[cur as int].1 - self.cur_xfer + size_sum(items, cur + 1, j as int),
                next_named(items, cur + 1, name@) == next_named(items, j as int, name@),
            ensures
                cur < j <= items.len(),
                total == items[cur as int].1 - self.cur_xfer + size_sum(items, cur + 1, j as int),
                next_named(items, cur + 1, name@) == j,
            decreases items.len() - j,
        {
            assert(items[j as int] == (self.items@[j as int].0@, self.items@[j as int].1));
            if same_chars(&chars_of(self.items[j].0.as_str()), &name) {
                break;
            }
            if self.items[j].1 > u64::MAX - total {
                proof {
                    lemma_next_named_bounds(items, j + 1, name@);
                    lemma_size_sum_monotone(items, cur + 1, j + 1, next_named(items, j as int, name@));
                    let jj = next_named(items, cur + 1, name@);
                    assert(jj == next_named(items, j + 1, name@));
                    assert(size_sum(items, cur + 1, j + 1) == size_sum(items, cur + 1, j as int) + items[j as int].1);
                    assert(size_sum(items, cur + 1, jj) >= size_sum(items, cur + 1, j + 1));
                }
                return LineEffect::Malformed;
            }
            total = total + self.items[j].1;
            j += 1;
        }
        if j == self.items.len() {
            return LineEffect::Malformed;
        }
        if xfer > u64::MAX - total {
            return LineEffect::Malformed;
        }
        total = total + xfer;
        let u = BarUpdate {
            items_advanced: (j - cur) as u64,
            total_advanced: total,
            current_length: self.items[j].1,
            current_position: xfer,
        };
        self.cur_idx = j;
        self.cur_xfer = xfer;
        LineEffect::Advance(u)
    }
}

/// The renderer went from `pre` to `post` on `line`, with effect `r`: see [LineEffect].
pub open spec fn feeds(pre: &ProgressRenderer, post: &ProgressRenderer, line: Seq<char>, r: LineEffect) -> bool {
    if !pre.started {
        match size_line(line) {
            Some(t) => if pre.items@.len() > 0 {
                &&& r == LineEffect::Started {
                    items: pre.items@.len() as u64,
                    total: t,
                    current_length: pre.items@[0].1,
                }
                &&& post.started && post.cur_idx == 0 && post.cur_xfer == 0
                &&& post.total_size == t && post.items@ == pre.items@
            } else {
                r == LineEffect::Malformed && unchanged(pre, post)
            },
            None => match item_line(line) {
                Some(it) => {
                    &&& r == LineEffect::Header && !post.started
                    &&& item_views(post.items@) == item_views(pre.items@).push(it)
                    &&& post.cur_idx == pre.cur_idx && post.cur_xfer == pre.cur_xfer
                    &&& post.total_size == pre.total_size
                },
                None => r == LineEffect::Malformed && unchanged(pre, post),
            },
        }
    } else {
        match data_line(line) {
            Some((n, x)) => match pre.advance(n, x) {
                Some((j, u)) => {
                    &&& r == LineEffect::Advance(u)
                    &&& post.started && post.cur_idx == j && post.cur_xfer == x
                    &&& post.items@ == pre.items@ && post.total_size == pre.total_size
                },
                None => r == LineEffect::Malformed && unchanged(pre, post),
            },
            None => r == LineEffect::Malformed && unchanged(pre, post),
        }
    }
}

/// `post` is `pre` as it was.
pub open spec fn unchanged(pre: &ProgressRenderer, post: &ProgressRenderer) -> bool {
    &&& post.items@ == pre.items@
    &&& post.started == pre.started
    &&& post.cur_idx == pre.cur_idx
    &&& post.cur_xfer == pre.cur_xfer
    &&& post.total_size == pre.total_size
}

/// What follows the last `@` of `v`.
fn last_piece(v: &Vec<char>) -> (r: String)
    ensures
        r@ == short_name(v@),
{
    let pieces = split_chars(v, '@');
    proof {
        lemma_split_on_nonempty(v@, '@');
    }
    assert(pieces@[pieces@.len() - 1]@ == split_on(v@, '@').last());
    string_of(&pieces[pieces.len() - 1])
}

} // verus!
