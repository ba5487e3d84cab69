//! File-manager model: directory entries, a single pane (directory, cursor and
//! marks) and the two-pane app state.
//!
//! Reading a directory is the caller's part: it hands over what the listing
//! holds, and whether each marked path still exists. Everything decided from
//! those values (the order of the rows, the ".." row, the cursor, the marks,
//! the selection) is computed here.
use vstd::prelude::*;
use vstd::utf8::encode_utf8;
use crate::paths::{parent_of, joined, path_rank, path_parent, path_join, path_compare};
use crate::text::{texts, chars_of, lowercased, bytes_lt, bytes_less, to_lower, lemma_bytes_lt_irreflexive, lemma_bytes_lt_transitive, lemma_bytes_lt_total};

verus! {

/// One row in a pane.
#[derive(Debug, Clone)]
pub struct DirEntry {
    pub name: String,
    pub path: String,
    pub is_dir: bool,
    /// File size in bytes. `0` for directories.
    pub size: u64,
}

/// A row as the contracts see it.
pub struct EntryView {
    pub name: Seq<char>,
    pub path: Seq<char>,
    pub is_dir: bool,
    pub size: u64,
}

impl View for DirEntry {
    type V = EntryView;

    open spec fn view(&self) -> EntryView {
        EntryView { name: self.name@, path: self.path@, is_dir: self.is_dir, size: self.size }
    }
}

/// The rows of a pane, as the contracts see them.
pub open spec fn views(s: Seq<DirEntry>) -> Seq<EntryView> {
    s.map_values(|e: DirEntry| e@)
}

/// The key rows are ordered by: the row's kind, and its name in lower case,
/// compared byte-wise as `String` compares.
pub open spec fn sort_key(e: EntryView) -> (bool, Seq<u8>) {
    (e.is_dir, encode_utf8(lowercased(e.name)))
}

/// Directories come before files; within a kind, names compare case-insensitively.
pub open spec fn key_lt(a: (bool, Seq<u8>), b: (bool, Seq<u8>)) -> bool {
    (a.0 && !b.0) || (a.0 == b.0 && bytes_lt(a.1, b.1))
}

/// Row `a` is listed strictly before row `b`.
pub open spec fn listed_before(a: EntryView, b: EntryView) -> bool {
    key_lt(sort_key(a), sort_key(b))
}

/// The rows of `s` that rank the same as `x` (same kind, same lower-case name),
/// in their order in `s`.
pub open spec fn rank_class(s: Seq<EntryView>, x: EntryView) -> Seq<EntryView> {
    s.filter(|e: EntryView| sort_key(e) == sort_key(x))
}

/// No row of `r` is listed before a row that precedes it.
pub open spec fn sorted_rows(r: Seq<EntryView>) -> bool {
    forall|i: int, j: int| 0 <= i < j < r.len() ==> !listed_before(#[trigger] r[j], #[trigger] r[i])
}

/// `r` is `s` sorted by the row order, rows that rank the same keeping their
/// order in `s` (a stable sort). This fixes `r` given `s`.
pub open spec fn stable_sort_of(r: Seq<EntryView>, s: Seq<EntryView>) -> bool {
    &&& r.len() == s.len()
    &&& sorted_rows(r)
    &&& forall|x: EntryView| #[trigger] rank_class(r, x) == rank_class(s, x)
}

proof fn lemma_key_lt_order(a: (bool, Seq<u8>), b: (bool, Seq<u8>), c: (bool, Seq<u8>))
    ensures
        !key_lt(a, a),
        key_lt(a, b) && key_lt(b, c) ==> key_lt(a, c),
        a == b || key_lt(a, b) || key_lt(b, a),
{
    lemma_bytes_lt_irreflexive(a.1);
    if key_lt(a, b) && key_lt(b, c) && a.0 == b.0 && b.0 == c.0 {
        lemma_bytes_lt_transitive(a.1, b.1, c.1);
    }
    lemma_bytes_lt_total(a.1, b.1);
}

proof fn lemma_filter_none<A>(s: Seq<A>, p: spec_fn(A) -> bool)
    requires
        forall|i: int| 0 <= i < s.len() ==> !p(#[trigger] s[i]),
    ensures
        s.filter(p) =~= Seq::<A>::empty(),
    decreases s.len(),
{
    reveal(Seq::filter);
    if s.len() > 0 {
        lemma_filter_none(s.drop_last(), p);
    }
}

/// Whether row `a` is listed strictly before row `b`, given their names in lower case.
fn precedes(a: &DirEntry, a_low: &str, b: &DirEntry, b_low: &str) -> (r: bool)
    requires
        a_low@ == lowercased(a.name@),
        b_low@ == lowercased(b.name@),
    ensures
        r == listed_before(a@, b@),
{
    if a.is_dir != b.is_dir {
        a.is_dir
    } else {
        bytes_less(a_low.as_bytes(), b_low.as_bytes())
    }
}

/// Inserting `x` in front of the first row that it does not follow keeps the
/// rows sorted, and puts `x` first among the rows that rank as it does.
proof fn lemma_insert_row(r: Seq<EntryView>, s: Seq<EntryView>, x: EntryView, p: int)
    requires
        stable_sort_of(r, s),
        0 <= p <= r.len(),
        forall|q: int| 0 <= q < p ==> listed_before(#[trigger] r[q], x),
        p < r.len() ==> !listed_before(r[p], x),
    ensures
        stable_sort_of(r.insert(p, x), seq![x] + s),
{
    let r2 = r.insert(p, x);
    r.insert_ensures(p, x);
    assert forall|i: int, j: int| 0 <= i < j < r2.len() implies !listed_before(
        #[trigger] r2[j],
        #[trigger] r2[i],
    ) by {
        if j < p {
            assert(r2[i] == r[i] && r2[j] == r[j]);
        } else if j == p {
            lemma_key_lt_order(sort_key(r[i]), sort_key(x), sort_key(x));
            lemma_key_lt_order(sort_key(x), sort_key(r[i]), sort_key(x));
        } else if i == p {
            assert(r2[j] == r[j - 1]);
            if j - 1 > p {
                assert(!listed_before(r[j - 1], r[p]));
            }
            lemma_key_lt_order(sort_key(r[j - 1]), sort_key(x), sort_key(r[p]));
            lemma_key_lt_order(sort_key(r[p]), sort_key(x), sort_key(r[j - 1]));
            lemma_key_lt_order(sort_key(x), sort_key(r[p]), sort_key(r[j - 1]));
        } else if i < p {
            assert(r2[i] == r[i] && r2[j] == r[j - 1]);
        } else {
            assert(r2[i] == r[i - 1] && r2[j] == r[j - 1]);
        }
    }
    assert forall|y: EntryView| #[trigger] rank_class(r2, y) == rank_class(seq![x] + s, y) by {
        let pred = |e: EntryView| sort_key(e) == sort_key(y);
        let lo = r.subrange(0, p);
        let hi = r.subrange(p, r.len() as int);
        assert(r =~= lo + hi);
        assert(r2 =~= lo.push(x) + hi);
        Seq::filter_distributes_over_add(lo.push(x), hi, pred);
        Seq::filter_distributes_over_add(lo, hi, pred);
        lo.lemma_filter_push(x, pred);
        s.lemma_filter_prepend(x, pred);
        assert(rank_class(r, y) == rank_class(s, y));
        if pred(x) {
            assert forall|q: int| 0 <= q < lo.len() implies !pred(#[trigger] lo[q]) by {
                assert(listed_before(r[q], x));
                lemma_key_lt_order(sort_key(x), sort_key(x), sort_key(x));
            }
            lemma_filter_none(lo, pred);
            assert(lo.filter(pred).push(x) =~= seq![x]);
        }
    }
}

/// Sorts rows: directories first, then files, each group by name in lower
/// case; rows that rank the same keep their order (a stable sort).
pub fn sort_rows(items: Vec<DirEntry>) -> (r: Vec<DirEntry>)
    ensures
        stable_sort_of(views(r@), views(items@)),
{
    let ghost orig = views(items@);
    let mut rest = items;
    let mut out: Vec<DirEntry> = Vec::new();
    let mut lows: Vec<String> = Vec::new();
    proof {
        assert(views(rest@) =~= orig.take(rest@.len() as int));
        assert(orig.skip(rest@.len() as int) =~= Seq::<EntryView>::empty());
        assert(views(out@) =~= Seq::<EntryView>::empty());
        assert forall|x: EntryView| #[trigger] rank_class(views(out@), x) == rank_class(
            orig.skip(rest@.len() as int),
            x,
        ) by {
            reveal(Seq::filter);
        }
    }
    while rest.len() > 0
        invariant
            rest@.len() <= orig.len(),
            views(rest@) == orig.take(rest@.len() as int),
            lows@.len() == out@.len(),
            forall|i: int| 0 <= i < out@.len() ==> (#[trigger] lows@[i])@ == lowercased(out@[i].name@),
            stable_sort_of(views(out@), orig.skip(rest@.len() as int)),
        decreases rest@.len(),
    {
        let ghost k = rest@.len() as int;
        let ghost old_rest = rest@;
        let x = rest.pop().unwrap();
        assert(views(old_rest)[k - 1] == orig.take(k)[k - 1]);
        assert(x@ == orig[k - 1]);
        let x_low = to_lower(x.name.as_str());
        let mut p: usize = 0;
        while p < out.len() && precedes(&out[p], lows[p].as_str(), &x, x_low.as_str())
            invariant
                p <= out@.len(),
                lows@.len() == out@.len(),
                forall|i: int| 0 <= i < out@.len() ==> (#[trigger] lows@[i])@ == lowercased(out@[i].name@),
                x_low@ == lowercased(x.name@),
                forall|q: int| 0 <= q < p ==> listed_before(#[trigger] views(out@)[q], x@),
            decreases out@.len() - p,
        {
            p = p + 1;
        }
        proof {
            lemma_insert_row(views(out@), orig.skip(k), x@, p as int);
            assert(orig.skip(k - 1) =~= seq![orig[k - 1]] + orig.skip(k));
            assert(views(rest@) =~= orig.take(k - 1));
        }
        let ghost old_out = out@;
        out.insert(p, x);
        lows.insert(p, x_low);
        proof {
            assert(views(out@) =~= views(old_out).insert(p as int, x@));
        }
    }
    proof {
        assert(orig.skip(0) =~= orig);
    }
    out
}


/// Which pane has focus.
#[derive(Clone, Copy, PartialEq, Eq, Debug, Structural)]
pub enum Side {
    Left,
    Right,
}

impl Side {
    /// The other side.
    pub fn other(self) -> (r: Side)
        ensures
            r == (match self {
                Side::Left => Side::Right,
                Side::Right => Side::Left,
            }),
            r != self,
    {
        match self {
            Side::Left => Side::Right,
            Side::Right => Side::Left,
        }
    }
}

/// One item of a directory listing, as the caller read it: its name, its full
/// path, whether it is a directory, and its length in bytes (`0` where its
/// metadata could not be read).
#[derive(Debug, Clone)]
pub struct DirItem {
    pub name: String,
    pub path: String,
    pub is_dir: bool,
    pub len: u64,
}

/// The row a listed item becomes: directories show size `0`.
pub open spec fn item_row(it: DirItem) -> EntryView {
    EntryView {
        name: it.name@,
        path: it.path@,
        is_dir: it.is_dir,
        size: if it.is_dir { 0 } else { it.len },
    }
}

/// The name of the row that leads to the parent directory.
pub open spec fn dotdot() -> Seq<char> {
    seq!['.', '.']
}

/// The rows of a directory before sorting: a ".." row first unless `cwd` is a
/// root (has no parent), then the listed items in the order they were read.
pub open spec fn unsorted_rows(cwd: Seq<char>, items: Seq<DirItem>) -> Seq<EntryView> {
    let rows = items.map_values(|it: DirItem| item_row(it));
    if parent_of(cwd) is Some {
        seq![EntryView { name: dotdot(), path: joined(cwd, dotdot()), is_dir: true, size: 0 }]
            + rows
    } else {
        rows
    }
}

/// How many leading rows stay in place: one if the first row is named "..".
pub open spec fn fixed_head(u: Seq<EntryView>) -> int {
    if u.len() > 0 && u[0].name == dotdot() {
        1
    } else {
        0
    }
}

/// `r` is what a pane shows for directory `cwd` listing `items`: a leading
/// ".." row stays first, and the other rows are stably sorted.
pub open spec fn listing_rows(r: Seq<EntryView>, cwd: Seq<char>, items: Seq<DirItem>) -> bool {
    let u = unsorted_rows(cwd, items);
    let h = fixed_head(u);
    &&& r.len() == u.len()
    &&& r.take(h) == u.take(h)
    &&& stable_sort_of(r.skip(h), u.skip(h))
}

/// The marks of `m` whose flag in `keep` is set, in order.
pub open spec fn kept(m: Seq<Seq<char>>, keep: Seq<bool>) -> Seq<Seq<char>>
    decreases m.len(),
{
    if m.len() == 0 || keep.len() < m.len() {
        Seq::empty()
    } else {
        let before = kept(m.drop_last(), keep.take(m.len() - 1));
        if keep[m.len() - 1] {
            before.push(m.last())
        } else {
            before
        }
    }
}

/// A cursor moved back into `0..len` (to `0` when there are no rows).
pub open spec fn clamped(cursor: int, len: int) -> int {
    if cursor >= len {
        if len == 0 {
            0
        } else {
            len - 1
        }
    } else {
        cursor
    }
}

/// Where a search for `p` stops in the ordered marks: at the first mark that
/// `p` is not greater than, or at the end. This is how an ordered set of paths
/// finds a path.
pub open spec fn seek_from(m: Seq<Seq<char>>, p: Seq<char>, i: int) -> int
    decreases m.len() - i,
{
    if i < 0 || i >= m.len() {
        m.len() as int
    } else if path_rank(p, m[i]) <= 0 {
        i
    } else {
        seek_from(m, p, i + 1)
    }
}

/// Where the search for `p` stops in the marks `m`.
pub open spec fn seek(m: Seq<Seq<char>>, p: Seq<char>) -> int {
    seek_from(m, p, 0)
}

/// `p` is marked: the search for it stops at a mark that compares equal to it.
pub open spec fn holds_mark(m: Seq<Seq<char>>, p: Seq<char>) -> bool {
    seek(m, p) < m.len() && path_rank(p, m[seek(m, p)]) == 0
}

/// Marks in strictly increasing path order: each is less than every later one,
/// so no two compare equal.
pub open spec fn in_path_order(m: Seq<Seq<char>>) -> bool {
    forall|i: int, j: int| 0 <= i < j < m.len() ==> path_rank(#[trigger] m[i], #[trigger] m[j]) < 0
}

/// The marks after toggling `p`: the equal mark is removed if there is one,
/// else `p` is inserted where the search stopped, keeping the marks in path order.
pub open spec fn toggled(m: Seq<Seq<char>>, p: Seq<char>) -> Seq<Seq<char>> {
    if holds_mark(m, p) {
        m.remove(seek(m, p))
    } else {
        m.insert(seek(m, p), p)
    }
}

/// The search from `i` stops within `i..=len`, passing only marks that `p` is
/// greater than, and stops at a mark only where `p` is not greater.
pub proof fn lemma_seek_from(m: Seq<Seq<char>>, p: Seq<char>, i: int)
    requires
        0 <= i <= m.len(),
    ensures
        i <= seek_from(m, p, i) <= m.len(),
        forall|q: int| i <= q < seek_from(m, p, i) ==> path_rank(p, #[trigger] m[q]) > 0,
        seek_from(m, p, i) < m.len() ==> path_rank(p, m[seek_from(m, p, i)]) <= 0,
    decreases m.len() - i,
{
    if i < m.len() && path_rank(p, m[i]) > 0 {
        lemma_seek_from(m, p, i + 1);
    }
}

/// A single browseable pane.
#[derive(Debug, Clone)]
pub struct Pane {
    /// The directory shown.
    pub cwd: String,
    pub entries: Vec<DirEntry>,
    /// Index into `entries` of the highlighted row.
    pub cursor: usize,
    /// Paths the user has marked in this pane, in path order.
    pub marked: Vec<String>,
}

impl Pane {
    /// The cursor is on a row, or at `0` when there are none.
    pub open spec fn cursor_in_range(&self) -> bool {
        self.cursor < self.entries@.len() || (self.entries@.len() == 0 && self.cursor == 0)
    }

    /// Where moving the cursor by `delta` puts it: clamped to the rows.
    pub open spec fn moved_cursor(&self, delta: int) -> int {
        let want = (self.cursor as isize) + delta;
        let last = self.entries@.len() - 1;
        if want < 0 {
            0
        } else if want > last {
            last
        } else {
            want
        }
    }

    /// Moving the cursor by `delta` does not overflow `isize`.
    pub open spec fn moves_safely(&self, delta: int) -> bool {
        self.entries@.len() == 0 || isize::MIN <= (self.cursor as isize) + delta <= isize::MAX
    }

    /// A pane for directory `cwd` (already resolved by the caller) whose
    /// listing is `items`. The cursor starts at the top and nothing is marked.
    pub fn open(cwd: String, items: Vec<DirItem>) -> (r: Pane)
        ensures
            r.cwd@ == cwd@,
            listing_rows(views(r.entries@), cwd@, items@),
            r.cursor == 0,
            r.marked@.len() == 0,
            r.marks_in_order(),
            r.cursor_in_range(),
    {
        let mut pane = Pane { cwd, entries: Vec::new(), cursor: 0, marked: Vec::new() };
        assert(texts(pane.marked@) =~= Seq::<Seq<char>>::empty());
        pane.reload(items, Vec::new());
        assert(texts(pane.marked@).len() == 0);
        pane
    }

    /// The pane's marks are in strictly increasing path order, as an ordered
    /// set of paths keeps them. Every method keeps this.
    pub open spec fn marks_in_order(&self) -> bool {
        in_path_order(texts(self.marked@))
    }

    /// Shows the directory again from a fresh listing `items`, keeping the marks
    /// whose flag in `keep` is set (the caller sets it for paths that still
    /// exist), and moving the cursor back into range.
    pub fn reload(&mut self, items: Vec<DirItem>, keep: Vec<bool>)
        requires
            keep@.len() == old(self).marked@.len(),
        ensures
            final(self).cwd == old(self).cwd,
            listing_rows(views(final(self).entries@), old(self).cwd@, items@),
            texts(final(self).marked@) == kept(texts(old(self).marked@), keep@),
            old(self).marks_in_order() ==> final(self).marks_in_order(),
            final(self).cursor == clamped(old(self).cursor as int, final(self).entries@.len() as int),
            final(self).cursor_in_range(),
    {
        proof {
            if old(self).marks_in_order() {
                crate::laws::lemma_kept_in_order(texts(old(self).marked@), keep@);
            }
        }
        let ghost cwd = self.cwd@;
        let ghost u = unsorted_rows(cwd, items@);
        let mut rows: Vec<DirEntry> = Vec::new();
        let parent = path_parent(self.cwd.as_str());
        if parent.is_some() {
            let name = String::from_str("..");
            let path = path_join(self.cwd.as_str(), "..");
            proof {
                reveal_strlit("..");
                assert(name@ =~= dotdot());
                assert(path@ == joined(cwd, dotdot()));
                assert(parent_of(cwd) is Some);
            }
            rows.push(DirEntry { name, path, is_dir: true, size: 0 });
            assert(rows@[0]@ == u[0]);
        }
        assert(views(rows@) =~= u.take(rows@.len() as int));
        let ghost lead = rows@.len() as int;
        let mut i: usize = 0;
        while i < items.len()
            invariant
                i <= items@.len(),
                rows@.len() == lead + i,
                views(rows@) =~= u.take(lead + i),
                lead == (if parent_of(cwd) is Some { 1int } else { 0int }),
                u == unsorted_rows(cwd, items@),
                u.len() == lead + items@.len(),
            decreases items@.len() - i,
        {
            let it = &items[i];
            let size = if it.is_dir { 0 } else { it.len };
            rows.push(DirEntry { name: it.name.clone(), path: it.path.clone(), is_dir: it.is_dir, size });
            proof {
                assert(u[lead + i] == item_row(items@[i as int]));
            }
            i = i + 1;
        }
        assert(views(rows@) =~= u);
        let head: usize = if rows.len() > 0 && is_dotdot(rows[0].name.as_str()) { 1 } else { 0 };
        let mut tail = rows.split_off(head);
        let ghost head_rows = rows@;
        let ghost tail_rows = tail@;
        let mut sorted = sort_rows(tail);
        let ghost sorted_rows_v = sorted@;
        rows.append(&mut sorted);
        proof {
            assert(views(head_rows) =~= u.take(head as int));
            assert(views(tail_rows) =~= u.skip(head as int));
            assert(views(rows@).take(head as int) =~= views(head_rows));
            assert(views(rows@).skip(head as int) =~= views(sorted_rows_v));
        }
        self.entries = rows;
        let mut marks: Vec<String> = Vec::new();
        let mut j: usize = 0;
        while j < self.marked.len()
            invariant
                j <= self.marked@.len(),
                keep@.len() == self.marked@.len(),
                texts(marks@) == kept(texts(self.marked@).take(j as int), keep@.take(j as int)),
            decreases self.marked@.len() - j,
        {
            proof {
                let m = texts(self.marked@);
                assert(m.take(j + 1).drop_last() =~= m.take(j as int));
                assert(keep@.take(j + 1).take(j as int) =~= keep@.take(j as int));
            }
            if keep[j] {
                marks.push(self.marked[j].clone());
            }
            proof {
                assert(texts(marks@) =~= kept(texts(self.marked@).take(j + 1), keep@.take(j + 1)));
            }
            j = j + 1;
        }
        proof {
            assert(texts(self.marked@).take(j as int) =~= texts(self.marked@));
            assert(keep@.take(j as int) =~= keep@);
        }
        self.marked = marks;
        if self.cursor >= self.entries.len() {
            self.cursor = self.entries.len().saturating_sub(1);
        }
    }
}

impl Pane {
    /// The row under the cursor, if the cursor is on a row.
    pub fn current(&self) -> (r: Option<&DirEntry>)
        ensures
            match r {
                Some(e) => self.cursor < self.entries@.len() && *e == self.entries@[self.cursor as int],
                None => self.cursor >= self.entries@.len(),
            },
    {
        if self.cursor < self.entries.len() {
            Some(&self.entries[self.cursor])
        } else {
            None
        }
    }

    /// Moves the cursor by `delta` rows, stopping at the first and the last row.
    /// Nothing happens when there are no rows.
    pub fn move_cursor(&mut self, delta: isize)
        requires
            old(self).entries@.len() <= isize::MAX,
            old(self).moves_safely(delta as int),
        ensures
            final(self).cwd == old(self).cwd,
            final(self).entries == old(self).entries,
            final(self).marked == old(self).marked,
            old(self).entries@.len() == 0 ==> final(self).cursor == old(self).cursor,
            old(self).entries@.len() > 0 ==> final(self).cursor == old(self).moved_cursor(delta as int),
    {
        if self.entries.len() == 0 {
            return;
        }
        let len = self.entries.len() as isize;
        let want = self.cursor as isize + delta;
        let next = if want < 0 {
            0
        } else if want > len - 1 {
            len - 1
        } else {
            want
        };
        self.cursor = next as usize;
    }

    /// Moves the cursor to the first row.
    pub fn cursor_top(&mut self)
        ensures
            final(self).cursor == 0,
            final(self).cwd == old(self).cwd,
            final(self).entries == old(self).entries,
            final(self).marked == old(self).marked,
    {
        self.cursor = 0;
    }

    /// Moves the cursor to the last row (to `0` when there are none).
    pub fn cursor_bottom(&mut self)
        ensures
            final(self).cursor == (if old(self).entries@.len() == 0 {
                0
            } else {
                old(self).entries@.len() - 1
            }),
            final(self).cwd == old(self).cwd,
            final(self).entries == old(self).entries,
            final(self).marked == old(self).marked,
    {
        self.cursor = self.entries.len().saturating_sub(1);
    }

    /// The directory that Enter descends into: the path of the row under the
    /// cursor when that row is a directory (or ".."); `None` on a file or when
    /// the cursor is on no row. The caller resolves it and calls `change_dir`.
    pub fn enter(&self) -> (r: Option<String>)
        ensures
            match r {
                Some(t) => self.cursor < self.entries@.len() && self.entries@[self.cursor as int].is_dir
                    && t@ == self.entries@[self.cursor as int].path@,
                None => self.cursor >= self.entries@.len() || !self.entries@[self.cursor as int].is_dir,
            },
    {
        match self.current() {
            Some(entry) => {
                if entry.is_dir {
                    Some(entry.path.clone())
                } else {
                    None
                }
            },
            None => None,
        }
    }

    /// The directory that Backspace goes up to: the parent of the pane's
    /// directory, `None` at a root. The caller lists it and calls `change_dir`.
    pub fn ascend(&self) -> (r: Option<String>)
        ensures
            match r {
                Some(t) => parent_of(self.cwd@) == Some(t@),
                None => parent_of(self.cwd@) is None,
            },
    {
        path_parent(self.cwd.as_str())
    }

    /// Shows directory `dir` with listing `items`: the cursor goes to the top,
    /// and the marks whose flag in `keep` is set stay.
    pub fn change_dir(&mut self, dir: String, items: Vec<DirItem>, keep: Vec<bool>)
        requires
            keep@.len() == old(self).marked@.len(),
        ensures
            final(self).cwd@ == dir@,
            listing_rows(views(final(self).entries@), dir@, items@),
            texts(final(self).marked@) == kept(texts(old(self).marked@), keep@),
            old(self).marks_in_order() ==> final(self).marks_in_order(),
            final(self).cursor == 0,
            final(self).cursor_in_range(),
    {
        self.set_dir(dir);
        self.reload(items, keep);
    }

    /// Points the pane at directory `dir` with the cursor at the top, leaving
    /// the rows and marks as they are: what a directory change leaves behind
    /// when the new directory cannot be read.
    pub fn set_dir(&mut self, dir: String)
        ensures
            final(self).cwd@ == dir@,
            final(self).cursor == 0,
            final(self).entries == old(self).entries,
            final(self).marked == old(self).marked,
    {
        self.cwd = dir;
        self.cursor = 0;
    }

    /// Toggles the mark on the row under the cursor; never on the ".." row,
    /// and not when the cursor is on no row.
    pub fn toggle_mark(&mut self)
        ensures
            final(self).cwd == old(self).cwd,
            final(self).entries == old(self).entries,
            final(self).cursor == old(self).cursor,
            texts(final(self).marked@) == (if old(self).cursor < old(self).entries@.len()
                && old(self).entries@[old(self).cursor as int].name@ != dotdot() {
                toggled(texts(old(self).marked@), old(self).entries@[old(self).cursor as int].path@)
            } else {
                texts(old(self).marked@)
            }),
            old(self).marks_in_order() ==> final(self).marks_in_order(),
    {
        proof {
            if old(self).marks_in_order() && old(self).cursor < old(self).entries@.len() {
                crate::laws::lemma_toggle_in_order(
                    texts(old(self).marked@),
                    old(self).entries@[old(self).cursor as int].path@,
                );
            }
        }
        if self.cursor >= self.entries.len() {
            return;
        }
        if is_dotdot(self.entries[self.cursor].name.as_str()) {
            return;
        }
        let p = self.entries[self.cursor].path.clone();
        let ghost m = texts(self.marked@);
        let at = self.seek(p.as_str());
        if at < self.marked.len() && path_compare(p.as_str(), self.marked[at].as_str()) == 0 {
            let _gone = self.marked.remove(at);
            proof {
                assert(texts(self.marked@) =~= m.remove(at as int));
            }
        } else {
            self.marked.insert(at, p);
            proof {
                assert(texts(self.marked@) =~= m.insert(at as int, p@));
            }
        }
    }

    /// Where the search for `p` stops in the marks.
    fn seek(&self, p: &str) -> (r: usize)
        ensures
            r == seek(texts(self.marked@), p@),
            r <= self.marked@.len(),
    {
        let ghost m = texts(self.marked@);
        proof {
            lemma_seek_from(m, p@, 0);
        }
        let mut i: usize = 0;
        while i < self.marked.len() && path_compare(p, self.marked[i].as_str()) > 0
            invariant
                i <= self.marked@.len(),
                m == texts(self.marked@),
                seek_from(m, p@, i as int) == seek(m, p@),
            decreases self.marked@.len() - i,
        {
            i = i + 1;
        }
        i
    }

    /// Whether `path` is marked.
    pub fn is_marked(&self, path: &str) -> (r: bool)
        ensures
            r == holds_mark(texts(self.marked@), path@),
    {
        let at = self.seek(path);
        at < self.marked.len() && path_compare(path, self.marked[at].as_str()) == 0
    }

    /// Paths to hand to the agent: the marks if there are any, else the path
    /// under the cursor (not the ".." row), else nothing.
    pub fn effective_selection(&self) -> (r: Vec<String>)
        ensures
            texts(r@) == (if self.marked@.len() > 0 {
                texts(self.marked@)
            } else if self.cursor < self.entries@.len() && self.entries@[self.cursor as int].name@
                != dotdot() {
                seq![self.entries@[self.cursor as int].path@]
            } else {
                Seq::empty()
            }),
    {
        if self.marked.len() > 0 {
            let mut out: Vec<String> = Vec::new();
            let mut i: usize = 0;
            while i < self.marked.len()
                invariant
                    i <= self.marked@.len(),
                    texts(out@) =~= texts(self.marked@).take(i as int),
                decreases self.marked@.len() - i,
            {
                let ghost before = out@;
                out.push(self.marked[i].clone());
                proof {
                    assert(texts(out@) =~= texts(before).push(self.marked@[i as int]@));
                }
                i = i + 1;
            }
            return out;
        }
        let mut out: Vec<String> = Vec::new();
        if self.cursor < self.entries.len() && !is_dotdot(self.entries[self.cursor].name.as_str()) {
            out.push(self.entries[self.cursor].path.clone());
        }
        proof {
            if out@.len() == 0 {
                assert(texts(out@) =~= Seq::<Seq<char>>::empty());
            } else {
                assert(texts(out@) =~= seq![self.entries@[self.cursor as int].path@]);
            }
        }
        out
    }
}

/// Whether a name is "..".
pub fn is_dotdot(s: &str) -> (r: bool)
    ensures
        r == (s@ == dotdot()),
{
    let v = chars_of(s);
    let r = v.len() == 2 && v[0] == '.' && v[1] == '.';
    proof {
        if r {
            assert(v@ =~= dotdot());
        }
    }
    r
}


/// A copy of a listing.
fn copy_items(items: &Vec<DirItem>) -> (r: Vec<DirItem>)
    ensures
        r@.map_values(|it: DirItem| item_row(it)) == items@.map_values(|it: DirItem| item_row(it)),
{
    let mut out: Vec<DirItem> = Vec::new();
    let mut i: usize = 0;
    while i < items.len()
        invariant
            i <= items@.len(),
            out@.len() == i,
            out@.map_values(|it: DirItem| item_row(it)) =~= items@.take(i as int).map_values(
                |it: DirItem| item_row(it),
            ),
        decreases items@.len() - i,
    {
        let it = &items[i];
        let ghost before = out@;
        out.push(DirItem { name: it.name.clone(), path: it.path.clone(), is_dir: it.is_dir, len: it.len });
        proof {
            assert(items@.take(i + 1) =~= items@.take(i as int).push(items@[i as int]));
            assert(item_row(out@[i as int]) == item_row(items@[i as int]));
            assert(out@.map_values(|it: DirItem| item_row(it)) =~= before.map_values(
                |it: DirItem| item_row(it),
            ).push(item_row(items@[i as int])));
            assert(items@.take(i + 1).map_values(|it: DirItem| item_row(it)) =~= items@.take(
                i as int,
            ).map_values(|it: DirItem| item_row(it)).push(item_row(items@[i as int])));
        }
        i = i + 1;
    }
    proof {
        assert(items@.take(i as int) =~= items@);
    }
    out
}

/// The whole dual-pane app: two panes and which one is active.
#[derive(Debug, Clone)]
pub struct AppState {
    pub left: Pane,
    pub right: Pane,
    pub active: Side,
}

impl AppState {
    /// The pane that has focus.
    pub open spec fn active_spec(&self) -> Pane {
        match self.active {
            Side::Left => self.left,
            Side::Right => self.right,
        }
    }

    /// Both panes start at the same directory `cwd` (already resolved), whose
    /// listing is `items`; the left pane is active.
    pub fn new(cwd: String, items: Vec<DirItem>) -> (r: AppState)
        ensures
            r.left.cwd@ == cwd@,
            r.right.cwd@ == cwd@,
            listing_rows(views(r.left.entries@), cwd@, items@),
            listing_rows(views(r.right.entries@), cwd@, items@),
            r.left.cursor == 0 && r.right.cursor == 0,
            r.left.marked@.len() == 0 && r.right.marked@.len() == 0,
            r.active == Side::Left,
    {
        let copy = copy_items(&items);
        let left = Pane::open(cwd.clone(), copy);
        let right = Pane::open(cwd, items);
        proof {
            assert(unsorted_rows(cwd@, copy@) =~= unsorted_rows(cwd@, items@));
        }
        AppState { left, right, active: Side::Left }
    }

    /// The pane that has focus.
    pub fn active_pane(&self) -> (r: &Pane)
        ensures
            *r == self.active_spec(),
    {
        match self.active {
            Side::Left => &self.left,
            Side::Right => &self.right,
        }
    }

    /// The pane that has focus, to change it.
    pub fn active_pane_mut(&mut self) -> (r: &mut Pane)
        ensures
            *r == old(self).active_spec(),
            final(self).active == old(self).active,
            old(self).active == Side::Left ==> final(self).left == *final(r) && final(self).right
                == old(self).right,
            old(self).active == Side::Right ==> final(self).right == *final(r) && final(self).left
                == old(self).left,
    {
        match self.active {
            Side::Left => &mut self.left,
            Side::Right => &mut self.right,
        }
    }

    /// Gives focus to the other pane.
    pub fn switch_pane(&mut self)
        ensures
            final(self).active == old(self).active.other_spec(),
            final(self).left == old(self).left,
            final(self).right == old(self).right,
    {
        self.active = self.active.other();
    }
}

impl Side {
    /// The other side.
    pub open spec fn other_spec(self) -> Side {
        match self {
            Side::Left => Side::Right,
            Side::Right => Side::Left,
        }
    }
}

} // verus!
