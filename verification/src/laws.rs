//! Properties of the library that span its functions, proved over the specs
//! that the functions' contracts use.
use vstd::prelude::*;
use crate::pane::{
    Side, Pane, EntryView, DirItem, listing_rows, unsorted_rows, fixed_head, sorted_rows,
    stable_sort_of, listed_before, sort_key, dotdot, toggled, holds_mark, seek, seek_from,
    lemma_seek_from, in_path_order,
    kept, rank_class, item_row,
};
use crate::paths::{parent_of, joined, path_rank, same_path, lemma_path_order};
use crate::git::{
    Status, file_put, key_from, status_of, read_lines, read_line, lines_of, line_path, line_kind,
    dir_listed, dir_add, mark_up, flag_dirs,
};
use vstd::utf8::encode_utf8;
use crate::keys::{KeyCode, KeyEvent, key_bytes};
use crate::text::{
    lowercased, bytes_lt, decimal, digit_char, digits_value, all_digits, parsed_u64, trimmed, strip_front,
    strip_back, in_class, CharClass, truncated, pad_right, pad_left, spaces,
};
use crate::cockpit::tree_step;
use crate::tui::{Command, command_of, step_of};
use crate::mcp::{Request, Reply, route};

verus! {

/// The other side of the other side is the side itself, and never the same.
pub proof fn lemma_other_twice(s: Side)
    ensures
        s.other_spec().other_spec() == s,
        s.other_spec() != s,
{
}

/// In a pane's rows, a ".." row leads when the directory has a parent, and
/// after it directories come before files, each kind ordered by name without
/// regard to case.
pub proof fn lemma_rows_order(r: Seq<EntryView>, cwd: Seq<char>, items: Seq<DirItem>)
    requires
        listing_rows(r, cwd, items),
    ensures
        parent_of(cwd) is Some ==> r.len() > 0 && r[0].name == dotdot() && r[0].path == joined(
            cwd,
            dotdot(),
        ) && r[0].is_dir,
        forall|i: int, j: int|
            fixed_head(unsorted_rows(cwd, items)) <= i < j < r.len() && #[trigger] r[j].is_dir
                ==> #[trigger] r[i].is_dir,
        forall|i: int, j: int|
            fixed_head(unsorted_rows(cwd, items)) <= i < j < r.len() && r[i].is_dir == r[j].is_dir
                ==> !crate::text::bytes_lt(#[trigger] sort_key(r[j]).1, #[trigger] sort_key(r[i]).1),
{
    let u = unsorted_rows(cwd, items);
    let h = fixed_head(u);
    if parent_of(cwd) is Some {
        assert(u[0].name == dotdot());
        assert(r.take(h)[0] == u.take(h)[0]);
    }
    assert forall|i: int, j: int|
        h <= i < j < r.len() && #[trigger] r[j].is_dir implies #[trigger] r[i].is_dir by {
        assert(r.skip(h)[i - h] == r[i]);
        assert(r.skip(h)[j - h] == r[j]);
        assert(sorted_rows(r.skip(h)));
        assert(!listed_before(r.skip(h)[j - h], r.skip(h)[i - h]));
    }
    assert forall|i: int, j: int|
        h <= i < j < r.len() && r[i].is_dir == r[j].is_dir implies !crate::text::bytes_lt(
        #[trigger] sort_key(r[j]).1,
        #[trigger] sort_key(r[i]).1,
    ) by {
        assert(r.skip(h)[i - h] == r[i]);
        assert(r.skip(h)[j - h] == r[j]);
        assert(sorted_rows(r.skip(h)));
        assert(!listed_before(r.skip(h)[j - h], r.skip(h)[i - h]));
    }
}

/// When no listed item is named ".." (as a directory read never gives one),
/// the rows held in place are exactly the parent row, if the directory has a
/// parent, and all the listed items are sorted.
pub proof fn lemma_plain_listing(r: Seq<EntryView>, cwd: Seq<char>, items: Seq<DirItem>)
    requires
        listing_rows(r, cwd, items),
        forall|j: int| 0 <= j < items.len() ==> (#[trigger] items[j]).name@ != dotdot(),
    ensures
        fixed_head(unsorted_rows(cwd, items)) == (if parent_of(cwd) is Some {
            1int
        } else {
            0int
        }),
        stable_sort_of(
            r.skip(fixed_head(unsorted_rows(cwd, items))),
            items.map_values(|it: DirItem| item_row(it)),
        ),
{
    let u = unsorted_rows(cwd, items);
    let rows = items.map_values(|it: DirItem| item_row(it));
    if parent_of(cwd) is Some {
        assert(u.skip(1) =~= rows);
    } else {
        assert(u == rows);
        if u.len() > 0 {
            assert(u[0].name == items[0].name@);
        }
        assert(u.skip(0) =~= rows);
    }
}

/// Marking an unmarked path and then toggling it again leaves the marks as
/// they were; in between, the path is marked.
pub proof fn lemma_toggle_twice(m: Seq<Seq<char>>, p: Seq<char>)
    requires
        !holds_mark(m, p),
    ensures
        holds_mark(toggled(m, p), p),
        toggled(toggled(m, p), p) == m,
{
    let i = seek(m, p);
    lemma_seek_from(m, p, 0);
    lemma_path_order(p, p, p);
    let m2 = m.insert(i, p);
    assert(toggled(m, p) == m2);
    m.insert_ensures(i, p);
    lemma_seek_stops(m2, p, 0, i);
    assert(seek(m2, p) == i);
    assert(m2.remove(i) =~= m);
}

proof fn lemma_seek_stops(m: Seq<Seq<char>>, p: Seq<char>, i: int, k: int)
    requires
        0 <= i <= k < m.len(),
        forall|q: int| i <= q < k ==> path_rank(p, #[trigger] m[q]) > 0,
        path_rank(p, m[k]) <= 0,
    ensures
        seek_from(m, p, i) == k,
    decreases k - i,
{
    if i < k {
        lemma_seek_stops(m, p, i + 1, k);
    }
}

/// The order of `Path::cmp` as `Ord` promises it: a path compares equal to
/// itself, swapping two paths reverses their order, and "less than" chains.
pub open spec fn path_order_is_total() -> bool {
    &&& forall|a: Seq<char>| #[trigger] path_rank(a, a) == 0
    &&& forall|a: Seq<char>, b: Seq<char>| #[trigger] path_rank(a, b) == -path_rank(b, a)
    &&& forall|a: Seq<char>, b: Seq<char>, c: Seq<char>|
        #![trigger path_rank(a, b), path_rank(b, c)]
        path_rank(a, b) < 0 && path_rank(b, c) < 0 ==> path_rank(a, c) < 0
}

/// The order of `Path::cmp` is the total order that `Ord` promises.
pub proof fn lemma_path_order_is_total()
    ensures
        path_order_is_total(),
{
    assert forall|a: Seq<char>| #[trigger] path_rank(a, a) == 0 by {
        lemma_path_order(a, a, a);
    }
    assert forall|a: Seq<char>, b: Seq<char>| #[trigger] path_rank(a, b) == -path_rank(b, a) by {
        lemma_path_order(a, b, a);
    }
    assert forall|a: Seq<char>, b: Seq<char>, c: Seq<char>|
        #![trigger path_rank(a, b), path_rank(b, c)]
        path_rank(a, b) < 0 && path_rank(b, c) < 0 implies path_rank(a, c) < 0 by {
        lemma_path_order(a, b, c);
    }
}


/// Dropping marks on a reload keeps the rest in path order.
pub proof fn lemma_kept_in_order(m: Seq<Seq<char>>, keep: Seq<bool>)
    requires
        in_path_order(m),
    ensures
        in_path_order(kept(m, keep)),
{
    lemma_kept_from(m, keep);
}

proof fn lemma_kept_from(m: Seq<Seq<char>>, keep: Seq<bool>)
    requires
        in_path_order(m),
    ensures
        in_path_order(kept(m, keep)),
        forall|i: int| 0 <= i < kept(m, keep).len() ==> m.contains(#[trigger] kept(m, keep)[i]),
    decreases m.len(),
{
    if m.len() == 0 || keep.len() < m.len() {
    } else {
        let t = m.drop_last();
        let k = keep.take(m.len() - 1);
        assert(in_path_order(t)) by {
            assert forall|i: int, j: int| 0 <= i < j < t.len() implies path_rank(
                #[trigger] t[i],
                #[trigger] t[j],
            ) < 0 by {
                assert(t[i] == m[i] && t[j] == m[j]);
            }
        }
        lemma_kept_from(t, k);
        let before = kept(t, k);
        let last = m.len() - 1;
        assert forall|i: int| 0 <= i < before.len() implies exists|q: int|
            0 <= q < last && #[trigger] m[q] == #[trigger] before[i] by {
            let q = choose|q: int| 0 <= q < t.len() && t[q] == before[i];
            assert(t[q] == m[q]);
        }
        if keep[last] {
            let n = before.push(m[last]);
            assert(n == kept(m, keep));
            assert forall|i: int, j: int| 0 <= i < j < n.len() implies path_rank(
                #[trigger] n[i],
                #[trigger] n[j],
            ) < 0 by {
                assert(n[i] == before[i]);
                let q = choose|q: int| 0 <= q < last && #[trigger] m[q] == before[i];
                if j == n.len() - 1 {
                    assert(n[j] == m[last]);
                } else {
                    assert(n[j] == before[j]);
                }
            }
            assert forall|i: int| 0 <= i < n.len() implies m.contains(#[trigger] n[i]) by {
                if i == n.len() - 1 {
                    assert(n[i] == m[last]);
                } else {
                    assert(n[i] == before[i]);
                    let q = choose|q: int| 0 <= q < last && #[trigger] m[q] == before[i];
                    assert(m[q] == n[i]);
                }
            }
        } else {
            assert(before == kept(m, keep));
            assert forall|i: int| 0 <= i < before.len() implies m.contains(#[trigger] before[i]) by {
                let q = choose|q: int| 0 <= q < last && #[trigger] m[q] == before[i];
                assert(m[q] == before[i]);
            }
        }
    }
}

/// Toggling a path keeps the marks in path order.
pub proof fn lemma_toggle_in_order(m: Seq<Seq<char>>, p: Seq<char>)
    requires
        in_path_order(m),
    ensures
        in_path_order(toggled(m, p)),
{
    lemma_path_order_is_total();
    let i = seek(m, p);
    lemma_seek_from(m, p, 0);
    if holds_mark(m, p) {
        let n = m.remove(i);
        assert forall|a: int, b: int| 0 <= a < b < n.len() implies path_rank(
            #[trigger] n[a],
            #[trigger] n[b],
        ) < 0 by {
            let a2 = if a < i { a } else { a + 1 };
            let b2 = if b < i { b } else { b + 1 };
            assert(n[a] == m[a2] && n[b] == m[b2]);
        }
    } else {
        let n = m.insert(i, p);
        assert forall|q: int| 0 <= q < m.len() implies (q < i ==> path_rank(#[trigger] m[q], p) < 0)
            && (q >= i ==> path_rank(p, m[q]) < 0) by {
            if q < i {
                assert(path_rank(p, m[q]) > 0);
                assert(path_rank(m[q], p) == -path_rank(p, m[q]));
            } else {
                assert(path_rank(p, m[i]) < 0);
                if q > i {
                    assert(path_rank(m[i], m[q]) < 0);
                }
            }
        }
        assert forall|a: int, b: int| 0 <= a < b < n.len() implies path_rank(
            #[trigger] n[a],
            #[trigger] n[b],
        ) < 0 by {
            if a < i {
                assert(n[a] == m[a]);
                if b < i {
                    assert(n[b] == m[b]);
                } else if b == i {
                    assert(n[b] == p);
                } else {
                    assert(n[b] == m[b - 1]);
                }
            } else if a == i {
                assert(n[a] == p);
                assert(n[b] == m[b - 1]);
            } else {
                assert(n[a] == m[a - 1]);
                assert(n[b] == m[b - 1]);
            }
        }
    }
}

/// Toggling a marked path twice leaves the marks as they were; in between,
/// the path is not marked. This holds of marks in path order, as every pane's
/// marks are kept.
pub proof fn lemma_toggle_marked_twice(m: Seq<Seq<char>>, p: Seq<char>)
    requires
        in_path_order(m),
        m.contains(p),
    ensures
        holds_mark(m, p),
        !holds_mark(toggled(m, p), p),
        toggled(toggled(m, p), p) == m,
{
    lemma_path_order_is_total();
    let k = choose|k: int| 0 <= k < m.len() && m[k] == p;
    assert forall|q: int| 0 <= q < k implies path_rank(p, #[trigger] m[q]) > 0 by {
        assert(path_rank(m[q], m[k]) < 0);
        assert(path_rank(p, m[q]) == -path_rank(m[q], p));
    }
    assert(path_rank(p, m[k]) == 0);
    lemma_seek_stops(m, p, 0, k);
    let m2 = m.remove(k);
    assert(toggled(m, p) == m2);
    assert forall|q: int| 0 <= q < k implies path_rank(p, #[trigger] m2[q]) > 0 by {
        assert(m2[q] == m[q]);
    }
    if k < m2.len() {
        assert(m2[k] == m[k + 1]);
        assert(path_rank(m[k], m[k + 1]) < 0);
        lemma_seek_stops(m2, p, 0, k);
    } else {
        lemma_seek_from(m2, p, 0);
        if seek(m2, p) < m2.len() {
            assert(path_rank(p, m2[seek(m2, p)]) > 0);
        }
    }
    assert(seek(m2, p) == k);
    assert(m2.insert(k, p) =~= m);
}

/// Keeping every mark on a reload keeps the marks as they were.
pub proof fn lemma_keep_all(m: Seq<Seq<char>>, keep: Seq<bool>)
    requires
        keep.len() == m.len(),
        forall|i: int| 0 <= i < keep.len() ==> #[trigger] keep[i],
    ensures
        kept(m, keep) == m,
    decreases m.len(),
{
    if m.len() > 0 {
        lemma_keep_all(m.drop_last(), keep.take(m.len() - 1));
        assert(m.drop_last().push(m.last()) =~= m);
    }
}

/// A moved cursor stays on a row.
pub proof fn lemma_moved_in_range(p: Pane, delta: int)
    requires
        p.entries@.len() > 0,
    ensures
        0 <= p.moved_cursor(delta) < p.entries@.len(),
{
}

/// Setting a file's state and then looking the file up gives that state.
pub proof fn lemma_put_then_get(f: Seq<(Seq<char>, Status)>, k: Seq<char>, v: Status)
    ensures
        key_from(file_put(f, k, v), k, 0) matches Some(i) && file_put(f, k, v)[i].1 == v,
{
    match key_from(f, k, 0) {
        Some(i) => {
            lemma_key_from_range(f, k, 0);
            lemma_key_from_same(f, k, 0, i);
            let g = f.update(i, (f[i].0, v));
            assert forall|q: int| 0 <= q < i implies !same_path(k, #[trigger] g[q].0) by {
                assert(g[q] == f[q]);
            }
            lemma_key_from_after(g, k, 0, i);
        },
        None => {
            lemma_key_from_none(f, k, 0);
            let g = f.push((k, v));
            assert forall|q: int| 0 <= q < f.len() implies !same_path(k, #[trigger] g[q].0) by {
                assert(g[q] == f[q]);
            }
            lemma_key_from_after(g, k, 0, f.len() as int);
        },
    }
}

proof fn lemma_key_from_range(f: Seq<(Seq<char>, Status)>, k: Seq<char>, i: int)
    requires
        0 <= i,
    ensures
        key_from(f, k, i) matches Some(j) ==> i <= j < f.len() && same_path(k, f[j].0),
    decreases f.len() - i,
{
    if i < f.len() && !same_path(k, f[i].0) {
        lemma_key_from_range(f, k, i + 1);
    }
}

proof fn lemma_key_from_same(f: Seq<(Seq<char>, Status)>, k: Seq<char>, i: int, j: int)
    requires
        0 <= i <= j < f.len(),
        key_from(f, k, i) == Some(j),
    ensures
        forall|q: int| i <= q < j ==> !same_path(k, #[trigger] f[q].0),
        same_path(k, f[j].0),
    decreases j - i,
{
    lemma_key_from_range(f, k, i);
    if i < j {
        lemma_key_from_range(f, k, i + 1);
        lemma_key_from_same(f, k, i + 1, j);
    }
}

proof fn lemma_key_from_none(f: Seq<(Seq<char>, Status)>, k: Seq<char>, i: int)
    requires
        0 <= i <= f.len(),
        key_from(f, k, i) is None,
    ensures
        forall|q: int| i <= q < f.len() ==> !same_path(k, #[trigger] f[q].0),
    decreases f.len() - i,
{
    if i < f.len() {
        lemma_key_from_none(f, k, i + 1);
    }
}

proof fn lemma_key_from_after(f: Seq<(Seq<char>, Status)>, k: Seq<char>, i: int, j: int)
    requires
        0 <= i <= j < f.len(),
        forall|q: int| i <= q < j ==> !same_path(k, #[trigger] f[q].0),
        same_path(k, f[j].0),
    ensures
        key_from(f, k, i) == Some(j),
    decreases j - i,
{
    if i < j {
        lemma_key_from_after(f, k, i + 1, j);
    }
}

/// A status line that names a file: at least four bytes long.
pub open spec fn names_file(l: Seq<u8>) -> bool {
    l.len() >= 4
}

/// The path a status line names, if it names one.
spec fn line_entry(l: Seq<u8>, root: Seq<char>) -> Option<Seq<char>> {
    if names_file(l) {
        Some(line_path(l, root))
    } else {
        None
    }
}

/// Each file entry of `f` is one of the paths `named`, and each of the paths
/// `named` equals an entry.
spec fn files_match(f: Seq<(Seq<char>, Status)>, named: Seq<Option<Seq<char>>>) -> bool {
    &&& forall|i: int| #![trigger f[i]] 0 <= i < f.len() ==> named.contains(Some(f[i].0))
    &&& forall|j: int| #![trigger named[j]] 0 <= j < named.len() && named[j] is Some ==> exists|i: int|
        0 <= i < f.len() && same_path(named[j].unwrap(), #[trigger] f[i].0)
}

/// A path has a state in the status of a repository exactly when it equals
/// the path that one of the status lines names (shorter lines name nothing; a
/// rename names its new path).
pub proof fn lemma_changed_files_exact(root: Seq<char>, text: Seq<char>, p: Seq<char>)
    ensures
        key_from(status_of(root, text).0, p, 0) is Some <==> exists|j: int|
            0 <= j < lines_of(encode_utf8(text)).len() && names_file(
                #[trigger] lines_of(encode_utf8(text))[j],
            ) && same_path(p, line_path(lines_of(encode_utf8(text))[j], root)),
{
    let ls = lines_of(encode_utf8(text));
    let f = read_lines(ls, root).0;
    let named = ls.map_values(|l: Seq<u8>| line_entry(l, root));
    lemma_files_from_lines(ls, root);
    assert(files_match(f, named));
    if key_from(f, p, 0) is Some {
        let i = key_from(f, p, 0).unwrap();
        lemma_key_from_range(f, p, 0);
        assert(f[i] == f[i]);
        let j = choose|j: int| 0 <= j < named.len() && named[j] == Some(f[i].0);
        assert(named[j] == line_entry(ls[j], root));
        assert(names_file(ls[j]) && same_path(p, line_path(ls[j], root)));
    }
    if exists|j: int|
        0 <= j < ls.len() && names_file(#[trigger] ls[j]) && same_path(p, line_path(ls[j], root)) {
        let j = choose|j: int|
            0 <= j < ls.len() && names_file(#[trigger] ls[j]) && same_path(p, line_path(ls[j], root));
        assert(named[j] == Some(line_path(ls[j], root)));
        let i = choose|i: int|
            0 <= i < f.len() && same_path(named[j].unwrap(), #[trigger] f[i].0);
        if key_from(f, p, 0) is None {
            lemma_key_from_none(f, p, 0);
        }
    }
}

proof fn lemma_files_from_lines(ls: Seq<Seq<u8>>, root: Seq<char>)
    ensures
        files_match(read_lines(ls, root).0, ls.map_values(|l: Seq<u8>| line_entry(l, root))),
    decreases ls.len(),
{
    if ls.len() > 0 {
        let t = ls.drop_last();
        let l = ls.last();
        lemma_files_from_lines(t, root);
        let named = t.map_values(|l: Seq<u8>| line_entry(l, root));
        assert(named.push(line_entry(l, root)) =~= ls.map_values(|l: Seq<u8>| line_entry(l, root)));
        let st = read_lines(t, root);
        assert(read_lines(ls, root) == read_line(st, l, root));
        if !names_file(l) {
            assert(read_line(st, l, root).0 == st.0);
            lemma_files_skip(st.0, named);
        } else {
            let abs = line_path(l, root);
            let v = line_kind(l[0], l[1]);
            assert(read_line(st, l, root).0 == file_put(st.0, abs, v));
            match key_from(st.0, abs, 0) {
                Some(k) => {
                    lemma_key_from_range(st.0, abs, 0);
                    lemma_files_update(st.0, named, abs, k, v);
                },
                None => {
                    lemma_files_push(st.0, named, abs, v);
                },
            }
        }
    }
}

proof fn lemma_files_skip(f: Seq<(Seq<char>, Status)>, named: Seq<Option<Seq<char>>>)
    requires
        files_match(f, named),
    ensures
        files_match(f, named.push(None)),
{
    let n2 = named.push(None);
    assert forall|i: int| #![trigger f[i]] 0 <= i < f.len() implies n2.contains(Some(f[i].0)) by {
        let j = choose|j: int| 0 <= j < named.len() && named[j] == Some(f[i].0);
        assert(n2[j] == named[j]);
    }
    assert forall|j: int| #![trigger n2[j]] 0 <= j < n2.len() && n2[j] is Some implies exists|i: int|
        0 <= i < f.len() && same_path(n2[j].unwrap(), #[trigger] f[i].0) by {
        assert(j < named.len());
        assert(named[j] == n2[j]);
        let i = choose|i: int| 0 <= i < f.len() && same_path(named[j].unwrap(), #[trigger] f[i].0);
        assert(f[i] == f[i]);
    }
}

proof fn lemma_files_update(
    f: Seq<(Seq<char>, Status)>,
    named: Seq<Option<Seq<char>>>,
    abs: Seq<char>,
    k: int,
    v: Status,
)
    requires
        files_match(f, named),
        0 <= k < f.len(),
        same_path(abs, f[k].0),
    ensures
        files_match(f.update(k, (f[k].0, v)), named.push(Some(abs))),
{
    let n2 = named.push(Some(abs));
    let g = f.update(k, (f[k].0, v));
    let last = named.len() as int;
    assert forall|i: int| #![trigger g[i]] 0 <= i < g.len() implies n2.contains(Some(g[i].0)) by {
        assert(g[i].0 == f[i].0);
        let j = choose|j: int| 0 <= j < named.len() && named[j] == Some(f[i].0);
        assert(n2[j] == named[j]);
    }
    assert forall|j: int| #![trigger n2[j]] 0 <= j < n2.len() && n2[j] is Some implies exists|i: int|
        0 <= i < g.len() && same_path(n2[j].unwrap(), #[trigger] g[i].0) by {
        if j == last {
            assert(n2[j] == Some(abs));
            assert(g[k].0 == f[k].0);
        } else {
            assert(named[j] == n2[j]);
            let i = choose|i: int| 0 <= i < f.len() && same_path(named[j].unwrap(), #[trigger] f[i].0);
            assert(g[i].0 == f[i].0);
        }
    }
}

proof fn lemma_files_push(
    f: Seq<(Seq<char>, Status)>,
    named: Seq<Option<Seq<char>>>,
    abs: Seq<char>,
    v: Status,
)
    requires
        files_match(f, named),
    ensures
        files_match(f.push((abs, v)), named.push(Some(abs))),
{
    let n2 = named.push(Some(abs));
    let g = f.push((abs, v));
    let last = named.len() as int;
    let n = f.len() as int;
    assert forall|i: int| #![trigger g[i]] 0 <= i < g.len() implies n2.contains(Some(g[i].0)) by {
        if i == n {
            assert(n2[last] == Some(abs));
        } else {
            assert(g[i] == f[i]);
            let j = choose|j: int| 0 <= j < named.len() && named[j] == Some(f[i].0);
            assert(n2[j] == named[j]);
        }
    }
    assert forall|j: int| #![trigger n2[j]] 0 <= j < n2.len() && n2[j] is Some implies exists|i: int|
        0 <= i < g.len() && same_path(n2[j].unwrap(), #[trigger] g[i].0) by {
        if j == last {
            assert(g[n].0 == abs);
        } else {
            assert(named[j] == n2[j]);
            let i = choose|i: int| 0 <= i < f.len() && same_path(named[j].unwrap(), #[trigger] f[i].0);
            assert(g[i] == f[i]);
        }
    }
}

/// `d` equals one of the directories met walking up from `p`: `p` itself,
/// then each parent in turn, stopping after the one that equals `root` (or at
/// the top when none does).
pub open spec fn on_walk(p: Seq<char>, root: Seq<char>, d: Seq<char>) -> bool
    decreases p.len(),
{
    same_path(d, p) || (!same_path(p, root) && match parent_of(p) {
        Some(q) => q.len() < p.len() && on_walk(q, root, d),
        None => false,
    })
}

/// `d` equals one of the ancestors of the file `abs` up to `root`: the walk up
/// from its parent.
pub open spec fn ancestor_up_to(abs: Seq<char>, root: Seq<char>, d: Seq<char>) -> bool {
    match parent_of(abs) {
        Some(p) => p.len() < abs.len() && on_walk(p, root, d),
        None => false,
    }
}

/// A directory holds changes in the status of a repository exactly when it
/// equals an ancestor, up to the repository root, of a path that one of the
/// status lines names.
pub proof fn lemma_dirty_dirs_exact(root: Seq<char>, text: Seq<char>, d: Seq<char>)
    ensures
        dir_listed(status_of(root, text).1, d) <==> exists|j: int|
            0 <= j < lines_of(encode_utf8(text)).len() && names_file(
                #[trigger] lines_of(encode_utf8(text))[j],
            ) && ancestor_up_to(line_path(lines_of(encode_utf8(text))[j], root), root, d),
{
    lemma_dirs_from_lines(lines_of(encode_utf8(text)), root, d);
}

proof fn lemma_dirs_from_lines(ls: Seq<Seq<u8>>, root: Seq<char>, d: Seq<char>)
    ensures
        dir_listed(read_lines(ls, root).1, d) <==> exists|j: int|
            0 <= j < ls.len() && names_file(#[trigger] ls[j]) && ancestor_up_to(
                line_path(ls[j], root),
                root,
                d,
            ),
    decreases ls.len(),
{
    if ls.len() > 0 {
        let t = ls.drop_last();
        let l = ls.last();
        let last = t.len() as int;
        lemma_dirs_from_lines(t, root, d);
        let st = read_lines(t, root);
        assert(read_lines(ls, root) == read_line(st, l, root));
        assert(ls[last] == l);
        assert forall|j: int| 0 <= j < t.len() implies ls[j] == #[trigger] t[j] by {}
        let before = exists|j: int|
            0 <= j < t.len() && names_file(#[trigger] t[j]) && ancestor_up_to(
                line_path(t[j], root),
                root,
                d,
            );
        let now = exists|j: int|
            0 <= j < ls.len() && names_file(#[trigger] ls[j]) && ancestor_up_to(
                line_path(ls[j], root),
                root,
                d,
            );
        if before {
            let j = choose|j: int|
                0 <= j < t.len() && names_file(#[trigger] t[j]) && ancestor_up_to(
                    line_path(t[j], root),
                    root,
                    d,
                );
            assert(ls[j] == t[j]);
        }
        if now {
            let j = choose|j: int|
                0 <= j < ls.len() && names_file(#[trigger] ls[j]) && ancestor_up_to(
                    line_path(ls[j], root),
                    root,
                    d,
                );
            if j < last {
                assert(t[j] == ls[j]);
            }
        }
        if names_file(l) {
            let abs = line_path(l, root);
            assert(read_line(st, l, root).1 == flag_dirs(st.1, abs, root));
            lemma_flag_dirs(st.1, abs, root, d);
            assert(now == (before || ancestor_up_to(abs, root, d)));
        } else {
            assert(read_line(st, l, root).1 == st.1);
            assert(now == before);
        }
    }
}

proof fn lemma_flag_dirs(ds: Seq<Seq<char>>, abs: Seq<char>, root: Seq<char>, d: Seq<char>)
    ensures
        dir_listed(flag_dirs(ds, abs, root), d) == (dir_listed(ds, d) || ancestor_up_to(abs, root, d)),
{
    match parent_of(abs) {
        Some(p) => {
            if p.len() < abs.len() {
                lemma_mark_up(ds, p, root, d);
            }
        },
        None => {},
    }
}

proof fn lemma_mark_up(ds: Seq<Seq<char>>, p: Seq<char>, root: Seq<char>, d: Seq<char>)
    ensures
        dir_listed(mark_up(ds, p, root), d) == (dir_listed(ds, d) || on_walk(p, root, d)),
    decreases p.len(),
{
    let d2 = dir_add(ds, p);
    lemma_dir_add(ds, p, d);
    if !same_path(p, root) {
        match parent_of(p) {
            Some(q) => {
                if q.len() < p.len() {
                    lemma_mark_up(d2, q, root, d);
                }
            },
            None => {},
        }
    }
}

proof fn lemma_dir_add(ds: Seq<Seq<char>>, p: Seq<char>, d: Seq<char>)
    ensures
        dir_listed(dir_add(ds, p), d) == (dir_listed(ds, d) || same_path(d, p)),
{
    if dir_listed(ds, p) {
        if same_path(d, p) {
            let i = choose|i: int| 0 <= i < ds.len() && same_path(p, #[trigger] ds[i]);
        }
    } else {
        let e = ds.push(p);
        assert(e[ds.len() as int] == p);
        if dir_listed(e, d) {
            let i = choose|i: int| 0 <= i < e.len() && same_path(d, #[trigger] e[i]);
            if i < ds.len() {
                assert(e[i] == ds[i]);
            }
        }
        if dir_listed(ds, d) {
            let i = choose|i: int| 0 <= i < ds.len() && same_path(d, #[trigger] ds[i]);
            assert(e[i] == ds[i]);
        }
    }
}

/// Control with a letter, in either case, sends the letter's control code
/// (`Ctrl-A` is 1, ..., `Ctrl-Z` is 26).
pub proof fn lemma_ctrl_letter(key: KeyEvent, c: char)
    requires
        key.code == KeyCode::Char(c),
        key.modifiers.control,
        ('a' <= c <= 'z') || ('A' <= c <= 'Z'),
    ensures
        key_bytes(key) == Some(seq![
            (if c <= 'Z' {
                (c as u32) - 64
            } else {
                (c as u32) - 96
            }) as u8,
        ]),
{
    let u = c as u32;
    let up: u32 = if 0x61 <= u <= 0x7a { (u - 32) as u32 } else { u };
    assert(0x41 <= up <= 0x5a);
    assert((up as u8) & 0x1f == (up - 64) as u8) by (bit_vector)
        requires
            0x41 <= up <= 0x5a,
    ;
}

/// A row occurs in a sequence as often as in the rows that rank as it does.
proof fn lemma_count_in_class(s: Seq<EntryView>, x: EntryView)
    ensures
        s.to_multiset().count(x) == rank_class(s, x).to_multiset().count(x),
    decreases s.len(),
{
    broadcast use vstd::seq_lib::to_multiset_build, vstd::multiset::group_multiset_axioms;

    if s.len() == 0 {
        assert(rank_class(s, x) =~= s) by {
            reveal(Seq::filter);
        }
    } else {
        let t = s.drop_last();
        let e = s.last();
        lemma_count_in_class(t, x);
        assert(t.push(e) =~= s);
        t.lemma_filter_push(e, |y: EntryView| sort_key(y) == sort_key(x));
    }
}

/// Sorting the rows rearranges them: each row occurs as often after as before.
pub proof fn lemma_sort_permutes(r: Seq<EntryView>, s: Seq<EntryView>)
    requires
        stable_sort_of(r, s),
    ensures
        r.to_multiset() =~= s.to_multiset(),
{
    assert forall|x: EntryView| r.to_multiset().count(x) == s.to_multiset().count(x) by {
        lemma_count_in_class(r, x);
        lemma_count_in_class(s, x);
        assert(rank_class(r, x) == rank_class(s, x));
    }
}

/// The state of a file in `git status --porcelain` follows its two status
/// bytes `x` and `y`: `??` is untracked; any index byte `x` other than ' ' and
/// '?' is a staged change, whatever it is (`M`, `A`, `D`, `R`, ...); an index
/// byte ' ' (a change in the work tree only) is modified, and so is a lone '?'.
pub proof fn lemma_status_bytes(x: u8, y: u8)
    ensures
        x == 0x3f && y == 0x3f ==> line_kind(x, y) == Status::Untracked,
        x != 0x20 && x != 0x3f ==> line_kind(x, y) == Status::Staged,
        x == 0x20 ==> line_kind(x, y) == Status::Modified,
        x == 0x3f && y != 0x3f ==> line_kind(x, y) == Status::Modified,
{
}

/// Reading a status line that names a file records that file with the state
/// its status bytes give: staged for any index byte other than ' ' and '?',
/// untracked for `??`, modified otherwise.
pub proof fn lemma_line_state(
    st: (Seq<(Seq<char>, Status)>, Seq<Seq<char>>),
    l: Seq<u8>,
    root: Seq<char>,
)
    requires
        l.len() >= 4,
    ensures
        key_from(read_line(st, l, root).0, line_path(l, root), 0) matches Some(i) && {
            let s = read_line(st, l, root).0[i].1;
            &&& (l[0] != 0x20 && l[0] != 0x3f ==> s == Status::Staged)
            &&& (l[0] == 0x3f && l[1] == 0x3f ==> s == Status::Untracked)
            &&& (l[0] == 0x20 ==> s == Status::Modified)
            &&& (l[0] == 0x3f && l[1] != 0x3f ==> s == Status::Modified)
        },
{
    lemma_put_then_get(st.0, line_path(l, root), line_kind(l[0], l[1]));
    lemma_status_bytes(l[0], l[1]);
}

/// In the byte order of names, a proper prefix comes before every longer name
/// that starts with it, and never after it.
pub proof fn lemma_prefix_first(a: Seq<u8>, b: Seq<u8>)
    requires
        a.len() < b.len(),
        b.take(a.len() as int) == a,
    ensures
        bytes_lt(a, b),
        !bytes_lt(b, a),
    decreases a.len(),
{
    if a.len() > 0 {
        assert(b[0] == b.take(a.len() as int)[0]);
        assert(b.drop_first().take(a.drop_first().len() as int) =~= a.drop_first()) by {
            assert forall|k: int| 0 <= k < a.len() - 1 implies b.drop_first()[k] == a.drop_first()[k] by {
                assert(b.take(a.len() as int)[k + 1] == b[k + 1]);
            }
        }
        lemma_prefix_first(a.drop_first(), b.drop_first());
    }
}

/// In the byte order of names, the first byte where two names differ decides:
/// the name with the smaller byte there comes first.
pub proof fn lemma_first_difference(a: Seq<u8>, b: Seq<u8>, i: int)
    requires
        0 <= i < a.len(),
        i < b.len(),
        a.take(i) == b.take(i),
        a[i] < b[i],
    ensures
        bytes_lt(a, b),
        !bytes_lt(b, a),
    decreases i,
{
    if i > 0 {
        assert(a[0] == a.take(i)[0]);
        assert(b[0] == b.take(i)[0]);
        assert(a.drop_first().take(i - 1) =~= b.drop_first().take(i - 1)) by {
            assert forall|k: int| 0 <= k < i - 1 implies a.drop_first()[k] == b.drop_first()[k] by {
                assert(a.take(i)[k + 1] == a[k + 1]);
                assert(b.take(i)[k + 1] == b[k + 1]);
            }
        }
        lemma_first_difference(a.drop_first(), b.drop_first(), i - 1);
    }
}

/// In a pane's rows, among rows of one kind, a row whose lower-case name is a
/// proper prefix of another's comes first: a later row's name is never a
/// proper prefix of an earlier row's.
pub proof fn lemma_rows_prefix_first(r: Seq<EntryView>, cwd: Seq<char>, items: Seq<DirItem>)
    requires
        listing_rows(r, cwd, items),
    ensures
        forall|i: int, j: int|
            fixed_head(unsorted_rows(cwd, items)) <= i < j < r.len() && r[i].is_dir == r[j].is_dir
                && #[trigger] sort_key(r[j]).1.len() < #[trigger] sort_key(r[i]).1.len()
                ==> sort_key(r[i]).1.take(sort_key(r[j]).1.len() as int) != sort_key(r[j]).1,
{
    lemma_rows_order(r, cwd, items);
    assert forall|i: int, j: int|
        fixed_head(unsorted_rows(cwd, items)) <= i < j < r.len() && r[i].is_dir == r[j].is_dir
            && #[trigger] sort_key(r[j]).1.len() < #[trigger] sort_key(r[i]).1.len()
        implies sort_key(r[i]).1.take(sort_key(r[j]).1.len() as int) != sort_key(r[j]).1 by {
        if sort_key(r[i]).1.take(sort_key(r[j]).1.len() as int) == sort_key(r[j]).1 {
            lemma_prefix_first(sort_key(r[j]).1, sort_key(r[i]).1);
        }
    }
}

/// The picker's keymap, whatever modifiers are held: the Up arrow and 'k'
/// move up a row, the Down arrow and 'j' down; Left and 'h' focus the left
/// pane, Right and 'l' the right; Tab switches panes; 'g' and 'G' jump to the
/// top and bottom; Enter descends, Backspace goes up; Space marks; 'a', 'r'
/// and 'e' send (plain, review, explain); 'q' and Esc quit.
pub proof fn lemma_picker_keymap(key: KeyEvent)
    ensures
        key.code == KeyCode::Up ==> command_of(key) == Command::Up,
        key.code == KeyCode::Char('k') ==> command_of(key) == Command::Up,
        key.code == KeyCode::Down ==> command_of(key) == Command::Down,
        key.code == KeyCode::Char('j') ==> command_of(key) == Command::Down,
        key.code == KeyCode::Left ==> command_of(key) == Command::FocusLeft,
        key.code == KeyCode::Char('h') ==> command_of(key) == Command::FocusLeft,
        key.code == KeyCode::Right ==> command_of(key) == Command::FocusRight,
        key.code == KeyCode::Char('l') ==> command_of(key) == Command::FocusRight,
        key.code == KeyCode::Tab ==> command_of(key) == Command::SwitchPane,
        key.code == KeyCode::Char('g') ==> command_of(key) == Command::Top,
        key.code == KeyCode::Char('G') ==> command_of(key) == Command::Bottom,
        key.code == KeyCode::Enter ==> command_of(key) == Command::Enter,
        key.code == KeyCode::Backspace ==> command_of(key) == Command::Ascend,
        key.code == KeyCode::Char(' ') ==> command_of(key) == Command::ToggleMark,
        key.code == KeyCode::Char('a') ==> command_of(key) == Command::Send,
        key.code == KeyCode::Char('r') ==> command_of(key) == Command::SendReview,
        key.code == KeyCode::Char('e') ==> command_of(key) == Command::SendExplain,
        key.code == KeyCode::Char('q') ==> command_of(key) == Command::Quit,
        key.code == KeyCode::Esc ==> command_of(key) == Command::Quit,
{
}

/// Each cursor and editing key sends its standard sequence to the docked
/// terminal, whatever modifiers are held: Up ESC [ A, Down ESC [ B, Right
/// ESC [ C, Left ESC [ D, Home ESC [ H, End ESC [ F, Shift-Tab ESC [ Z,
/// PageUp ESC [ 5 ~, PageDown ESC [ 6 ~, Delete ESC [ 3 ~, Insert ESC [ 2 ~;
/// Enter CR, Backspace DEL, Tab HT, Esc ESC.
pub proof fn lemma_special_key_bytes(key: KeyEvent)
    ensures
        key.code == KeyCode::Up ==> key_bytes(key) == Some(seq![27u8, 91, 65]),
        key.code == KeyCode::Down ==> key_bytes(key) == Some(seq![27u8, 91, 66]),
        key.code == KeyCode::Right ==> key_bytes(key) == Some(seq![27u8, 91, 67]),
        key.code == KeyCode::Left ==> key_bytes(key) == Some(seq![27u8, 91, 68]),
        key.code == KeyCode::Home ==> key_bytes(key) == Some(seq![27u8, 91, 72]),
        key.code == KeyCode::End ==> key_bytes(key) == Some(seq![27u8, 91, 70]),
        key.code == KeyCode::BackTab ==> key_bytes(key) == Some(seq![27u8, 91, 90]),
        key.code == KeyCode::PageUp ==> key_bytes(key) == Some(seq![27u8, 91, 53, 126]),
        key.code == KeyCode::PageDown ==> key_bytes(key) == Some(seq![27u8, 91, 54, 126]),
        key.code == KeyCode::Delete ==> key_bytes(key) == Some(seq![27u8, 91, 51, 126]),
        key.code == KeyCode::Insert ==> key_bytes(key) == Some(seq![27u8, 91, 50, 126]),
        key.code == KeyCode::Enter ==> key_bytes(key) == Some(seq![13u8]),
        key.code == KeyCode::Backspace ==> key_bytes(key) == Some(seq![127u8]),
        key.code == KeyCode::Tab ==> key_bytes(key) == Some(seq![9u8]),
        key.code == KeyCode::Esc ==> key_bytes(key) == Some(seq![27u8]),
{
}

/// A key other than a character key, sending bytes to the terminal.
pub open spec fn special_key(code: KeyCode) -> bool {
    !(code is Char) && !(code is F)
}

/// No two different special keys send the same bytes.
pub proof fn lemma_special_keys_distinct(a: KeyEvent, b: KeyEvent)
    requires
        special_key(a.code),
        special_key(b.code),
        a.code != b.code,
        key_bytes(a) is Some,
        key_bytes(b) is Some,
    ensures
        key_bytes(a) != key_bytes(b),
{
    let x = key_bytes(a).unwrap();
    let y = key_bytes(b).unwrap();
    if x == y {
        assert(x.len() == y.len());
        if x.len() > 0 {
            assert(x[0] == y[0]);
        }
        if x.len() > 2 {
            assert(x[2] == y[2]);
        }
    }
}

/// Calling `commander_get_selection` clears the pending selection as its
/// `clear` argument says, and by default when the argument is absent; calling
/// `commander_open` opens the picker at the `path` argument, if any.
pub proof fn lemma_tool_calls(req: Request)
    requires
        req.method@ == "tools/call"@,
    ensures
        req.tool@ == "commander_get_selection"@ ==> (route(req) matches Ok(Reply::GetSelection { clear })
            && (req.clear matches Some(c) ==> clear == c) && (req.clear is None ==> clear)),
        req.tool@ == "commander_open"@ ==> route(req) == Ok::<Reply, Seq<char>>(
            Reply::Open { path: req.path },
        ),
{
    reveal_strlit("tools/call");
    reveal_strlit("initialize");
    reveal_strlit("ping");
    reveal_strlit("tools/list");
    reveal_strlit("commander_get_selection");
    reveal_strlit("commander_open");
    assert("tools/call"@ != "initialize"@ ) by { assert("tools/call"@[0] != "initialize"@[0]); }
    assert("tools/call"@ != "ping"@) by { assert("tools/call"@[0] != "ping"@[0]); }
    assert("tools/call"@ != "tools/list"@) by { assert("tools/call"@[6] != "tools/list"@[6]); }
    assert("commander_get_selection"@ != "commander_open"@) by {
        assert("commander_get_selection"@.len() != "commander_open"@.len());
    }
}

/// Routing, for every request: `initialize`, `ping` and `tools/list` get
/// their replies; any other method but `tools/call` is refused as an unknown
/// method, and a call of any tool but the two is refused as an unknown tool,
/// each with the name in the message.
pub proof fn lemma_routes(req: Request)
    ensures
        req.method@ == "initialize"@ ==> route(req) == Ok::<Reply, Seq<char>>(Reply::Initialize),
        req.method@ == "ping"@ ==> route(req) == Ok::<Reply, Seq<char>>(Reply::Pong),
        req.method@ == "tools/list"@ ==> route(req) == Ok::<Reply, Seq<char>>(Reply::ToolList),
        req.method@ != "initialize"@ && req.method@ != "ping"@ && req.method@ != "tools/list"@
            && req.method@ != "tools/call"@ ==> route(req) == Err::<Reply, Seq<char>>(
            "unknown method: "@ + req.method@,
        ),
        req.method@ == "tools/call"@ && req.tool@ != "commander_open"@ && req.tool@
            != "commander_get_selection"@ ==> route(req) == Err::<Reply, Seq<char>>(
            "unknown tool: "@ + req.tool@,
        ),
{
    reveal_strlit("tools/call");
    reveal_strlit("initialize");
    reveal_strlit("ping");
    reveal_strlit("tools/list");
    assert("initialize"@ != "ping"@) by { assert("initialize"@.len() != "ping"@.len()); }
    assert("initialize"@ != "tools/list"@) by { assert("initialize"@[0] != "tools/list"@[0]); }
    assert("ping"@ != "tools/list"@) by { assert("ping"@.len() != "tools/list"@.len()); }
    assert("tools/call"@ != "initialize"@) by { assert("tools/call"@[0] != "initialize"@[0]); }
    assert("tools/call"@ != "ping"@) by { assert("tools/call"@[0] != "ping"@[0]); }
    assert("tools/call"@ != "tools/list"@) by { assert("tools/call"@[6] != "tools/list"@[6]); }
}

/// A character key sends the UTF-8 bytes of its character unless Control is
/// held; Control with Space sends NUL.
pub proof fn lemma_char_key_bytes(key: KeyEvent, c: char)
    requires
        key.code == KeyCode::Char(c),
    ensures
        !key.modifiers.control ==> key_bytes(key) == Some(encode_utf8(seq![c])),
        key.modifiers.control && c == ' ' ==> key_bytes(key) == Some(seq![0u8]),
{
}

/// The cursor moves one row up for the Up arrow and 'k', one row down for
/// the Down arrow and 'j', and not at all for a key that is neither, in the
/// picker and in the cockpit's tree alike.
pub proof fn lemma_cursor_steps(key: KeyEvent)
    ensures
        key.code == KeyCode::Up || key.code == KeyCode::Char('k') ==> step_of(command_of(key)) == -1
            && tree_step(key.code) == -1,
        key.code == KeyCode::Down || key.code == KeyCode::Char('j') ==> step_of(command_of(key)) == 1
            && tree_step(key.code) == 1,
        !(key.code == KeyCode::Up || key.code == KeyCode::Char('k') || key.code == KeyCode::Down
            || key.code == KeyCode::Char('j')) ==> step_of(command_of(key)) == 0 && tree_step(
            key.code,
        ) == 0,
{
}

/// Decimal text: only digits, the first not 0 unless the number is 0, the
/// last the number's last digit, and the digits' value the number itself.
pub proof fn lemma_decimal(n: nat)
    ensures
        decimal(n).len() >= 1,
        all_digits(decimal(n)),
        decimal(n)[0] == '0' ==> n == 0,
        decimal(n).last() == digit_char(n % 10),
        (decimal(n).len() == 1) == (n < 10),
        digits_value(decimal(n)) == n,
    decreases n,
{
    if n >= 10 {
        lemma_decimal(n / 10);
        let d = decimal(n / 10);
        let e = decimal(n);
        assert(e == d.push(digit_char(n % 10)));
        assert(e[0] == d[0]);
        assert forall|i: int| 0 <= i < e.len() implies crate::text::is_digit(#[trigger] e[i]) by {
            if i < d.len() {
                assert(e[i] == d[i]);
            }
        }
        assert(e.drop_last() =~= d);
        assert(((digit_char(n % 10) as u32) - 48) as nat == n % 10);
        assert(n == (n / 10) * 10 + n % 10);
        assert(digits_value(e) == digits_value(e.drop_last()) * 10 + ((e.last() as u32) - 48) as nat);
        assert(digits_value(e) == (n / 10) * 10 + n % 10);
    } else {
        let e = decimal(n);
        assert(((digit_char(n) as u32) - 48) as nat == n);
        assert(e.drop_last() =~= Seq::<char>::empty());
        assert(digits_value(Seq::<char>::empty()) == 0);
        assert(digits_value(e) == digits_value(e.drop_last()) * 10 + ((e.last() as u32) - 48) as nat);
    }
}

/// Reading a number back from its decimal text gives the number.
pub proof fn lemma_decimal_parses(n: u64)
    ensures
        parsed_u64(decimal(n as nat)) == Some(n),
{
    lemma_decimal(n as nat);
    let d = decimal(n as nat);
    assert(d[0] != '+');
}

/// Trimming drops exactly the white space around the text: what is left is a
/// piece of the text, everything before and after it is white space, and it
/// neither starts nor ends with white space.
pub proof fn lemma_trimmed(s: Seq<char>)
    ensures
        exists|i: int, j: int|
            0 <= i <= j <= s.len() && trimmed(s) == s.subrange(i, j) && (forall|q: int|
                0 <= q < i ==> in_class(#[trigger] s[q], CharClass::White)) && (forall|q: int|
                j <= q < s.len() ==> in_class(#[trigger] s[q], CharClass::White)),
        trimmed(s).len() > 0 ==> !in_class(trimmed(s)[0], CharClass::White) && !in_class(
            trimmed(s).last(),
            CharClass::White,
        ),
{
    let (i, f) = lemma_front_part(s);
    let (j, b) = lemma_back_part(f);
    assert(trimmed(s) == b);
    assert(b =~= s.subrange(i, i + j));
    assert forall|q: int| i + j <= q < s.len() implies in_class(#[trigger] s[q], CharClass::White) by {
        assert(s[q] == f[q - i]);
    }
    if b.len() > 0 {
        assert(b[0] == f[0]);
    }
}

proof fn lemma_front_part(s: Seq<char>) -> (r: (int, Seq<char>))
    ensures
        0 <= r.0 <= s.len(),
        r.1 == strip_front(s, CharClass::White),
        r.1 == s.skip(r.0),
        forall|q: int| 0 <= q < r.0 ==> in_class(#[trigger] s[q], CharClass::White),
        r.1.len() > 0 ==> !in_class(r.1[0], CharClass::White),
    decreases s.len(),
{
    if s.len() > 0 && in_class(s[0], CharClass::White) {
        let (i, f) = lemma_front_part(s.drop_first());
        assert(s.drop_first().skip(i) =~= s.skip(i + 1));
        assert forall|q: int| 0 <= q < i + 1 implies in_class(#[trigger] s[q], CharClass::White) by {
            if q > 0 {
                assert(s[q] == s.drop_first()[q - 1]);
            }
        }
        (i + 1, f)
    } else {
        assert(s.skip(0) =~= s);
        (0, s)
    }
}

proof fn lemma_back_part(s: Seq<char>) -> (r: (int, Seq<char>))
    ensures
        0 <= r.0 <= s.len(),
        r.1 == strip_back(s, CharClass::White),
        r.1 == s.take(r.0),
        forall|q: int| r.0 <= q < s.len() ==> in_class(#[trigger] s[q], CharClass::White),
        r.1.len() > 0 ==> !in_class(r.1.last(), CharClass::White),
    decreases s.len(),
{
    if s.len() > 0 && in_class(s.last(), CharClass::White) {
        let (j, b) = lemma_back_part(s.drop_last());
        assert(s.drop_last().take(j) =~= s.take(j));
        assert forall|q: int| j <= q < s.len() implies in_class(#[trigger] s[q], CharClass::White) by {
            if q < s.len() - 1 {
                assert(s[q] == s.drop_last()[q]);
            }
        }
        (j, b)
    } else {
        assert(s.take(s.len() as int) =~= s);
        (s.len() as int, s)
    }
}

/// Cutting a text to `max` characters leaves at most `max` of them, leaves a
/// text that fits as it is, and keeps the start of a longer one before the
/// ellipsis.
pub proof fn lemma_truncated(s: Seq<char>, max: nat)
    ensures
        truncated(s, max).len() <= max,
        s.len() <= max && max > 0 ==> truncated(s, max) == s,
        s.len() > max && max > 0 ==> truncated(s, max).len() == max && truncated(s, max).take(
            max - 1,
        ) == s.take(max - 1) && truncated(s, max).last() == '…',
{
    if s.len() > max && max > 0 {
        assert(truncated(s, max).take(max - 1) =~= s.take(max - 1));
    }
}

/// Padding to a width gives at least that width, keeps the text (at the
/// start when padding on the right, at the end when padding on the left),
/// and adds only spaces.
pub proof fn lemma_padded(s: Seq<char>, width: nat)
    ensures
        pad_right(s, width).len() == (if s.len() >= width { s.len() } else { width }),
        pad_left(s, width).len() == (if s.len() >= width { s.len() } else { width }),
        pad_right(s, width).take(s.len() as int) == s,
        pad_left(s, width).skip(pad_left(s, width).len() - s.len()) == s,
        forall|i: int| s.len() <= i < pad_right(s, width).len() ==> #[trigger] pad_right(s, width)[i] == ' ',
        forall|i: int| 0 <= i < pad_left(s, width).len() - s.len() ==> #[trigger] pad_left(s, width)[i] == ' ',
{
    assert(pad_right(s, width).take(s.len() as int) =~= s);
    assert(pad_left(s, width).skip(pad_left(s, width).len() - s.len()) =~= s);
}

/// The listing order of two rows: a directory comes before a file; rows of
/// one kind whose names are the same apart from case rank alike, neither
/// before the other; and of one kind, a name whose lower-case form is a
/// proper prefix of the other's comes first.
pub proof fn lemma_listing_order(a: EntryView, b: EntryView)
    ensures
        a.is_dir && !b.is_dir ==> listed_before(a, b) && !listed_before(b, a),
        a.is_dir == b.is_dir && lowercased(a.name) == lowercased(b.name) ==> !listed_before(a, b)
            && !listed_before(b, a),
        a.is_dir == b.is_dir && sort_key(a).1.len() < sort_key(b).1.len() && sort_key(b).1.take(
            sort_key(a).1.len() as int,
        ) == sort_key(a).1 ==> listed_before(a, b) && !listed_before(b, a),
{
    crate::text::lemma_bytes_lt_irreflexive(sort_key(a).1);
    if a.is_dir == b.is_dir && sort_key(a).1.len() < sort_key(b).1.len() && sort_key(b).1.take(
        sort_key(a).1.len() as int,
    ) == sort_key(a).1 {
        lemma_prefix_first(sort_key(a).1, sort_key(b).1);
    }
}

/// Moving the cursor stays on the rows: a move that lands on a row goes
/// exactly `delta` rows, one past the top stops at the first row, and one
/// past the bottom at the last.
pub proof fn lemma_cursor_moves(p: Pane, delta: int)
    requires
        p.cursor < p.entries@.len() <= isize::MAX,
    ensures
        0 <= p.cursor + delta < p.entries@.len() ==> p.moved_cursor(delta) == p.cursor + delta,
        p.cursor + delta < 0 ==> p.moved_cursor(delta) == 0,
        p.cursor + delta >= p.entries@.len() ==> p.moved_cursor(delta) == p.entries@.len() - 1,
{
}

} // verus!
