//! Path operations of `std::path`, used on paths held as text.
//!
//! Paths stand as `String`s here: the caller hands over each path as text (a
//! path that is not valid UTF-8 by its lossy text), and the operations below
//! hand the text to `std::path::Path` and give back text. What `std::path` computes is named, not rewritten: each name
//! below is a function of its arguments alone.
use vstd::prelude::*;
use std::path::Path;

verus! {

/// What `Path::parent` gives for a path: `None` for a root or an empty path.
pub uninterp spec fn parent_of(p: Seq<char>) -> Option<Seq<char>>;

/// What `Path::join` gives for `base` joined with `part`.
pub uninterp spec fn joined(base: Seq<char>, part: Seq<char>) -> Seq<char>;

/// What `Path::components` gives for a path, each component written as a
/// text whose order (`text_rank`) is the order of `Component`: its kind first
/// (prefix, root, `.`, `..`, then a name), then a name's own text. A
/// component's text stands for that component alone.
pub uninterp spec fn path_parts(p: Seq<char>) -> Seq<Seq<char>>;

/// Lexicographic order of texts by code point: -1 for less, 0 for equal, 1
/// for greater; a proper prefix comes first.
pub open spec fn text_rank(x: Seq<char>, y: Seq<char>) -> int
    decreases x.len(),
{
    if x.len() == 0 {
        if y.len() == 0 {
            0
        } else {
            -1
        }
    } else if y.len() == 0 {
        1
    } else if x[0] < y[0] {
        -1
    } else if x[0] > y[0] {
        1
    } else {
        text_rank(x.skip(1), y.skip(1))
    }
}

/// Lexicographic order of sequences of texts, each compared by `text_rank`.
pub open spec fn parts_rank(x: Seq<Seq<char>>, y: Seq<Seq<char>>) -> int
    decreases x.len(),
{
    if x.len() == 0 {
        if y.len() == 0 {
            0
        } else {
            -1
        }
    } else if y.len() == 0 {
        1
    } else if text_rank(x[0], y[0]) != 0 {
        text_rank(x[0], y[0])
    } else {
        parts_rank(x.skip(1), y.skip(1))
    }
}

/// The sign of `Path::cmp`, which compares two paths component by component.
pub open spec fn path_rank(a: Seq<char>, b: Seq<char>) -> int {
    parts_rank(path_parts(a), path_parts(b))
}

/// What `Path::eq` gives: whether the two paths have the same components.
pub open spec fn same_path(a: Seq<char>, b: Seq<char>) -> bool {
    path_parts(a) == path_parts(b)
}

/// What `Path::starts_with` gives for `p` and `root`: whether the components
/// of `root` are the first components of `p` (whole components only).
pub open spec fn path_has_prefix(p: Seq<char>, root: Seq<char>) -> bool {
    path_parts(root).len() <= path_parts(p).len() && path_parts(p).take(
        path_parts(root).len() as int,
    ) == path_parts(root)
}

proof fn lemma_text_rank(x: Seq<char>, y: Seq<char>)
    ensures
        text_rank(x, y) == -text_rank(y, x),
        -1 <= text_rank(x, y) <= 1,
        (text_rank(x, y) == 0) == (x == y),
    decreases x.len(),
{
    if x.len() > 0 && y.len() > 0 && x[0] == y[0] {
        lemma_text_rank(x.skip(1), y.skip(1));
        if x.skip(1) == y.skip(1) {
            assert(x =~= y) by {
                assert forall|i: int| 0 <= i < x.len() implies x[i] == y[i] by {
                    if i > 0 {
                        assert(x[i] == x.skip(1)[i - 1]);
                        assert(y[i] == y.skip(1)[i - 1]);
                    }
                }
            }
        }
        if x == y {
            assert(x.skip(1) =~= y.skip(1));
        }
    } else if x.len() > 0 && y.len() > 0 {
        assert(x != y);
    } else if x.len() == 0 && y.len() > 0 {
        assert(x != y);
    } else if x.len() > 0 {
        assert(x != y);
    } else {
        assert(x =~= y);
    }
}

proof fn lemma_text_trans(x: Seq<char>, y: Seq<char>, z: Seq<char>)
    requires
        text_rank(x, y) < 0,
        text_rank(y, z) < 0,
    ensures
        text_rank(x, z) < 0,
    decreases x.len(),
{
    if x.len() > 0 && y.len() > 0 && z.len() > 0 && x[0] == y[0] && y[0] == z[0] {
        lemma_text_trans(x.skip(1), y.skip(1), z.skip(1));
    }
}

proof fn lemma_parts_rank(x: Seq<Seq<char>>, y: Seq<Seq<char>>)
    ensures
        parts_rank(x, y) == -parts_rank(y, x),
        -1 <= parts_rank(x, y) <= 1,
        (parts_rank(x, y) == 0) == (x == y),
    decreases x.len(),
{
    if x.len() > 0 && y.len() > 0 {
        lemma_text_rank(x[0], y[0]);
        if text_rank(x[0], y[0]) == 0 {
            lemma_parts_rank(x.skip(1), y.skip(1));
            if x.skip(1) == y.skip(1) {
                assert(x =~= y) by {
                    assert forall|i: int| 0 <= i < x.len() implies x[i] == y[i] by {
                        if i > 0 {
                            assert(x[i] == x.skip(1)[i - 1]);
                            assert(y[i] == y.skip(1)[i - 1]);
                        }
                    }
                }
            }
            if x == y {
                assert(x.skip(1) =~= y.skip(1));
            }
        } else {
            assert(x != y);
        }
    } else if x.len() == 0 && y.len() == 0 {
        assert(x =~= y);
    } else {
        assert(x != y);
    }
}

proof fn lemma_parts_trans(x: Seq<Seq<char>>, y: Seq<Seq<char>>, z: Seq<Seq<char>>)
    requires
        parts_rank(x, y) < 0,
        parts_rank(y, z) < 0,
    ensures
        parts_rank(x, z) < 0,
    decreases x.len(),
{
    if x.len() > 0 && y.len() > 0 && z.len() > 0 {
        lemma_text_rank(x[0], y[0]);
        lemma_text_rank(y[0], z[0]);
        lemma_text_rank(x[0], z[0]);
        if text_rank(x[0], y[0]) == 0 && text_rank(y[0], z[0]) == 0 {
            lemma_parts_trans(x.skip(1), y.skip(1), z.skip(1));
        } else if text_rank(x[0], y[0]) < 0 && text_rank(y[0], z[0]) < 0 {
            lemma_text_trans(x[0], y[0], z[0]);
        }
    }
}

/// The path order is a total order up to equal components: each path
/// compares equal exactly to the paths with the same components, swapping two
/// paths reverses their order, and "less than" chains.
pub proof fn lemma_path_order(a: Seq<char>, b: Seq<char>, c: Seq<char>)
    ensures
        -1 <= path_rank(a, b) <= 1,
        path_rank(a, b) == -path_rank(b, a),
        (path_rank(a, b) == 0) == same_path(a, b),
        path_rank(a, a) == 0,
        path_rank(a, b) < 0 && path_rank(b, c) < 0 ==> path_rank(a, c) < 0,
{
    lemma_parts_rank(path_parts(a), path_parts(b));
    lemma_parts_rank(path_parts(a), path_parts(a));
    if path_rank(a, b) < 0 && path_rank(b, c) < 0 {
        lemma_parts_trans(path_parts(a), path_parts(b), path_parts(c));
    }
}

/// Calls `Path::parent`. Besides naming the result, states what the source of
/// `Path::parent` shows: the parent is a proper prefix of the path, so it is
/// strictly shorter.
#[verifier::external_body]
pub fn path_parent(p: &str) -> (r: Option<String>)
    ensures
        match r {
            Some(q) => parent_of(p@) == Some(q@),
            None => parent_of(p@) is None,
        },
        r matches Some(q) ==> q@.len() < p@.len(),
{
    match Path::new(p).parent() {
        Some(q) => Some(q.to_string_lossy().into_owned()),
        None => None,
    }
}

/// Calls `Path::join`; the result is named `joined`.
#[verifier::external_body]
pub fn path_join(base: &str, part: &str) -> (r: String)
    ensures
        r@ == joined(base@, part@),
{
    Path::new(base).join(part).to_string_lossy().into_owned()
}

/// Calls `Path::cmp` and gives its sign: the components compared in order, as
/// `Ord for Path` does.
#[verifier::external_body]
pub fn path_compare(a: &str, b: &str) -> (r: i8)
    ensures
        r == parts_rank(path_parts(a@), path_parts(b@)),
{
    match Path::new(a).cmp(Path::new(b)) {
        std::cmp::Ordering::Less => -1,
        std::cmp::Ordering::Equal => 0,
        std::cmp::Ordering::Greater => 1,
    }
}

/// Calls `Path::eq`: whether the components are the same, as `PartialEq for
/// Path` compares them.
#[verifier::external_body]
pub fn path_eq(a: &str, b: &str) -> (r: bool)
    ensures
        r == (path_parts(a@) == path_parts(b@)),
{
    Path::new(a) == Path::new(b)
}

/// Calls `Path::starts_with`, which matches whole components only.
#[verifier::external_body]
pub fn path_starts_with(p: &str, root: &str) -> (r: bool)
    ensures
        r == (path_parts(root@).len() <= path_parts(p@).len() && path_parts(p@).take(
            path_parts(root@).len() as int,
        ) == path_parts(root@)),
{
    Path::new(p).starts_with(Path::new(root))
}

} // verus!
