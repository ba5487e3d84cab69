//! A read-only git status for the tree: which files are modified, staged or
//! untracked, and which directories hold changes.
//!
//! Running `git` is the caller's part; the output of `git status --porcelain`
//! is read here.
use vstd::prelude::*;
use vstd::utf8::{encode_utf8, decode_utf8, valid_utf8};
use vstd::slice::slice_subrange;
use crate::paths::{joined, parent_of, same_path, path_join, path_parent, path_eq};
use crate::text::{texts, trimmed, trim, strip, strip_front, strip_back, CharClass};

verus! {

/// The state of a changed file.
#[derive(Clone, Copy, PartialEq, Eq, Debug, Structural)]
pub enum Status {
    Modified,
    Staged,
    Untracked,
}

/// What `String::from_utf8_lossy` gives for some bytes.
pub uninterp spec fn decoded(b: Seq<u8>) -> Seq<char>;

/// Calls `String::from_utf8_lossy`. Its documentation says valid UTF-8 comes
/// back unchanged, which is stated too.
#[verifier::external_body]
fn decode_lossy(b: &[u8]) -> (r: String)
    ensures
        r@ == decoded(b@),
        valid_utf8(b@) ==> r@ == decode_utf8(b@),
{
    String::from_utf8_lossy(b).into_owned()
}

/// Splitting text into lines as `str::lines` does, over its bytes: the lines
/// finished so far, and the bytes of the line being read.
pub open spec fn split_fold(b: Seq<u8>) -> (Seq<Seq<u8>>, Seq<u8>)
    decreases b.len(),
{
    if b.len() == 0 {
        (Seq::empty(), Seq::empty())
    } else {
        let (done, cur) = split_fold(b.drop_last());
        if b.last() == 10 {
            (done.push(strip_cr(cur)), Seq::empty())
        } else {
            (done, cur.push(b.last()))
        }
    }
}

/// A line without its trailing carriage return, if it has one.
pub open spec fn strip_cr(l: Seq<u8>) -> Seq<u8> {
    if l.len() > 0 && l.last() == 13 {
        l.drop_last()
    } else {
        l
    }
}

/// The lines of text with these bytes, as `str::lines` gives them: split at
/// `\n` (a `\r` before it is dropped too); a last line without `\n` counts,
/// an empty one after the last `\n` does not.
pub open spec fn lines_of(b: Seq<u8>) -> Seq<Seq<u8>> {
    let (done, cur) = split_fold(b);
    if cur.len() > 0 {
        done.push(cur)
    } else {
        done
    }
}

/// A status line that can be read without splitting a character: shorter than
/// four bytes, or with a character starting at byte 3.
pub open spec fn line_ok(l: Seq<u8>) -> bool {
    l.len() >= 4 ==> !(0x80 <= l[3] && l[3] <= 0xBF)
}

/// Every line of the output can be read.
pub open spec fn output_ok(text: Seq<char>) -> bool {
    forall|i: int| 0 <= i < lines_of(encode_utf8(text)).len() ==> line_ok(
        #[trigger] lines_of(encode_utf8(text))[i],
    )
}

/// Where " -> " first occurs in `s` at or after `i`.
pub open spec fn arrow_from(s: Seq<u8>, i: int) -> Option<int>
    decreases s.len() - i,
{
    if i < 0 || i + 4 > s.len() {
        None
    } else if s[i] == 32 && s[i + 1] == 45 && s[i + 2] == 62 && s[i + 3] == 32 {
        Some(i)
    } else {
        arrow_from(s, i + 1)
    }
}

/// The bytes of a status line that name the path: from byte 3 on, and after
/// the first " -> " if there is one (a rename, keyed on the new name).
pub open spec fn path_bytes(l: Seq<u8>) -> Seq<u8> {
    let part = l.skip(3);
    match arrow_from(part, 0) {
        Some(k) => part.skip(k + 4),
        None => part,
    }
}

/// `s` without leading and trailing `"`, as `str::trim_matches('"')` gives it.
pub open spec fn strip_quotes(s: Seq<char>) -> Seq<char> {
    strip_back(strip_front(s, CharClass::Quote), CharClass::Quote)
}

/// The absolute path a status line names.
pub open spec fn line_path(l: Seq<u8>, root: Seq<char>) -> Seq<char> {
    joined(root, strip_quotes(trimmed(decoded(path_bytes(l)))))
}

/// The state of the file a status line names, from its two status bytes:
/// `??` is untracked, a change in the index (first byte not ' ' or '?') is
/// staged, anything else is modified.
pub open spec fn line_kind(x: u8, y: u8) -> Status {
    if x == 63 && y == 63 {
        Status::Untracked
    } else if x != 32 && x != 63 {
        Status::Staged
    } else {
        Status::Modified
    }
}

/// Whether `p` is (component-wise) one of the paths of `d`.
pub open spec fn dir_listed(d: Seq<Seq<char>>, p: Seq<char>) -> bool {
    exists|i: int| 0 <= i < d.len() && same_path(p, #[trigger] d[i])
}

/// `d` with `p` added, unless an equal path is in it already.
pub open spec fn dir_add(d: Seq<Seq<char>>, p: Seq<char>) -> Seq<Seq<char>> {
    if dir_listed(d, p) {
        d
    } else {
        d.push(p)
    }
}

/// `d` with `p` and its ancestors added, stopping after the path equal to `root`.
pub open spec fn mark_up(d: Seq<Seq<char>>, p: Seq<char>, root: Seq<char>) -> Seq<Seq<char>>
    decreases p.len(),
{
    let d2 = dir_add(d, p);
    if same_path(p, root) {
        d2
    } else {
        match parent_of(p) {
            Some(q) => if q.len() < p.len() {
                mark_up(d2, q, root)
            } else {
                d2
            },
            None => d2,
        }
    }
}

/// The directories flagged for a changed file at `abs`: its ancestors up to
/// the repository root.
pub open spec fn flag_dirs(d: Seq<Seq<char>>, abs: Seq<char>, root: Seq<char>) -> Seq<Seq<char>> {
    match parent_of(abs) {
        Some(p) => if p.len() < abs.len() {
            mark_up(d, p, root)
        } else {
            d
        },
        None => d,
    }
}

/// The first index of `f` whose path equals `k`, from `i` on.
pub open spec fn key_from(f: Seq<(Seq<char>, Status)>, k: Seq<char>, i: int) -> Option<int>
    decreases f.len() - i,
{
    if i < 0 || i >= f.len() {
        None
    } else if same_path(k, f[i].0) {
        Some(i)
    } else {
        key_from(f, k, i + 1)
    }
}

/// `f` with `k` set to `v`: the entry of an equal path keeps its path and
/// takes the new state; a new path is added at the end.
pub open spec fn file_put(f: Seq<(Seq<char>, Status)>, k: Seq<char>, v: Status) -> Seq<(Seq<char>, Status)> {
    match key_from(f, k, 0) {
        Some(i) => f.update(i, (f[i].0, v)),
        None => f.push((k, v)),
    }
}

/// The status after reading one more line.
pub open spec fn read_line(
    st: (Seq<(Seq<char>, Status)>, Seq<Seq<char>>),
    l: Seq<u8>,
    root: Seq<char>,
) -> (Seq<(Seq<char>, Status)>, Seq<Seq<char>>) {
    if l.len() < 4 {
        st
    } else {
        let abs = line_path(l, root);
        (file_put(st.0, abs, line_kind(l[0], l[1])), flag_dirs(st.1, abs, root))
    }
}

/// The status after reading the lines `ls` in order.
pub open spec fn read_lines(ls: Seq<Seq<u8>>, root: Seq<char>) -> (
    Seq<(Seq<char>, Status)>,
    Seq<Seq<char>>,
)
    decreases ls.len(),
{
    if ls.len() == 0 {
        (Seq::empty(), Seq::empty())
    } else {
        read_line(read_lines(ls.drop_last(), root), ls.last(), root)
    }
}

/// The status that the porcelain output `text` of the repository at `root` gives.
pub open spec fn status_of(root: Seq<char>, text: Seq<char>) -> (
    Seq<(Seq<char>, Status)>,
    Seq<Seq<char>>,
) {
    read_lines(lines_of(encode_utf8(text)), root)
}

/// The changed files of a repository and the directories that hold them.
pub struct GitStatus {
    files: Vec<(String, Status)>,
    dirty_dirs: Vec<String>,
}

impl Default for GitStatus {
    /// No changes known.
    fn default() -> (r: GitStatus)
        ensures
            r.file_states().len() == 0,
            r.dirty().len() == 0,
    {
        GitStatus::empty()
    }
}

impl GitStatus {
    /// The changed files and their states, in the order first seen.
    pub closed spec fn file_states(&self) -> Seq<(Seq<char>, Status)> {
        self.files@.map_values(|e: (String, Status)| (e.0@, e.1))
    }

    /// The directories that hold changes, in the order first seen.
    pub closed spec fn dirty(&self) -> Seq<Seq<char>> {
        texts(self.dirty_dirs@)
    }

    /// No changes known (not a repository, or git could not be run).
    pub fn empty() -> (r: GitStatus)
        ensures
            r.file_states() == Seq::<(Seq<char>, Status)>::empty(),
            r.dirty() == Seq::<Seq<char>>::empty(),
    {
        let r = GitStatus { files: Vec::new(), dirty_dirs: Vec::new() };
        assert(r.file_states() =~= Seq::<(Seq<char>, Status)>::empty());
        assert(r.dirty() =~= Seq::<Seq<char>>::empty());
        r
    }
}


/// Where " -> " first occurs in `s`.
fn find_arrow(s: &[u8]) -> (r: Option<usize>)
    ensures
        r matches Some(k) ==> k + 4 <= s@.len(),
        match r {
            Some(k) => arrow_from(s@, 0) == Some(k as int),
            None => arrow_from(s@, 0) is None,
        },
{
    let mut i: usize = 0;
    while i < s.len() && s.len() - i >= 4
        invariant
            i <= s@.len(),
            arrow_from(s@, i as int) == arrow_from(s@, 0),
        decreases s@.len() - i,
    {
        if s[i] == 32 && s[i + 1] == 45 && s[i + 2] == 62 && s[i + 3] == 32 {
            return Some(i);
        }
        i = i + 1;
    }
    None
}

impl GitStatus {
    /// Adds directory `p` unless an equal path is listed already.
    fn add_dir(&mut self, p: String)
        ensures
            final(self).dirty() == dir_add(old(self).dirty(), p@),
            final(self).file_states() == old(self).file_states(),
    {
        let ghost d = self.dirty();
        let mut i: usize = 0;
        while i < self.dirty_dirs.len()
            invariant
                i <= self.dirty_dirs@.len(),
                d == self.dirty(),
                forall|k: int| 0 <= k < i ==> !same_path(p@, #[trigger] d[k]),
            decreases self.dirty_dirs@.len() - i,
        {
            if path_eq(p.as_str(), self.dirty_dirs[i].as_str()) {
                assert(same_path(p@, d[i as int]));
                return;
            }
            i = i + 1;
        }
        self.dirty_dirs.push(p);
        assert(self.dirty() =~= d.push(p@));
    }

    /// Flags the ancestors of the changed file `abs`, up to the root.
    fn flag_ancestors(&mut self, abs: &str, root: &str)
        ensures
            final(self).dirty() == flag_dirs(old(self).dirty(), abs@, root@),
            final(self).file_states() == old(self).file_states(),
    {
        let mut cur = path_parent(abs);
        let ghost goal = flag_dirs(old(self).dirty(), abs@, root@);
        loop
            invariant
                self.file_states() == old(self).file_states(),
                goal == flag_dirs(old(self).dirty(), abs@, root@),
                match cur {
                    Some(p) => goal == mark_up(self.dirty(), p@, root@),
                    None => goal == self.dirty(),
                },
            decreases (match cur {
                Some(p) => p@.len() + 1,
                None => 0,
            }),
        {
            match cur {
                None => {
                    return;
                },
                Some(p) => {
                    let at_root = path_eq(p.as_str(), root);
                    let next = if at_root {
                        None
                    } else {
                        path_parent(p.as_str())
                    };
                    self.add_dir(p);
                    cur = next;
                },
            }
        }
    }

    /// Sets the state of file `k` to `v`.
    fn put_file(&mut self, k: String, v: Status)
        ensures
            final(self).file_states() == file_put(old(self).file_states(), k@, v),
            final(self).dirty() == old(self).dirty(),
    {
        let ghost f = self.file_states();
        let mut i: usize = 0;
        while i < self.files.len()
            invariant
                i <= self.files@.len(),
                self.files == old(self).files,
                self.dirty_dirs == old(self).dirty_dirs,
                f == self.file_states(),
                key_from(f, k@, i as int) == key_from(f, k@, 0),
            decreases self.files@.len() - i,
        {
            if path_eq(k.as_str(), self.files[i].0.as_str()) {
                let old_key = self.files[i].0.clone();
                self.files.set(i, (old_key, v));
                assert(self.file_states() =~= f.update(i as int, (f[i as int].0, v)));
                return;
            }
            i = i + 1;
        }
        self.files.push((k, v));
        assert(self.file_states() =~= f.push((k@, v)));
    }

    /// Reads one status line of the repository at `root`.
    fn read_line(&mut self, l: &[u8], root: &str)
        requires
            line_ok(l@),
        ensures
            (final(self).file_states(), final(self).dirty()) == read_line(
                (old(self).file_states(), old(self).dirty()),
                l@,
                root@,
            ),
    {
        if l.len() < 4 {
            return;
        }
        let part = slice_subrange(l, 3, l.len());
        let name = match find_arrow(part) {
            Some(k) => slice_subrange(part, k + 4, part.len()),
            None => part,
        };
        proof {
            assert(part@ == l@.skip(3));
            match arrow_from(part@, 0) {
                Some(k) => {
                    assert(name@ =~= part@.skip(k + 4));
                },
                None => {},
            }
            assert(name@ == path_bytes(l@));
        }
        let text = decode_lossy(name);
        let trimmed_text = trim(text.as_str());
        let rel = strip(trimmed_text.as_str(), CharClass::Quote, true, true);
        let abs = path_join(root, rel.as_str());
        let kind = if l[0] == 63 && l[1] == 63 {
            Status::Untracked
        } else if l[0] != 32 && l[0] != 63 {
            Status::Staged
        } else {
            Status::Modified
        };
        self.flag_ancestors(abs.as_str(), root);
        self.put_file(abs, kind);
    }
}


/// The lines finished within the first `j` bytes are the first lines of those
/// finished within the first `k` bytes, for `j <= k`.
proof fn lemma_split_fold_prefix(b: Seq<u8>, j: int, k: int)
    requires
        0 <= j <= k <= b.len(),
    ensures
        split_fold(b.take(j)).0.len() <= split_fold(b.take(k)).0.len(),
        split_fold(b.take(j)).0 == split_fold(b.take(k)).0.take(split_fold(b.take(j)).0.len() as int),
    decreases k - j,
{
    if j < k {
        lemma_split_fold_prefix(b, j, k - 1);
        assert(b.take(k).drop_last() =~= b.take(k - 1));
        let a = split_fold(b.take(k - 1)).0;
        let c = split_fold(b.take(k)).0;
        let n = split_fold(b.take(j)).0.len() as int;
        if c != a {
            assert(c.take(n) =~= a.take(n));
        }
    } else {
        assert(split_fold(b.take(j)).0.take(split_fold(b.take(j)).0.len() as int) =~= split_fold(
            b.take(j),
        ).0);
    }
}

/// Every line of `ls` can be read.
spec fn all_lines_ok(ls: Seq<Seq<u8>>) -> bool {
    forall|k: int| 0 <= k < ls.len() ==> line_ok(#[trigger] ls[k])
}

/// Whether a line can be read without splitting a character.
fn line_readable(l: &[u8]) -> (r: bool)
    ensures
        r == line_ok(l@),
{
    l.len() < 4 || !(0x80 <= l[3] && l[3] <= 0xBF)
}

/// Whether every line of the output `text` can be read.
fn output_readable(text: &str) -> (r: bool)
    ensures
        r == output_ok(text@),
{
    let b = text.as_bytes();
    let ghost bs = b@;
    assert(bs == encode_utf8(text@));
    let mut cur: Vec<u8> = Vec::new();
    let mut ok = true;
    let mut i: usize = 0;
    proof {
        assert(bs.take(0) =~= Seq::<u8>::empty());
        assert(cur@ =~= split_fold(bs.take(0)).1);
    }
    while i < b.len()
        invariant
            i <= bs.len(),
            bs == b@,
            split_fold(bs.take(i as int)).1 == cur@,
            ok == all_lines_ok(split_fold(bs.take(i as int)).0),
        decreases bs.len() - i,
    {
        let c = b[i];
        proof {
            assert(bs.take(i + 1).drop_last() =~= bs.take(i as int));
        }
        if c == 10 {
            let n = cur.len();
            let line: &[u8] = if n > 0 && cur[n - 1] == 13 {
                slice_subrange(cur.as_slice(), 0, n - 1)
            } else {
                cur.as_slice()
            };
            proof {
                assert(line@ =~= strip_cr(cur@));
            }
            let good = line_readable(line);
            proof {
                let before = split_fold(bs.take(i as int)).0;
                let done = split_fold(bs.take(i + 1)).0;
                assert(done == before.push(line@));
                assert(all_lines_ok(done) == (all_lines_ok(before) && good)) by {
                    if all_lines_ok(before) && good {
                        assert forall|k: int| 0 <= k < done.len() implies line_ok(#[trigger] done[k]) by {
                            if k < before.len() {
                                assert(done[k] == before[k]);
                            }
                        }
                    }
                    if all_lines_ok(done) {
                        assert(line_ok(done[before.len() as int]));
                        assert forall|k: int| 0 <= k < before.len() implies line_ok(#[trigger] before[k]) by {
                            assert(done[k] == before[k]);
                        }
                    }
                }
            }
            ok = ok && good;
            cur = Vec::new();
            proof {
                assert(cur@ =~= split_fold(bs.take(i + 1)).1);
            }
        } else {
            cur.push(c);
            proof {
                assert(split_fold(bs.take(i + 1)).0 == split_fold(bs.take(i as int)).0);
                assert(cur@ =~= split_fold(bs.take(i + 1)).1);
            }
        }
        i = i + 1;
    }
    proof {
        assert(bs.take(i as int) =~= bs);
    }
    let done_ok = ok;
    let last_ok = if cur.len() > 0 {
        line_readable(cur.as_slice())
    } else {
        true
    };
    proof {
        let before = split_fold(bs).0;
        let ls = lines_of(bs);
        if cur.len() > 0 {
            assert(ls == before.push(cur@));
        } else {
            assert(ls == before);
        }
        assert(output_ok(text@) == (done_ok && last_ok)) by {
            if done_ok && last_ok {
                assert forall|k: int| 0 <= k < ls.len() implies line_ok(#[trigger] ls[k]) by {
                    if k < before.len() {
                        assert(ls[k] == before[k]);
                    }
                }
            }
            if output_ok(text@) {
                assert(all_lines_ok(ls));
                assert forall|k: int| 0 <= k < before.len() implies line_ok(#[trigger] before[k]) by {
                    assert(ls[k] == before[k]);
                }
                if cur.len() > 0 {
                    assert(line_ok(ls[before.len() as int]));
                }
            }
        }
    }
    done_ok && last_ok
}

impl GitStatus {
    /// Reads the porcelain output `text` of the repository at `root`.
    fn parse(root: &str, text: &str) -> (r: GitStatus)
        requires
            output_ok(text@),
        ensures
            (r.file_states(), r.dirty()) == status_of(root@, text@),
    {
        let b = text.as_bytes();
        let ghost bs = b@;
        assert(bs == encode_utf8(text@));
        let mut gs = GitStatus::empty();
        let mut cur: Vec<u8> = Vec::new();
        let mut i: usize = 0;
        proof {
            assert(bs.take(0) =~= Seq::<u8>::empty());
            assert(cur@ =~= split_fold(bs.take(0)).1);
        }
        while i < b.len()
            invariant
                i <= bs.len(),
                bs == b@,
                bs == encode_utf8(text@),
                output_ok(text@),
                split_fold(bs.take(i as int)).1 == cur@,
                (gs.file_states(), gs.dirty()) == read_lines(split_fold(bs.take(i as int)).0, root@),
            decreases bs.len() - i,
        {
            let c = b[i];
            proof {
                assert(bs.take(i + 1).drop_last() =~= bs.take(i as int));
            }
            if c == 10 {
                let n = cur.len();
                let line: &[u8] = if n > 0 && cur[n - 1] == 13 {
                    slice_subrange(cur.as_slice(), 0, n - 1)
                } else {
                    cur.as_slice()
                };
                proof {
                    assert(line@ =~= strip_cr(cur@));
                    let done = split_fold(bs.take(i + 1)).0;
                    let k = split_fold(bs.take(i as int)).0.len() as int;
                    assert(done.last() == line@);
                    lemma_split_fold_prefix(bs, i + 1, bs.len() as int);
                    assert(bs.take(bs.len() as int) =~= bs);
                    assert(lines_of(bs)[k] == split_fold(bs).0[k]);
                    assert(split_fold(bs).0[k] == done[k]);
                    assert(line_ok(lines_of(encode_utf8(text@))[k]));
                }
                gs.read_line(line, root);
                cur = Vec::new();
                proof {
                    let done = split_fold(bs.take(i + 1)).0;
                    assert(done.drop_last() =~= split_fold(bs.take(i as int)).0);
                    assert(read_lines(done, root@) == read_line(
                        read_lines(done.drop_last(), root@),
                        done.last(),
                        root@,
                    ));
                    assert(cur@ =~= split_fold(bs.take(i + 1)).1);
                }
            } else {
                cur.push(c);
                proof {
                    assert(split_fold(bs.take(i + 1)).0 == split_fold(bs.take(i as int)).0);
                    assert(cur@ =~= split_fold(bs.take(i + 1)).1);
                }
            }
            i = i + 1;
        }
        proof {
            assert(bs.take(i as int) =~= bs);
        }
        if cur.len() > 0 {
            proof {
                let k = split_fold(bs).0.len() as int;
                assert(lines_of(bs)[k] == cur@);
                assert(line_ok(lines_of(encode_utf8(text@))[k]));
                assert(lines_of(bs).drop_last() =~= split_fold(bs).0);
            }
            gs.read_line(cur.as_slice(), root);
        }
        gs
    }

    /// The status of the repository at `root` (`None`: not a repository),
    /// from the output of `git status --porcelain` run there (`None`: git
    /// could not be run). Without both, nothing is known.
    pub fn load(root: Option<String>, status_output: Option<String>) -> (r: GitStatus)
        requires
            root is Some ==> (status_output matches Some(t) ==> output_ok(t@)),
        ensures
            match (root, status_output) {
                (Some(rt), Some(t)) => (r.file_states(), r.dirty()) == status_of(rt@, t@),
                _ => r.file_states().len() == 0 && r.dirty().len() == 0,
            },
    {
        match (root, status_output) {
            (Some(rt), Some(t)) => GitStatus::parse(rt.as_str(), t.as_str()),
            _ => GitStatus::empty(),
        }
    }

    /// The status of the repository at `root` (`None`: not a repository)
    /// from the raw output of `git status --porcelain` run there (`None`: git
    /// could not be run), read as text with invalid UTF-8 replaced. `None`
    /// when a line of the output cannot be read, because a character spans
    /// its fourth byte.
    pub fn load_output(root: Option<String>, stdout: Option<Vec<u8>>) -> (r: Option<GitStatus>)
        ensures
            match (root, stdout) {
                (Some(rt), Some(b)) => if output_ok(decoded(b@)) {
                    r matches Some(g) && (g.file_states(), g.dirty()) == status_of(
                        rt@,
                        decoded(b@),
                    )
                } else {
                    r is None
                },
                _ => r matches Some(g) && g.file_states().len() == 0 && g.dirty().len() == 0,
            },
    {
        match (root, stdout) {
            (Some(rt), Some(b)) => {
                let text = decode_lossy(b.as_slice());
                if output_readable(text.as_str()) {
                    Some(GitStatus::parse(rt.as_str(), text.as_str()))
                } else {
                    None
                }
            },
            _ => Some(GitStatus::empty()),
        }
    }

    /// The state of the changed file `path` (compared component-wise), if any.
    pub fn file_status(&self, path: &str) -> (r: Option<Status>)
        ensures
            r == (match key_from(self.file_states(), path@, 0) {
                Some(i) => Some(self.file_states()[i].1),
                None => None,
            }),
    {
        let ghost f = self.file_states();
        let mut i: usize = 0;
        while i < self.files.len()
            invariant
                i <= self.files@.len(),
                f == self.file_states(),
                key_from(f, path@, i as int) == key_from(f, path@, 0),
            decreases self.files@.len() - i,
        {
            if path_eq(path, self.files[i].0.as_str()) {
                return Some(self.files[i].1);
            }
            i = i + 1;
        }
        None
    }

    /// Whether directory `path` holds changes.
    pub fn dir_has_changes(&self, path: &str) -> (r: bool)
        ensures
            r == dir_listed(self.dirty(), path@),
    {
        let ghost d = self.dirty();
        let mut i: usize = 0;
        while i < self.dirty_dirs.len()
            invariant
                i <= self.dirty_dirs@.len(),
                d == self.dirty(),
                forall|k: int| 0 <= k < i ==> !same_path(path@, #[trigger] d[k]),
            decreases self.dirty_dirs@.len() - i,
        {
            if path_eq(path, self.dirty_dirs[i].as_str()) {
                assert(same_path(path@, d[i as int]));
                return true;
            }
            i = i + 1;
        }
        false
    }
}

/// The repository root from the output of `git rev-parse --show-toplevel`:
/// `None` when git failed or printed nothing but white space.
pub fn root_from_output(success: bool, stdout: &str) -> (r: Option<String>)
    ensures
        !success ==> r is None,
        success ==> (if trimmed(stdout@).len() == 0 {
            r is None
        } else {
            r matches Some(p) && p@ == trimmed(stdout@)
        }),
{
    if !success {
        return None;
    }
    let s = trim(stdout);
    if s.as_str().is_empty() {
        None
    } else {
        Some(s)
    }
}

} // verus!
