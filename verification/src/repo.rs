//! Locating a repository on disk and interpreting what its tooling
//! reports: the upward walk to the repository root, the parsing of a
//! NUL-separated file list, and path relativisation for presentation.
use vstd::prelude::*;
use vstd::slice::slice_subrange;
use vstd::string::StringExecFns;

use crate::fsq::fs_canonicalize;
use crate::fsq::fs_is_dir;
use crate::fsq::fs_is_file;
use crate::text::append_chars;
use crate::text::bytes_to_string_lossy;
use crate::text::chars_eq;
use crate::text::chars_subrange;
use crate::text::chars_to_string;
use crate::text::clone_chars;
use crate::text::rfind_char;
use crate::text::str_to_chars;
use crate::text::trim_chars;
use crate::text::trimmed;
use crate::text::utf8_lossy;

verus! {

/// The parent directory of a path: the text before the last `/`.  The root
/// `/` has no parent, nor has a path without a separator.
pub fn parent_dir(p: &Vec<char>) -> (r: Option<Vec<char>>)
    ensures
        r matches Some(q) ==> (q@.len() < p@.len() && q@ == p@.subrange(0, q@.len() as int)),
{
    match rfind_char(p, '/') {
        None => None,
        Some(i) => {
            if i == 0 {
                if p.len() == 1 {
                    None
                } else {
                    Some(chars_subrange(p, 0, 1))
                }
            } else {
                Some(chars_subrange(p, 0, i))
            }
        },
    }
}

/// Walks upward from `base`, probing each directory for a `.git` entry (a
/// directory, or a file as in worktrees).  The nearest directory holding
/// one is the repository root; any answer is a non-empty prefix of `base`
/// (an empty `base` names no directory and yields none).
pub fn git_root_from(base: Vec<char>) -> (r: Option<Vec<char>>)
    ensures
        r matches Some(root) ==> (1 <= root@.len() <= base@.len() && root@ == base@.subrange(
            0,
            root@.len() as int,
        )),
    decreases base@.len(),
{
    if base.len() == 0 {
        return None;
    }
    let mut probe = clone_chars(&base);
    probe.push('/');
    probe.push('.');
    probe.push('g');
    probe.push('i');
    probe.push('t');
    let ps = chars_to_string(&probe);
    if fs_is_dir(ps.as_str()) || fs_is_file(ps.as_str()) {
        proof {
            assert(base@ =~= base@.subrange(0, base@.len() as int));
        }
        return Some(base);
    }
    match parent_dir(&base) {
        None => None,
        Some(par) => {
            let r = git_root_from(par);
            match r {
                None => None,
                Some(root) => {
                    proof {
                        assert(root@ =~= base@.subrange(0, root@.len() as int));
                    }
                    Some(root)
                },
            }
        },
    }
}

/// Walks upward from `start_path` to the root directory of the enclosing
/// Git repository, detected by the presence of a `.git` entry (a directory,
/// or a file as in worktrees).  Prefers the canonical form of the path when
/// the file system can provide one, and starts from the containing
/// directory when `start_path` is not a directory.  `None` when no
/// repository root lies at or above the path.
pub fn find_git_root(start_path: &str) -> (r: Option<String>)
    ensures
        r matches Some(root) ==> root@.len() >= 1,
{
    let start = match fs_canonicalize(start_path) {
        Some(c) => c,
        None => start_path.to_owned(),
    };
    let schars = str_to_chars(start.as_str());
    let from = if fs_is_dir(start.as_str()) {
        schars
    } else {
        match parent_dir(&schars) {
            None => {
                return None;
            },
            Some(p) => p,
        }
    };
    match git_root_from(from) {
        None => None,
        Some(root) => Some(chars_to_string(&root)),
    }
}

/// Index of the first NUL byte, or the length when none occurs.
pub open spec fn first_zero(b: Seq<u8>) -> nat
    decreases b.len(),
{
    if b.len() == 0 {
        0
    } else if b[0] == 0 {
        0
    } else {
        1 + first_zero(b.drop_first())
    }
}

proof fn lemma_first_zero_at(b: Seq<u8>, i: int)
    requires
        0 <= i <= b.len(),
        forall|t: int| 0 <= t < i ==> b[t] != 0,
        i < b.len() ==> b[i] == 0,
        i == b.len() ==> forall|t: int| 0 <= t < b.len() ==> b[t] != 0,
    ensures
        first_zero(b) == i,
    decreases i,
{
    if i == 0 {
        if b.len() > 0 {
            assert(b[0] == 0);
        }
    } else {
        assert(b[0] != 0);
        lemma_first_zero_at(b.drop_first(), i - 1);
    }
}

/// The NUL-separated chunks of a byte string, empties dropped.
pub open spec fn nul_chunks(b: Seq<u8>) -> Seq<Seq<u8>>
    decreases b.len(),
{
    if b.len() == 0 {
        Seq::empty()
    } else {
        let i = first_zero(b) as int;
        let head = b.subrange(0, i);
        let tail = if i < b.len() {
            b.subrange(i + 1, b.len() as int)
        } else {
            Seq::empty()
        };
        if head.len() == 0 {
            nul_chunks(tail)
        } else {
            seq![head] + nul_chunks(tail)
        }
    }
}

/// The absolute path that one reported chunk stands for: the repository
/// root, a separator, and the chunk decoded as UTF-8.
pub open spec fn tracked_path_of(root: Seq<char>, chunk: Seq<u8>) -> Seq<char> {
    root + "/"@ + utf8_lossy(chunk)
}

/// Appends, in order, the absolute path of every NUL-separated chunk of
/// `out` to `acc`.
fn parse_tracked_into(root: &str, out: &[u8], acc: &mut Vec<String>)
    ensures
        final(acc)@.len() == old(acc)@.len() + nul_chunks(out@).len(),
        forall|i: int| 0 <= i < old(acc)@.len() ==> final(acc)@[i] == old(acc)@[i],
        forall|i: int|
            0 <= i < nul_chunks(out@).len() ==> (#[trigger] final(acc)@[old(acc)@.len() + i])@
                == tracked_path_of(root@, nul_chunks(out@)[i]),
    decreases out@.len(),
{
    if out.len() == 0 {
        return ;
    }
    let n = out.len();
    let mut j: usize = 0;
    while j < n && out[j] != 0
        invariant
            0 <= j <= n,
            n == out@.len(),
            forall|t: int| 0 <= t < j ==> out@[t] != 0,
        decreases n - j,
    {
        j = j + 1;
    }
    proof {
        lemma_first_zero_at(out@, j as int);
    }
    let head = slice_subrange(out, 0, j);
    let tail = if j < n {
        slice_subrange(out, j + 1, n)
    } else {
        slice_subrange(out, n, n)
    };
    proof {
        if j == n {
            assert(tail@ =~= Seq::<u8>::empty());
        }
    }
    if head.len() == 0 {
        proof {
            assert(nul_chunks(out@) == nul_chunks(tail@));
        }
        parse_tracked_into(root, tail, acc);
    } else {
        let mut s = root.to_owned();
        s.append("/");
        let decoded = bytes_to_string_lossy(head);
        s.append(decoded.as_str());
        proof {
            assert(s@ == tracked_path_of(root@, out@.subrange(0, j as int)));
            assert(nul_chunks(out@) == seq![out@.subrange(0, j as int)] + nul_chunks(tail@));
        }
        acc.push(s);
        let ghost mid = acc@;
        parse_tracked_into(root, tail, acc);
        proof {
            let pre = old(acc)@;
            let chunks = nul_chunks(out@);
            let tail_chunks = nul_chunks(tail@);
            assert(chunks.len() == 1 + tail_chunks.len());
            assert(mid.len() == pre.len() + 1);
            assert forall|i: int| 0 <= i < chunks.len() implies (#[trigger] acc@[pre.len() + i])@
                == tracked_path_of(root@, chunks[i]) by {
                if i == 0 {
                    assert(acc@[mid.len() - 1] == mid[mid.len() - 1]);
                    assert(chunks[0] == out@.subrange(0, j as int));
                } else {
                    assert(acc@[mid.len() + (i - 1)]@ == tracked_path_of(
                        root@,
                        tail_chunks[i - 1],
                    ));
                    assert(chunks[i] == tail_chunks[i - 1]);
                    assert(pre.len() + i == mid.len() + (i - 1));
                }
            }
        }
    }
}

/// Interprets the NUL-separated relative paths that the version-control
/// tool reports for `root`: each non-empty chunk becomes the absolute path
/// `root`, a separator, and the chunk's text, in reported order.
pub fn parse_tracked_paths(root: &str, out: &[u8]) -> (r: Vec<String>)
    ensures
        r@.len() == nul_chunks(out@).len(),
        forall|i: int|
            0 <= i < nul_chunks(out@).len() ==> (#[trigger] r@[i])@ == tracked_path_of(
                root@,
                nul_chunks(out@)[i],
            ),
{
    let mut acc: Vec<String> = Vec::new();
    parse_tracked_into(root, out, &mut acc);
    proof {
        assert forall|i: int| 0 <= i < nul_chunks(out@).len() implies (#[trigger] acc@[i])@
            == tracked_path_of(root@, nul_chunks(out@)[i]) by {
            assert(acc@[0 + i]@ == tracked_path_of(root@, nul_chunks(out@)[i]));
        }
    }
    acc
}

/// The trimmed line names the index directory: the bookkeeping entry that
/// marks `.cearch` (with or without a trailing separator) in an ignore
/// file.
pub open spec fn is_index_dir_entry(line: Seq<char>) -> bool {
    trimmed(line) == ".cearch"@ || trimmed(line) == ".cearch/"@
}

/// Decides whether one line is the index directory's bookkeeping entry,
/// blanks around it notwithstanding.
fn line_entry_chars(line: &Vec<char>) -> (r: bool)
    ensures
        r <==> is_index_dir_entry(line@),
{
    let t = trim_chars(line);
    let m1 = str_to_chars(".cearch");
    if chars_eq(&t, &m1) {
        return true;
    }
    let m2 = str_to_chars(".cearch/");
    chars_eq(&t, &m2)
}

/// Decides whether one line of an ignore file is the index directory's
/// bookkeeping entry, blanks around it notwithstanding.
pub fn line_marks_index_dir(line: &str) -> (r: bool)
    ensures
        r <==> is_index_dir_entry(line@),
{
    let lc = str_to_chars(line);
    line_entry_chars(&lc)
}

/// Index of the first newline, or the length when none occurs.
pub open spec fn first_nl(s: Seq<char>) -> nat
    decreases s.len(),
{
    if s.len() == 0 {
        0
    } else if s[0] == '\n' {
        0
    } else {
        1 + first_nl(s.drop_first())
    }
}

proof fn lemma_first_nl_at(s: Seq<char>, i: int)
    requires
        0 <= i <= s.len(),
        forall|t: int| 0 <= t < i ==> s[t] != '\n',
        i < s.len() ==> s[i] == '\n',
        i == s.len() ==> forall|t: int| 0 <= t < s.len() ==> s[t] != '\n',
    ensures
        first_nl(s) == i,
    decreases i,
{
    if i == 0 {
        if s.len() > 0 {
            assert(s[0] == '\n');
        }
    } else {
        assert(s[0] != '\n');
        lemma_first_nl_at(s.drop_first(), i - 1);
    }
}

/// The chunks of a text split at every newline.  Every text has at least
/// one chunk, and a trailing newline opens a last empty chunk.
pub open spec fn split_raw(s: Seq<char>) -> Seq<Seq<char>>
    decreases s.len(),
{
    let i = first_nl(s) as int;
    if i >= s.len() {
        seq![s]
    } else {
        seq![s.subrange(0, i)] + split_raw(s.subrange(i + 1, s.len() as int))
    }
}

/// The lines of a text, as the surrounding tooling counts them: split at
/// every newline, without the empty last chunk that a trailing newline
/// would open.
pub open spec fn lines_of(s: Seq<char>) -> Seq<Seq<char>> {
    let raw = split_raw(s);
    if raw.len() > 0 && raw.last().len() == 0 {
        raw.drop_last()
    } else {
        raw
    }
}

/// Splits the text at newlines, appending every chunk to `acc`.
fn split_lines_into(cs: &Vec<char>, acc: &mut Vec<Vec<char>>)
    ensures
        final(acc)@.len() == old(acc)@.len() + split_raw(cs@).len(),
        forall|i: int| 0 <= i < old(acc)@.len() ==> final(acc)@[i] == old(acc)@[i],
        forall|i: int|
            0 <= i < split_raw(cs@).len() ==> (#[trigger] final(acc)@[old(acc)@.len() + i])@
                == split_raw(cs@)[i],
    decreases cs@.len(),
{
    let n = cs.len();
    let mut j: usize = 0;
    while j < n && cs[j] != '\n'
        invariant
            0 <= j <= n,
            n == cs@.len(),
            forall|t: int| 0 <= t < j ==> cs@[t] != '\n',
        decreases n - j,
    {
        j = j + 1;
    }
    proof {
        lemma_first_nl_at(cs@, j as int);
    }
    let line = chars_subrange(cs, 0, j);
    if j == n {
        proof {
            assert(line@ =~= cs@);
            assert(split_raw(cs@) =~= seq![cs@]);
        }
        acc.push(line);
        return ;
    }
    acc.push(line);
    let ghost mid = acc@;
    let rest = chars_subrange(cs, j + 1, n);
    split_lines_into(&rest, acc);
    proof {
        let pre = old(acc)@;
        let chunks = split_raw(cs@);
        let tailc = split_raw(rest@);
        assert(chunks == seq![cs@.subrange(0, j as int)] + tailc);
        assert(chunks.len() == 1 + tailc.len());
        assert(mid.len() == pre.len() + 1);
        assert forall|i: int| 0 <= i < chunks.len() implies (#[trigger] acc@[pre.len() + i])@
            == chunks[i] by {
            if i == 0 {
                assert(acc@[mid.len() - 1] == mid[mid.len() - 1]);
            } else {
                assert(acc@[mid.len() + (i - 1)]@ == tailc[i - 1]);
                assert(chunks[i] == tailc[i - 1]);
                assert(pre.len() + i == mid.len() + (i - 1));
            }
        }
    }
}

/// Splits the text into its lines, dropping the empty chunk of a trailing
/// newline.
fn lines_vec(contents: &str) -> (r: Vec<Vec<char>>)
    ensures
        r@.len() == lines_of(contents@).len(),
        forall|i: int|
            0 <= i < r@.len() ==> (#[trigger] r@[i])@ == lines_of(contents@)[i],
{
    let cs = str_to_chars(contents);
    let mut raw: Vec<Vec<char>> = Vec::new();
    split_lines_into(&cs, &mut raw);
    proof {
        assert(split_raw(cs@).len() >= 1);
        assert forall|i: int| 0 <= i < raw@.len() implies (#[trigger] raw@[i])@ == split_raw(
            cs@,
        )[i] by {
            assert(raw@[0 + i]@ == split_raw(cs@)[i]);
        }
    }
    if raw[raw.len() - 1].len() == 0 {
        raw.pop();
    }
    raw
}

/// Tells whether the ignore file already holds the index directory's
/// bookkeeping entry on any of its lines.
pub fn gitignore_has_entry(contents: &str) -> (r: bool)
    ensures
        r <==> (exists|i: int|
            0 <= i < lines_of(contents@).len() && is_index_dir_entry(
                #[trigger] lines_of(contents@)[i],
            )),
{
    let lines = lines_vec(contents);
    let m = lines.len();
    let mut i: usize = 0;
    while i < m
        invariant
            0 <= i <= m,
            m == lines@.len() == lines_of(contents@).len(),
            forall|t: int|
                0 <= t < m ==> (#[trigger] lines@[t])@ == lines_of(contents@)[t],
            forall|t: int| 0 <= t < i ==> !is_index_dir_entry(lines_of(contents@)[t]),
        decreases m - i,
    {
        if line_entry_chars(&lines[i]) {
            proof {
                assert(is_index_dir_entry(lines_of(contents@)[i as int]));
            }
            return true;
        }
        i = i + 1;
    }
    false
}

/// The lines with every index directory entry removed, in order.
pub open spec fn scrub_lines(ls: Seq<Seq<char>>) -> Seq<Seq<char>>
    decreases ls.len(),
{
    if ls.len() == 0 {
        Seq::empty()
    } else {
        scrub_lines(ls.drop_last()) + (if is_index_dir_entry(ls.last()) {
            Seq::empty()
        } else {
            seq![ls.last()]
        })
    }
}

/// The lines joined by single newlines.
pub open spec fn join_nl(ls: Seq<Seq<char>>) -> Seq<char>
    decreases ls.len(),
{
    if ls.len() == 0 {
        Seq::empty()
    } else if ls.len() == 1 {
        ls[0]
    } else {
        ls[0] + seq!['\n'] + join_nl(ls.drop_first())
    }
}

proof fn lemma_join_nl_push(ls: Seq<Seq<char>>, x: Seq<char>)
    ensures
        join_nl(ls.push(x)) == if ls.len() == 0 {
            x
        } else {
            join_nl(ls) + seq!['\n'] + x
        },
    decreases ls.len(),
{
    if ls.len() == 0 {
        assert(ls.push(x) =~= seq![x]);
    } else {
        assert(ls.push(x).drop_first() =~= ls.drop_first().push(x));
        lemma_join_nl_push(ls.drop_first(), x);
        if ls.len() == 1 {
            assert(join_nl(ls.push(x)) =~= join_nl(ls) + seq!['\n'] + x);
        } else {
            assert(join_nl(ls.push(x)) =~= join_nl(ls) + seq!['\n'] + x);
        }
    }
}

/// The ignore file with the index directory's entries removed: what
/// remains of its lines joined by newlines, with a trailing newline when
/// any line remains.
pub open spec fn scrubbed_ignore(s: Seq<char>) -> Seq<char> {
    let kept = scrub_lines(lines_of(s));
    if kept.len() == 0 {
        Seq::empty()
    } else {
        join_nl(kept) + seq!['\n']
    }
}

/// Removes the index directory's bookkeeping entries from the ignore
/// file's text.
pub fn gitignore_without_entry(contents: &str) -> (r: String)
    ensures
        r@ == scrubbed_ignore(contents@),
{
    let lines = lines_vec(contents);
    let ghost lset = lines_of(contents@);
    let m = lines.len();
    let mut kept: Vec<Vec<char>> = Vec::new();
    let mut i: usize = 0;
    proof {
        assert(lset.subrange(0, 0) =~= Seq::<Seq<char>>::empty());
    }
    while i < m
        invariant
            0 <= i <= m,
            m == lines@.len() == lset.len(),
            lset == lines_of(contents@),
            forall|t: int| 0 <= t < m ==> (#[trigger] lines@[t])@ == lset[t],
            kept@.len() <= i,
            Seq::new(kept@.len(), |t: int| kept@[t]@) == scrub_lines(lset.subrange(0, i as int)),
        decreases m - i,
    {
        let ghost before = Seq::new(kept@.len(), |t: int| kept@[t]@);
        proof {
            assert(lset.subrange(0, i + 1 as int).drop_last() =~= lset.subrange(0, i as int));
            assert(lset.subrange(0, i + 1 as int).last() == lset[i as int]);
        }
        if !line_entry_chars(&lines[i]) {
            kept.push(clone_chars(&lines[i]));
            proof {
                assert(Seq::new(kept@.len(), |t: int| kept@[t]@) =~= before.push(lset[i as int]));
                assert(before.push(lset[i as int]) =~= scrub_lines(
                    lset.subrange(0, i + 1 as int),
                ));
            }
        } else {
            proof {
                assert(scrub_lines(lset.subrange(0, i + 1 as int)) =~= scrub_lines(
                    lset.subrange(0, i as int),
                ));
            }
        }
        i = i + 1;
    }
    proof {
        assert(lset.subrange(0, m as int) =~= lset);
    }
    let kn = kept.len();
    if kn == 0 {
        proof {
            assert(scrub_lines(lset) =~= Seq::<Seq<char>>::empty());
        }
        return String::new();
    }
    let ghost kview = Seq::new(kept@.len(), |t: int| kept@[t]@);
    let mut out: Vec<char> = Vec::new();
    let mut t: usize = 0;
    while t < kn
        invariant
            0 <= t <= kn,
            kn == kept@.len(),
            kview == Seq::new(kept@.len(), |u: int| kept@[u]@),
            t == 0 ==> out@ =~= Seq::<char>::empty(),
            t > 0 ==> out@ == join_nl(kview.subrange(0, t as int)),
        decreases kn - t,
    {
        if t > 0 {
            out.push('\n');
        }
        append_chars(&mut out, &kept[t]);
        proof {
            lemma_join_nl_push(kview.subrange(0, t as int), kview[t as int]);
            assert(kview.subrange(0, t + 1 as int) =~= kview.subrange(0, t as int).push(
                kview[t as int],
            ));
            if t == 0 {
                assert(out@ =~= kview[0]);
                assert(join_nl(kview.subrange(0, 1)) == kview.subrange(0, 1)[0]);
                assert(kview.subrange(0, 1)[0] == kview[0]);
            } else {
                assert(out@ =~= join_nl(kview.subrange(0, t as int)) + seq!['\n'] + kview[
                    t as int]);
            }
        }
        t = t + 1;
    }
    out.push('\n');
    proof {
        assert(kview.subrange(0, kn as int) =~= kview);
        assert(kview =~= scrub_lines(lset));
        assert(out@ =~= join_nl(scrub_lines(lset)) + seq!['\n']);
    }
    chars_to_string(&out)
}

/// `path` lies under the directory `root`.
pub open spec fn is_under(root: Seq<char>, path: Seq<char>) -> bool {
    &&& path.len() > root.len()
    &&& path.subrange(0, root.len() as int) == root
    &&& path[root.len() as int] == '/'
}

/// The path relative to `root`: with the leading `root` and its separator
/// removed when `path` lies under `root`, and unchanged otherwise.
pub fn relative_to(root: &str, path: &str) -> (r: String)
    ensures
        is_under(root@, path@) ==> r@ == path@.subrange(root@.len() as int + 1, path@.len() as int),
        !is_under(root@, path@) ==> r@ == path@,
{
    let rc = str_to_chars(root);
    let pc = str_to_chars(path);
    let rn = rc.len();
    let pn = pc.len();
    if pn <= rn {
        proof {
            assert(!is_under(root@, path@));
        }
        return path.to_owned();
    }
    let mut i: usize = 0;
    while i < rn
        invariant
            0 <= i <= rn < pn,
            rn == rc@.len(),
            pn == pc@.len(),
            rc@ == root@,
            pc@ == path@,
            forall|t: int| 0 <= t < i ==> rc@[t] == pc@[t],
        decreases rn - i,
    {
        if rc[i] != pc[i] {
            proof {
                assert(path@.subrange(0, root@.len() as int)[i as int] != root@[i as int]);
            }
            return path.to_owned();
        }
        i = i + 1;
    }
    if pc[rn] != '/' {
        return path.to_owned();
    }
    proof {
        assert(path@.subrange(0, root@.len() as int) =~= root@);
    }
    let rest = chars_subrange(&pc, rn + 1, pn);
    chars_to_string(&rest)
}

} // verus!
