//! A plain-string model of filesystem paths.
//!
//! Paths are character strings; `/` separates segments and the last `.`
//! of the file name separates stem from extension.  The functions here
//! split a desired destination path into directory, stem and extension,
//! build the numbered candidate names that disambiguate collisions, and
//! turn a destination into its root-relative report.

use vstd::prelude::*;
use vstd::string::StrSliceExecFns;
use vstd::string::StringExecFns;
use crate::digits::{dec_rep, decimal_string, lemma_dec_rep_injective};

verus! {

/// Number of characters of `p` up to and including its last `/`;
/// `0` when `p` has no `/`.
pub open spec fn split_point(p: Seq<char>) -> int
    decreases p.len(),
{
    if p.len() == 0 {
        0
    } else if p.last() == '/' {
        p.len() as int
    } else {
        split_point(p.drop_last())
    }
}

/// The directory part of `p`, up to and including the last `/`
/// (empty when `p` has no `/`).
pub open spec fn dir_of(p: Seq<char>) -> Seq<char> {
    p.take(split_point(p))
}

/// The file name of `p`: everything after the last `/`.
pub open spec fn file_name_of(p: Seq<char>) -> Seq<char> {
    p.skip(split_point(p))
}

/// `split_point` lies within `p`, sits right after a `/`, and no `/`
/// follows it.
pub proof fn lemma_split_point_props(p: Seq<char>)
    ensures
        0 <= split_point(p) <= p.len(),
        split_point(p) > 0 ==> p[split_point(p) - 1] == '/',
        forall|j: int| split_point(p) <= j < p.len() ==> p[j] != '/',
    decreases p.len(),
{
    if p.len() == 0 {
    } else if p.last() == '/' {
    } else {
        lemma_split_point_props(p.drop_last());
        assert(forall|j: int| 0 <= j < p.len() - 1 ==> p[j] == p.drop_last()[j]);
    }
}

/// Index of the last `.` of `name`, or `-1` when it has none.
pub open spec fn dot_point(name: Seq<char>) -> int
    decreases name.len(),
{
    if name.len() == 0 {
        -1
    } else if name.last() == '.' {
        name.len() - 1
    } else {
        dot_point(name.drop_last())
    }
}

/// `dot_point` lies within `name`, names a `.`, and no `.` follows it.
pub proof fn lemma_dot_point_props(name: Seq<char>)
    ensures
        -1 <= dot_point(name) < name.len(),
        dot_point(name) >= 0 ==> name[dot_point(name)] == '.',
        forall|j: int| dot_point(name) < j < name.len() ==> name[j] != '.',
    decreases name.len(),
{
    if name.len() == 0 {
    } else if name.last() == '.' {
    } else {
        lemma_dot_point_props(name.drop_last());
        assert(forall|j: int| 0 <= j < name.len() - 1 ==> name[j] == name.drop_last()[j]);
    }
}

/// The stem substituted when a file name has none of its own.
pub open spec fn fallback_stem() -> Seq<char> {
    seq!['a', 's', 's', 'e', 't']
}

/// The stem of a file name: the part before its last `.` (the whole
/// name when it has no `.`); when that part is empty, the fallback stem.
pub open spec fn stem_of(name: Seq<char>) -> Seq<char> {
    let raw = if dot_point(name) >= 0 {
        name.take(dot_point(name))
    } else {
        name
    };
    if raw.len() == 0 {
        fallback_stem()
    } else {
        raw
    }
}

/// The extension of a file name, `.` included: its last `.` and what
/// follows, or empty when it has no `.`.
pub open spec fn ext_of(name: Seq<char>) -> Seq<char> {
    if dot_point(name) >= 0 {
        name.skip(dot_point(name))
    } else {
        Seq::<char>::empty()
    }
}

/// The `n`-th candidate destination for the desired path `p`:
/// `dir/stem-n.ext`.
pub open spec fn candidate(p: Seq<char>, n: nat) -> Seq<char> {
    dir_of(p) + stem_of(file_name_of(p)) + seq!['-'] + dec_rep(n) + ext_of(file_name_of(p))
}

/// Distinct counters give distinct candidates for the same desired path.
pub proof fn lemma_candidate_injective(p: Seq<char>, n1: nat, n2: nat)
    requires
        candidate(p, n1) == candidate(p, n2),
    ensures
        n1 == n2,
{
    let pre = dir_of(p) + stem_of(file_name_of(p)) + seq!['-'];
    let ext = ext_of(file_name_of(p));
    let d1 = dec_rep(n1);
    let d2 = dec_rep(n2);
    assert(candidate(p, n1) == pre + d1 + ext);
    assert(candidate(p, n2) == pre + d2 + ext);
    assert(d1.len() == d2.len());
    assert forall|i: int| 0 <= i < d1.len() implies d1[i] == d2[i] by {
        assert((pre + d1 + ext)[pre.len() + i] == (pre + d1)[pre.len() + i]);
        assert((pre + d1)[pre.len() + i] == d1[i]);
        assert((pre + d2 + ext)[pre.len() + i] == (pre + d2)[pre.len() + i]);
        assert((pre + d2)[pre.len() + i] == d2[i]);
    }
    assert(d1 =~= d2);
    lemma_dec_rep_injective(n1, n2);
}

/// `dir` and `name` joined with a `/` between them.
pub open spec fn join_path(dir: Seq<char>, name: Seq<char>) -> Seq<char> {
    dir + seq!['/'] + name
}

/// Whether `p` lies strictly below the directory `root`.
pub open spec fn under_root(root: Seq<char>, p: Seq<char>) -> bool {
    p.len() > root.len() && p.take(root.len() as int) == root && p[root.len() as int] == '/'
}

/// How a destination is reported: relative to `root` when it lies below
/// `root`, unchanged otherwise.
pub open spec fn report_of(root: Seq<char>, p: Seq<char>) -> Seq<char> {
    if under_root(root, p) {
        p.skip(root.len() as int + 1)
    } else {
        p
    }
}

/// Index just past the last `/` of `p`, found by scanning backwards.
fn find_split_point(p: &str) -> (r: usize)
    ensures
        r == split_point(p@),
{
    let len = p.unicode_len();
    let mut i = len;
    while i > 0
        invariant
            0 <= i <= len,
            len == p@.len(),
            forall|j: int| i <= j < len ==> p@[j] != '/',
        decreases i,
    {
        if p.get_char(i - 1) == '/' {
            proof {
                lemma_split_point_props(p@);
            }
            return i;
        }
        i = i - 1;
    }
    proof {
        lemma_split_point_props(p@);
    }
    0
}

/// Index of the last `.` of `name`, or `name.len()` when it has none,
/// found by scanning backwards.
fn find_dot_point(name: &str) -> (r: usize)
    ensures
        dot_point(name@) >= 0 ==> r == dot_point(name@),
        dot_point(name@) < 0 ==> r == name@.len(),
{
    let len = name.unicode_len();
    let mut i = len;
    while i > 0
        invariant
            0 <= i <= len,
            len == name@.len(),
            forall|j: int| i <= j < len ==> name@[j] != '.',
        decreases i,
    {
        if name.get_char(i - 1) == '.' {
            proof {
                lemma_dot_point_props(name@);
            }
            return i - 1;
        }
        i = i - 1;
    }
    proof {
        lemma_dot_point_props(name@);
    }
    len
}

/// The fallback stem as an executable string.
fn fallback_stem_str() -> (r: &'static str)
    ensures
        r@ == fallback_stem(),
{
    let r = "asset";
    proof {
        reveal_strlit("asset");
        assert(r@ =~= fallback_stem());
    }
    r
}

/// Splits a desired destination path into directory (trailing `/`
/// included), stem (with the fallback substituted) and extension
/// (leading `.` included).
pub fn split_desired(p: &String) -> (r: (String, String, String))
    ensures
        r.0@ == dir_of(p@),
        r.1@ == stem_of(file_name_of(p@)),
        r.2@ == ext_of(file_name_of(p@)),
{
    let s = p.as_str();
    let len = s.unicode_len();
    let sp = find_split_point(s);
    proof {
        lemma_split_point_props(p@);
    }
    let dir = s.substring_char(0, sp).to_owned();
    let name = s.substring_char(sp, len);
    let name_len = name.unicode_len();
    let dp = find_dot_point(name);
    proof {
        lemma_dot_point_props(name@);
    }
    let raw_stem = name.substring_char(0, dp);
    let ext = name.substring_char(dp, name_len).to_owned();
    let stem = if raw_stem.unicode_len() == 0 {
        fallback_stem_str().to_owned()
    } else {
        raw_stem.to_owned()
    };
    proof {
        assert(name@ == file_name_of(p@));
        assert(dir@ == dir_of(p@));
        if dot_point(name@) >= 0 {
            assert(raw_stem@ == name@.take(dot_point(name@)));
            assert(ext@ == ext_of(file_name_of(p@)));
        } else {
            assert(raw_stem@ == name@);
            assert(ext@ =~= ext_of(file_name_of(p@)));
        }
        assert(stem@ == stem_of(file_name_of(p@)));
    }
    (dir, stem, ext)
}

/// Builds the candidate `dir/stem-n.ext` from the split parts.
pub fn build_candidate(dir: &String, stem: &String, ext: &String, n: u128) -> (r: String)
    ensures
        r@ == dir@ + stem@ + seq!['-'] + dec_rep(n as nat) + ext@,
{
    let mut r = dir.clone();
    r.append(stem.as_str());
    let dash = "-";
    proof {
        reveal_strlit("-");
        assert(dash@ =~= seq!['-']);
    }
    r.append(dash);
    let num = decimal_string(n);
    r.append(num.as_str());
    r.append(ext.as_str());
    proof {
        assert(r@ =~= dir@ + stem@ + seq!['-'] + dec_rep(n as nat) + ext@);
    }
    r
}

/// A usable file name: nonempty and not one of the dot segments `.`
/// and `..`, which name directories rather than files.
pub open spec fn file_name_ok(name: Seq<char>) -> bool {
    name.len() > 0 && name != seq!['.'] && name != seq!['.', '.']
}

/// Joining a slash-free file name to a directory puts the split right
/// after the joining `/`.
pub proof fn lemma_split_point_join(dir: Seq<char>, name: Seq<char>)
    requires
        forall|i: int| 0 <= i < name.len() ==> name[i] != '/',
    ensures
        split_point(join_path(dir, name)) == dir.len() + 1,
        dir_of(join_path(dir, name)) == dir + seq!['/'],
        file_name_of(join_path(dir, name)) == name,
{
    let p = join_path(dir, name);
    lemma_split_point_props(p);
    let sp = split_point(p);
    assert(p.len() == dir.len() + 1 + name.len());
    assert(p[dir.len() as int] == '/');
    assert(forall|j: int| dir.len() + 1 <= j < p.len() ==> p[j] == name[j - dir.len() - 1]);
    if sp <= dir.len() {
        assert(p[dir.len() as int] != '/');
    }
    if sp > dir.len() + 1 {
        assert(p[sp - 1] == '/');
        assert(name[sp - 1 - dir.len() - 1] == '/');
    }
    assert(sp == dir.len() + 1);
    assert(dir_of(p) =~= dir + seq!['/']);
    assert(file_name_of(p) =~= name);
}

/// A file name carries no `/`.
pub proof fn lemma_file_name_slash_free(p: Seq<char>)
    ensures
        forall|i: int|
            0 <= i < file_name_of(p).len() ==> file_name_of(p)[i] != '/',
{
    lemma_split_point_props(p);
}

/// The file name of `p`, as an executable string.
pub fn file_name_string(p: &String) -> (r: String)
    ensures
        r@ == file_name_of(p@),
{
    let s = p.as_str();
    let len = s.unicode_len();
    let sp = find_split_point(s);
    proof {
        lemma_split_point_props(p@);
    }
    s.substring_char(sp, len).to_owned()
}

/// Decides `file_name_ok`.
pub fn name_ok(name: &String) -> (r: bool)
    ensures
        r == file_name_ok(name@),
{
    let s = name.as_str();
    let len = s.unicode_len();
    if len == 0 {
        return false;
    }
    if len == 1 && s.get_char(0) == '.' {
        proof {
            assert(name@ =~= seq!['.']);
        }
        return false;
    }
    if len == 2 && s.get_char(0) == '.' && s.get_char(1) == '.' {
        proof {
            assert(name@ =~= seq!['.', '.']);
        }
        return false;
    }
    proof {
        if name@ == seq!['.'] {
            assert(name@.len() == 1 && name@[0] == '.');
        }
        if name@ == seq!['.', '.'] {
            assert(name@.len() == 2 && name@[0] == '.' && name@[1] == '.');
        }
    }
    true
}

/// The root-relative form of a destination that lies below `root`.
pub(crate) fn report_string(root: &String, dest: &String) -> (r: String)
    requires
        under_root(root@, dest@),
    ensures
        r@ == report_of(root@, dest@),
{
    let s = dest.as_str();
    let len = s.unicode_len();
    let rl = root.as_str().unicode_len();
    s.substring_char(rl + 1, len).to_owned()
}

/// Joins a directory and a file name with a `/`.
pub fn join_strings(dir: &String, name: &String) -> (r: String)
    ensures
        r@ == join_path(dir@, name@),
{
    let mut r = dir.clone();
    let slash = "/";
    proof {
        reveal_strlit("/");
        assert(slash@ =~= seq!['/']);
    }
    r.append(slash);
    r.append(name.as_str());
    proof {
        assert(r@ =~= join_path(dir@, name@));
    }
    r
}

} // verus!
