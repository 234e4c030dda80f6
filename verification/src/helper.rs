//! Helpers on configuration text and on pairs of paths.

use crate::hash::{hex_string, hex_text, sha256, sha256_of};
use crate::json::{from_str, json_of, JsonError, JsonValue};
use crate::path::{PathModel, SavePath};
use vstd::prelude::*;
use vstd::string::*;

verus! {

/// `s` without the run of `c` at its start.
pub open spec fn trim_front(s: Seq<char>, c: char) -> Seq<char>
    decreases s.len(),
{
    if s.len() > 0 && s[0] == c {
        trim_front(s.skip(1), c)
    } else {
        s
    }
}

/// `s` without the run of `c` at its end.
pub open spec fn trim_back(s: Seq<char>, c: char) -> Seq<char>
    decreases s.len(),
{
    if s.len() > 0 && s.last() == c {
        trim_back(s.drop_last(), c)
    } else {
        s
    }
}

/// `s` without the double quotes that surround it, however many there are.
pub open spec fn unquoted(s: Seq<char>) -> Seq<char> {
    trim_back(trim_front(s, '"'), '"')
}

/// Removes every double quote from the start and from the end of `s`.
pub fn strip_quotes(s: &str) -> (r: String)
    ensures
        r@ == unquoted(s@),
{
    let n: usize = s.unicode_len();
    let mut a: usize = 0;
    assert(s@.skip(0) =~= s@);
    while a < n && s.get_char(a) == '"'
        invariant
            a <= n,
            n == s@.len(),
            trim_front(s@, '"') == trim_front(s@.skip(a as int), '"'),
        decreases n - a,
    {
        proof {
            assert(s@.skip(a as int).skip(1) =~= s@.skip(a as int + 1));
        }
        a += 1;
    }
    let ghost front = s@.skip(a as int);
    assert(trim_front(s@, '"') == front);
    let mut b: usize = n;
    assert(s@.subrange(a as int, n as int) =~= front);
    while b > a && s.get_char(b - 1) == '"'
        invariant
            a <= b <= n,
            n == s@.len(),
            front == s@.skip(a as int),
            trim_back(front, '"') == trim_back(s@.subrange(a as int, b as int), '"'),
        decreases b,
    {
        proof {
            assert(s@.subrange(a as int, b as int).drop_last() =~= s@.subrange(
                a as int,
                b as int - 1,
            ));
        }
        b -= 1;
    }
    s.substring_char(a, b).to_owned()
}

/// Reads a JSON document from text.
pub fn parse_json(text: &str) -> (r: Result<JsonValue, JsonError>)
    ensures
        match r {
            Ok(v) => json_of(text@) == Some(v),
            Err(_) => json_of(text@).is_none(),
        },
{
    match from_str(text) {
        Ok(v) => Ok(v),
        Err(_) => Err(JsonError {  }),
    }
}

/// The SHA-256 fingerprint of a file's content, written as a bracketed list
/// of hexadecimal pairs.
pub fn file_sha256(content: &[u8]) -> (r: String)
    ensures
        r@ == hex_text(sha256_of(content@)),
{
    let digest = sha256(content);
    hex_string(digest.as_slice())
}

/// How many leading names two name sequences share.
pub open spec fn common_names(a: Seq<Seq<char>>, b: Seq<Seq<char>>) -> nat
    decreases a.len(),
{
    if a.len() > 0 && b.len() > 0 && a[0] == b[0] {
        1 + common_names(a.skip(1), b.skip(1))
    } else {
        0
    }
}

/// A path split before its last name. A path without names is both halves.
pub open spec fn split_last(p: PathModel) -> (PathModel, PathModel) {
    if p.names.len() > 0 {
        (
            PathModel { rooted: p.rooted, names: p.names.drop_last() },
            PathModel { rooted: false, names: seq![p.names.last()] },
        )
    } else {
        (p, p)
    }
}

/// The difference between two paths: the longer one with the components
/// that both share at their start taken off, split into the folder chain and
/// the final name. Where the paths are equal nothing is left of either: the
/// chain is then empty and the name is the last component of the path itself.
pub open spec fn diff_of(left: PathModel, right: PathModel) -> (PathModel, PathModel) {
    let longer = if left.count() > right.count() {
        left
    } else {
        right
    };
    if left.rooted != right.rooted {
        split_last(longer)
    } else {
        let c = common_names(left.names, right.names) as int;
        if c >= longer.names.len() {
            (PathModel::bare(false), split_last(right).1)
        } else {
            split_last(PathModel { rooted: false, names: longer.names.skip(c) })
        }
    }
}

/// The shared leading names are equal, and the count stops at the first difference.
pub proof fn lemma_common_names(a: Seq<Seq<char>>, b: Seq<Seq<char>>)
    ensures
        common_names(a, b) <= a.len(),
        common_names(a, b) <= b.len(),
        forall|j: int| 0 <= j < common_names(a, b) ==> a[j] == b[j],
        common_names(a, b) < a.len() && common_names(a, b) < b.len() ==> a[common_names(a, b) as int]
            != b[common_names(a, b) as int],
    decreases a.len(),
{
    if a.len() > 0 && b.len() > 0 && a[0] == b[0] {
        lemma_common_names(a.skip(1), b.skip(1));
        let c = common_names(a.skip(1), b.skip(1)) as int;
        assert forall|j: int| 0 <= j < c + 1 implies a[j] == b[j] by {
            if j > 0 {
                assert(a.skip(1)[j - 1] == a[j]);
                assert(b.skip(1)[j - 1] == b[j]);
            }
        }
        if c + 1 < a.len() && c + 1 < b.len() {
            assert(a.skip(1)[c] == a[c + 1]);
            assert(b.skip(1)[c] == b[c + 1]);
        }
    }
}

/// A count up to which the names agree, and at which they differ or one ends, is `common_names`.
pub proof fn lemma_common_names_is(a: Seq<Seq<char>>, b: Seq<Seq<char>>, c: int)
    requires
        0 <= c <= a.len(),
        c <= b.len(),
        forall|j: int| 0 <= j < c ==> a[j] == b[j],
        c < a.len() && c < b.len() ==> a[c] != b[c],
    ensures
        common_names(a, b) == c,
{
    lemma_common_names(a, b);
}

/// Splits a path before its last name.
fn split_path(p: SavePath) -> (r: (SavePath, SavePath))
    ensures
        (r.0@, r.1@) == split_last(p@),
{
    let n: usize = p.names.len();
    if n == 0 {
        let q = p.clone();
        (p, q)
    } else {
        let folder = p.prefix(n - 1);
        let mut names: Vec<String> = Vec::new();
        names.push(p.names[n - 1].clone());
        let fname = SavePath { rooted: false, names };
        assert(fname@.names =~= seq![p@.names.last()]);
        assert(p@.names.take(n as int - 1) =~= p@.names.drop_last());
        (folder, fname)
    }
}

/// The path of the names of `p` from index `c` on.
fn names_from(p: &SavePath, c: usize) -> (r: SavePath)
    requires
        c <= p.names.len(),
    ensures
        r@ == (PathModel { rooted: false, names: p@.names.skip(c as int) }),
{
    let mut names: Vec<String> = Vec::new();
    let mut i: usize = c;
    while i < p.names.len()
        invariant
            c <= i <= p.names.len(),
            names.len() == i - c,
            forall|j: int| 0 <= j < i - c ==> names[j]@ == p.names[c + j]@,
        decreases p.names.len() - i,
    {
        names.push(p.names[i].clone());
        i += 1;
    }
    let r = SavePath { rooted: false, names };
    assert(r@.names =~= p@.names.skip(c as int));
    r
}

/// The difference between `left` and `right`: given `/a/b/c` and `/a/b/c/d/e/f.txt`
/// it is the folder chain `d/e` and the name `f.txt`.
pub fn path_diff(left: SavePath, right: SavePath) -> (r: (SavePath, SavePath))
    ensures
        (r.0@, r.1@) == diff_of(left@, right@),
{
    let n1: usize = left.names.len();
    let n2: usize = right.names.len();
    let first_longer = if left.rooted == right.rooted {
        n1 > n2
    } else if left.rooted {
        n1 >= n2
    } else {
        n1 > n2 && n1 - n2 > 1
    };
    assert(first_longer == (left@.count() > right@.count()));
    if left.rooted != right.rooted {
        if first_longer {
            return split_path(left);
        } else {
            return split_path(right);
        }
    }
    let mut c: usize = 0;
    while c < n1 && c < n2 && left.names[c] == right.names[c]
        invariant
            c <= n1,
            c <= n2,
            n1 == left.names.len(),
            n2 == right.names.len(),
            forall|j: int| 0 <= j < c ==> left@.names[j] == right@.names[j],
        decreases n1 - c,
    {
        c += 1;
    }
    proof {
        lemma_common_names_is(left@.names, right@.names, c as int);
    }
    if first_longer {
        split_path(names_from(&left, c))
    } else if c >= n2 {
        let last = split_path(right);
        (SavePath::new(), last.1)
    } else {
        split_path(names_from(&right, c))
    }
}

} // verus!
