//! Paths as component sequences.
//!
//! A path is held as a root flag and the names that follow, in order. Two
//! paths are the same path exactly when flag and names agree, so that
//! `/a//b/` and `/a/b` are one path. Text uses `/` as its separator.

use crate::text::{find_last, last_index_of, lemma_last_index_is, lemma_last_index_of};
use vstd::prelude::*;
use vstd::string::*;

verus! {

/// What a path is: whether it starts at the root, and its names in order.
pub ghost struct PathModel {
    pub rooted: bool,
    pub names: Seq<Seq<char>>,
}

impl PathModel {
    /// The path without any name: the root itself, or the empty relative path.
    pub open spec fn bare(rooted: bool) -> PathModel {
        PathModel { rooted, names: Seq::empty() }
    }

    /// The ancestor that keeps the first `n` names.
    pub open spec fn ancestor(self, n: int) -> PathModel {
        PathModel { rooted: self.rooted, names: self.names.take(n) }
    }

    /// Whether `self` is `p` or lies above it.
    pub open spec fn contains_path(self, p: PathModel) -> bool {
        self.names.len() <= p.names.len() && p.ancestor(self.names.len() as int) == self
    }

    /// The number of components, the root counted as one.
    pub open spec fn count(self) -> int {
        self.names.len() + if self.rooted { 1int } else { 0int }
    }

    /// `other` appended to `self`; a rooted `other` takes the place of `self`.
    pub open spec fn join(self, other: PathModel) -> PathModel {
        if other.rooted {
            other
        } else {
            PathModel { rooted: self.rooted, names: self.names + other.names }
        }
    }

    /// Whether the last component names a file or directory (not `.` or `..`).
    pub open spec fn has_file_name(self) -> bool {
        self.names.len() > 0 && self.names.last() != seq!['.'] && self.names.last() != seq![
            '.',
            '.',
        ]
    }

    /// The extension of the last component: what follows its last dot,
    /// where that dot is not the name's first character.
    pub open spec fn extension(self) -> Option<Seq<char>> {
        if self.has_file_name() {
            name_extension(self.names.last())
        } else {
            None
        }
    }

    /// The path with the extension of its last component replaced by `ext`;
    /// an empty `ext` leaves the stem alone. A path without a file name stays as it is.
    pub open spec fn with_extension(self, ext: Seq<char>) -> PathModel {
        if self.has_file_name() {
            let stem = name_stem(self.names.last());
            let name = if ext.len() == 0 {
                stem
            } else {
                stem + seq!['.'] + ext
            };
            PathModel { rooted: self.rooted, names: self.names.drop_last().push(name) }
        } else {
            self
        }
    }

    /// The path as text.
    pub open spec fn text(self) -> Seq<char> {
        if self.rooted {
            seq!['/'] + join_names(self.names)
        } else {
            join_names(self.names)
        }
    }
}

/// What follows the last dot of `name`, unless `name` has no dot or only a leading one.
pub open spec fn name_extension(name: Seq<char>) -> Option<Seq<char>> {
    let k = last_index_of(name, '.');
    if 0 < k < name.len() {
        Some(name.subrange(k + 1, name.len() as int))
    } else {
        None
    }
}

/// What stands before the last dot of `name`; all of `name` where it has no extension.
pub open spec fn name_stem(name: Seq<char>) -> Seq<char> {
    let k = last_index_of(name, '.');
    if 0 < k < name.len() {
        name.subrange(0, k)
    } else {
        name
    }
}

/// The names joined by single separators.
pub open spec fn join_names(names: Seq<Seq<char>>) -> Seq<char>
    decreases names.len(),
{
    if names.len() == 0 {
        Seq::empty()
    } else if names.len() == 1 {
        names[0]
    } else {
        join_names(names.drop_last()) + seq!['/'] + names.last()
    }
}

/// Whether a segment between two separators is a component: an empty one is
/// not, and a single dot is one only at the very start of the text.
pub open spec fn keeps_segment(seg: Seq<char>, first: bool) -> bool {
    seg.len() > 0 && (first || seg != seq!['.'])
}

/// The names that a text holds, read from its last segment backwards.
pub open spec fn names_of(s: Seq<char>) -> Seq<Seq<char>>
    decreases s.len(),
{
    if s.len() == 0 {
        Seq::empty()
    } else {
        let k = last_index_of(s, '/');
        let seg = s.subrange(k + 1, s.len() as int);
        let before = if 0 <= k < s.len() {
            names_of(s.subrange(0, k))
        } else {
            Seq::empty()
        };
        if keeps_segment(seg, k < 0) {
            before.push(seg)
        } else {
            before
        }
    }
}

/// The path that a text denotes.
pub open spec fn path_of(s: Seq<char>) -> PathModel {
    PathModel { rooted: s.len() > 0 && s[0] == '/', names: names_of(s) }
}

/// The views of a vector of names.
pub open spec fn names_view(v: Seq<String>) -> Seq<Seq<char>> {
    Seq::new(v.len(), |i: int| v[i]@)
}

/// The names of `s[..end]`, given that its last segment starts at `start`.
proof fn lemma_names_step(s: Seq<char>, start: int, end: int)
    requires
        0 <= start <= end <= s.len(),
        end > 0,
        start > 0 ==> s[start - 1] == '/',
        forall|j: int| start <= j < end ==> s[j] != '/',
    ensures
        names_of(s.subrange(0, end)) == ({
            let seg = s.subrange(start, end);
            let before = if start > 0 {
                names_of(s.subrange(0, start - 1))
            } else {
                Seq::empty()
            };
            if keeps_segment(seg, start == 0) {
                before.push(seg)
            } else {
                before
            }
        }),
{
    let t = s.subrange(0, end);
    lemma_last_index_is(t, '/', start - 1);
    assert(t.subrange(start, end) =~= s.subrange(start, end));
    if start > 0 {
        assert(t.subrange(0, start - 1) =~= s.subrange(0, start - 1));
    }
}

/// Whether a name can stand in a path: it is not empty and holds no separator.
pub open spec fn name_ok(n: Seq<char>) -> bool {
    n.len() > 0 && forall|i: int| 0 <= i < n.len() ==> n[i] != '/'
}

/// Whether a path is one that a text denotes: every name can stand in a
/// path, and a single dot stands only at the start of a relative path.
pub open spec fn denotable(p: PathModel) -> bool {
    forall|i: int|
        0 <= i < p.names.len() ==> name_ok(#[trigger] p.names[i]) && (p.names[i] == seq!['.'] ==> i
            == 0 && !p.rooted)
}

/// Every text denotes a path of that kind.
pub proof fn lemma_path_of_denotable(s: Seq<char>)
    ensures
        denotable(path_of(s)),
    decreases s.len(),
{
    if s.len() > 0 {
        let k = last_index_of(s, '/');
        lemma_last_index_of(s, '/');
        let seg = s.subrange(k + 1, s.len() as int);
        let front = s.subrange(0, k);
        let before = if 0 <= k {
            names_of(front)
        } else {
            Seq::empty()
        };
        if 0 <= k {
            lemma_path_of_denotable(front);
            if k > 0 {
                assert(front[0] == s[0]);
            }
        }
        let p = path_of(s);
        assert forall|i: int| 0 <= i < p.names.len() implies name_ok(#[trigger] p.names[i]) && (
        p.names[i] == seq!['.'] ==> i == 0 && !p.rooted) by {
            if i < before.len() {
                assert(p.names[i] == before[i]);
                assert(path_of(front).names[i] == before[i]);
            } else {
                assert(p.names[i] == seg);
                assert forall|j: int| 0 <= j < seg.len() implies seg[j] != '/' by {
                    assert(seg[j] == s[k + 1 + j]);
                }
                if seg == seq!['.'] {
                    assert(k < 0);
                    assert(seg[0] == '.');
                    assert(s[0] == seg[0]);
                }
            }
        }
    }
}

/// The names joined start with the first character of the first name.
proof fn lemma_join_names_head(names: Seq<Seq<char>>)
    requires
        names.len() > 0,
        forall|i: int| 0 <= i < names.len() ==> name_ok(#[trigger] names[i]),
    ensures
        join_names(names).len() > 0,
        join_names(names)[0] == names[0][0],
    decreases names.len(),
{
    if names.len() > 1 {
        let front = names.drop_last();
        assert forall|i: int| 0 <= i < front.len() implies name_ok(#[trigger] front[i]) by {
            assert(front[i] == names[i]);
        }
        lemma_join_names_head(front);
        assert(front[0] == names[0]);
    }
}

/// Writing a path as text and reading the text again gives the path back,
/// for every path that a text denotes.
pub proof fn lemma_text_round_trip(p: PathModel)
    requires
        denotable(p),
    ensures
        path_of(p.text()) == p,
    decreases p.names.len(),
{
    let n = p.names.len() as int;
    let root: Seq<char> = if p.rooted {
        seq!['/']
    } else {
        Seq::empty()
    };
    let text = p.text();
    assert(text =~= root + join_names(p.names));
    if n == 0 {
        assert(text =~= root);
        if p.rooted {
            assert(text.last() == '/');
            assert(text.subrange(1, 1) =~= Seq::<char>::empty());
            assert(text.subrange(0, 0).len() == 0);
            assert(names_of(text.subrange(0, 0)) =~= Seq::<Seq<char>>::empty());
            assert(names_of(text) =~= Seq::<Seq<char>>::empty());
        }
        assert(path_of(text).names =~= p.names);
    } else {
        let last = p.names.last();
        let front = p.ancestor(n - 1);
        assert(name_ok(p.names[n - 1]));
        assert forall|i: int| 0 <= i < front.names.len() implies name_ok(#[trigger] front.names[i])
            && (front.names[i] == seq!['.'] ==> i == 0 && !front.rooted) by {
            assert(front.names[i] == p.names[i]);
        }
        assert(front.names =~= p.names.drop_last());
        lemma_text_round_trip(front);
        let head = front.text();
        assert(head =~= root + join_names(front.names));
        lemma_join_names_head(p.names);
        if n == 1 && !p.rooted {
            assert(join_names(front.names) =~= Seq::<char>::empty());
            assert(text =~= last);
            lemma_last_index_is(text, '/', -1);
            assert(text.subrange(0, text.len() as int) =~= text);
            assert(names_of(text) =~= seq![last]);
            assert(path_of(text).names =~= p.names);
        } else {
            let k = head.len() as int;
            if n == 1 {
                assert(join_names(front.names) =~= Seq::<char>::empty());
                assert(head =~= seq!['/']);
                assert(text =~= head + last);
                assert(text[k - 1] == '/');
                lemma_last_index_is(text, '/', k - 1);
                assert(text.subrange(k, text.len() as int) =~= last);
                assert(text.subrange(0, k - 1) =~= Seq::<char>::empty());
                assert(text.subrange(0, k - 1).len() == 0);
                assert(names_of(text.subrange(0, k - 1)) =~= Seq::<Seq<char>>::empty());
                assert(last != seq!['.']);
                assert(names_of(text) =~= seq![last]);
            } else {
                assert(text =~= head + seq!['/'] + last);
                assert(text[k] == '/');
                assert forall|j: int| k < j < text.len() implies text[j] != '/' by {
                    assert(text[j] == last[j - k - 1]);
                }
                lemma_last_index_is(text, '/', k);
                assert(text.subrange(k + 1, text.len() as int) =~= last);
                assert(text.subrange(0, k) =~= head);
                assert(last != seq!['.']);
                assert(names_of(head) == front.names);
                assert(names_of(text) =~= front.names.push(last));
            }
            assert(path_of(text).names =~= p.names);
        }
        assert(text.len() > 0);
        if !p.rooted {
            assert(text[0] == p.names[0][0]);
        }
    }
}

/// A path: a root flag and the names below it.
#[derive(Debug, PartialEq, Eq)]
pub struct SavePath {
    pub rooted: bool,
    pub names: Vec<String>,
}

impl View for SavePath {
    type V = PathModel;

    open spec fn view(&self) -> PathModel {
        PathModel { rooted: self.rooted, names: names_view(self.names@) }
    }
}

impl Clone for SavePath {
    fn clone(&self) -> (r: Self)
        ensures
            r@ == self@,
    {
        let r = self.prefix(self.names.len());
        assert(self@.names.take(self.names.len() as int) =~= self@.names);
        r
    }
}

impl SavePath {
    /// The empty relative path.
    pub fn new() -> (r: SavePath)
        ensures
            r@ == PathModel::bare(false),
    {
        let r = SavePath { rooted: false, names: Vec::new() };
        assert(r@.names =~= Seq::empty());
        r
    }

    /// The ancestor that keeps the first `n` names.
    pub fn prefix(&self, n: usize) -> (r: SavePath)
        requires
            n <= self.names.len(),
        ensures
            r@ == self@.ancestor(n as int),
    {
        let mut names: Vec<String> = Vec::new();
        let mut i: usize = 0;
        while i < n
            invariant
                i <= n <= self.names.len(),
                names.len() == i,
                forall|j: int| 0 <= j < i ==> names[j]@ == self.names[j]@,
            decreases n - i,
        {
            names.push(self.names[i].clone());
            i += 1;
        }
        let r = SavePath { rooted: self.rooted, names };
        assert(r@.names =~= self@.names.take(n as int));
        r
    }

    /// Appends the segment `s[start..end]` to `names` where it is a component.
    fn push_segment(s: &str, names: &mut Vec<String>, start: usize, end: usize)
        requires
            start <= end <= s@.len(),
        ensures
            names_view(final(names)@) == ({
                let seg = s@.subrange(start as int, end as int);
                if keeps_segment(seg, start == 0) {
                    names_view(old(names)@).push(seg)
                } else {
                    names_view(old(names)@)
                }
            }),
    {
        let ghost seg = s@.subrange(start as int, end as int);
        let ghost before = names_view(names@);
        let single_dot = end - start == 1 && s.get_char(start) == '.';
        proof {
            assert(seg.len() == end - start);
            if single_dot {
                assert(seg =~= seq!['.']);
            } else if seg == seq!['.'] {
                assert(seg[0] == s@[start as int]);
            }
        }
        if end > start && (start == 0 || !single_dot) {
            let name = s.substring_char(start, end).to_owned();
            names.push(name);
            assert(names_view(names@) =~= before.push(seg));
        }
    }

    /// Reads a path from text: components are the non-empty segments between
    /// separators, a single dot counting only at the start.
    pub fn from_text(s: &str) -> (r: SavePath)
        ensures
            r@ == path_of(s@),
            denotable(r@),
    {
        proof {
            lemma_path_of_denotable(s@);
        }
        let n: usize = s.unicode_len();
        if n == 0 {
            return SavePath::new();
        }
        let rooted = s.get_char(0) == '/';
        let mut names: Vec<String> = Vec::new();
        let mut start: usize = 0;
        let mut i: usize = 0;
        while i < n
            invariant
                start <= i <= n,
                n == s@.len(),
                start > 0 ==> s@[start - 1] == '/',
                forall|j: int| start <= j < i ==> s@[j] != '/',
                names_view(names@) == if start > 0 {
                    names_of(s@.subrange(0, start - 1))
                } else {
                    Seq::empty()
                },
            decreases n - i,
        {
            if s.get_char(i) == '/' {
                Self::push_segment(s, &mut names, start, i);
                proof {
                    if i > 0 {
                        lemma_names_step(s@, start as int, i as int);
                    } else {
                        assert(s@.subrange(0, 0).len() == 0);
                    }
                }
                start = i + 1;
            }
            i += 1;
        }
        Self::push_segment(s, &mut names, start, n);
        proof {
            lemma_names_step(s@, start as int, n as int);
            assert(s@.subrange(0, n as int) =~= s@);
        }
        SavePath { rooted, names }
    }

    /// Writes the path as text: the names joined by separators, behind a
    /// leading separator where the path is rooted.
    pub fn to_text(&self) -> (r: String)
        ensures
            r@ == self@.text(),
    {
        let mut out = String::new();
        proof {
            reveal_strlit("/");
            assert("/"@ =~= seq!['/']);
        }
        if self.rooted {
            out.append("/");
        }
        let ghost head = out@;
        let mut i: usize = 0;
        while i < self.names.len()
            invariant
                i <= self.names.len(),
                "/"@ == seq!['/'],
                out@ == head + join_names(self@.names.take(i as int)),
            decreases self.names.len() - i,
        {
            let ghost cur = self@.names.take(i as int + 1);
            proof {
                assert(cur.drop_last() =~= self@.names.take(i as int));
                assert(cur.last() == self.names[i as int]@);
            }
            if i > 0 {
                out.append("/");
            } else {
                assert(join_names(self@.names.take(0)) =~= Seq::empty());
            }
            out.append(self.names[i].as_str());
            assert(out@ =~= head + join_names(cur));
            i += 1;
        }
        proof {
            assert(self@.names.take(self.names.len() as int) =~= self@.names);
            assert(head + join_names(self@.names) =~= self@.text());
        }
        out
    }

    /// Tells whether two paths are the same path.
    pub fn same_as(&self, other: &SavePath) -> (r: bool)
        ensures
            r == (self@ == other@),
    {
        if self.rooted != other.rooted || self.names.len() != other.names.len() {
            assert(self@.names.len() == self.names.len());
            assert(other@.names.len() == other.names.len());
            return false;
        }
        let mut i: usize = 0;
        while i < self.names.len()
            invariant
                i <= self.names.len(),
                self.names.len() == other.names.len(),
                forall|j: int| 0 <= j < i ==> self.names[j]@ == other.names[j]@,
            decreases self.names.len() - i,
        {
            if self.names[i] != other.names[i] {
                assert(self@.names[i as int] != other@.names[i as int]);
                return false;
            }
            i += 1;
        }
        assert(self@.names =~= other@.names);
        true
    }

    /// The path one level up; none for the root and for the empty path.
    pub fn parent(&self) -> (r: Option<SavePath>)
        ensures
            match r {
                Some(p) => self@.names.len() > 0 && p@ == self@.ancestor(self@.names.len() - 1),
                None => self@.names.len() == 0,
            },
    {
        if self.names.len() == 0 {
            None
        } else {
            Some(self.prefix(self.names.len() - 1))
        }
    }

    /// `other` appended to this path; a rooted `other` takes its place.
    pub fn join(&self, other: &SavePath) -> (r: SavePath)
        ensures
            r@ == self@.join(other@),
    {
        if other.rooted {
            return other.clone();
        }
        let mut r = self.clone();
        let mut i: usize = 0;
        while i < other.names.len()
            invariant
                i <= other.names.len(),
                r.rooted == self.rooted,
                names_view(r.names@) == self@.names + other@.names.take(i as int),
            decreases other.names.len() - i,
        {
            let ghost before = names_view(r.names@);
            r.names.push(other.names[i].clone());
            assert(names_view(r.names@) =~= before.push(other.names[i as int]@));
            assert(other@.names.take(i as int + 1) =~= other@.names.take(i as int).push(
                other.names[i as int]@,
            ));
            assert(names_view(r.names@) =~= self@.names + other@.names.take(i as int + 1));
            i += 1;
        }
        assert(other@.names.take(other.names.len() as int) =~= other@.names);
        r
    }

    /// Tells whether the last component names a file or directory.
    pub fn has_file_name(&self) -> (r: bool)
        ensures
            r == self@.has_file_name(),
    {
        let n: usize = self.names.len();
        if n == 0 {
            return false;
        }
        let last = self.names[n - 1].as_str();
        let len: usize = last.unicode_len();
        let ghost l = last@;
        assert(l == self@.names.last());
        if len == 1 && last.get_char(0) == '.' {
            assert(l =~= seq!['.']);
            return false;
        }
        if len == 2 && last.get_char(0) == '.' && last.get_char(1) == '.' {
            assert(l =~= seq!['.', '.']);
            return false;
        }
        proof {
            if l == seq!['.'] {
                assert(l.len() == 1 && l[0] == '.');
            }
            if l == seq!['.', '.'] {
                assert(l.len() == 2 && l[0] == '.' && l[1] == '.');
            }
        }
        true
    }

    /// The extension of the last component, where it has one.
    pub fn extension(&self) -> (r: Option<String>)
        ensures
            match r {
                Some(e) => self@.extension() == Some(e@),
                None => self@.extension().is_none(),
            },
    {
        if !self.has_file_name() {
            return None;
        }
        let last = self.names[self.names.len() - 1].as_str();
        assert(last@ == self@.names.last());
        let n: usize = last.unicode_len();
        match find_last(last, '.') {
            Some(k) => {
                if k > 0 {
                    Some(last.substring_char(k + 1, n).to_owned())
                } else {
                    None
                }
            },
            None => None,
        }
    }

    /// Replaces the extension of the last component by `ext`. Returns false,
    /// and changes nothing, where the path has no file name.
    pub fn set_extension(&mut self, ext: &str) -> (r: bool)
        ensures
            r == old(self)@.has_file_name(),
            final(self)@ == old(self)@.with_extension(ext@),
    {
        if !self.has_file_name() {
            return false;
        }
        let ghost before = self@;
        let last = self.names.pop().unwrap();
        assert(last@ == before.names.last());
        assert(names_view(self.names@) =~= before.names.drop_last());
        let n: usize = last.as_str().unicode_len();
        let mut name = match find_last(last.as_str(), '.') {
            Some(k) => {
                if k > 0 {
                    last.as_str().substring_char(0, k).to_owned()
                } else {
                    last
                }
            },
            None => last,
        };
        assert(name@ == name_stem(before.names.last()));
        if ext.unicode_len() > 0 {
            proof {
                reveal_strlit(".");
                assert("."@ =~= seq!['.']);
            }
            name.append(".");
            name.append(ext);
        }
        let ghost full = name@;
        self.names.push(name);
        assert(names_view(self.names@) =~= before.names.drop_last().push(full));
        true
    }
}

} // verus!
