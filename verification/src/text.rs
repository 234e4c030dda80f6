//! Small operations on character strings that the path and policy logic share.

use vstd::prelude::*;
use vstd::string::*;

verus! {

/// The greatest index at which `c` occurs in `s`, or -1 where it does not occur.
pub open spec fn last_index_of(s: Seq<char>, c: char) -> int
    decreases s.len(),
{
    if s.len() == 0 {
        -1
    } else if s.last() == c {
        s.len() - 1
    } else {
        last_index_of(s.drop_last(), c)
    }
}

/// `last_index_of` is a position of `c`, and `c` does not occur behind it.
pub proof fn lemma_last_index_of(s: Seq<char>, c: char)
    ensures
        -1 <= last_index_of(s, c) < s.len(),
        last_index_of(s, c) >= 0 ==> s[last_index_of(s, c)] == c,
        forall|j: int| last_index_of(s, c) < j < s.len() ==> s[j] != c,
    decreases s.len(),
{
    if s.len() > 0 && s.last() != c {
        lemma_last_index_of(s.drop_last(), c);
        assert forall|j: int| last_index_of(s, c) < j < s.len() implies s[j] != c by {
            if j < s.len() - 1 {
                assert(s.drop_last()[j] == s[j]);
            }
        }
    }
}

/// A position `k` of `c` (or -1) behind which `c` does not occur is `last_index_of`.
pub proof fn lemma_last_index_is(s: Seq<char>, c: char, k: int)
    requires
        -1 <= k < s.len(),
        k >= 0 ==> s[k] == c,
        forall|j: int| k < j < s.len() ==> s[j] != c,
    ensures
        last_index_of(s, c) == k,
{
    lemma_last_index_of(s, c);
}

/// Whether `suffix` stands at the end of `text`.
pub open spec fn is_suffix(text: Seq<char>, suffix: Seq<char>) -> bool {
    suffix.len() <= text.len() && text.subrange(text.len() - suffix.len(), text.len() as int)
        == suffix
}

/// Finds the last occurrence of `c` in `s`.
pub fn find_last(s: &str, c: char) -> (r: Option<usize>)
    ensures
        match r {
            Some(k) => last_index_of(s@, c) == k && k < s@.len(),
            None => last_index_of(s@, c) == -1,
        },
{
    let n: usize = s.unicode_len();
    let mut found: Option<usize> = None;
    let mut i: usize = 0;
    while i < n
        invariant
            i <= n,
            n == s@.len(),
            match found {
                Some(k) => last_index_of(s@.subrange(0, i as int), c) == k,
                None => last_index_of(s@.subrange(0, i as int), c) == -1,
            },
        decreases n - i,
    {
        proof {
            let t = s@.subrange(0, i as int + 1);
            assert(t.drop_last() =~= s@.subrange(0, i as int));
            assert(t.last() == s@[i as int]);
        }
        if s.get_char(i) == c {
            found = Some(i);
        }
        i += 1;
    }
    proof {
        assert(s@.subrange(0, n as int) =~= s@);
        lemma_last_index_of(s@, c);
    }
    found
}

/// Tells whether `text` ends with `suffix`, character by character.
pub fn ends_with(text: &str, suffix: &str) -> (r: bool)
    ensures
        r == is_suffix(text@, suffix@),
{
    let n: usize = text.unicode_len();
    let m: usize = suffix.unicode_len();
    if m > n {
        return false;
    }
    let off: usize = n - m;
    let mut i: usize = 0;
    while i < m
        invariant
            i <= m,
            m <= n,
            off == n - m,
            n == text@.len(),
            m == suffix@.len(),
            forall|j: int| 0 <= j < i ==> text@[off + j] == suffix@[j],
        decreases m - i,
    {
        if text.get_char(off + i) != suffix.get_char(i) {
            proof {
                let tail = text@.subrange(n - m, n as int);
                assert(tail[i as int] == text@[off + i]);
            }
            return false;
        }
        i += 1;
    }
    proof {
        assert(text@.subrange(n - m, n as int) =~= suffix@);
    }
    true
}

/// Tells whether two texts are the same.
pub fn same_text(a: &str, b: &str) -> (r: bool)
    ensures
        r == (a@ == b@),
{
    let n: usize = a.unicode_len();
    if n != b.unicode_len() {
        return false;
    }
    let mut i: usize = 0;
    while i < n
        invariant
            i <= n,
            n == a@.len(),
            n == b@.len(),
            forall|j: int| 0 <= j < i ==> a@[j] == b@[j],
        decreases n - i,
    {
        if a.get_char(i) != b.get_char(i) {
            return false;
        }
        i += 1;
    }
    assert(a@ =~= b@);
    true
}

/// Whether a character is white space, as `char::is_whitespace` tells.
pub uninterp spec fn is_white_space(c: char) -> bool;

/// `char::is_whitespace` of std tells whether a character has the Unicode
/// property White_Space. Nothing is proved of it: the contract only names
/// its result.
pub assume_specification[ char::is_whitespace ](c: char) -> (r: bool)
    ensures
        r == is_white_space(c),
;

/// `s` without the white space at its start.
pub open spec fn trim_blank_front(s: Seq<char>) -> Seq<char>
    decreases s.len(),
{
    if s.len() > 0 && is_white_space(s[0]) {
        trim_blank_front(s.skip(1))
    } else {
        s
    }
}

/// `s` without the white space at its end.
pub open spec fn trim_blank_back(s: Seq<char>) -> Seq<char>
    decreases s.len(),
{
    if s.len() > 0 && is_white_space(s.last()) {
        trim_blank_back(s.drop_last())
    } else {
        s
    }
}

/// `s` without the white space at its start and at its end.
pub open spec fn trim_blank(s: Seq<char>) -> Seq<char> {
    trim_blank_back(trim_blank_front(s))
}

/// Removes the white space from the start and from the end of `s`.
pub fn trim(s: &str) -> (r: String)
    ensures
        r@ == trim_blank(s@),
{
    let n: usize = s.unicode_len();
    let mut a: usize = 0;
    assert(s@.skip(0) =~= s@);
    while a < n && s.get_char(a).is_whitespace()
        invariant
            a <= n,
            n == s@.len(),
            trim_blank_front(s@) == trim_blank_front(s@.skip(a as int)),
        decreases n - a,
    {
        proof {
            assert(s@.skip(a as int).skip(1) =~= s@.skip(a as int + 1));
        }
        a += 1;
    }
    let ghost front = s@.skip(a as int);
    assert(trim_blank_front(s@) == front);
    let mut b: usize = n;
    assert(s@.subrange(a as int, n as int) =~= front);
    while b > a && s.get_char(b - 1).is_whitespace()
        invariant
            a <= b <= n,
            n == s@.len(),
            front == s@.skip(a as int),
            trim_blank_back(front) == trim_blank_back(s@.subrange(a as int, b as int)),
        decreases b,
    {
        proof {
            assert(s@.subrange(a as int, b as int).drop_last() =~= s@.subrange(
                a as int,
                b as int - 1,
            ));
        }
        b -= 1;
    }
    s.substring_char(a, b).to_owned()
}

} // verus!
