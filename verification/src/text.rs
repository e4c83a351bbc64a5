//! Character-level helpers on string slices: equality, first occurrence of
//! a character, splitting once at a separator, and prefix stripping.

use vstd::prelude::*;

verus! {

/// `<str as PartialEq>::eq`: claimed to return true exactly when the two
/// strings hold the same characters in the same order.
pub assume_specification[ <str as PartialEq>::eq ](a: &str, b: &str) -> (r: bool)
    ensures
        r == (a@ == b@),
;

/// The texts held by a list of strings.
pub open spec fn texts(list: Seq<String>) -> Seq<Seq<char>> {
    list.map_values(|s: String| s@)
}

/// The texts of a sequence of string slices.
pub open spec fn slice_texts(strs: Seq<&str>) -> Seq<Seq<char>> {
    strs.map_values(|t: &str| t@)
}

/// `i` is the position of the first `c` in `s`.
pub open spec fn is_first_occurrence(s: Seq<char>, c: char, i: int) -> bool {
    &&& 0 <= i < s.len()
    &&& s[i] == c
    &&& forall|j: int| 0 <= j < i ==> s[j] != c
}

/// The parts of `s` before and after its first `c`, if it has one.
pub open spec fn split_once_at(s: Seq<char>, c: char) -> Option<(Seq<char>, Seq<char>)> {
    if exists|i: int| is_first_occurrence(s, c, i) {
        let i = choose|i: int| is_first_occurrence(s, c, i);
        Some((s.take(i), s.skip(i + 1)))
    } else {
        None
    }
}

/// What remains of `s` after `prefix`, if `s` starts with `prefix`.
pub open spec fn strip_prefix_of(s: Seq<char>, prefix: Seq<char>) -> Option<Seq<char>> {
    if prefix.len() <= s.len() && s.take(prefix.len() as int) == prefix {
        Some(s.skip(prefix.len() as int))
    } else {
        None
    }
}

/// There is at most one first occurrence of a character.
pub proof fn first_occurrence_is_unique(s: Seq<char>, c: char, i: int, j: int)
    requires
        is_first_occurrence(s, c, i),
        is_first_occurrence(s, c, j),
    ensures
        i == j,
{
}

/// The position of the first `target` in `s`, counted in characters.
pub fn find_char(s: &str, target: char) -> (r: Option<usize>)
    ensures
        r is None ==> forall|j: int| 0 <= j < s@.len() ==> s@[j] != target,
        r matches Some(i) ==> is_first_occurrence(s@, target, i as int),
{
    let len = s.unicode_len();
    let mut i: usize = 0;
    for c in it: s.chars()
        invariant
            len == s@.len(),
            i == it.index(),
            it.seq() == s@,
            forall|j: int| 0 <= j < i ==> s@[j] != target,
    {
        if c == target {
            return Some(i);
        }
        i = i + 1;
    }
    None
}

/// Splits `s` at its first `sep`: the text before it and the text after it.
pub fn split_once<'a>(s: &'a str, sep: char) -> (r: Option<(&'a str, &'a str)>)
    ensures
        r is None <==> split_once_at(s@, sep) is None,
        r matches Some((head, tail)) ==> split_once_at(s@, sep) == Some((head@, tail@)),
{
    match find_char(s, sep) {
        None => {
            assert(!exists|i: int| is_first_occurrence(s@, sep, i));
            None
        },
        Some(i) => {
            let n = s.unicode_len();
            let head = s.substring_char(0, i);
            let tail = s.substring_char(i + 1, n);
            proof {
                let k = choose|k: int| is_first_occurrence(s@, sep, k);
                first_occurrence_is_unique(s@, sep, i as int, k);
            }
            Some((head, tail))
        },
    }
}

/// `s` without its leading `prefix`, if it starts with it.
pub fn strip_prefix<'a>(s: &'a str, prefix: &str) -> (r: Option<&'a str>)
    ensures
        r is None <==> strip_prefix_of(s@, prefix@) is None,
        r matches Some(rest) ==> strip_prefix_of(s@, prefix@) == Some(rest@),
{
    let n = s.unicode_len();
    let p = prefix.unicode_len();
    if p <= n {
        let head = s.substring_char(0, p);
        if *head == *prefix {
            let rest = s.substring_char(p, n);
            assert(s@.take(p as int) =~= head@);
            assert(s@.skip(p as int) =~= rest@);
            return Some(rest);
        }
    }
    None
}

/// The Unicode `White_Space` characters.
pub open spec fn white_space(c: char) -> bool {
    let n = c as int;
    ||| 0x09 <= n <= 0x0d
    ||| n == 0x20
    ||| n == 0x85
    ||| n == 0xa0
    ||| n == 0x1680
    ||| 0x2000 <= n <= 0x200a
    ||| n == 0x2028
    ||| n == 0x2029
    ||| n == 0x202f
    ||| n == 0x205f
    ||| n == 0x3000
}

/// `char::is_whitespace`: claimed to be true exactly for the characters
/// with the Unicode `White_Space` property, which `white_space` lists.
#[verifier::external_body]
pub fn is_whitespace(c: char) -> (b: bool)
    ensures
        b == white_space(c),
{
    c.is_whitespace()
}

/// `cur` as a token, if it is not empty.
pub open spec fn flushed(cur: Seq<char>) -> Seq<Seq<char>> {
    if cur.len() == 0 {
        Seq::empty()
    } else {
        seq![cur]
    }
}

/// The tokens of `s`, given the characters `cur` of a token already begun:
/// the maximal runs of non-whitespace characters, in order.
pub open spec fn split_from(s: Seq<char>, cur: Seq<char>) -> Seq<Seq<char>>
    decreases s.len(),
{
    if s.len() == 0 {
        flushed(cur)
    } else if white_space(s[0]) {
        flushed(cur) + split_from(s.drop_first(), Seq::empty())
    } else {
        split_from(s.drop_first(), cur.push(s[0]))
    }
}

/// The whitespace-separated tokens of a text: its maximal runs of
/// non-whitespace characters, in order.
pub open spec fn whitespace_tokens(s: Seq<char>) -> Seq<Seq<char>> {
    split_from(s, Seq::empty())
}

/// The whitespace-separated tokens of `text`, as slices of it.
pub fn split_whitespace(text: &str) -> (tokens: Vec<&str>)
    ensures
        slice_texts(tokens@) == whitespace_tokens(text@),
{
    let n = text.unicode_len();
    let mut tokens: Vec<&str> = Vec::new();
    let mut start: usize = 0;
    let mut i: usize = 0;
    assert(slice_texts(tokens@) =~= Seq::<Seq<char>>::empty());
    assert(text@.skip(0) =~= text@);
    assert(text@.subrange(0, 0) =~= Seq::<char>::empty());
    assert(Seq::<Seq<char>>::empty() + whitespace_tokens(text@) =~= whitespace_tokens(text@));
    for c in it: text.chars()
        invariant
            n == text@.len(),
            i == it.index(),
            it.seq() == text@,
            start <= i <= n,
            slice_texts(tokens@) + split_from(text@.skip(i as int), text@.subrange(start as int, i as int))
                == whitespace_tokens(text@),
    {
        let ghost rest = text@.skip(i as int);
        let ghost cur = text@.subrange(start as int, i as int);
        let ghost before = slice_texts(tokens@);
        assert(rest[0] == c);
        assert(rest.drop_first() =~= text@.skip(i + 1));
        if is_whitespace(c) {
            if start < i {
                let token = text.substring_char(start, i);
                tokens.push(token);
                assert(slice_texts(tokens@) =~= before + flushed(cur));
            } else {
                assert(cur =~= Seq::<char>::empty());
                assert(slice_texts(tokens@) =~= before + flushed(cur));
            }
            assert(before + flushed(cur) + split_from(text@.skip(i + 1), Seq::empty()) =~= before + (
            flushed(cur) + split_from(text@.skip(i + 1), Seq::empty())));
            start = i + 1;
            assert(text@.subrange(start as int, i + 1) =~= Seq::<char>::empty());
        } else {
            assert(cur.push(c) =~= text@.subrange(start as int, i + 1));
        }
        i = i + 1;
    }
    let ghost cur = text@.subrange(start as int, i as int);
    let ghost before = slice_texts(tokens@);
    assert(text@.skip(i as int) =~= Seq::<char>::empty());
    if start < i {
        let token = text.substring_char(start, i);
        tokens.push(token);
        assert(slice_texts(tokens@) =~= before + flushed(cur));
    } else {
        assert(cur =~= Seq::<char>::empty());
        assert(slice_texts(tokens@) =~= before + flushed(cur));
    }
    tokens
}

proof fn lemma_split_joined(a: Seq<char>, w: char, b: Seq<char>, cur: Seq<char>)
    requires
        white_space(w),
    ensures
        split_from(a + seq![w] + b, cur) == split_from(a, cur) + split_from(b, Seq::empty()),
    decreases a.len(),
{
    let joined = a + seq![w] + b;
    if a.len() == 0 {
        assert(joined =~= seq![w] + b);
        assert(joined.drop_first() =~= b);
        assert(split_from(a, cur) == flushed(cur));
    } else {
        assert(joined[0] == a[0]);
        assert(joined.drop_first() =~= a.drop_first() + seq![w] + b);
        if white_space(a[0]) {
            lemma_split_joined(a.drop_first(), w, b, Seq::empty());
            assert(flushed(cur) + (split_from(a.drop_first(), Seq::empty()) + split_from(b, Seq::empty()))
                =~= flushed(cur) + split_from(a.drop_first(), Seq::empty()) + split_from(b, Seq::empty()));
        } else {
            lemma_split_joined(a.drop_first(), w, b, cur.push(a[0]));
        }
    }
}

/// Joining two texts with a whitespace character joins their tokens.
pub proof fn tokens_of_joined_texts(a: Seq<char>, w: char, b: Seq<char>)
    requires
        white_space(w),
    ensures
        whitespace_tokens(a + seq![w] + b) == whitespace_tokens(a) + whitespace_tokens(b),
{
    lemma_split_joined(a, w, b, Seq::empty());
}

/// `s` without its leading whitespace.
pub open spec fn trim_start(s: Seq<char>) -> Seq<char>
    decreases s.len(),
{
    if s.len() > 0 && white_space(s[0]) {
        trim_start(s.drop_first())
    } else {
        s
    }
}

/// `s` without its trailing whitespace.
pub open spec fn trim_end(s: Seq<char>) -> Seq<char>
    decreases s.len(),
{
    if s.len() > 0 && white_space(s.last()) {
        trim_end(s.drop_last())
    } else {
        s
    }
}

/// `s` without its leading and trailing whitespace.
pub open spec fn trimmed(s: Seq<char>) -> Seq<char> {
    trim_end(trim_start(s))
}

proof fn lemma_trim_start_at(s: Seq<char>, i: int)
    requires
        0 <= i <= s.len(),
        forall|k: int| 0 <= k < i ==> white_space(#[trigger] s[k]),
        i < s.len() ==> !white_space(s[i]),
    ensures
        trim_start(s) == s.skip(i),
    decreases i,
{
    if i == 0 {
        assert(s.skip(0) =~= s);
    } else {
        let rest = s.drop_first();
        assert forall|k: int| 0 <= k < i - 1 implies white_space(#[trigger] rest[k]) by {
            assert(rest[k] == s[k + 1]);
        }
        assert(white_space(s[0]));
        lemma_trim_start_at(rest, i - 1);
        assert(rest.skip(i - 1) =~= s.skip(i));
    }
}

proof fn lemma_trim_end_at(s: Seq<char>, j: int)
    requires
        0 <= j <= s.len(),
        forall|k: int| j <= k < s.len() ==> white_space(#[trigger] s[k]),
        j > 0 ==> !white_space(s[j - 1]),
    ensures
        trim_end(s) == s.take(j),
    decreases s.len() - j,
{
    if j == s.len() {
        assert(s.take(j) =~= s);
    } else {
        let rest = s.drop_last();
        assert forall|k: int| j <= k < rest.len() implies white_space(#[trigger] rest[k]) by {
            assert(rest[k] == s[k]);
        }
        assert(white_space(s[s.len() - 1]));
        if j > 0 {
            assert(rest[j - 1] == s[j - 1]);
        }
        lemma_trim_end_at(rest, j);
        assert(rest.take(j) =~= s.take(j));
    }
}

/// `text` without leading and trailing whitespace.
pub fn trim(text: &str) -> (r: &str)
    ensures
        r@ == trimmed(text@),
{
    let n = text.unicode_len();
    let mut first: usize = n;
    let mut end: usize = 0;
    let mut i: usize = 0;
    for c in it: text.chars()
        invariant
            n == text@.len(),
            i == it.index(),
            it.seq() == text@,
            first <= n,
            end <= i,
            first == n ==> end == 0 && forall|k: int| 0 <= k < i ==> white_space(#[trigger] text@[k]),
            first < n ==> {
                &&& first < end <= i
                &&& forall|k: int| 0 <= k < first ==> white_space(#[trigger] text@[k])
                &&& !white_space(text@[first as int])
                &&& !white_space(text@[end - 1])
                &&& forall|k: int| end <= k < i ==> white_space(#[trigger] text@[k])
            },
    {
        assert(text@[i as int] == c);
        if !is_whitespace(c) {
            if first == n {
                first = i;
            }
            end = i + 1;
        }
        i = i + 1;
    }
    if first == n {
        proof {
            lemma_trim_start_at(text@, n as int);
            assert(text@.skip(n as int) =~= Seq::<char>::empty());
        }
        let r = text.substring_char(n, n);
        assert(r@ =~= Seq::<char>::empty());
        r
    } else {
        let r = text.substring_char(first, end);
        proof {
            lemma_trim_start_at(text@, first as int);
            let rest = text@.skip(first as int);
            assert forall|k: int| end - first <= k < rest.len() implies white_space(#[trigger] rest[k]) by {
                assert(rest[k] == text@[first + k]);
            }
            assert(rest[end - first - 1] == text@[end - 1]);
            lemma_trim_end_at(rest, end - first);
            assert(rest.take(end - first) =~= r@);
        }
        r
    }
}

} // verus!
