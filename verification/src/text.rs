//! Character-level helpers on strings.
//!
//! Every function here is stated over the string's view, a `Seq<char>`, so that the
//! rules built on top of them (link filters, title trimming, URL shapes) can be read
//! as plain statements about sequences of characters.

use vstd::prelude::*;
use vstd::string::*;

verus! {

/// Index of the first occurrence of `c` in `s` at or after `from`; `s.len()` when there is none.
pub open spec fn first_index(s: Seq<char>, c: char, from: int) -> int
    decreases s.len() - from,
{
    if from < 0 || from >= s.len() {
        s.len() as int
    } else if s[from] == c {
        from
    } else {
        first_index(s, c, from + 1)
    }
}

/// Index of the last occurrence of `c` in `s` strictly before `upto`; `-1` when there is none.
pub open spec fn last_index(s: Seq<char>, c: char, upto: int) -> int
    decreases upto,
{
    if upto <= 0 || upto > s.len() {
        -1
    } else if s[upto - 1] == c {
        upto - 1
    } else {
        last_index(s, c, upto - 1)
    }
}

/// The part of `s` before the first `c`; all of `s` when `c` does not occur.
pub open spec fn before_first(s: Seq<char>, c: char) -> Seq<char> {
    s.take(first_index(s, c, 0))
}

/// The part of `s` after the last `c`; all of `s` when `c` does not occur.
pub open spec fn after_last(s: Seq<char>, c: char) -> Seq<char> {
    s.skip(last_index(s, c, s.len() as int) + 1)
}

/// `pattern` occurs in `s` as a contiguous run of characters.
pub open spec fn occurs_in(pattern: Seq<char>, s: Seq<char>) -> bool {
    exists|i: int| occurs_at(pattern, s, i)
}

/// `pattern` occurs in `s` starting at index `i`.
pub open spec fn occurs_at(pattern: Seq<char>, s: Seq<char>, i: int) -> bool {
    0 <= i && i + pattern.len() <= s.len() && s.subrange(i, i + pattern.len()) == pattern
}

/// White space as Unicode defines it: the characters that it marks `White_Space`.
pub open spec fn is_white_space(c: char) -> bool {
    let n = c as int;
    (0x09 <= n && n <= 0x0d) || n == 0x20 || n == 0x85 || n == 0xa0 || n == 0x1680 || (0x2000 <= n
        && n <= 0x200a) || n == 0x2028 || n == 0x2029 || n == 0x202f || n == 0x205f || n == 0x3000
}

/// Number of leading white-space characters of `s`, counted from index `from`.
pub open spec fn leading_space(s: Seq<char>, from: int) -> int
    decreases s.len() - from,
{
    if from < 0 || from >= s.len() || !is_white_space(s[from]) {
        0
    } else {
        1 + leading_space(s, from + 1)
    }
}

/// Number of trailing white-space characters of `s`, counted backwards from `upto`.
pub open spec fn trailing_space(s: Seq<char>, upto: int) -> int
    decreases upto,
{
    if upto <= 0 || upto > s.len() || !is_white_space(s[upto - 1]) {
        0
    } else {
        1 + trailing_space(s, upto - 1)
    }
}

/// `s` without its leading and trailing white space.
pub open spec fn trimmed(s: Seq<char>) -> Seq<char> {
    let rest = s.skip(leading_space(s, 0));
    rest.take(rest.len() - trailing_space(rest, rest.len() as int))
}

/// The view of an optional string.
pub open spec fn optional_view(text: Option<String>) -> Option<Seq<char>> {
    match text {
        Some(s) => Some(s@),
        None => None,
    }
}

/// The views of a sequence of strings.
pub open spec fn texts_view(texts: Seq<String>) -> Seq<Seq<char>> {
    texts.map_values(|text: String| text@)
}

/// The characters of `s`, in order, as a vector that can be indexed in constant time.
pub fn chars_of(s: &str) -> (out: Vec<char>)
    ensures
        out@ == s@,
{
    let mut out: Vec<char> = Vec::new();
    let chars = s.chars();
    for c in it: chars
        invariant
            it.seq() == s@,
            out@ == s@.take(it.index()),
    {
        out.push(c);
    }
    out
}

/// Whether `c` is white space.
pub fn char_is_white_space(c: char) -> (r: bool)
    ensures
        r == is_white_space(c),
{
    let n: u32 = c as u32;
    (0x09 <= n && n <= 0x0d) || n == 0x20 || n == 0x85 || n == 0xa0 || n == 0x1680 || (0x2000 <= n
        && n <= 0x200a) || n == 0x2028 || n == 0x2029 || n == 0x202f || n == 0x205f || n == 0x3000
}

/// Whether `s` begins with `prefix`.
pub fn starts_with(s: &str, prefix: &str) -> (r: bool)
    ensures
        r == prefix@.is_prefix_of(s@),
{
    let text = chars_of(s);
    let wanted = chars_of(prefix);
    if wanted.len() > text.len() {
        return false;
    }
    let mut i: usize = 0;
    while i < wanted.len()
        invariant
            text@ == s@,
            wanted@ == prefix@,
            wanted.len() <= text.len(),
            i <= wanted.len(),
            forall|j: int| 0 <= j < i ==> text[j] == wanted[j],
        decreases wanted.len() - i,
    {
        if text[i] != wanted[i] {
            assert(s@.subrange(0, prefix@.len() as int)[i as int] != prefix@[i as int]);
            return false;
        }
        i += 1;
    }
    assert(prefix@ =~= s@.subrange(0, prefix@.len() as int));
    true
}

/// Whether `s` ends with `suffix`.
pub fn ends_with(s: &str, suffix: &str) -> (r: bool)
    ensures
        r == suffix@.is_suffix_of(s@),
{
    let text = chars_of(s);
    let wanted = chars_of(suffix);
    if wanted.len() > text.len() {
        return false;
    }
    let shift: usize = text.len() - wanted.len();
    let mut i: usize = 0;
    while i < wanted.len()
        invariant
            text@ == s@,
            wanted@ == suffix@,
            wanted.len() <= text.len(),
            shift == text.len() - wanted.len(),
            i <= wanted.len(),
            forall|j: int| 0 <= j < i ==> text[shift + j] == wanted[j],
        decreases wanted.len() - i,
    {
        if text[shift + i] != wanted[i] {
            assert(s@.subrange(shift as int, s@.len() as int)[i as int] != suffix@[i as int]);
            return false;
        }
        i += 1;
    }
    assert(suffix@ =~= s@.subrange(shift as int, s@.len() as int));
    true
}

/// Whether `pattern` occurs somewhere in `s`.
pub fn contains_text(s: &str, pattern: &str) -> (r: bool)
    ensures
        r == occurs_in(pattern@, s@),
{
    let text = chars_of(s);
    let wanted = chars_of(pattern);
    if wanted.len() > text.len() {
        assert forall|i: int| !occurs_at(pattern@, s@, i) by {}
        return false;
    }
    let last: usize = text.len() - wanted.len();
    let mut start: usize = 0;
    while start <= last
        invariant
            text@ == s@,
            wanted@ == pattern@,
            wanted.len() <= text.len(),
            last == text.len() - wanted.len(),
            start <= last + 1,
            forall|i: int| 0 <= i < start ==> !occurs_at(pattern@, s@, i),
        decreases last + 1 - start,
    {
        let mut k: usize = 0;
        while k < wanted.len() && text[start + k] == wanted[k]
            invariant
                text@ == s@,
                wanted@ == pattern@,
                start <= last,
                last == text.len() - wanted.len(),
                k <= wanted.len(),
                forall|j: int| 0 <= j < k ==> text[start + j] == wanted[j],
            decreases wanted.len() - k,
        {
            k += 1;
        }
        if k == wanted.len() {
            assert(s@.subrange(start as int, start + pattern@.len()) =~= pattern@);
            assert(occurs_at(pattern@, s@, start as int));
            return true;
        }
        assert(s@.subrange(start as int, start + pattern@.len())[k as int] != pattern@[k as int]);
        start += 1;
    }
    assert forall|i: int| !occurs_at(pattern@, s@, i) by {}
    false
}

/// Whether the character `c` occurs in `s`.
pub fn contains_char(s: &str, c: char) -> (r: bool)
    ensures
        r == s@.contains(c),
{
    let text = chars_of(s);
    let at = find_first(&text, c);
    at < text.len()
}

/// The index of the first `c` in `text`, or `text.len()` when `c` does not occur.
pub fn find_first(text: &Vec<char>, c: char) -> (at: usize)
    ensures
        at == first_index(text@, c, 0),
        at <= text.len(),
        forall|j: int| 0 <= j < at ==> text[j] != c,
        at < text.len() ==> text[at as int] == c,
{
    let mut i: usize = 0;
    while i < text.len() && text[i] != c
        invariant
            i <= text.len(),
            first_index(text@, c, 0) == first_index(text@, c, i as int),
            forall|j: int| 0 <= j < i ==> text[j] != c,
        decreases text.len() - i,
    {
        i += 1;
    }
    i
}

/// One more than the index of the last `c` in `text`, or `0` when `c` does not occur.
pub fn find_after_last(text: &Vec<char>, c: char) -> (after: usize)
    ensures
        after == last_index(text@, c, text@.len() as int) + 1,
        after <= text.len(),
        forall|j: int| after <= j < text.len() ==> text[j] != c,
        after > 0 ==> text[after - 1] == c,
{
    let mut i: usize = text.len();
    while i > 0 && text[i - 1] != c
        invariant
            i <= text.len(),
            last_index(text@, c, text@.len() as int) == last_index(text@, c, i as int),
            forall|j: int| i <= j < text.len() ==> text[j] != c,
        decreases i,
    {
        i -= 1;
    }
    i
}

/// The part of `s` before its first `c`.
pub fn take_before(s: &str, c: char) -> (out: String)
    ensures
        out@ == before_first(s@, c),
{
    let text = chars_of(s);
    let at = find_first(&text, c);
    s.substring_char(0, at).to_owned()
}

/// The part of `s` after its last `c`.
pub fn take_after_last(s: &str, c: char) -> (out: String)
    ensures
        out@ == after_last(s@, c),
{
    let text = chars_of(s);
    let after = find_after_last(&text, c);
    s.substring_char(after, text.len()).to_owned()
}

/// `s` without leading and trailing white space.
pub fn trim(s: &str) -> (out: String)
    ensures
        out@ == trimmed(s@),
{
    let text = chars_of(s);
    let mut from: usize = 0;
    while from < text.len() && char_is_white_space(text[from])
        invariant
            from <= text.len(),
            leading_space(text@, 0) == from + leading_space(text@, from as int),
        decreases text.len() - from,
    {
        from += 1;
    }
    let ghost rest = text@.skip(from as int);
    let mut upto: usize = text.len();
    while upto > from && char_is_white_space(text[upto - 1])
        invariant
            from <= upto <= text.len(),
            rest == text@.skip(from as int),
            trailing_space(rest, rest.len() as int) == (text.len() - upto) + trailing_space(
                rest,
                upto - from,
            ),
        decreases upto,
    {
        assert(rest[upto - from - 1] == text@[upto - 1]);
        upto -= 1;
    }
    proof {
        if upto > from {
            assert(rest[upto - from - 1] == text@[upto - 1]);
        }
        assert(s@.subrange(from as int, upto as int) =~= rest.take(upto - from));
    }
    s.substring_char(from, upto).to_owned()
}

/// `left` followed by `right`.
pub fn join(left: &str, right: &str) -> (out: String)
    ensures
        out@ == left@ + right@,
{
    left.to_owned().concat(right)
}

} // verus!
