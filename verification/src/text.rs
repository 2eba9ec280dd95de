//! Character-level text helpers shared by the catalog and its search.

use vstd::prelude::*;

verus! {

broadcast use vstd::string::group_string_axioms;

/// `needle` occurs in `haystack` at some position.
pub open spec fn is_substring(haystack: Seq<char>, needle: Seq<char>) -> bool {
    exists|k: int| occurs_at(haystack, needle, k)
}

/// `needle` occurs in `haystack` at position `k`.
pub open spec fn occurs_at(haystack: Seq<char>, needle: Seq<char>, k: int) -> bool {
    &&& 0 <= k
    &&& k + needle.len() <= haystack.len()
    &&& haystack.subrange(k, k + needle.len()) =~= needle
}

/// The ASCII lowercase form of one character; every other character is kept.
pub open spec fn ascii_lower(c: char) -> char {
    if 'A' <= c <= 'Z' {
        ((c as u8) + 32) as u8 as char
    } else {
        c
    }
}

/// The ASCII lowercase form of a text.
pub open spec fn ascii_lowercase(text: Seq<char>) -> Seq<char> {
    Seq::new(text.len(), |i: int| ascii_lower(text[i]))
}

/// A digit of a base-sixteen number, in either case.
pub open spec fn is_hex_digit(c: char) -> bool {
    ('0' <= c <= '9') || ('a' <= c <= 'f') || ('A' <= c <= 'F')
}

/// Every character of `text` is a hex digit.
pub open spec fn all_hex(text: Seq<char>) -> bool {
    forall|i: int| 0 <= i < text.len() ==> is_hex_digit(#[trigger] text[i])
}

/// `std`'s `String::push`: appends one character.
pub assume_specification[ String::push ](s: &mut String, ch: char)
    ensures
        final(s)@ == old(s)@.push(ch),
;

/// The characters of a text.
pub fn chars_of(text: &str) -> (r: Vec<char>)
    ensures
        r@ == text@,
{
    let mut r: Vec<char> = Vec::new();
    for c in it: text.chars()
        invariant
            r@ == text@.take(it.index() as int),
            it.seq() == text@,
    {
        r.push(c);
    }
    assert(text@.take(text@.len() as int) =~= text@);
    r
}

/// The text made of some characters.
pub fn string_of(chars: &Vec<char>) -> (r: String)
    ensures
        r@ == chars@,
{
    let mut r: String = String::new();
    let mut i: usize = 0;
    while i < chars.len()
        invariant
            i <= chars.len(),
            r@ == chars@.take(i as int),
        decreases chars.len() - i,
    {
        r.push(chars[i]);
        i = i + 1;
    }
    assert(chars@.take(chars@.len() as int) =~= chars@);
    r
}

/// The ASCII lowercase form of one character.
pub fn to_ascii_lower(c: char) -> (r: char)
    ensures
        r == ascii_lower(c),
{
    if 'A' <= c && c <= 'Z' {
        let code: u8 = c as u8;
        (code + 32) as char
    } else {
        c
    }
}

/// Whether a character is a hex digit.
pub fn hex_digit_char(c: char) -> (r: bool)
    ensures
        r == is_hex_digit(c),
{
    ('0' <= c && c <= '9') || ('a' <= c && c <= 'f') || ('A' <= c && c <= 'F')
}

/// Whether `needle` occurs in `haystack`.
pub fn contains_chars(haystack: &Vec<char>, needle: &Vec<char>) -> (r: bool)
    ensures
        r == is_substring(haystack@, needle@),
{
    if needle.len() > haystack.len() {
        return false;
    }
    let last: usize = haystack.len() - needle.len();
    let mut k: usize = 0;
    while k <= last
        invariant
            k <= last + 1,
            last == haystack.len() - needle.len(),
            needle.len() <= haystack.len(),
            forall|j: int| 0 <= j < k ==> !occurs_at(haystack@, needle@, j),
        decreases last + 1 - k,
    {
        let mut m: usize = 0;
        while m < needle.len() && haystack[k + m] == needle[m]
            invariant
                m <= needle.len(),
                k <= last,
                last == haystack.len() - needle.len(),
                needle.len() <= haystack.len(),
                forall|j: int| 0 <= j < m ==> haystack@[k + j] == needle@[j],
            decreases needle.len() - m,
        {
            m = m + 1;
        }
        if m == needle.len() {
            assert(haystack@.subrange(k as int, k + needle@.len()) =~= needle@);
            assert(occurs_at(haystack@, needle@, k as int));
            return true;
        }
        assert(!occurs_at(haystack@, needle@, k as int)) by {
            assert(haystack@.subrange(k as int, k + needle@.len())[m as int] == haystack@[k + m]);
        }
        if k == last {
            return false;
        }
        k = k + 1;
    }
    false
}

/// A pattern with the wildcards `%` (any run of characters) and `_` (any one character)
/// matches a text; letters match in either ASCII case.
pub open spec fn like(pattern: Seq<char>, text: Seq<char>) -> bool
    decreases pattern.len() + text.len(),
{
    if pattern.len() == 0 {
        text.len() == 0
    } else if pattern[0] == '%' {
        like(pattern.drop_first(), text) || (text.len() > 0 && like(pattern, text.drop_first()))
    } else if text.len() == 0 {
        false
    } else if pattern[0] == '_' || ascii_lower(pattern[0]) == ascii_lower(text[0]) {
        like(pattern.drop_first(), text.drop_first())
    } else {
        false
    }
}

/// Whether the pattern from position `i` matches the text from position `j`.
fn like_from(pattern: &Vec<char>, i: usize, text: &Vec<char>, j: usize) -> (r: bool)
    requires
        i <= pattern.len(),
        j <= text.len(),
    ensures
        r == like(pattern@.skip(i as int), text@.skip(j as int)),
    decreases pattern.len() - i + text.len() - j,
{
    let ghost p = pattern@.skip(i as int);
    let ghost t = text@.skip(j as int);
    if i == pattern.len() {
        return j == text.len();
    }
    assert(p.drop_first() =~= pattern@.skip(i + 1));
    assert(p[0] == pattern@[i as int]);
    if j < text.len() {
        assert(t.drop_first() =~= text@.skip(j + 1));
        assert(t[0] == text@[j as int]);
    }
    if pattern[i] == '%' {
        if like_from(pattern, i + 1, text, j) {
            return true;
        }
        return j < text.len() && like_from(pattern, i, text, j + 1);
    }
    if j == text.len() {
        return false;
    }
    if pattern[i] == '_' || to_ascii_lower(pattern[i]) == to_ascii_lower(text[j]) {
        like_from(pattern, i + 1, text, j + 1)
    } else {
        false
    }
}

/// Whether a wildcard pattern matches a text.
pub fn like_chars(pattern: &Vec<char>, text: &Vec<char>) -> (r: bool)
    ensures
        r == like(pattern@, text@),
{
    assert(pattern@.skip(0) =~= pattern@);
    assert(text@.skip(0) =~= text@);
    like_from(pattern, 0, text, 0)
}

/// The ASCII lowercase form of some characters.
pub fn ascii_lower_chars(text: &Vec<char>) -> (r: Vec<char>)
    ensures
        r@ == ascii_lowercase(text@),
{
    let mut r: Vec<char> = Vec::new();
    let mut i: usize = 0;
    while i < text.len()
        invariant
            i <= text.len(),
            r.len() == i,
            forall|j: int| 0 <= j < i ==> r@[j] == ascii_lower(text@[j]),
        decreases text.len() - i,
    {
        r.push(to_ascii_lower(text[i]));
        i = i + 1;
    }
    assert(r@ =~= ascii_lowercase(text@));
    r
}

/// Whether `prefix` starts `text`.
pub fn starts_with_chars(text: &Vec<char>, prefix: &Vec<char>) -> (r: bool)
    ensures
        r == prefix@.is_prefix_of(text@),
{
    if prefix.len() > text.len() {
        return false;
    }
    let mut i: usize = 0;
    while i < prefix.len()
        invariant
            i <= prefix.len() <= text.len(),
            forall|j: int| 0 <= j < i ==> prefix@[j] == text@[j],
        decreases prefix.len() - i,
    {
        if prefix[i] != text[i] {
            assert(text@.subrange(0, prefix@.len() as int)[i as int] != prefix@[i as int]);
            return false;
        }
        i = i + 1;
    }
    assert(prefix@ =~= text@.subrange(0, prefix@.len() as int));
    true
}

/// Whether every character is a hex digit.
pub fn all_hex_chars(text: &Vec<char>) -> (r: bool)
    ensures
        r == all_hex(text@),
{
    let mut i: usize = 0;
    while i < text.len()
        invariant
            i <= text.len(),
            forall|j: int| 0 <= j < i ==> is_hex_digit(#[trigger] text@[j]),
        decreases text.len() - i,
    {
        if !hex_digit_char(text[i]) {
            return false;
        }
        i = i + 1;
    }
    true
}

/// What `std`'s `str::to_lowercase` makes of a text.
pub uninterp spec fn lowercase(text: Seq<char>) -> Seq<char>;

/// `std`'s `str::to_lowercase`: the Unicode lowercase form, a function of the text alone.
#[verifier::external_body]
pub(crate) fn to_lowercase(text: &str) -> (r: String)
    ensures
        r@ == lowercase(text@),
{
    text.to_lowercase()
}

/// White space, by the Unicode property of that name.
pub open spec fn is_white_space(c: char) -> bool {
    let code = c as u32;
    ||| 0x09 <= code <= 0x0d
    ||| code == 0x20
    ||| code == 0x85
    ||| code == 0xa0
    ||| code == 0x1680
    ||| 0x2000 <= code <= 0x200a
    ||| code == 0x2028
    ||| code == 0x2029
    ||| code == 0x202f
    ||| code == 0x205f
    ||| code == 0x3000
}

/// A text without its leading white space.
pub open spec fn without_leading_space(text: Seq<char>) -> Seq<char>
    decreases text.len(),
{
    if text.len() > 0 && is_white_space(text[0]) {
        without_leading_space(text.skip(1))
    } else {
        text
    }
}

/// A text without its trailing white space.
pub open spec fn without_trailing_space(text: Seq<char>) -> Seq<char>
    decreases text.len(),
{
    if text.len() > 0 && is_white_space(text.last()) {
        without_trailing_space(text.drop_last())
    } else {
        text
    }
}

/// A text without white space at either end.
pub open spec fn trimmed(text: Seq<char>) -> Seq<char> {
    without_trailing_space(without_leading_space(text))
}

/// Whether a character is white space.
pub fn is_white(c: char) -> (r: bool)
    ensures
        r == is_white_space(c),
{
    let code: u32 = c as u32;
    (0x09 <= code && code <= 0x0d) || code == 0x20 || code == 0x85 || code == 0xa0 || code
        == 0x1680 || (0x2000 <= code && code <= 0x200a) || code == 0x2028 || code == 0x2029
        || code == 0x202f || code == 0x205f || code == 0x3000
}

/// A text without white space at either end.
pub fn trim(text: &str) -> (r: String)
    ensures
        r@ == trimmed(text@),
{
    let chars = chars_of(text);
    let mut start: usize = 0;
    assert(text@.skip(0) =~= text@);
    while start < chars.len() && is_white(chars[start])
        invariant
            chars@ == text@,
            start <= chars.len(),
            without_leading_space(text@) == without_leading_space(text@.skip(start as int)),
        decreases chars.len() - start,
    {
        assert(text@.skip(start as int).skip(1) =~= text@.skip(start + 1));
        start = start + 1;
    }
    let ghost rest = text@.skip(start as int);
    assert(without_leading_space(text@) == rest);
    let mut end: usize = chars.len();
    assert(text@.subrange(start as int, end as int) =~= rest);
    while end > start && is_white(chars[end - 1])
        invariant
            chars@ == text@,
            start <= end <= chars.len(),
            without_trailing_space(rest) == without_trailing_space(
                text@.subrange(start as int, end as int),
            ),
        decreases end,
    {
        assert(text@.subrange(start as int, end as int).drop_last() =~= text@.subrange(
            start as int,
            end - 1,
        ));
        end = end - 1;
    }
    let mut kept: Vec<char> = Vec::new();
    let mut i: usize = start;
    while i < end
        invariant
            chars@ == text@,
            start <= i <= end <= chars.len(),
            kept@ == text@.subrange(start as int, i as int),
        decreases end - i,
    {
        kept.push(chars[i]);
        assert(text@.subrange(start as int, i + 1) =~= text@.subrange(start as int, i as int).push(
            text@[i as int],
        ));
        i = i + 1;
    }
    string_of(&kept)
}

/// A text without white space is trimmed already.
pub proof fn lemma_nothing_to_trim(text: Seq<char>)
    requires
        forall|i: int| 0 <= i < text.len() ==> !is_white_space(#[trigger] text[i]),
    ensures
        trimmed(text) == text,
{
}

} // verus!
