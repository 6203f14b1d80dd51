//! Character-level text utilities: the whitespace test behind the
//! "non-empty after trimming" validation rule, and case-insensitive
//! substring search used by the list operation.

use vstd::prelude::*;
use vstd::string::StrSliceExecFns;

verus! {

/// A whitespace character, following the Unicode white-space list that
/// `char::is_whitespace` documents.
pub open spec fn is_space(c: char) -> bool {
    c == ' ' || c == '\t' || c == '\n' || c == '\r'
        || c == '\u{0b}' || c == '\u{0c}' || c == '\u{85}' || c == '\u{a0}'
        || c == '\u{1680}'
        || ('\u{2000}' <= c && c <= '\u{200a}')
        || c == '\u{2028}' || c == '\u{2029}' || c == '\u{202f}'
        || c == '\u{205f}' || c == '\u{3000}'
}

/// The text is empty once trimmed: every character is whitespace.
pub open spec fn trimmed_empty(s: Seq<char>) -> bool {
    forall|i: int| 0 <= i < s.len() ==> is_space(s[i])
}

/// Whether this character is whitespace.
pub fn is_space_char(c: char) -> (r: bool)
    ensures
        r == is_space(c),
{
    c == ' ' || c == '\t' || c == '\n' || c == '\r'
        || c == '\u{0b}' || c == '\u{0c}' || c == '\u{85}' || c == '\u{a0}'
        || c == '\u{1680}'
        || ('\u{2000}' <= c && c <= '\u{200a}')
        || c == '\u{2028}' || c == '\u{2029}' || c == '\u{202f}'
        || c == '\u{205f}' || c == '\u{3000}'
}

/// `String::push` appends one character; vstd gives it no contract.
pub assume_specification[ String::push ](s: &mut String, c: char)
    ensures
        final(s)@ == old(s)@.push(c),
;

/// Converts text to its characters, one list entry per character.
pub fn to_chars(s: &str) -> (r: Vec<char>)
    ensures
        r@ == s@,
{
    let n: usize = s.unicode_len();
    let mut r: Vec<char> = Vec::new();
    let mut i: usize = 0;
    while i < n
        invariant
            0 <= i <= n,
            n == s@.len(),
            r@ == s@.take(i as int),
        decreases n - i,
    {
        let c = s.get_char(i);
        r.push(c);
        proof {
            assert(r@ =~= s@.take(i + 1));
        }
        i = i + 1;
    }
    proof {
        assert(r@ =~= s@);
    }
    r
}

/// A character's code point, with the ASCII capitals folded onto the
/// corresponding small letters; the case-insensitive comparisons of the
/// search predicate go through this folding.
pub open spec fn norm_char(c: char) -> int {
    if 'A' <= c && c <= 'Z' {
        (c as u32) + 32
    } else {
        (c as u32) as int
    }
}

/// The needle matches the haystack at offset `i`, case-insensitively.
pub open spec fn match_at(hay: Seq<char>, needle: Seq<char>, i: int) -> bool {
    forall|j: int| 0 <= j < needle.len() ==> norm_char(hay[i + j]) == norm_char(needle[j])
}

/// The needle occurs somewhere in the haystack as a case-insensitive
/// (ASCII folding) substring.
pub open spec fn contains_ci(hay: Seq<char>, needle: Seq<char>) -> bool {
    exists|i: int| 0 <= i <= hay.len() - needle.len() && match_at(hay, needle, i)
}

/// Folds one character as `norm_char` describes.
pub fn norm_char_x(c: char) -> (r: u32)
    ensures
        r as int == norm_char(c),
{
    let v = c as u32;
    if 'A' <= c && c <= 'Z' {
        v + 32
    } else {
        v
    }
}

/// Case-insensitive substring search, the semantics of the list
/// operation's `search` parameter.
pub fn contains_ci_str(hay: &str, needle: &str) -> (r: bool)
    ensures
        r == contains_ci(hay@, needle@),
{
    let h = to_chars(hay);
    let nd = to_chars(needle);
    if nd.len() > h.len() {
        return false;
    }
    if nd.len() == 0 {
        proof {
            assert(match_at(hay@, needle@, 0));
        }
        return true;
    }
    let last: usize = h.len() - nd.len();
    let mut i: usize = 0;
    while i <= last
        invariant
            0 <= i <= last + 1,
            nd@.len() >= 1,
            h@.len() <= usize::MAX,
            last == h@.len() - nd@.len(),
            h@ == hay@,
            nd@ == needle@,
            forall|k: int| 0 <= k < i ==> !match_at(hay@, needle@, k),
        decreases last + 1 - i,
    {
        let mut j: usize = 0;
        let mut ok = true;
        while ok && j < nd.len()
            invariant
                0 <= j <= nd@.len(),
                nd@.len() >= 1,
                h@.len() <= usize::MAX,
                i <= last,
                last == h@.len() - nd@.len(),
                h@ == hay@,
                nd@ == needle@,
                ok ==> forall|m: int| 0 <= m < j ==> norm_char(hay@[i + m]) == norm_char(
                    needle@[m],
                ),
                !ok ==> !match_at(hay@, needle@, i as int),
            decreases nd@.len() - j + (if ok { 1int } else { 0int }),
        {
            if norm_char_x(h[i + j]) != norm_char_x(nd[j]) {
                proof {
                    assert(!match_at(hay@, needle@, i as int));
                }
                ok = false;
            } else {
                j = j + 1;
            }
        }
        if ok {
            proof {
                assert(j == nd@.len());
                assert(match_at(hay@, needle@, i as int));
            }
            return true;
        }
        i = i + 1;
    }
    false
}

/// Whether the text still holds something after trimming whitespace.
pub fn has_content(s: &str) -> (r: bool)
    ensures
        r == !trimmed_empty(s@),
{
    let n: usize = s.unicode_len();
    let mut i: usize = 0;
    while i < n
        invariant
            0 <= i <= n,
            n == s@.len(),
            forall|j: int| 0 <= j < i ==> is_space(s@[j]),
        decreases n - i,
    {
        let c = s.get_char(i);
        if !is_space_char(c) {
            return true;
        }
        i = i + 1;
    }
    false
}

} // verus!
