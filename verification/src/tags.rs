//! The tags storage blob. A document's tag sequence is persisted inside
//! the record as one structured text value: a bracketed, comma-separated
//! list of quoted tags, with the quote and the backslash escaped. The
//! decoder is total and defensive: a blob that is not exactly an encoded
//! tag sequence decodes to the empty sequence, by policy rather than as
//! an error.

use vstd::prelude::*;
use crate::text::to_chars;

verus! {

/// The lower-case hex digit for a value below sixteen.
pub open spec fn hex_digit(n: int) -> char {
    if n == 0 {
        '0'
    } else if n == 1 {
        '1'
    } else if n == 2 {
        '2'
    } else if n == 3 {
        '3'
    } else if n == 4 {
        '4'
    } else if n == 5 {
        '5'
    } else if n == 6 {
        '6'
    } else if n == 7 {
        '7'
    } else if n == 8 {
        '8'
    } else if n == 9 {
        '9'
    } else if n == 10 {
        'a'
    } else if n == 11 {
        'b'
    } else if n == 12 {
        'c'
    } else if n == 13 {
        'd'
    } else if n == 14 {
        'e'
    } else {
        'f'
    }
}

/// The value of a lower-case hex digit, or -1 for any other character.
pub open spec fn hex_val(c: char) -> int {
    if c == '0' {
        0
    } else if c == '1' {
        1
    } else if c == '2' {
        2
    } else if c == '3' {
        3
    } else if c == '4' {
        4
    } else if c == '5' {
        5
    } else if c == '6' {
        6
    } else if c == '7' {
        7
    } else if c == '8' {
        8
    } else if c == '9' {
        9
    } else if c == 'a' {
        10
    } else if c == 'b' {
        11
    } else if c == 'c' {
        12
    } else if c == 'd' {
        13
    } else if c == 'e' {
        14
    } else if c == 'f' {
        15
    } else {
        -1
    }
}

/// The control character behind a short escape letter, if any.
pub open spec fn short_unesc(c: char) -> Option<char> {
    if c == 'b' {
        Some('\u{8}')
    } else if c == 't' {
        Some('\t')
    } else if c == 'n' {
        Some('\n')
    } else if c == 'f' {
        Some('\u{c}')
    } else if c == 'r' {
        Some('\r')
    } else {
        None
    }
}

/// How one character stands inside an encoded tag, exactly as JSON
/// escapes a string: the quote and the backslash get a backslash, five
/// control characters their short escapes, every other control
/// character a `\u00XX` form, everything else is itself.
pub open spec fn esc_char(c: char) -> Seq<char> {
    if c == '"' {
        seq!['\\', '"']
    } else if c == '\\' {
        seq!['\\', '\\']
    } else if c == '\u{8}' {
        seq!['\\', 'b']
    } else if c == '\t' {
        seq!['\\', 't']
    } else if c == '\n' {
        seq!['\\', 'n']
    } else if c == '\u{c}' {
        seq!['\\', 'f']
    } else if c == '\r' {
        seq!['\\', 'r']
    } else if (c as u32) < 32 {
        seq![
            '\\',
            'u',
            '0',
            '0',
            hex_digit((c as u32) as int / 16),
            hex_digit((c as u32) as int % 16),
        ]
    } else {
        seq![c]
    }
}

/// A tag's characters, escaped.
pub open spec fn esc(s: Seq<char>) -> Seq<char>
    decreases s.len(),
{
    if s.len() == 0 {
        Seq::empty()
    } else {
        esc_char(s[0]) + esc(s.skip(1))
    }
}

/// One encoded tag: escaped and quoted.
pub open spec fn enc_tag(t: Seq<char>) -> Seq<char> {
    seq!['"'] + esc(t) + seq!['"']
}

/// The encoded tags, comma-separated, without the surrounding brackets.
pub open spec fn enc_list(tags: Seq<Seq<char>>) -> Seq<char>
    decreases tags.len(),
{
    if tags.len() == 0 {
        Seq::empty()
    } else if tags.len() == 1 {
        enc_tag(tags[0])
    } else {
        enc_tag(tags[0]) + seq![','] + enc_list(tags.skip(1))
    }
}

/// The whole blob for a tag sequence.
pub open spec fn encode_tags_spec(tags: Seq<Seq<char>>) -> Seq<char> {
    seq!['['] + enc_list(tags) + seq![']']
}

/// Reads one quoted tag's remainder: the input starts just after the
/// opening quote; on success the result is the unescaped content and
/// what follows the closing quote. A raw control character, or an
/// escape the encoder never writes, is malformed.
pub open spec fn unesc(s: Seq<char>) -> Option<(Seq<char>, Seq<char>)>
    decreases s.len(),
{
    if s.len() == 0 {
        None
    } else if s[0] == '"' {
        Some((Seq::empty(), s.skip(1)))
    } else if s[0] == '\\' {
        if s.len() >= 2 && (s[1] == '"' || s[1] == '\\') {
            match unesc(s.skip(2)) {
                Some(p) => Some((seq![s[1]] + p.0, p.1)),
                None => None,
            }
        } else if s.len() >= 2 && short_unesc(s[1]) is Some {
            match unesc(s.skip(2)) {
                Some(p) => Some((seq![short_unesc(s[1])->0] + p.0, p.1)),
                None => None,
            }
        } else if s.len() >= 6 && s[1] == 'u' && s[2] == '0' && s[3] == '0' && 0 <= hex_val(s[4])
            && 0 <= hex_val(s[5]) && hex_val(s[4]) * 16 + hex_val(s[5]) < 32 {
            match unesc(s.skip(6)) {
                Some(p) => Some(
                    (seq![((hex_val(s[4]) * 16 + hex_val(s[5])) as u32) as char] + p.0, p.1),
                ),
                None => None,
            }
        } else {
            None
        }
    } else if (s[0] as u32) >= 32 {
        match unesc(s.skip(1)) {
            Some(p) => Some((seq![s[0]] + p.0, p.1)),
            None => None,
        }
    } else {
        None
    }
}

proof fn lemma_unesc_shrinks(s: Seq<char>)
    ensures
        match unesc(s) {
            Some(p) => p.1.len() < s.len(),
            None => true,
        },
    decreases s.len(),
{
    if s.len() == 0 {
    } else if s[0] == '"' {
    } else if s[0] == '\\' {
        if s.len() >= 2 && (s[1] == '"' || s[1] == '\\') {
            lemma_unesc_shrinks(s.skip(2));
        } else if s.len() >= 2 && short_unesc(s[1]) is Some {
            lemma_unesc_shrinks(s.skip(2));
        } else if s.len() >= 6 && s[1] == 'u' && s[2] == '0' && s[3] == '0' && 0 <= hex_val(s[4])
            && 0 <= hex_val(s[5]) && hex_val(s[4]) * 16 + hex_val(s[5]) < 32 {
            lemma_unesc_shrinks(s.skip(6));
        }
    } else if (s[0] as u32) >= 32 {
        lemma_unesc_shrinks(s.skip(1));
    }
}

/// Reads the remainder of a blob after the opening bracket: either the
/// closing bracket alone, or quoted tags separated by commas and closed
/// by the bracket, with nothing following.
pub open spec fn parse_items(s: Seq<char>) -> Option<Seq<Seq<char>>>
    decreases s.len(),
    via parse_items_dec
{
    if s.len() == 0 {
        None
    } else if s[0] == ']' && s.len() == 1 {
        Some(Seq::empty())
    } else if s[0] == '"' {
        match unesc(s.skip(1)) {
            Some(p) => {
                if p.1.len() == 1 && p.1[0] == ']' {
                    Some(seq![p.0])
                } else if p.1.len() >= 1 && p.1[0] == ',' {
                    match parse_items(p.1.skip(1)) {
                        Some(t) => Some(seq![p.0] + t),
                        None => None,
                    }
                } else {
                    None
                }
            },
            None => None,
        }
    } else {
        None
    }
}

#[via_fn]
proof fn parse_items_dec(s: Seq<char>) {
    if s.len() >= 1 {
        lemma_unesc_shrinks(s.skip(1));
    }
}

/// What a stored blob means: the tag sequence it encodes, or the empty
/// sequence where it is not exactly an encoded tag sequence.
pub open spec fn decoded_tags(blob: Seq<char>) -> Seq<Seq<char>> {
    if blob.len() >= 1 && blob[0] == '[' {
        match parse_items(blob.skip(1)) {
            Some(t) => t,
            None => Seq::empty(),
        }
    } else {
        Seq::empty()
    }
}

proof fn lemma_unesc_esc(s: Seq<char>, rest: Seq<char>)
    ensures
        unesc(esc(s) + seq!['"'] + rest) == Some((s, rest)),
    decreases s.len(),
{
    broadcast use vstd::utf8::char_u32_cast;

    let input = esc(s) + seq!['"'] + rest;
    if s.len() == 0 {
        assert(input =~= seq!['"'] + rest);
        assert(input[0] == '"');
        assert(input.skip(1) =~= rest);
        assert(Seq::<char>::empty() =~= s);
    } else {
        let c = s[0];
        if c == '"' || c == '\\' {
            assert(esc(s) == seq!['\\', c] + esc(s.skip(1)));
            assert(input[0] == '\\');
            assert(input[1] == c);
            assert(input.len() >= 2);
            assert(input.skip(2) =~= esc(s.skip(1)) + seq!['"'] + rest);
            lemma_unesc_esc(s.skip(1), rest);
            assert(seq![c] + s.skip(1) =~= s);
        } else if c == '\u{8}' || c == '\t' || c == '\n' || c == '\u{c}' || c == '\r' {
            let letter = esc_char(c)[1];
            assert(esc(s) == seq!['\\', letter] + esc(s.skip(1)));
            assert(input[0] == '\\');
            assert(input[1] == letter);
            assert(input.len() >= 2);
            assert(letter != '"' && letter != '\\');
            assert(short_unesc(letter) == Some(c));
            assert(input.skip(2) =~= esc(s.skip(1)) + seq!['"'] + rest);
            lemma_unesc_esc(s.skip(1), rest);
            assert(seq![c] + s.skip(1) =~= s);
        } else if (c as u32) < 32 {
            let v = (c as u32) as int;
            assert(0 <= v < 32);
            assert(esc(s) == seq!['\\', 'u', '0', '0', hex_digit(v / 16), hex_digit(v % 16)]
                + esc(s.skip(1)));
            assert(input[0] == '\\');
            assert(input[1] == 'u');
            assert(input[2] == '0');
            assert(input[3] == '0');
            assert(input[4] == hex_digit(v / 16));
            assert(input[5] == hex_digit(v % 16));
            assert(input.len() >= 6);
            assert(short_unesc('u') is None);
            assert(hex_val(hex_digit(v / 16)) == v / 16);
            assert(hex_val(hex_digit(v % 16)) == v % 16);
            assert(v / 16 * 16 + v % 16 == v);
            assert((v as u32) == c as u32);
            vstd::utf8::char_u32_cast(c, (v as u32));
            assert(((v as u32) as char) == c);
            assert(input.skip(6) =~= esc(s.skip(1)) + seq!['"'] + rest);
            lemma_unesc_esc(s.skip(1), rest);
            assert(seq![c] + s.skip(1) =~= s);
        } else {
            assert(esc(s) == seq![c] + esc(s.skip(1)));
            assert(input[0] == c);
            assert((c as u32) >= 32);
            assert(input.skip(1) =~= esc(s.skip(1)) + seq!['"'] + rest);
            lemma_unesc_esc(s.skip(1), rest);
            assert(seq![c] + s.skip(1) =~= s);
        }
    }
}

proof fn lemma_parse_enc(tags: Seq<Seq<char>>)
    ensures
        parse_items(enc_list(tags) + seq![']']) == Some(tags),
    decreases tags.len(),
{
    let s = enc_list(tags) + seq![']'];
    if tags.len() == 0 {
        assert(s =~= seq![']']);
        assert(Seq::<Seq<char>>::empty() =~= tags);
    } else if tags.len() == 1 {
        let t0 = tags[0];
        assert(enc_list(tags) == enc_tag(t0));
        assert(s[0] == '"');
        assert(s.skip(1) =~= esc(t0) + seq!['"'] + seq![']']);
        lemma_unesc_esc(t0, seq![']']);
        assert(seq![t0] =~= tags);
    } else {
        let t0 = tags[0];
        let restenc = enc_list(tags.skip(1)) + seq![']'];
        let r = seq![','] + restenc;
        assert(s[0] == '"');
        assert(s.skip(1) =~= esc(t0) + seq!['"'] + r);
        lemma_unesc_esc(t0, r);
        assert(r[0] == ',');
        assert(r.skip(1) =~= restenc);
        lemma_parse_enc(tags.skip(1));
        assert(seq![t0] + tags.skip(1) =~= tags);
    }
}

/// Law: the blob codec round-trips. Decoding the encoding of any tag
/// sequence gives back exactly that sequence, in order; a document's
/// tags therefore survive storage unchanged.
pub proof fn lemma_tags_round_trip(tags: Seq<Seq<char>>)
    ensures
        decoded_tags(encode_tags_spec(tags)) == tags,
{
    let blob = encode_tags_spec(tags);
    assert(blob[0] == '[');
    assert(blob.skip(1) =~= enc_list(tags) + seq![']']);
    lemma_parse_enc(tags);
}

proof fn lemma_esc_push(s: Seq<char>, c: char)
    ensures
        esc(s.push(c)) == esc(s) + esc_char(c),
    decreases s.len(),
{
    if s.len() == 0 {
        assert(s.push(c)[0] == c);
        assert(s.push(c).skip(1) =~= Seq::<char>::empty());
        assert(esc(s.push(c)) == esc_char(c) + esc(Seq::<char>::empty()));
        assert(esc(Seq::<char>::empty()) == Seq::<char>::empty());
        assert(esc_char(c) + Seq::<char>::empty() =~= Seq::<char>::empty() + esc_char(c));
        assert(esc(s) == Seq::<char>::empty());
    } else {
        assert(s.push(c)[0] == s[0]);
        assert(s.push(c).skip(1) =~= s.skip(1).push(c));
        lemma_esc_push(s.skip(1), c);
        assert(esc_char(s[0]) + (esc(s.skip(1)) + esc_char(c)) =~= (esc_char(s[0]) + esc(
            s.skip(1),
        )) + esc_char(c));
    }
}

proof fn lemma_enc_list_push(s: Seq<Seq<char>>, x: Seq<char>)
    ensures
        s.len() == 0 ==> enc_list(s.push(x)) == enc_tag(x),
        s.len() >= 1 ==> enc_list(s.push(x)) == enc_list(s) + seq![','] + enc_tag(x),
    decreases s.len(),
{
    if s.len() == 0 {
        assert(s.push(x)[0] == x);
    } else if s.len() == 1 {
        assert(s.push(x)[0] == s[0]);
        assert(s.push(x).skip(1) =~= seq![x]);
        assert(enc_list(seq![x]) == enc_tag(x));
        assert(enc_tag(s[0]) + seq![','] + enc_tag(x) =~= enc_list(s) + seq![','] + enc_tag(x));
    } else {
        assert(s.push(x)[0] == s[0]);
        assert(s.push(x).skip(1) =~= s.skip(1).push(x));
        lemma_enc_list_push(s.skip(1), x);
        assert(enc_tag(s[0]) + seq![','] + (enc_list(s.skip(1)) + seq![','] + enc_tag(x)) =~= (
        enc_tag(s[0]) + seq![','] + enc_list(s.skip(1))) + seq![','] + enc_tag(x));
    }
}

/// The lower-case hex digit for a value below sixteen.
fn hex_digit_x(n: u32) -> (r: char)
    requires
        n < 16,
    ensures
        r == hex_digit(n as int),
{
    if n == 0 {
        '0'
    } else if n == 1 {
        '1'
    } else if n == 2 {
        '2'
    } else if n == 3 {
        '3'
    } else if n == 4 {
        '4'
    } else if n == 5 {
        '5'
    } else if n == 6 {
        '6'
    } else if n == 7 {
        '7'
    } else if n == 8 {
        '8'
    } else if n == 9 {
        '9'
    } else if n == 10 {
        'a'
    } else if n == 11 {
        'b'
    } else if n == 12 {
        'c'
    } else if n == 13 {
        'd'
    } else if n == 14 {
        'e'
    } else {
        'f'
    }
}

/// The value of a lower-case hex digit, or -1 for any other character.
fn hex_val_x(c: char) -> (r: i32)
    ensures
        r as int == hex_val(c),
{
    if c == '0' {
        0
    } else if c == '1' {
        1
    } else if c == '2' {
        2
    } else if c == '3' {
        3
    } else if c == '4' {
        4
    } else if c == '5' {
        5
    } else if c == '6' {
        6
    } else if c == '7' {
        7
    } else if c == '8' {
        8
    } else if c == '9' {
        9
    } else if c == 'a' {
        10
    } else if c == 'b' {
        11
    } else if c == 'c' {
        12
    } else if c == 'd' {
        13
    } else if c == 'e' {
        14
    } else if c == 'f' {
        15
    } else {
        -1
    }
}

/// Encodes a tag sequence into its storage blob.
pub fn encode_tags(tags: &Vec<String>) -> (r: String)
    ensures
        r@ == encode_tags_spec(tags@.map_values(|t: String| t@)),
{
    let ghost vtags = tags@.map_values(|t: String| t@);
    let mut r = String::new();
    r.push('[');
    proof {
        assert(r@ =~= seq!['['] + enc_list(vtags.take(0)));
    }
    let mut i: usize = 0;
    while i < tags.len()
        invariant
            0 <= i <= tags@.len(),
            vtags == tags@.map_values(|t: String| t@),
            r@ == seq!['['] + enc_list(vtags.take(i as int)),
        decreases tags@.len() - i,
    {
        if i > 0 {
            r.push(',');
        }
        let ghost mid = r@;
        r.push('"');
        let cs = to_chars(tags[i].as_str());
        let ghost tv = vtags[i as int];
        assert(cs@ == tv);
        let mut j: usize = 0;
        while j < cs.len()
            invariant
                0 <= j <= cs@.len(),
                cs@ == tv,
                r@ == mid + seq!['"'] + esc(tv.take(j as int)),
            decreases cs@.len() - j,
        {
            let c = cs[j];
            let ghost r0 = r@;
            if c == '"' || c == '\\' {
                r.push('\\');
                r.push(c);
            } else if c == '\u{8}' {
                r.push('\\');
                r.push('b');
            } else if c == '\t' {
                r.push('\\');
                r.push('t');
            } else if c == '\n' {
                r.push('\\');
                r.push('n');
            } else if c == '\u{c}' {
                r.push('\\');
                r.push('f');
            } else if c == '\r' {
                r.push('\\');
                r.push('r');
            } else if (c as u32) < 32 {
                let v = c as u32;
                r.push('\\');
                r.push('u');
                r.push('0');
                r.push('0');
                r.push(hex_digit_x(v / 16));
                r.push(hex_digit_x(v % 16));
            } else {
                r.push(c);
            }
            proof {
                assert(r@ =~= r0 + esc_char(c));
                assert(tv.take(j + 1) =~= tv.take(j as int).push(tv[j as int]));
                lemma_esc_push(tv.take(j as int), tv[j as int]);
                assert(r0 + esc_char(c) =~= mid + seq!['"'] + esc(tv.take(j + 1)));
            }
            j = j + 1;
        }
        proof {
            assert(tv.take(cs@.len() as int) =~= tv);
        }
        r.push('"');
        proof {
            lemma_enc_list_push(vtags.take(i as int), tv);
            assert(vtags.take(i + 1) =~= vtags.take(i as int).push(tv));
            if i == 0 {
                assert((mid + seq!['"'] + esc(tv)).push('"') =~= seq!['['] + enc_list(
                    vtags.take(i + 1),
                ));
            } else {
                assert((mid + seq!['"'] + esc(tv)).push('"') =~= seq!['['] + enc_list(
                    vtags.take(i + 1),
                ));
            }
        }
        i = i + 1;
    }
    proof {
        assert(vtags.take(vtags.len() as int) =~= vtags);
    }
    r.push(']');
    proof {
        assert(r@ =~= seq!['['] + enc_list(vtags) + seq![']']);
    }
    r
}

/// The scan so far agrees with `unesc`: finishing the scan from
/// position `k` with `cur` already read gives `unesc`'s answer for the
/// scan that started at `start`.
spec fn scans(full: Seq<char>, start: int, k: int, cur: Seq<char>) -> bool {
    match unesc(full.skip(k)) {
        Some(q) => unesc(full.skip(start)) == Some((cur + q.0, q.1)),
        None => unesc(full.skip(start)) is None,
    }
}

/// Reads one quoted tag, starting just after the opening quote; on
/// success returns the unescaped content and the position just after
/// the closing quote.
fn scan_string(s: &Vec<char>, start: usize) -> (r: Option<(String, usize)>)
    requires
        start <= s@.len(),
    ensures
        match r {
            Some(pair) => unesc(s@.skip(start as int)) == Some(
                (pair.0@, s@.skip(pair.1 as int)),
            ) && start < pair.1 <= s@.len(),
            None => unesc(s@.skip(start as int)) is None,
        },
{
    let mut cur = String::new();
    let mut k: usize = start;
    while k < s.len()
        invariant
            start <= k <= s@.len(),
            scans(s@, start as int, k as int, cur@),
        decreases s@.len() - k,
    {
        let c = s[k];
        if c == '"' {
            proof {
                assert(s@.skip(k as int)[0] == '"');
                assert(s@.skip(k as int).skip(1) =~= s@.skip(k + 1));
                assert(unesc(s@.skip(k as int)) == Some(
                    (Seq::<char>::empty(), s@.skip(k + 1)),
                ));
                assert(cur@ + Seq::<char>::empty() =~= cur@);
            }
            return Some((cur, k + 1));
        } else if c == '\\' {
            if k + 1 == s.len() {
                proof {
                    assert(s@.skip(k as int)[0] == '\\');
                    assert(s@.skip(k as int).len() == 1);
                    assert(unesc(s@.skip(k as int)) is None);
                }
                return None;
            }
            let c2 = s[k + 1];
            if c2 == '"' || c2 == '\\' {
                let ghost cur0 = cur@;
                cur.push(c2);
                proof {
                    let t = s@.skip(k as int);
                    assert(t[0] == '\\');
                    assert(t[1] == c2);
                    assert(t.len() >= 2);
                    assert(t.skip(2) =~= s@.skip(k + 2));
                    match unesc(s@.skip(k + 2)) {
                        Some(q) => {
                            assert(unesc(t) == Some((seq![c2] + q.0, q.1)));
                            assert((cur0 + (seq![c2] + q.0)) =~= (cur0.push(c2) + q.0));
                        },
                        None => {
                            assert(unesc(t) is None);
                        },
                    }
                }
                k = k + 2;
            } else if c2 == 'b' || c2 == 't' || c2 == 'n' || c2 == 'f' || c2 == 'r' {
                let decoded = if c2 == 'b' {
                    '\u{8}'
                } else if c2 == 't' {
                    '\t'
                } else if c2 == 'n' {
                    '\n'
                } else if c2 == 'f' {
                    '\u{c}'
                } else {
                    '\r'
                };
                let ghost cur0 = cur@;
                cur.push(decoded);
                proof {
                    let t = s@.skip(k as int);
                    assert(t[0] == '\\');
                    assert(t[1] == c2);
                    assert(t.len() >= 2);
                    assert(short_unesc(c2) == Some(decoded));
                    assert(t.skip(2) =~= s@.skip(k + 2));
                    match unesc(s@.skip(k + 2)) {
                        Some(q) => {
                            assert(unesc(t) == Some((seq![decoded] + q.0, q.1)));
                            assert((cur0 + (seq![decoded] + q.0)) =~= (cur0.push(decoded) + q.0));
                        },
                        None => {
                            assert(unesc(t) is None);
                        },
                    }
                }
                k = k + 2;
            } else if c2 == 'u' {
                proof {
                    let t = s@.skip(k as int);
                    assert(t[0] == '\\');
                    assert(t.len() >= 2 && t[1] == 'u');
                    assert(short_unesc('u') is None);
                }
                if s.len() - k < 6 {
                    proof {
                        assert(s@.skip(k as int).len() < 6);
                        assert(unesc(s@.skip(k as int)) is None);
                    }
                    return None;
                }
                let d2 = s[k + 2];
                let d3 = s[k + 3];
                let v1 = hex_val_x(s[k + 4]);
                let v2 = hex_val_x(s[k + 5]);
                if d2 == '0' && d3 == '0' && v1 >= 0 && v2 >= 0 && v1 * 16 + v2 < 32 {
                    let v: u32 = (v1 * 16 + v2) as u32;
                    let decoded = (v as u8) as char;
                    let ghost cur0 = cur@;
                    cur.push(decoded);
                    proof {
                        broadcast use vstd::utf8::char_u32_cast;

                        let t = s@.skip(k as int);
                        assert(t.len() >= 6);
                        assert(t[2] == '0' && t[3] == '0');
                        assert(t[4] == s@[k + 4] && t[5] == s@[k + 5]);
                        assert(hex_val(t[4]) == v1 as int && hex_val(t[5]) == v2 as int);
                        assert(v as int == hex_val(t[4]) * 16 + hex_val(t[5]));
                        assert(decoded == ((hex_val(t[4]) * 16 + hex_val(t[5])) as u32) as char);
                        assert(t.skip(6) =~= s@.skip(k + 6));
                        match unesc(s@.skip(k + 6)) {
                            Some(q) => {
                                assert(unesc(t) == Some((seq![decoded] + q.0, q.1)));
                                assert((cur0 + (seq![decoded] + q.0)) =~= (cur0.push(decoded)
                                    + q.0));
                            },
                            None => {
                                assert(unesc(t) is None);
                            },
                        }
                    }
                    k = k + 6;
                } else {
                    proof {
                        let t = s@.skip(k as int);
                        assert(t.len() >= 6);
                        assert(t[2] == d2 && t[3] == d3);
                        assert(hex_val(t[4]) == v1 as int && hex_val(t[5]) == v2 as int);
                        assert(unesc(t) is None);
                    }
                    return None;
                }
            } else {
                proof {
                    let t = s@.skip(k as int);
                    assert(t[0] == '\\');
                    assert(t.len() >= 2 && t[1] == c2);
                    assert(short_unesc(c2) is None);
                    assert(unesc(t) is None);
                }
                return None;
            }
        } else if (c as u32) < 32 {
            proof {
                let t = s@.skip(k as int);
                assert(t[0] == c);
                assert(unesc(t) is None);
            }
            return None;
        } else {
            let ghost cur0 = cur@;
            cur.push(c);
            proof {
                let t = s@.skip(k as int);
                assert(t[0] == c);
                assert(t.skip(1) =~= s@.skip(k + 1));
                match unesc(s@.skip(k + 1)) {
                    Some(q) => {
                        assert(unesc(t) == Some((seq![c] + q.0, q.1)));
                        assert((cur0 + (seq![c] + q.0)) =~= (cur0.push(c) + q.0));
                    },
                    None => {
                        assert(unesc(t) is None);
                    },
                }
            }
            k = k + 1;
        }
    }
    proof {
        assert(s@.skip(k as int) =~= Seq::<char>::empty());
        assert(unesc(s@.skip(k as int)) is None);
    }
    None
}

/// The walk so far agrees with `parse_items`: finishing the parse from
/// position `p` with `acc` already read gives `parse_items`'s answer
/// for the whole remainder of the blob.
spec fn continues(full: Seq<char>, p: int, acc: Seq<Seq<char>>) -> bool {
    match parse_items(full.skip(p)) {
        Some(t) => parse_items(full.skip(1)) == Some(acc + t),
        None => parse_items(full.skip(1)) is None,
    }
}

/// Decodes a storage blob into its tag sequence; a blob that is not
/// exactly an encoded tag sequence decodes to no tags at all.
pub fn decode_tags(blob: &str) -> (r: Vec<String>)
    ensures
        r@.map_values(|t: String| t@) == decoded_tags(blob@),
{
    let s = to_chars(blob);
    let n = s.len();
    let empty_r: Vec<String> = Vec::new();
    proof {
        assert(empty_r@.map_values(|t: String| t@) =~= Seq::<Seq<char>>::empty());
    }
    if n == 0 || s[0] != '[' {
        return empty_r;
    }
    let mut acc: Vec<String> = Vec::new();
    let mut p: usize = 1;
    while p < n
        invariant
            1 <= p <= n,
            n == blob@.len(),
            s@ == blob@,
            blob@[0] == '[',
            empty_r@.map_values(|t: String| t@) == Seq::<Seq<char>>::empty(),
            continues(blob@, p as int, acc@.map_values(|t: String| t@)),
        decreases n - p,
    {
        let ghost accv = acc@.map_values(|t: String| t@);
        let c = s[p];
        if c == ']' {
            if p == n - 1 {
                proof {
                    assert(blob@.skip(p as int) =~= seq![']']);
                    assert(parse_items(blob@.skip(p as int)) == Some(Seq::<Seq<char>>::empty()));
                    assert(accv + Seq::<Seq<char>>::empty() =~= accv);
                }
                return acc;
            } else {
                proof {
                    let t = blob@.skip(p as int);
                    assert(t.len() >= 2 && t[0] == ']');
                    assert(parse_items(t) is None);
                    assert(parse_items(blob@.skip(1)) is None);
                    assert(decoded_tags(blob@) == Seq::<Seq<char>>::empty());
                }
                return empty_r;
            }
        } else if c == '"' {
            proof {
                assert(blob@.skip(p as int)[0] == '"');
                assert(blob@.skip(p as int).skip(1) =~= blob@.skip(p + 1));
            }
            match scan_string(&s, p + 1) {
                None => {
                    proof {
                        assert(parse_items(blob@.skip(p as int)) is None);
                    }
                    return empty_r;
                },
                Some(pair) => {
                    let (tag, q) = pair;
                    proof {
                        assert(unesc(blob@.skip(p as int).skip(1)) == Some(
                            (tag@, blob@.skip(q as int)),
                        ));
                    }
                    if q == n {
                        proof {
                            assert(blob@.skip(q as int) =~= Seq::<char>::empty());
                            assert(parse_items(blob@.skip(p as int)) is None);
                            assert(parse_items(blob@.skip(1)) is None);
                            assert(decoded_tags(blob@) == Seq::<Seq<char>>::empty());
                        }
                        return empty_r;
                    }
                    let c2 = s[q];
                    if c2 == ']' && q == n - 1 {
                        proof {
                            assert(blob@.skip(q as int) =~= seq![']']);
                            assert(parse_items(blob@.skip(p as int)) == Some(seq![tag@]));
                        }
                        acc.push(tag);
                        proof {
                            assert(acc@.map_values(|t: String| t@) =~= accv.push(
                                acc@[acc@.len() - 1]@,
                            ));
                            assert(accv + seq![acc@[acc@.len() - 1]@] =~= acc@.map_values(
                                |t: String| t@,
                            ));
                        }
                        return acc;
                    } else if c2 == ',' {
                        proof {
                            let rest = blob@.skip(q as int);
                            assert(rest[0] == ',');
                            assert(rest.len() >= 1);
                            assert(rest.skip(1) =~= blob@.skip(q + 1));
                        }
                        acc.push(tag);
                        proof {
                            assert(acc@.map_values(|t: String| t@) =~= accv.push(tag@));
                            match parse_items(blob@.skip(q + 1)) {
                                Some(t2) => {
                                    assert(parse_items(blob@.skip(p as int)) == Some(
                                        seq![tag@] + t2,
                                    ));
                                    assert(accv + (seq![tag@] + t2) =~= accv.push(tag@) + t2);
                                },
                                None => {
                                    assert(parse_items(blob@.skip(p as int)) is None);
                                },
                            }
                        }
                        p = q + 1;
                    } else {
                        proof {
                            let rest = blob@.skip(q as int);
                            assert(rest[0] == c2);
                            assert(!(rest.len() == 1 && rest[0] == ']') && !(rest.len() >= 1
                                && rest[0] == ','));
                            assert(parse_items(blob@.skip(p as int)) is None);
                        }
                        return empty_r;
                    }
                },
            }
        } else {
            proof {
                let t = blob@.skip(p as int);
                assert(t[0] == c);
                assert(parse_items(t) is None);
            }
            return empty_r;
        }
    }
    proof {
        assert(blob@.skip(p as int) =~= Seq::<char>::empty());
        assert(parse_items(blob@.skip(p as int)) is None);
    }
    empty_r
}

} // verus!
