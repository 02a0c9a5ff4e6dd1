//! Text segmentation: grapheme clusters, word boundaries and white space.
//!
//! The boundaries come from the `unicode-segmentation` crate (Unicode
//! Standard Annex #29). Its results are named here rather than spelled out:
//! what is stated is what holds of every segmentation, and the rules of the
//! annex that need no character tables (flags, joiners and combining
//! diacritical marks; runs of ASCII letters and digits and what ends them). White space is the
//! Unicode `White_Space` property, which the standard library's trimming
//! uses; it is written out below.

use vstd::prelude::*;
use vstd::utf8::*;

use unicode_segmentation::UnicodeSegmentation;

use vstd::std_specs::iter::IteratorSpec;

use crate::history::lemma_boundary_at_join;
use crate::rope::lemma_encode_append;

verus! {

/// The byte offsets at which the extended grapheme clusters of `text` start.
pub uninterp spec fn grapheme_starts(text: Seq<char>) -> Seq<usize>;

/// The byte offsets at which the pieces between UAX#29 word boundaries start.
pub uninterp spec fn word_bound_starts(text: Seq<char>) -> Seq<usize>;

/// Whether a character has the Unicode `White_Space` property (Unicode
/// Character Database, `PropList.txt`): the controls U+0009 to U+000D, the
/// space U+0020, U+0085, U+00A0, U+1680, the spaces U+2000 to U+200A, the
/// line and paragraph separators U+2028 and U+2029, U+202F, U+205F and U+3000.
pub open spec fn is_white_space(c: char) -> bool {
    let u = c as u32;
    ||| 0x09 <= u <= 0x0D
    ||| u == 0x20
    ||| u == 0x85
    ||| u == 0xA0
    ||| u == 0x1680
    ||| 0x2000 <= u <= 0x200A
    ||| u == 0x2028
    ||| u == 0x2029
    ||| u == 0x202F
    ||| u == 0x205F
    ||| u == 0x3000
}

/// The byte offset of character `i` of `text`.
pub open spec fn char_offset(text: Seq<char>, i: int) -> nat {
    encode_utf8(text.take(i)).len()
}

/// Whether `c` is a regional indicator (U+1F1E6 to U+1F1FF); two of them
/// make a flag.
pub open spec fn is_regional_indicator(c: char) -> bool {
    0x1F1E6 <= c as u32 <= 0x1F1FF
}

/// Whether `c` is the zero width joiner U+200D or a combining diacritical
/// mark (U+0300 to U+036F): characters that extend the cluster before them.
pub open spec fn is_joiner_or_mark(c: char) -> bool {
    c as u32 == 0x200D || 0x300 <= c as u32 <= 0x36F
}

/// Whether `c` is a plain character that such a character can extend: the
/// printable ASCII characters, the Latin letters U+00C0 to U+024F, or a
/// joiner or mark itself (no control character is among them).
pub open spec fn is_plain(c: char) -> bool {
    ||| 0x20 <= c as u32 <= 0x7E
    ||| 0xC0 <= c as u32 <= 0x24F
    ||| is_joiner_or_mark(c)
}

/// The number of regional indicators directly before character `i`.
pub open spec fn regional_run_before(text: Seq<char>, i: int) -> nat
    decreases i,
{
    if i <= 0 || i > text.len() || !is_regional_indicator(text[i - 1]) {
        0
    } else {
        1 + regional_run_before(text, i - 1)
    }
}

/// Whether the place before character `i` lies inside an extended grapheme
/// cluster (UAX #29): a joiner or mark after a plain character (rule GB9),
/// or the second regional indicator of a pair (rules GB12 and GB13: after an
/// odd number of regional indicators).
pub open spec fn inside_grapheme(text: Seq<char>, i: int) -> bool {
    &&& 0 < i < text.len()
    &&& {
        ||| is_joiner_or_mark(text[i]) && is_plain(text[i - 1])
        ||| is_regional_indicator(text[i - 1]) && is_regional_indicator(text[i]) && regional_run_before(
            text,
            i,
        ) % 2 == 1
    }
}

/// Whether `c` is an ASCII letter.
pub open spec fn is_ascii_letter(c: char) -> bool {
    ('a' <= c && c <= 'z') || ('A' <= c && c <= 'Z')
}

/// Whether `c` is an ASCII letter or digit.
pub open spec fn is_ascii_alphanumeric(c: char) -> bool {
    is_ascii_letter(c) || ('0' <= c && c <= '9')
}

/// Whether `c` is a character that a word never runs on into after a
/// letter (UAX #29, rule WB999): the space, `,`, `;`, `!`, `?`, `(` or `)`.
pub open spec fn ends_a_word(c: char) -> bool {
    c == ' ' || c == ',' || c == ';' || c == '!' || c == '?' || c == '(' || c == ')'
}

/// Whether UAX #29 puts a word boundary before character `i`, by the rules
/// that need no tables: between a letter and a space or punctuation that
/// ends a word there is one (WB999).
pub open spec fn word_break_before(text: Seq<char>, i: int) -> bool {
    0 < i < text.len() && is_ascii_letter(text[i - 1]) && ends_a_word(text[i])
}

/// Whether UAX #29 keeps character `i` in the word before it, by the rules
/// that need no tables: between two ASCII letters or digits there is no
/// boundary (WB5, WB8, WB9, WB10).
pub open spec fn word_joined_before(text: Seq<char>, i: int) -> bool {
    0 < i < text.len() && is_ascii_alphanumeric(text[i - 1]) && is_ascii_alphanumeric(text[i])
}

/// Character `i` of a text starts after its first byte and before its end.
pub proof fn lemma_char_offset_inside(text: Seq<char>, i: int)
    requires
        0 < i < text.len(),
    ensures
        0 < char_offset(text, i) < encode_utf8(text).len(),
{
    lemma_encode_append(text.take(i), text.skip(i));
    assert(text.take(i) + text.skip(i) =~= text);
    assert(encode_utf8(text.take(i)).len() > 0) by {
        let t = text.take(i);
        assert(encode_utf8(t) == encode_scalar(t[0] as u32) + encode_utf8(t.drop_first()));
    }
    assert(encode_utf8(text.skip(i)).len() > 0) by {
        let t = text.skip(i);
        assert(encode_utf8(t) == encode_scalar(t[0] as u32) + encode_utf8(t.drop_first()));
    }
}

/// `starts` cuts `bytes` into non-empty consecutive pieces at character
/// boundaries: the first piece starts at 0, each later one where the
/// previous ended, and the last one ends at the end of the text.
pub open spec fn is_segmentation(starts: Seq<usize>, bytes: Seq<u8>) -> bool {
    &&& (bytes.len() == 0 <==> starts.len() == 0)
    &&& starts.len() > 0 ==> starts[0] == 0
    &&& forall|i: int, j: int| 0 <= i < j < starts.len() ==> #[trigger] starts[i] < #[trigger] starts[j]
    &&& forall|i: int| 0 <= i < starts.len() ==> starts[i] < bytes.len()
    &&& forall|i: int|
        0 <= i < starts.len() ==> is_char_boundary(bytes, #[trigger] starts[i] as int)
}

/// Whether every character of `text` is white space.
pub open spec fn all_white_space(text: Seq<char>) -> bool {
    forall|k: int| 0 <= k < text.len() ==> is_white_space(#[trigger] text[k])
}

/// The number of white-space characters at the start of `text`.
pub open spec fn leading_white_space_count(text: Seq<char>) -> nat
    decreases text.len(),
{
    if text.len() == 0 || !is_white_space(text[0]) {
        0
    } else {
        1 + leading_white_space_count(text.drop_first())
    }
}

/// The leading white space is part of the text.
pub proof fn lemma_leading_white_space_count(text: Seq<char>)
    ensures
        leading_white_space_count(text) <= text.len(),
    decreases text.len(),
{
    if text.len() > 0 && is_white_space(text[0]) {
        lemma_leading_white_space_count(text.drop_first());
    }
}

/// `UnicodeSegmentation::grapheme_indices(text, true)`, keeping the offsets.
///
/// The crate yields the extended grapheme clusters of `text` with their byte
/// offsets; the clusters are consecutive pieces of `text` that together make
/// up all of it. Its pair rules (`check_pair` in `grapheme.rs`) never break
/// before a joiner or an extending mark unless after a control (GB9), and
/// break between regional indicators only after an even number of them
/// (GB12, GB13): no cluster starts at a place `inside_grapheme`.
#[verifier::external_body]
pub fn grapheme_offsets(text: &str) -> (r: Vec<usize>)
    ensures
        r@ == grapheme_starts(text@),
        is_segmentation(r@, encode_utf8(text@)),
        forall|i: int| inside_grapheme(text@, i) ==> !r@.contains(char_offset(text@, i) as usize),
{
    text.grapheme_indices(true).map(|(index, _)| index).collect()
}

/// `UnicodeSegmentation::split_word_bound_indices(text)`, keeping the offsets.
///
/// The crate documents that the pieces between word boundaries, concatenated,
/// give back the whole string; each piece comes with its byte offset. It
/// keeps runs of letters and digits in one piece (WB5, WB8 to WB10) and
/// ends a letter's piece before a space, `,`, `;`, `!`, `?`, `(` or `)`
/// (WB999; `,` and `;` join only digits, WB11 and WB12): a piece starts at
/// every place `word_break_before`, and at no place `word_joined_before`.
#[verifier::external_body]
pub fn word_bound_offsets(text: &str) -> (r: Vec<usize>)
    ensures
        r@ == word_bound_starts(text@),
        is_segmentation(r@, encode_utf8(text@)),
        forall|i: int| word_break_before(text@, i) ==> r@.contains(char_offset(text@, i) as usize),
        forall|i: int| word_joined_before(text@, i) ==> !r@.contains(char_offset(text@, i) as usize),
{
    text.split_word_bound_indices().map(|(index, _)| index).collect()
}

/// Whether the text is all white space: all of it is leading white space.
pub proof fn lemma_all_white_space(text: Seq<char>)
    ensures
        all_white_space(text) <==> leading_white_space_count(text) == text.len(),
    decreases text.len(),
{
    lemma_leading_white_space_count(text);
    if text.len() > 0 {
        let rest = text.drop_first();
        lemma_all_white_space(rest);
        if all_white_space(text) {
            assert forall|k: int| 0 <= k < rest.len() implies is_white_space(#[trigger] rest[k]) by {
                assert(rest[k] == text[k + 1]);
            }
        }
        if is_white_space(text[0]) && all_white_space(rest) {
            assert forall|k: int| 0 <= k < text.len() implies is_white_space(#[trigger] text[k]) by {
                if k > 0 {
                    assert(text[k] == rest[k - 1]);
                }
            }
        }
    }
}

/// Whether `c` is white space (see `is_white_space`).
pub fn white_space_char(c: char) -> (r: bool)
    ensures
        r == is_white_space(c),
{
    let u = c as u32;
    (0x09 <= u && u <= 0x0D) || u == 0x20 || u == 0x85 || u == 0xA0 || u == 0x1680 || (0x2000 <= u
        && u <= 0x200A) || u == 0x2028 || u == 0x2029 || u == 0x202F || u == 0x205F || u == 0x3000
}

/// The number of bytes that encode `c` in UTF-8.
fn utf8_len(c: char) -> (r: usize)
    ensures
        r == encode_scalar(c as u32).len(),
{
    let u = c as u32;
    if u <= 0x7F {
        1
    } else if u <= 0x7FF {
        2
    } else if u <= 0xFFFF {
        3
    } else {
        4
    }
}

/// The text without its leading white space: what is left is the end of
/// the text, all that was cut off is white space, and what is left does
/// not start with it.
fn trim_start_raw(text: &str) -> (r: &str)
    ensures
        r@.len() <= text@.len(),
        r@ == text@.skip(text@.len() - r@.len()),
        forall|k: int| 0 <= k < text@.len() - r@.len() ==> is_white_space(#[trigger] text@[k]),
        r@.len() > 0 ==> !is_white_space(r@[0]),
{
    let bytes = text.as_bytes();
    let total = bytes.len();
    let ghost chars = text@;
    proof {
        lemma_encode_append(chars.take(0), chars.skip(0));
        assert(chars.take(0) + chars.skip(0) =~= chars);
        assert(encode_utf8(chars.take(0)) =~= Seq::<u8>::empty());
    }
    let mut it = text.chars();
    let mut offset: usize = 0;
    let ghost mut n: int = 0;
    loop
        invariant_except_break
            it.remaining() == chars.skip(n),
        invariant
            0 <= n <= chars.len(),
            offset == encode_utf8(chars.take(n)).len(),
            total == bytes@.len(),
            encode_utf8(chars) == encode_utf8(chars.take(n)) + encode_utf8(chars.skip(n)),
            bytes@ == encode_utf8(chars),
            forall|k: int| 0 <= k < n ==> is_white_space(#[trigger] chars[k]),
        ensures
            0 <= n <= chars.len(),
            offset == encode_utf8(chars.take(n)).len(),
            encode_utf8(chars) == encode_utf8(chars.take(n)) + encode_utf8(chars.skip(n)),
            forall|k: int| 0 <= k < n ==> is_white_space(#[trigger] chars[k]),
            n < chars.len() ==> !is_white_space(chars[n]),
        decreases chars.len() - n,
    {
        match it.next() {
            Some(c) => {
                assert(c == chars[n]);
                if !white_space_char(c) {
                    break;
                }
                let ghost head = chars.take(n);
                proof {
                    assert(chars.take(n + 1) =~= head + seq![c]);
                    lemma_encode_append(head, seq![c]);
                    assert(seq![c].drop_first() =~= Seq::<char>::empty());
                    assert(encode_utf8(Seq::<char>::empty()) =~= Seq::<u8>::empty());
                    assert(seq![c][0] == c);
                    assert(encode_utf8(seq![c]) =~= encode_scalar(c as u32) + encode_utf8(Seq::<char>::empty()));
                    lemma_encode_append(chars.take(n + 1), chars.skip(n + 1));
                    assert(chars.take(n + 1) + chars.skip(n + 1) =~= chars);
                    assert(it.remaining() =~= chars.skip(n + 1));
                }
                offset = offset + utf8_len(c);
                proof {
                    n = n + 1;
                }
            },
            None => {
                assert(chars.skip(n).len() == 0);
                break;
            },
        }
    }
    proof {
        encode_utf8_valid_utf8(chars.take(n));
        encode_utf8_valid_utf8(chars.skip(n));
        lemma_boundary_at_join(encode_utf8(chars.take(n)), encode_utf8(chars.skip(n)));
    }
    let (_, rest) = text.split_at(offset);
    proof {
        assert(encode_utf8(rest@) =~= encode_utf8(chars.skip(n)));
        encode_utf8_decode_utf8(rest@);
        encode_utf8_decode_utf8(chars.skip(n));
        if rest@.len() > 0 {
            assert(rest@[0] == chars[n]);
        }
    }
    rest
}

/// A prefix of white space followed by the end or by other text is exactly
/// the leading white space.
proof fn lemma_leading_white_space_is(text: Seq<char>, n: int)
    requires
        0 <= n <= text.len(),
        forall|k: int| 0 <= k < n ==> is_white_space(#[trigger] text[k]),
        n < text.len() ==> !is_white_space(text[n]),
    ensures
        leading_white_space_count(text) == n,
    decreases n,
{
    if n > 0 {
        let rest = text.drop_first();
        assert(is_white_space(text[0]));
        assert forall|k: int| 0 <= k < n - 1 implies is_white_space(#[trigger] rest[k]) by {
            assert(rest[k] == text[k + 1]);
        }
        if n - 1 < rest.len() {
            assert(rest[n - 1] == text[n]);
        }
        lemma_leading_white_space_is(rest, n - 1);
    }
}

/// The text without its leading white space.
pub fn trim_start(text: &str) -> (r: &str)
    ensures
        r@ == text@.skip(leading_white_space_count(text@) as int),
{
    let r = trim_start_raw(text);
    proof {
        let n = text@.len() - r@.len();
        if r@.len() > 0 {
            assert(r@[0] == text@[n]);
        }
        lemma_leading_white_space_is(text@, n);
    }
    r
}

/// Whether the text is all white space.
pub fn is_blank(text: &str) -> (r: bool)
    ensures
        r == all_white_space(text@),
{
    proof {
        lemma_all_white_space(text@);
        lemma_leading_white_space_count(text@);
    }
    trim_start(text).is_empty()
}

/// The byte length of the leading white space.
pub fn leading_white_space_len(text: &str) -> (r: usize)
    ensures
        r == encode_utf8(text@.take(leading_white_space_count(text@) as int)).len(),
{
    let ghost k = leading_white_space_count(text@) as int;
    proof {
        lemma_leading_white_space_count(text@);
        assert(text@ =~= text@.take(k) + text@.skip(k));
        lemma_encode_append(text@.take(k), text@.skip(k));
    }
    let rest = trim_start(text);
    text.as_bytes().len() - rest.as_bytes().len()
}

} // verus!
