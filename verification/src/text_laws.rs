//! How ids, prefixes and other texts are read and written, said of their characters.

use vstd::prelude::*;
use vstd::utf8::{encode_scalar, encode_utf8};

use crate::ids::{
    hex_char, hex_digit_value, hex_number, hex_text, hyphenated, id_text, lemma_hex_text_shape,
    lemma_id_round_trip, lemma_pow16_32, parsed_id, pow16, unhyphenated, FileId,
};
use crate::peer::transfer::{leading_chars, shortened, utf8_length};
use crate::seqs::{
    lemma_filter_all, lemma_filter_concat, lemma_filter_keeps, lemma_filter_none, lemma_filter_one,
};
use crate::store::short_id::{common_prefix, lemma_common_prefix, normalized_prefix, without_hyphens};
use crate::store::types::CatalogView;
use crate::text::{
    all_hex, ascii_lower, ascii_lowercase, is_hex_digit, is_white_space, like, trimmed,
    without_leading_space, without_trailing_space,
};

verus! {

/// An id is written as 32 digits, in lower case, and read back from them.
pub proof fn law_id_is_written_in_lower_case(value: u128, i: int)
    ensures
        id_text(value).len() == 32,
        0 <= i < 32 ==> ('0' <= id_text(value)[i] <= '9') || ('a' <= id_text(value)[i] <= 'f'),
        parsed_id(id_text(value)) == Some(value),
{
    lemma_id_round_trip(value);
    if 0 <= i < 32 {
        lemma_lower_digits(value as nat, 32, i);
    }
}

proof fn lemma_lower_digits(value: nat, width: nat, i: int)
    requires
        0 <= i < width,
    ensures
        hex_text(value, width).len() == width,
        ('0' <= hex_text(value, width)[i] <= '9') || ('a' <= hex_text(value, width)[i] <= 'f'),
    decreases width,
{
    lemma_hex_text_shape(value, width);
    if i < width - 1 {
        lemma_hex_text_shape(value / 16, (width - 1) as nat);
        lemma_lower_digits(value / 16, (width - 1) as nat, i);
        assert(hex_text(value, width)[i] == hex_text(value / 16, (width - 1) as nat)[i]);
    } else {
        lemma_hex_text_shape(value / 16, (width - 1) as nat);
        assert(hex_text(value, width)[i] == hex_char((value % 16) as int));
    }
}

/// The number that some lower case digits stand for is written with them.
proof fn lemma_number_is_written_back(text: Seq<char>)
    requires
        forall|i: int|
            0 <= i < text.len() ==> ('0' <= #[trigger] text[i] <= '9') || ('a' <= text[i] <= 'f'),
    ensures
        hex_number(text) < pow16(text.len()),
        hex_text(hex_number(text), text.len()) == text,
    decreases text.len(),
{
    if text.len() > 0 {
        let shorter = text.drop_last();
        assert forall|i: int| 0 <= i < shorter.len() implies ('0' <= #[trigger] shorter[i] <= '9')
            || ('a' <= shorter[i] <= 'f') by {
            assert(shorter[i] == text[i]);
        }
        lemma_number_is_written_back(shorter);
        let last = text[text.len() - 1];
        let digit = hex_digit_value(last);
        assert(0 <= digit < 16);
        assert(hex_char(digit) == last);
        let number = hex_number(text);
        assert(number == hex_number(shorter) * 16 + digit);
        assert(number / 16 == hex_number(shorter) && number % 16 == digit);
        assert(hex_text(number, text.len()) =~= text);
    }
}

/// What 32 lower case digits are read as is written with just those digits, so no two such texts
/// are read as the same id.
pub proof fn law_digits_are_read_as_their_id(text: Seq<char>)
    requires
        text.len() == 32,
        forall|i: int|
            0 <= i < text.len() ==> ('0' <= #[trigger] text[i] <= '9') || ('a' <= text[i] <= 'f'),
    ensures
        parsed_id(text) is Some,
        id_text(parsed_id(text)->Some_0) == text,
{
    assert(all_hex(text));
    lemma_number_is_written_back(text);
    lemma_pow16_32();
}

/// An id is read alike in either case of its digits.
pub proof fn law_id_is_read_in_either_case(text: Seq<char>)
    requires
        text.len() == 32,
    ensures
        parsed_id(ascii_lowercase(text)) == parsed_id(text),
{
    let lower = ascii_lowercase(text);
    if all_hex(text) {
        assert forall|i: int| 0 <= i < lower.len() implies is_hex_digit(#[trigger] lower[i]) by {
            assert(is_hex_digit(text[i]));
        }
        lemma_number_of_lower(text);
    } else {
        let i = choose|i: int| 0 <= i < text.len() && !is_hex_digit(#[trigger] text[i]);
        assert(!is_hex_digit(lower[i]));
    }
}

proof fn lemma_number_of_lower(text: Seq<char>)
    requires
        all_hex(text),
    ensures
        hex_number(ascii_lowercase(text)) == hex_number(text),
    decreases text.len(),
{
    if text.len() > 0 {
        let shorter = text.drop_last();
        assert forall|i: int| 0 <= i < shorter.len() implies is_hex_digit(#[trigger] shorter[i]) by {
            assert(shorter[i] == text[i]);
        }
        lemma_number_of_lower(shorter);
        assert(ascii_lowercase(text).drop_last() =~= ascii_lowercase(shorter));
        assert(is_hex_digit(text[text.len() - 1]));
        assert(hex_digit_value(ascii_lowercase(text).last()) == hex_digit_value(text.last()));
    }
}

/// An id is read alike with hyphens after its eighth, twelfth, sixteenth and twentieth digit.
pub proof fn law_id_is_read_with_hyphens(text: Seq<char>)
    requires
        text.len() == 32,
    ensures
        parsed_id(
            text.subrange(0, 8) + seq!['-'] + text.subrange(8, 12) + seq!['-'] + text.subrange(
                12,
                16,
            ) + seq!['-'] + text.subrange(16, 20) + seq!['-'] + text.subrange(20, 32),
        ) == parsed_id(text),
{
    let long = text.subrange(0, 8) + seq!['-'] + text.subrange(8, 12) + seq!['-'] + text.subrange(
        12,
        16,
    ) + seq!['-'] + text.subrange(16, 20) + seq!['-'] + text.subrange(20, 32);
    assert(hyphenated(long));
    assert(unhyphenated(long) =~= text);
}

/// A text of another length, or with a character that is no digit, is no id.
pub proof fn law_other_text_is_no_id(text: Seq<char>, i: int)
    requires
        (text.len() != 32 && text.len() != 36) || (text.len() == 32 && 0 <= i < 32 && !(('0'
            <= text[i] <= '9') || ('a' <= text[i] <= 'f') || ('A' <= text[i] <= 'F'))),
    ensures
        parsed_id(text) is None,
{
    if text.len() == 32 {
        assert(!is_hex_digit(text[i]));
    }
}

/// A prefix of an id may be given with hyphens anywhere.
pub proof fn law_prefix_is_read_with_hyphens(a: Seq<char>, b: Seq<char>)
    ensures
        normalized_prefix(a + seq!['-'] + b) == normalized_prefix(a + b),
{
    let p = |c: char| c != '-';
    lemma_filter_concat(a, seq!['-'], p);
    lemma_filter_concat(a + seq!['-'], b, p);
    lemma_filter_concat(a, b, p);
    lemma_filter_one('-', p);
    assert(without_hyphens(a + seq!['-'] + b) =~= without_hyphens(a + b));
}

/// Digits are a prefix, given in either case, and are taken in lower case: each character is kept,
/// but for a capital, which becomes its small letter.
pub proof fn law_digits_are_a_prefix(text: Seq<char>, i: int)
    requires
        text.len() > 0,
        forall|k: int|
            0 <= k < text.len() ==> ('0' <= #[trigger] text[k] <= '9') || ('a' <= text[k] <= 'f')
                || ('A' <= text[k] <= 'F'),
    ensures
        ({
            let prefix = normalized_prefix(text);
            &&& prefix is Some && prefix->Some_0.len() == text.len()
            &&& 0 <= i < text.len() ==> prefix->Some_0[i] as u32 == if 'A' <= text[i] <= 'F' {
                text[i] as u32 + 32
            } else {
                text[i] as u32 as int
            }
        }),
{
    let p = |c: char| c != '-';
    assert forall|k: int| 0 <= k < text.len() implies p(#[trigger] text[k]) && is_hex_digit(
        text[k],
    ) by {}
    lemma_filter_all(text, p);
}

/// A text with a character that is neither a digit nor a hyphen is no prefix, nor is one of hyphens
/// alone.
pub proof fn law_other_text_is_no_prefix(text: Seq<char>, i: int)
    requires
        (0 <= i < text.len() && text[i] != '-' && !(('0' <= text[i] <= '9') || ('a' <= text[i]
            <= 'f') || ('A' <= text[i] <= 'F'))) || (forall|k: int|
            0 <= k < text.len() ==> #[trigger] text[k] == '-'),
    ensures
        normalized_prefix(text) is None,
{
    let p = |c: char| c != '-';
    if forall|k: int| 0 <= k < text.len() ==> #[trigger] text[k] == '-' {
        lemma_filter_none(text, p);
    } else {
        lemma_filter_keeps(text, p, i);
        let kept = without_hyphens(text);
        let k = choose|k: int| 0 <= k < kept.len() && kept[k] == text[i];
        assert(!is_hex_digit(kept[k]));
    }
}

/// What two texts have in common at their start: so many characters are the same, and the next, if
/// both have one, are not.
pub proof fn law_common_prefix_ends_where_texts_part(a: Seq<char>, b: Seq<char>)
    ensures
        ({
            let n = common_prefix(a, b) as int;
            &&& n <= a.len() && n <= b.len()
            &&& a.take(n) == b.take(n)
            &&& n < a.len() && n < b.len() ==> a[n] != b[n]
        }),
    decreases a.len(),
{
    lemma_common_prefix(a, b, 0);
    let n = common_prefix(a, b);
    lemma_common_prefix(a, b, n);
    if n < a.len() && n < b.len() {
        lemma_common_prefix(a, b, (n + 1) as nat);
        if a[n as int] == b[n as int] {
            assert(a.take((n + 1) as int) =~= a.take(n as int).push(a[n as int]));
            assert(b.take((n + 1) as int) =~= b.take(n as int).push(b[n as int]));
        }
    }
}

/// The content of a file is found by the first digits of the hash of its latest version, in either
/// case.
pub proof fn law_content_is_found_by_the_start_of_its_hash(
    catalog: CatalogView,
    file_id: FileId,
    prefix: Seq<char>,
)
    ensures
        catalog.hash_prefix_matches(file_id, prefix) <==> catalog.latest_version(file_id) is Some
            && ({
            let hash = catalog.latest_version(file_id)->Some_0.content_hash;
            prefix.len() <= hash.len() && forall|i: int|
                0 <= i < prefix.len() ==> ascii_lower(#[trigger] prefix[i]) == ascii_lower(hash[i])
        }),
{
    if catalog.latest_version(file_id) is Some {
        let hash = catalog.latest_version(file_id)->Some_0.content_hash;
        let a = ascii_lowercase(prefix);
        let b = ascii_lowercase(hash);
        if a.is_prefix_of(b) {
            assert forall|i: int| 0 <= i < prefix.len() implies ascii_lower(#[trigger] prefix[i])
                == ascii_lower(hash[i]) by {
                assert(a[i] == b.subrange(0, a.len() as int)[i]);
            }
        }
        if prefix.len() <= hash.len() && forall|i: int|
            0 <= i < prefix.len() ==> ascii_lower(#[trigger] prefix[i]) == ascii_lower(hash[i]) {
            assert forall|i: int| 0 <= i < a.len() implies a[i] == b[i] by {
                assert(ascii_lower(prefix[i]) == ascii_lower(hash[i]));
            }
            assert(a =~= b.subrange(0, a.len() as int));
        }
    }
}

/// Lower case leaves every character but the capitals from A to Z, which become their small letters.
pub proof fn law_only_capitals_are_lowered(c: char)
    ensures
        'A' <= c <= 'Z' ==> ascii_lower(c) as u32 == c as u32 + 32,
        !('A' <= c <= 'Z') ==> ascii_lower(c) == c,
{
}

/// A pattern of plain characters and an open end matches the texts that begin with those characters,
/// in either case, and no others.
pub proof fn law_open_pattern_matches_what_begins_with_it(start: Seq<char>, text: Seq<char>)
    requires
        forall|i: int| 0 <= i < start.len() ==> #[trigger] start[i] != '%' && start[i] != '_',
    ensures
        like(start.push('%'), text) <==> start.len() <= text.len() && forall|i: int|
            0 <= i < start.len() ==> ascii_lower(#[trigger] start[i]) == ascii_lower(text[i]),
    decreases start.len(),
{
    let pattern = start.push('%');
    if start.len() == 0 {
        lemma_open_end(text);
        assert(pattern =~= seq!['%']);
    } else {
        let rest = start.drop_first();
        assert forall|i: int| 0 <= i < rest.len() implies #[trigger] rest[i] != '%' && rest[i]
            != '_' by {
            assert(rest[i] == start[i + 1]);
        }
        assert(pattern.drop_first() =~= rest.push('%'));
        assert(pattern[0] == start[0]);
        assert(start[0] != '%' && start[0] != '_');
        if text.len() > 0 {
            let tail = text.drop_first();
            law_open_pattern_matches_what_begins_with_it(rest, tail);
            if like(pattern, text) {
                assert forall|i: int| 0 <= i < start.len() implies ascii_lower(#[trigger] start[i])
                    == ascii_lower(text[i]) by {
                    if i > 0 {
                        assert(ascii_lower(rest[i - 1]) == ascii_lower(tail[i - 1]));
                    }
                }
            }
            if start.len() <= text.len() && forall|i: int|
                0 <= i < start.len() ==> ascii_lower(#[trigger] start[i]) == ascii_lower(text[i]) {
                assert(ascii_lower(start[0]) == ascii_lower(text[0]));
                assert forall|i: int| 0 <= i < rest.len() implies ascii_lower(#[trigger] rest[i])
                    == ascii_lower(tail[i]) by {
                    assert(ascii_lower(start[i + 1]) == ascii_lower(text[i + 1]));
                }
            }
        }
    }
}

proof fn lemma_open_end(text: Seq<char>)
    ensures
        like(seq!['%'], text),
    decreases text.len(),
{
    let pattern = seq!['%'];
    assert(pattern.drop_first() =~= Seq::<char>::empty());
    if text.len() > 0 {
        lemma_open_end(text.drop_first());
    } else {
        assert(like(pattern.drop_first(), text));
    }
    assert(pattern[0] == '%');
}

/// White space around a text is trimmed off, and what stands between is kept, white space in it too.
pub proof fn law_only_outer_white_space_is_trimmed(
    before: Seq<char>,
    text: Seq<char>,
    after: Seq<char>,
)
    requires
        forall|i: int| 0 <= i < before.len() ==> is_white_space(#[trigger] before[i]),
        forall|i: int| 0 <= i < after.len() ==> is_white_space(#[trigger] after[i]),
        text.len() > 0,
        !is_white_space(text[0]),
        !is_white_space(text[text.len() - 1]),
    ensures
        trimmed(before + text + after) == text,
{
    lemma_leading_space(before, text + after);
    assert(before + (text + after) =~= before + text + after);
    lemma_trailing_space(text, after);
}

proof fn lemma_leading_space(before: Seq<char>, rest: Seq<char>)
    requires
        forall|i: int| 0 <= i < before.len() ==> is_white_space(#[trigger] before[i]),
        rest.len() > 0,
        !is_white_space(rest[0]),
    ensures
        without_leading_space(before + rest) == rest,
    decreases before.len(),
{
    let all = before + rest;
    if before.len() > 0 {
        let tail = before.skip(1);
        assert forall|i: int| 0 <= i < tail.len() implies is_white_space(#[trigger] tail[i]) by {
            assert(tail[i] == before[i + 1]);
        }
        lemma_leading_space(tail, rest);
        assert(all.skip(1) =~= tail + rest);
        assert(all[0] == before[0]);
    } else {
        assert(all =~= rest);
    }
}

proof fn lemma_trailing_space(text: Seq<char>, after: Seq<char>)
    requires
        forall|i: int| 0 <= i < after.len() ==> is_white_space(#[trigger] after[i]),
        text.len() > 0,
        !is_white_space(text[text.len() - 1]),
    ensures
        without_trailing_space(text + after) == text,
    decreases after.len(),
{
    let all = text + after;
    if after.len() > 0 {
        let shorter = after.drop_last();
        assert forall|i: int| 0 <= i < shorter.len() implies is_white_space(#[trigger] shorter[i]) by {
            assert(shorter[i] == after[i]);
        }
        lemma_trailing_space(text, shorter);
        assert(all.drop_last() =~= text + shorter);
        assert(all.last() == after[after.len() - 1]);
    } else {
        assert(all =~= text);
    }
}

/// Blanks, tabs and line breaks are white space, and so are the blanks and breaks of other scripts;
/// letters, digits and marks are not.
pub proof fn law_white_space_is_blank(c: char)
    ensures
        c == ' ' || c == '\t' || c == '\n' || c == '\r' ==> is_white_space(c),
        c == '\u{b}' || c == '\u{c}' || c == '\u{85}' || c == '\u{a0}' ==> is_white_space(c),
        c == '\u{1680}' || '\u{2000}' <= c <= '\u{200a}' || c == '\u{3000}' ==> is_white_space(c),
        c == '\u{2028}' || c == '\u{2029}' || c == '\u{202f}' || c == '\u{205f}'
            ==> is_white_space(c),
        c < '\t' || '\r' < c < ' ' || '!' <= c < '\u{85}' || '\u{85}' < c < '\u{a0}'
            ==> !is_white_space(c),
        '\u{a0}' < c < '\u{1680}' || '\u{1680}' < c < '\u{2000}' || '\u{200b}' <= c < '\u{2028}'
            ==> !is_white_space(c),
        '\u{202a}' <= c < '\u{202f}' || '\u{2030}' <= c < '\u{205f}' || '\u{2060}' <= c
            < '\u{3000}' || '\u{3000}' < c ==> !is_white_space(c),
{
}

/// A hash of digits is shortened to its first eight, and one of at most eight is not.
pub proof fn law_hash_is_shortened_to_eight(hash: Seq<char>)
    requires
        forall|i: int| 0 <= i < hash.len() ==> #[trigger] hash[i] as u32 <= 0x7f,
    ensures
        hash.len() >= 8 ==> shortened(hash) == hash.take(8),
        hash.len() < 8 ==> shortened(hash) == hash,
{
    lemma_leading_ascii(hash, 8);
}

proof fn lemma_leading_ascii(text: Seq<char>, bytes: int)
    requires
        bytes >= 0,
        forall|i: int| 0 <= i < text.len() ==> #[trigger] text[i] as u32 <= 0x7f,
    ensures
        leading_chars(text, bytes) == if bytes <= text.len() {
            Some(bytes)
        } else {
            None
        },
    decreases bytes,
{
    if bytes > 0 && text.len() > 0 {
        assert(utf8_length(text[0]) == 1);
        let rest = text.skip(1);
        assert forall|i: int| 0 <= i < rest.len() implies #[trigger] rest[i] as u32 <= 0x7f by {
            assert(rest[i] == text[i + 1]);
        }
        lemma_leading_ascii(rest, bytes - 1);
    }
}

proof fn lemma_encoded_length(c: char)
    ensures
        encode_scalar(c as u32).len() == utf8_length(c),
        utf8_length(c) >= 1,
{
}

proof fn lemma_leading_bytes(text: Seq<char>, bytes: int, n: int)
    requires
        bytes >= 0,
        0 <= n <= text.len(),
    ensures
        encode_utf8(text.take(n)).len() == bytes ==> leading_chars(text, bytes) == Some(n),
        leading_chars(text, bytes) matches Some(m) ==> 0 <= m <= text.len() && encode_utf8(
            text.take(m),
        ).len() == bytes,
    decreases text.len(),
{
    let none = text.take(0);
    assert(encode_utf8(none).len() == 0);
    if n > 0 {
        lemma_encoded_length(text[0]);
        assert(text.take(n)[0] == text[0]);
        assert(text.take(n).drop_first() =~= text.skip(1).take(n - 1));
        assert(encode_utf8(text.take(n)).len() == utf8_length(text[0]) + encode_utf8(
            text.skip(1).take(n - 1),
        ).len());
    }
    if bytes > 0 && text.len() > 0 && utf8_length(text[0]) <= bytes {
        lemma_encoded_length(text[0]);
        let rest = text.skip(1);
        let left = bytes - utf8_length(text[0]);
        lemma_leading_bytes(
            rest,
            left,
            if n > 0 {
                n - 1
            } else {
                0
            },
        );
        if leading_chars(rest, left) is Some {
            let m = leading_chars(rest, left)->Some_0;
            assert(text.take(m + 1)[0] == text[0]);
            assert(text.take(m + 1).drop_first() =~= rest.take(m));
        }
    }
}

/// A text of any script is shortened to the characters that its first eight bytes of UTF-8 hold,
/// and is left whole if it has fewer bytes or no character ends with the eighth.
pub proof fn law_text_is_shortened_where_a_character_ends(text: Seq<char>, n: int)
    requires
        0 <= n <= text.len(),
    ensures
        encode_utf8(text.take(n)).len() == 8 ==> shortened(text) == text.take(n),
        (forall|k: int| 0 <= k <= text.len() ==> encode_utf8(#[trigger] text.take(k)).len() != 8)
            ==> shortened(text) == text,
{
    lemma_leading_bytes(text, 8, n);
}

/// A pattern matches character by character: `_` stands for any one character, `%` for any number of
/// them, and every other character for itself in either case.
pub proof fn law_pattern_matches_character_by_character(c: char, rest: Seq<char>, text: Seq<char>)
    ensures
        c == '_' ==> (like(seq![c] + rest, text) <==> text.len() > 0 && like(rest, text.skip(1))),
        c == '%' ==> (like(seq![c] + rest, text) <==> exists|k: int|
            0 <= k <= text.len() && like(rest, #[trigger] text.skip(k))),
        c != '_' && c != '%' ==> (like(seq![c] + rest, text) <==> text.len() > 0 && ascii_lower(c)
            == ascii_lower(text[0]) && like(rest, text.skip(1))),
        like(Seq::<char>::empty(), text) <==> text.len() == 0,
    decreases text.len(),
{
    let pattern = seq![c] + rest;
    assert(pattern[0] == c);
    assert(pattern.drop_first() =~= rest);
    assert(text.skip(0) =~= text);
    if text.len() > 0 {
        assert(text.drop_first() =~= text.skip(1));
        if c == '%' {
            law_pattern_matches_character_by_character(c, rest, text.skip(1));
            assert forall|k: int| 0 <= k <= text.len() - 1 implies #[trigger] text.skip(1).skip(k)
                == text.skip(k + 1) by {
                assert(text.skip(1).skip(k) =~= text.skip(k + 1));
            }
            if like(pattern, text.skip(1)) {
                let k = choose|k: int|
                    0 <= k <= text.skip(1).len() && like(rest, #[trigger] text.skip(1).skip(k));
                assert(like(rest, text.skip(k + 1)));
            }
            if exists|k: int| 0 <= k <= text.len() && like(rest, #[trigger] text.skip(k)) {
                let k = choose|k: int|
                    0 <= k <= text.len() && like(rest, #[trigger] text.skip(k));
                if k > 0 {
                    assert(text.skip(1).skip(k - 1) =~= text.skip(k));
                }
            }
        }
    } else if c == '%' {
        assert forall|k: int| 0 <= k <= text.len() implies #[trigger] text.skip(k) == text by {
            assert(text.skip(k) =~= text);
        }
    }
}

} // verus!
