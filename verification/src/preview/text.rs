//! Text previews: the start of a text, without control characters.

use vstd::prelude::*;
use vstd::utf8::{decode_utf8, encode_scalar, encode_utf8, valid_utf8};

use crate::preview::{leading, read_leading, MAX_TEXT_BYTES};
use crate::seqs::{lemma_filter_none, lemma_filter_take};
use crate::state::{Preview, PreviewView};
use crate::store::previews::text_from_utf8;
use crate::text::{chars_of, string_of};

verus! {

/// Calls `std::str::from_utf8`, and `valid_up_to` of its error: the length of the longest prefix
/// that is valid UTF-8.
#[verifier::external_body]
fn valid_length(bytes: &[u8]) -> (r: usize)
    ensures
        r <= bytes@.len(),
        valid_utf8(bytes@.take(r as int)),
        forall|n: int| r < n <= bytes@.len() ==> !valid_utf8(#[trigger] bytes@.take(n)),
{
    match std::str::from_utf8(bytes) {
        Ok(_) => bytes.len(),
        Err(error) => error.valid_up_to(),
    }
}

/// The longest prefix of some bytes, of `n` at most, that is valid UTF-8.
pub open spec fn valid_prefix(bytes: Seq<u8>, n: int) -> Seq<u8>
    decreases n,
{
    if n <= 0 || valid_utf8(bytes.take(n)) {
        bytes.take(if n < 0 {
            0
        } else {
            n
        })
    } else {
        valid_prefix(bytes, n - 1)
    }
}

/// A control character, by the Unicode category of that name.
pub open spec fn is_control(c: char) -> bool {
    let code = c as u32;
    code <= 0x1f || 0x7f <= code <= 0x9f
}

/// A character that a preview shows: none that controls, but for line breaks and tabs.
pub open spec fn is_shown(c: char) -> bool {
    !is_control(c) || c == '\n' || c == '\r' || c == '\t'
}

/// The characters that a preview shows.
pub open spec fn sanitized(text: Seq<char>) -> Seq<char> {
    text.filter(|c: char| is_shown(c))
}

/// The text preview of some content: its first bytes as far as they are text, sanitized.
pub open spec fn text_preview(bytes: Seq<u8>) -> PreviewView {
    let window = leading(bytes, MAX_TEXT_BYTES as int);
    PreviewView::Text(sanitized(decode_utf8(valid_prefix(window, window.len() as int))))
}

/// The longest prefix that is valid UTF-8 is found from any length that reaches it.
pub proof fn lemma_valid_prefix(bytes: Seq<u8>, n: int, m: int)
    requires
        0 <= m <= n <= bytes.len(),
        valid_utf8(bytes.take(m)),
        forall|k: int| m < k <= bytes.len() ==> !valid_utf8(#[trigger] bytes.take(k)),
    ensures
        valid_prefix(bytes, n) == bytes.take(m),
    decreases n,
{
    if n > m {
        assert(!valid_utf8(bytes.take(n)));
        lemma_valid_prefix(bytes, n - 1, m);
    }
}

/// The characters of a text that a preview shows.
fn sanitize(text: &str) -> (r: String)
    ensures
        r@ == sanitized(text@),
{
    let chars = chars_of(text);
    let ghost p = |c: char| is_shown(c);
    let mut kept: Vec<char> = Vec::new();
    let mut i: usize = 0;
    proof {
        lemma_filter_none(text@.take(0), p);
    }
    while i < chars.len()
        invariant
            i <= chars.len(),
            chars@ == text@,
            p == (|c: char| is_shown(c)),
            kept@ == text@.take(i as int).filter(p),
        decreases chars.len() - i,
    {
        proof {
            lemma_filter_take(text@, i as int, p);
        }
        let c = chars[i];
        let code: u32 = c as u32;
        let control = code <= 0x1f || (0x7f <= code && code <= 0x9f);
        if !control || c == '\n' || c == '\r' || c == '\t' {
            kept.push(c);
        }
        i = i + 1;
    }
    assert(text@.take(i as int) =~= text@);
    string_of(&kept)
}

/// A short, sanitized text from the start of some content.
pub fn generate_text(bytes: &Vec<u8>) -> (r: Preview)
    ensures
        r@ == text_preview(bytes@),
{
    let window = read_leading(bytes, MAX_TEXT_BYTES);
    let length = valid_length(window.as_slice());
    proof {
        lemma_valid_prefix(window@, window@.len() as int, length as int);
    }
    let prefix = read_leading(&window, length);
    assert(prefix@ =~= window@.take(length as int));
    let text = match text_from_utf8(prefix) {
        Some(text) => text,
        None => String::new(),
    };
    Preview::Text(sanitize(text.as_str()))
}

/// The encoding of one character more is that much longer.
proof fn lemma_encoding_push(text: Seq<char>, c: char)
    ensures
        encode_utf8(text.push(c)).len() == encode_utf8(text).len() + encode_scalar(
            c as u32,
        ).len(),
    decreases text.len(),
{
    if text.len() == 0 {
        assert(text.push(c).drop_first() =~= Seq::<char>::empty());
        assert(encode_utf8(text.push(c).drop_first()).len() == 0);
    } else {
        lemma_encoding_push(text.drop_first(), c);
        assert(text.push(c).drop_first() =~= text.drop_first().push(c));
    }
}

proof fn lemma_sanitized_is_shorter(text: Seq<char>)
    ensures
        encode_utf8(sanitized(text)).len() <= encode_utf8(text).len(),
    decreases text.len(),
{
    let p = |c: char| is_shown(c);
    if text.len() > 0 {
        let shorter = text.drop_last();
        lemma_sanitized_is_shorter(shorter);
        assert(text =~= shorter.push(text.last()));
        crate::seqs::lemma_filter_push(shorter, text.last(), p);
        lemma_encoding_push(shorter, text.last());
        if p(text.last()) {
            lemma_encoding_push(sanitized(shorter), text.last());
        }
    } else {
        lemma_filter_none(text, p);
        assert(sanitized(text) =~= text);
    }
}

proof fn lemma_valid_prefix_is_short(bytes: Seq<u8>, n: int)
    requires
        0 <= n <= bytes.len(),
    ensures
        valid_prefix(bytes, n).len() <= n,
        valid_utf8(valid_prefix(bytes, n)),
    decreases n,
{
    if n > 0 && !valid_utf8(bytes.take(n)) {
        lemma_valid_prefix_is_short(bytes, n - 1);
    } else if n == 0 {
        assert(bytes.take(0) =~= Seq::<u8>::empty());
        assert(valid_utf8(Seq::<u8>::empty()));
    }
}

/// A text preview takes no more bytes than the cap, and holds no control character but line
/// breaks and tabs.
pub proof fn law_text_preview_is_bounded_and_clean(bytes: Seq<u8>)
    ensures
        text_preview(bytes) matches PreviewView::Text(text) && encode_utf8(text).len()
            <= MAX_TEXT_BYTES && forall|i: int|
            0 <= i < text.len() ==> is_shown(#[trigger] text[i]) && {
                let code = text[i] as u32;
                code == 0x09 || code == 0x0a || code == 0x0d || 0x20 <= code <= 0x7e || 0xa0
                    <= code
            },
{
    let window = leading(bytes, MAX_TEXT_BYTES as int);
    let prefix = valid_prefix(window, window.len() as int);
    lemma_valid_prefix_is_short(window, window.len() as int);
    let text = decode_utf8(prefix);
    vstd::utf8::decode_utf8_encode_utf8(prefix);
    lemma_sanitized_is_shorter(text);
    let shown = sanitized(text);
    let p = |c: char| is_shown(c);
    assert forall|i: int| 0 <= i < shown.len() implies is_shown(#[trigger] shown[i]) by {
        crate::seqs::lemma_filter_member(text, p, i);
        assert(p(shown[i]));
    }
    assert forall|i: int| 0 <= i < shown.len() implies {
        let code = (#[trigger] shown[i]) as u32;
        code == 0x09 || code == 0x0a || code == 0x0d || 0x20 <= code <= 0x7e || 0xa0 <= code
    } by {
        assert(is_shown(shown[i]));
        let code = shown[i] as u32;
        assert(shown[i] == '\t' ==> code == 0x09);
        assert(shown[i] == '\n' ==> code == 0x0a);
        assert(shown[i] == '\r' ==> code == 0x0d);
    }
}

} // verus!
