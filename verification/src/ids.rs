//! File and tag identifiers.

use vstd::prelude::*;

use crate::text::{chars_of, hex_digit_char, is_hex_digit, string_of};

verus! {

/// The identity of a file: a 128-bit number, written as 32 hex digits.
#[derive(Clone, Copy, Debug, PartialEq, Eq, PartialOrd, Ord, Hash, Structural)]
pub struct FileId {
    pub value: u128,
}

/// The identity of a tag: a 128-bit number, written as 32 hex digits.
#[derive(Clone, Copy, Debug, PartialEq, Eq, PartialOrd, Ord, Hash, Structural)]
pub struct TagId {
    pub value: u128,
}

/// Number of digits in the written form of an id.
pub const ID_DIGITS: usize = 32;

/// The lowercase hex digit of a value below sixteen.
pub open spec fn hex_char(digit: int) -> char {
    if digit < 10 {
        (48 + digit) as u8 as char
    } else {
        (87 + digit) as u8 as char
    }
}

/// The value of a hex digit in either case.
pub open spec fn hex_digit_value(c: char) -> int {
    if '0' <= c <= '9' {
        c as int - 48
    } else if 'a' <= c <= 'f' {
        c as int - 87
    } else {
        c as int - 55
    }
}

/// `value` in base sixteen with exactly `width` lowercase digits.
pub open spec fn hex_text(value: nat, width: nat) -> Seq<char>
    decreases width,
{
    if width == 0 {
        Seq::empty()
    } else {
        hex_text(value / 16, (width - 1) as nat).push(hex_char((value % 16) as int))
    }
}

/// The number that a sequence of hex digits writes.
pub open spec fn hex_number(text: Seq<char>) -> nat
    decreases text.len(),
{
    if text.len() == 0 {
        0
    } else {
        (hex_number(text.drop_last()) * 16 + hex_digit_value(text.last())) as nat
    }
}

/// The written form of an id: 32 lowercase hex digits.
pub open spec fn id_text(value: u128) -> Seq<char> {
    hex_text(value as nat, 32)
}

/// Sixteen to the power `width`.
pub open spec fn pow16(width: nat) -> nat
    decreases width,
{
    if width == 0 {
        1
    } else {
        16 * pow16((width - 1) as nat)
    }
}

/// The hyphenated form has its hyphens at these four places.
pub open spec fn hyphenated(text: Seq<char>) -> bool {
    text.len() == 36 && text[8] == '-' && text[13] == '-' && text[18] == '-' && text[23] == '-'
}

/// A text without its hyphens, when it has the hyphenated form.
pub open spec fn unhyphenated(text: Seq<char>) -> Seq<char> {
    if hyphenated(text) {
        text.subrange(0, 8) + text.subrange(9, 13) + text.subrange(14, 18) + text.subrange(19, 23)
            + text.subrange(24, 36)
    } else {
        text
    }
}

/// What a written id stands for: 32 hex digits in either case, plain or hyphenated.
pub open spec fn parsed_id(text: Seq<char>) -> Option<u128> {
    let digits = unhyphenated(text);
    if digits.len() == 32 && crate::text::all_hex(digits) {
        Some(hex_number(digits) as u128)
    } else {
        None
    }
}

pub proof fn lemma_hex_char(d: int)
    requires
        0 <= d < 16,
    ensures
        is_hex_digit(hex_char(d)),
        hex_digit_value(hex_char(d)) == d,
        hex_char(d) != '-',
{
}

pub proof fn lemma_hex_text_shape(value: nat, width: nat)
    ensures
        hex_text(value, width).len() == width,
        crate::text::all_hex(hex_text(value, width)),
        forall|i: int| 0 <= i < width ==> #[trigger] hex_text(value, width)[i] != '-',
    decreases width,
{
    if width > 0 {
        lemma_hex_text_shape(value / 16, (width - 1) as nat);
        lemma_hex_char((value % 16) as int);
        let shorter = hex_text(value / 16, (width - 1) as nat);
        assert forall|i: int| 0 <= i < width implies is_hex_digit(
            #[trigger] hex_text(value, width)[i],
        ) && hex_text(value, width)[i] != '-' by {
            if i < width - 1 {
                assert(hex_text(value, width)[i] == shorter[i]);
            }
        }
    }
}

pub proof fn lemma_hex_text_number(value: nat, width: nat)
    requires
        value < pow16(width),
    ensures
        hex_number(hex_text(value, width)) == value,
    decreases width,
{
    if width > 0 {
        assert(value / 16 < pow16((width - 1) as nat)) by (nonlinear_arith)
            requires
                value < 16 * pow16((width - 1) as nat),
        ;
        lemma_hex_text_number(value / 16, (width - 1) as nat);
        lemma_hex_char((value % 16) as int);
        assert(hex_text(value, width).drop_last() =~= hex_text(value / 16, (width - 1) as nat));
    }
}

pub proof fn lemma_pow16_32()
    ensures
        pow16(32) == 0x1_0000_0000_0000_0000_0000_0000_0000_0000,
{
    reveal_with_fuel(pow16, 33);
}

/// Reading a written id gives the id back.
pub proof fn lemma_id_round_trip(value: u128)
    ensures
        parsed_id(id_text(value)) == Some(value),
        id_text(value).len() == 32,
{
    lemma_pow16_32();
    lemma_hex_text_shape(value as nat, 32);
    lemma_hex_text_number(value as nat, 32);
}

/// Two ids that are written alike are the same id.
pub proof fn lemma_id_text_injective(a: u128, b: u128)
    requires
        id_text(a) == id_text(b),
    ensures
        a == b,
{
    lemma_id_round_trip(a);
    lemma_id_round_trip(b);
}

/// The version and variant bits of a random (version 4) UUID.
pub open spec fn is_random_uuid(value: u128) -> bool {
    &&& (value / 0x1000_0000_0000_0000_0000) % 16 == 4
    &&& (value / 0x4000_0000_0000_0000) % 4 == 2
}

/// `uuid`'s `Uuid::new_v4`, read as a 128-bit number. Which number comes back is left to
/// chance; the version and variant bits are those of a random UUID.
#[verifier::external_body]
fn random_uuid() -> (r: u128)
    ensures
        is_random_uuid(r),
{
    uuid::Uuid::new_v4().as_u128()
}

/// Appends `value` as exactly `width` lowercase hex digits.
fn push_hex(value: u128, width: usize, out: &mut Vec<char>)
    ensures
        final(out)@ == old(out)@ + hex_text(value as nat, width as nat),
    decreases width,
{
    if width > 0 {
        push_hex(value / 16, width - 1, out);
        let digit: u8 = (value % 16) as u8;
        let code: u8 = if digit < 10 {
            48 + digit
        } else {
            87 + digit
        };
        out.push(code as char);
    }
}

/// The written form of an id.
fn write_id(value: u128) -> (r: String)
    ensures
        r@ == id_text(value),
{
    let mut digits: Vec<char> = Vec::new();
    push_hex(value, ID_DIGITS, &mut digits);
    let text = string_of(&digits);
    assert(text@ =~= id_text(value));
    text
}

/// The characters of `text` from `from` up to `to`, appended to `out`.
fn push_range(text: &Vec<char>, from: usize, to: usize, out: &mut Vec<char>)
    requires
        from <= to <= text.len(),
    ensures
        final(out)@ == old(out)@ + text@.subrange(from as int, to as int),
{
    let mut i: usize = from;
    while i < to
        invariant
            from <= i <= to <= text.len(),
            out@ == old(out)@ + text@.subrange(from as int, i as int),
        decreases to - i,
    {
        out.push(text[i]);
        i = i + 1;
        assert(text@.subrange(from as int, i as int) =~= text@.subrange(
            from as int,
            i - 1,
        ).push(text@[i - 1]));
    }
}

/// The digits of a written id, with the hyphens of the hyphenated form left out.
fn id_digits(text: &str) -> (r: Vec<char>)
    ensures
        r@ == unhyphenated(text@),
{
    let chars = chars_of(text);
    if chars.len() == 36 && chars[8] == '-' && chars[13] == '-' && chars[18] == '-' && chars[23]
        == '-' {
        let mut digits: Vec<char> = Vec::new();
        push_range(&chars, 0, 8, &mut digits);
        push_range(&chars, 9, 13, &mut digits);
        push_range(&chars, 14, 18, &mut digits);
        push_range(&chars, 19, 23, &mut digits);
        push_range(&chars, 24, 36, &mut digits);
        assert(digits@ =~= unhyphenated(text@));
        digits
    } else {
        chars
    }
}

proof fn lemma_pow16_monotonic(a: nat, b: nat)
    requires
        a <= b,
    ensures
        1 <= pow16(a) <= pow16(b),
    decreases b,
{
    if b > 0 {
        if a < b {
            lemma_pow16_monotonic(a, (b - 1) as nat);
        } else {
            lemma_pow16_monotonic((a - 1) as nat, (b - 1) as nat);
        }
    }
}

/// What a written id stands for.
fn parse_id(text: &str) -> (r: Option<u128>)
    ensures
        r == parsed_id(text@),
{
    let digits = id_digits(text);
    if digits.len() != ID_DIGITS {
        return None;
    }
    let mut value: u128 = 0;
    let mut i: usize = 0;
    while i < digits.len()
        invariant
            i <= digits.len() == 32,
            forall|j: int| 0 <= j < i ==> is_hex_digit(#[trigger] digits@[j]),
            value as nat == hex_number(digits@.take(i as int)),
            value < pow16(i as nat),
            digits@ == unhyphenated(text@),
        decreases digits.len() - i,
    {
        let c = digits[i];
        if !hex_digit_char(c) {
            return None;
        }
        let code: u8 = c as u8;
        let digit: u8 = if code <= 57 {
            code - 48
        } else if code >= 97 {
            code - 87
        } else {
            code - 55
        };
        proof {
            let longer = digits@.take(i + 1);
            assert(longer.drop_last() =~= digits@.take(i as int));
            assert(longer.last() == c);
            assert(digit == hex_digit_value(c));
            lemma_pow16_monotonic((i + 1) as nat, 32);
            lemma_pow16_32();
            assert(pow16((i + 1) as nat) == 16 * pow16(i as nat));
        }
        value = value * 16 + digit as u128;
        i = i + 1;
    }
    assert(digits@.take(32) =~= digits@);
    Some(value)
}

impl FileId {
    /// A fresh random id.
    pub fn new() -> (r: FileId)
        ensures
            is_random_uuid(r.value),
    {
        FileId { value: random_uuid() }
    }

    /// The id in its 32-digit form.
    pub fn to_string(&self) -> (r: String)
        ensures
            r@ == id_text(self.value),
    {
        write_id(self.value)
    }

    /// Reads an id in its plain or hyphenated form.
    pub fn from_string(text: &str) -> (r: Option<FileId>)
        ensures
            match r {
                Some(id) => parsed_id(text@) == Some(id.value),
                None => parsed_id(text@) is None,
            },
    {
        match parse_id(text) {
            Some(value) => Some(FileId { value }),
            None => None,
        }
    }
}

impl TagId {
    /// A fresh random id.
    pub fn new() -> (r: TagId)
        ensures
            is_random_uuid(r.value),
    {
        TagId { value: random_uuid() }
    }

    /// The id in its 32-digit form.
    pub fn to_string(&self) -> (r: String)
        ensures
            r@ == id_text(self.value),
    {
        write_id(self.value)
    }

    /// Reads an id in its plain or hyphenated form.
    pub fn from_string(text: &str) -> (r: Option<TagId>)
        ensures
            match r {
                Some(id) => parsed_id(text@) == Some(id.value),
                None => parsed_id(text@) is None,
            },
    {
        match parse_id(text) {
            Some(value) => Some(TagId { value }),
            None => None,
        }
    }
}

} // verus!
