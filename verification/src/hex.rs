//! Lowercase hexadecimal text.

use vstd::prelude::*;

verus! {

/// The lowercase hexadecimal digit for a value `0..=15`.
pub open spec fn hex_digit(v: int) -> u8 {
    if v < 10 {
        (48 + v) as u8
    } else {
        (87 + v) as u8
    }
}

/// Whether `c` is one of `0..=9` or `a..=f`.
pub open spec fn is_hex_digit(c: u8) -> bool {
    (48 <= c <= 57) || (97 <= c <= 102)
}

/// The value of a lowercase hexadecimal digit.
pub open spec fn hex_value(c: u8) -> int {
    if c <= 57 {
        c - 48
    } else {
        c - 87
    }
}

/// The hexadecimal text of a byte string: two lowercase digits per byte, high digit first.
pub open spec fn hex_encode(bytes: Seq<u8>) -> Seq<u8> {
    Seq::new(
        2 * bytes.len(),
        |i: int|
            if i % 2 == 0 {
                hex_digit(bytes[i / 2] as int / 16)
            } else {
                hex_digit(bytes[i / 2] as int % 16)
            },
    )
}

/// Whether `text` is the hexadecimal text of some byte string.
pub open spec fn is_hex_text(text: Seq<u8>) -> bool {
    text.len() % 2 == 0 && forall|i: int| 0 <= i < text.len() ==> is_hex_digit(#[trigger] text[i])
}

/// The byte string that hexadecimal text denotes, if it denotes one.
pub open spec fn hex_parse(text: Seq<u8>) -> Option<Seq<u8>> {
    if is_hex_text(text) {
        Some(
            Seq::new(
                (text.len() / 2) as nat,
                |i: int| (hex_value(text[2 * i]) * 16 + hex_value(text[2 * i + 1])) as u8,
            ),
        )
    } else {
        None
    }
}

/// Parsing the hexadecimal text of a byte string gives the byte string back.
pub proof fn lemma_hex_parse_encode(bytes: Seq<u8>)
    ensures
        is_hex_text(hex_encode(bytes)),
        hex_parse(hex_encode(bytes)) == Some(bytes),
{
    let text = hex_encode(bytes);
    assert forall|i: int| 0 <= i < text.len() implies is_hex_digit(#[trigger] text[i]) by {
        let b = bytes[i / 2] as int;
        assert(0 <= b / 16 < 16 && 0 <= b % 16 < 16);
    }
    let back = hex_parse(text).unwrap();
    assert forall|i: int| 0 <= i < bytes.len() implies back[i] == bytes[i] by {
        let b = bytes[i] as int;
        assert((2 * i) % 2 == 0 && (2 * i) / 2 == i);
        assert((2 * i + 1) % 2 == 1 && (2 * i + 1) / 2 == i);
        assert(text[2 * i] == hex_digit(b / 16));
        assert(text[2 * i + 1] == hex_digit(b % 16));
        assert(0 <= b / 16 < 16 && 0 <= b % 16 < 16);
        assert(b == (b / 16) * 16 + b % 16);
    }
    assert(back =~= bytes);
}

/// Text parses as hexadecimal only if it is the hexadecimal text of what it parses to.
pub proof fn lemma_hex_encode_parse(text: Seq<u8>)
    requires
        is_hex_text(text),
    ensures
        hex_encode(hex_parse(text).unwrap()) == text,
{
    let bytes = hex_parse(text).unwrap();
    let again = hex_encode(bytes);
    assert forall|i: int| 0 <= i < text.len() implies again[i] == text[i] by {
        let k = i / 2;
        let hi = hex_value(text[2 * k]);
        let lo = hex_value(text[2 * k + 1]);
        assert(is_hex_digit(text[2 * k]) && is_hex_digit(text[2 * k + 1]));
        assert(0 <= hi < 16 && 0 <= lo < 16);
        assert(bytes[k] as int == hi * 16 + lo);
        assert((hi * 16 + lo) / 16 == hi && (hi * 16 + lo) % 16 == lo);
        if i % 2 == 0 {
            assert(i == 2 * k);
        } else {
            assert(i == 2 * k + 1);
        }
    }
    assert(again =~= text);
}

/// No character of hexadecimal text is a `:` or a `,`.
pub proof fn lemma_hex_text_has_no_delimiter(bytes: Seq<u8>, i: int)
    requires
        0 <= i < hex_encode(bytes).len(),
    ensures
        hex_encode(bytes)[i] != 58,
        hex_encode(bytes)[i] != 44,
{
    lemma_hex_parse_encode(bytes);
    assert(is_hex_digit(hex_encode(bytes)[i]));
}

fn hex_digit_value(c: u8) -> (v: Option<u8>)
    ensures
        v is Some <==> is_hex_digit(c),
        v matches Some(d) ==> d == hex_value(c),
{
    if 48 <= c && c <= 57 {
        Some(c - 48)
    } else if 97 <= c && c <= 102 {
        Some(c - 87)
    } else {
        None
    }
}

/// Decodes the hexadecimal text in `text[from..to]`.
pub fn hex_decode_range(text: &[u8], from: usize, to: usize) -> (out: Option<Vec<u8>>)
    requires
        from <= to <= text@.len(),
    ensures
        match out {
            Some(bytes) => hex_parse(text@.subrange(from as int, to as int)) == Some(bytes@),
            None => hex_parse(text@.subrange(from as int, to as int)) is None,
        },
{
    let ghost hex = text@.subrange(from as int, to as int);
    if (to - from) % 2 != 0 {
        return None;
    }
    let mut bytes: Vec<u8> = Vec::new();
    let mut i: usize = from;
    while i < to
        invariant
            from <= i <= to <= text@.len(),
            (to - from) % 2 == 0,
            (i - from) % 2 == 0,
            hex == text@.subrange(from as int, to as int),
            bytes@.len() == (i - from) / 2,
            forall|k: int| 0 <= k < i - from ==> is_hex_digit(#[trigger] hex[k]),
            forall|k: int|
                0 <= k < bytes@.len() ==> #[trigger] bytes@[k] == (hex_value(hex[2 * k]) * 16
                    + hex_value(hex[2 * k + 1])) as u8,
        decreases to - i,
    {
        assert(hex[i - from] == text@[i as int]);
        assert(hex[i - from + 1] == text@[i + 1]);
        let hi = match hex_digit_value(text[i]) {
            Some(v) => v,
            None => {
                return None;
            },
        };
        let lo = match hex_digit_value(text[i + 1]) {
            Some(v) => v,
            None => {
                return None;
            },
        };
        bytes.push(hi * 16 + lo);
        i += 2;
    }
    assert(is_hex_text(hex));
    assert(bytes@ =~= hex_parse(hex).unwrap());
    Some(bytes)
}

} // verus!
