//! The text form in which the database hands back the tags of an entry.
//!
//! The tags of one entry arrive as a single text: one segment per tag, segments
//! separated by `,`. A segment is the plain-text flag (`0` or `1`), a `:`, the
//! name in lowercase hexadecimal, a `:`, and the value in lowercase hexadecimal.
//! An entry without tags gives the empty text.

use vstd::prelude::*;
use crate::error::{Error, ErrorKind};
use crate::hex::{
    hex_decode_range, hex_encode, hex_parse, lemma_hex_encode_parse, lemma_hex_parse_encode,
    lemma_hex_text_has_no_delimiter,
};
use crate::types::{views, EncEntryTag, EncTagView};

verus! {

/// The segment of one stored tag.
pub open spec fn encode_tag(tag: EncTagView) -> Seq<u8> {
    seq![if tag.plaintext { 49u8 } else { 48u8 }, 58u8] + hex_encode(tag.name) + seq![58u8]
        + hex_encode(tag.value)
}

/// The text of a sequence of stored tags.
pub open spec fn encode_tags(tags: Seq<EncTagView>) -> Seq<u8>
    decreases tags.len(),
{
    if tags.len() == 0 {
        Seq::empty()
    } else if tags.len() == 1 {
        encode_tag(tags[0])
    } else {
        encode_tag(tags[0]) + seq![44u8] + encode_tags(tags.skip(1))
    }
}

/// The position of the first `b` in `s`, or the length of `s` if there is none.
pub open spec fn find_byte(s: Seq<u8>, b: u8) -> int
    decreases s.len(),
{
    if s.len() == 0 || s[0] == b {
        0
    } else {
        1 + find_byte(s.skip(1), b)
    }
}

/// `find_byte` stays within the text, passes over no `b`, and stops at one.
pub proof fn lemma_find_byte(s: Seq<u8>, b: u8)
    ensures
        0 <= find_byte(s, b) <= s.len(),
        forall|i: int| 0 <= i < find_byte(s, b) ==> s[i] != b,
        find_byte(s, b) < s.len() ==> s[find_byte(s, b)] == b,
    decreases s.len(),
{
    if !(s.len() == 0 || s[0] == b) {
        lemma_find_byte(s.skip(1), b);
        assert forall|i: int| 0 <= i < find_byte(s, b) implies s[i] != b by {
            if i > 0 {
                assert(s[i] == s.skip(1)[i - 1]);
            }
        }
    }
}

/// The first `b` is at `k` if no earlier position holds one and `k` does, or is the end.
pub proof fn lemma_find_byte_at(s: Seq<u8>, b: u8, k: int)
    requires
        0 <= k <= s.len(),
        forall|i: int| 0 <= i < k ==> s[i] != b,
        k < s.len() ==> s[k] == b,
    ensures
        find_byte(s, b) == k,
{
    lemma_find_byte(s, b);
}

/// The stored tag that a segment denotes, if it denotes one.
pub open spec fn parse_tag(seg: Seq<u8>) -> Option<EncTagView> {
    if seg.len() >= 3 && (seg[0] == 48 || seg[0] == 49) && seg[1] == 58 {
        let body = seg.skip(2);
        let c = find_byte(body, 58);
        if c < body.len() {
            match (hex_parse(body.take(c)), hex_parse(body.skip(c + 1))) {
                (Some(name), Some(value)) => Some(
                    EncTagView { name, value, plaintext: seg[0] == 49 },
                ),
                _ => None,
            }
        } else {
            None
        }
    } else {
        None
    }
}

/// The stored tags that a text of one or more segments denotes, if it denotes any.
pub open spec fn parse_segments(text: Seq<u8>) -> Option<Seq<EncTagView>>
    decreases text.len(),
{
    let c = find_byte(text, 44);
    match parse_tag(text.take(c)) {
        None => None,
        Some(tag) => if c >= text.len() {
            Some(seq![tag])
        } else {
            proof {
                lemma_find_byte(text, 44);
            }
            match parse_segments(text.skip(c + 1)) {
                None => None,
                Some(rest) => Some(seq![tag] + rest),
            }
        },
    }
}

/// The stored tags that a text denotes, if it denotes any.
pub open spec fn parse_tags(text: Seq<u8>) -> Option<Seq<EncTagView>> {
    if text.len() == 0 {
        Some(Seq::empty())
    } else {
        parse_segments(text)
    }
}

/// The segment of a tag holds no `,`, is at least three characters long, and
/// denotes that tag.
pub proof fn lemma_parse_tag_encode(tag: EncTagView)
    ensures
        parse_tag(encode_tag(tag)) == Some(tag),
        encode_tag(tag).len() >= 3,
        forall|i: int| 0 <= i < encode_tag(tag).len() ==> encode_tag(tag)[i] != 44,
{
    let seg = encode_tag(tag);
    let hn = hex_encode(tag.name);
    let hv = hex_encode(tag.value);
    let body = seg.skip(2);
    assert(body =~= hn + seq![58u8] + hv);
    assert forall|i: int| 0 <= i < hn.len() implies body[i] != 58 by {
        lemma_hex_text_has_no_delimiter(tag.name, i);
    }
    lemma_find_byte_at(body, 58, hn.len() as int);
    assert(body.take(hn.len() as int) =~= hn);
    assert(body.skip(hn.len() as int + 1) =~= hv);
    lemma_hex_parse_encode(tag.name);
    lemma_hex_parse_encode(tag.value);
    assert forall|i: int| 0 <= i < seg.len() implies seg[i] != 44 by {
        if 2 <= i < 2 + hn.len() {
            lemma_hex_text_has_no_delimiter(tag.name, i - 2);
            assert(seg[i] == hn[i - 2]);
        } else if i > 2 + hn.len() {
            lemma_hex_text_has_no_delimiter(tag.value, i - 3 - hn.len());
            assert(seg[i] == hv[i - 3 - hn.len()]);
        }
    }
}

/// A segment denotes a tag only if it is the segment of that tag.
pub proof fn lemma_encode_parse_tag(seg: Seq<u8>)
    requires
        parse_tag(seg) is Some,
    ensures
        encode_tag(parse_tag(seg).unwrap()) == seg,
{
    let tag = parse_tag(seg).unwrap();
    let body = seg.skip(2);
    let c = find_byte(body, 58);
    lemma_find_byte(body, 58);
    lemma_hex_encode_parse(body.take(c));
    lemma_hex_encode_parse(body.skip(c + 1));
    assert(encode_tag(tag) =~= seg);
}

/// The text of one or more tags denotes those tags.
pub proof fn lemma_parse_segments_encode(tags: Seq<EncTagView>)
    requires
        tags.len() >= 1,
    ensures
        parse_segments(encode_tags(tags)) == Some(tags),
        encode_tags(tags).len() >= 3,
    decreases tags.len(),
{
    let text = encode_tags(tags);
    let first = encode_tag(tags[0]);
    lemma_parse_tag_encode(tags[0]);
    if tags.len() == 1 {
        lemma_find_byte_at(text, 44, text.len() as int);
        assert(text.take(text.len() as int) =~= text);
        assert(seq![tags[0]] =~= tags);
    } else {
        let rest = tags.skip(1);
        lemma_parse_segments_encode(rest);
        assert forall|i: int| 0 <= i < first.len() implies text[i] != 44 by {
            assert(text[i] == first[i]);
        }
        lemma_find_byte_at(text, 44, first.len() as int);
        assert(text.take(first.len() as int) =~= first);
        assert(text.skip(first.len() as int + 1) =~= encode_tags(rest));
        assert(seq![tags[0]] + rest =~= tags);
    }
}

/// The text of a sequence of tags denotes that sequence.
pub proof fn lemma_parse_encode_tags(tags: Seq<EncTagView>)
    ensures
        parse_tags(encode_tags(tags)) == Some(tags),
{
    if tags.len() == 0 {
        assert(tags =~= Seq::<EncTagView>::empty());
    } else {
        lemma_parse_segments_encode(tags);
    }
}

/// A text of segments denotes tags only if it is the text of those tags.
pub proof fn lemma_encode_parse_segments(text: Seq<u8>)
    requires
        parse_segments(text) is Some,
    ensures
        encode_tags(parse_segments(text).unwrap()) == text,
        parse_segments(text).unwrap().len() >= 1,
    decreases text.len(),
{
    let c = find_byte(text, 44);
    lemma_find_byte(text, 44);
    let tag = parse_tag(text.take(c)).unwrap();
    lemma_encode_parse_tag(text.take(c));
    if c >= text.len() {
        assert(text.take(c) =~= text);
    } else {
        lemma_encode_parse_segments(text.skip(c + 1));
        let rest = parse_segments(text.skip(c + 1)).unwrap();
        let tags = seq![tag] + rest;
        assert(tags.skip(1) =~= rest);
        assert(text.take(c) + seq![44u8] + text.skip(c + 1) =~= text);
    }
}

/// A text denotes tags only if it is the text of those tags.
pub proof fn lemma_encode_parse_tags(text: Seq<u8>)
    requires
        parse_tags(text) is Some,
    ensures
        encode_tags(parse_tags(text).unwrap()) == text,
{
    if text.len() == 0 {
        assert(text =~= Seq::<u8>::empty());
    } else {
        lemma_encode_parse_segments(text);
    }
}

fn find_in_range(text: &[u8], from: usize, to: usize, b: u8) -> (at: usize)
    requires
        from <= to <= text@.len(),
    ensures
        from <= at <= to,
        at == from + find_byte(text@.subrange(from as int, to as int), b),
{
    let ghost seg = text@.subrange(from as int, to as int);
    let mut at = from;
    while at < to && text[at] != b
        invariant
            from <= at <= to <= text@.len(),
            seg == text@.subrange(from as int, to as int),
            forall|i: int| 0 <= i < at - from ==> seg[i] != b,
        decreases to - at,
    {
        assert(seg[at - from] == text@[at as int]);
        at += 1;
    }
    proof {
        if at < to {
            assert(seg[at - from] == text@[at as int]);
        }
        lemma_find_byte_at(seg, b, at - from);
    }
    at
}

fn decode_tag(text: &[u8], from: usize, to: usize) -> (out: Option<EncEntryTag>)
    requires
        from <= to <= text@.len(),
    ensures
        match out {
            Some(tag) => parse_tag(text@.subrange(from as int, to as int)) == Some(tag@),
            None => parse_tag(text@.subrange(from as int, to as int)) is None,
        },
{
    let ghost seg = text@.subrange(from as int, to as int);
    if to - from < 3 {
        return None;
    }
    assert(seg[0] == text@[from as int] && seg[1] == text@[from + 1]);
    let flag = text[from];
    if (flag != 48 && flag != 49) || text[from + 1] != 58 {
        return None;
    }
    let ghost body = seg.skip(2);
    assert(body =~= text@.subrange(from + 2, to as int));
    let colon = find_in_range(text, from + 2, to, 58);
    if colon >= to {
        return None;
    }
    let ghost c = colon - from - 2;
    assert(body.take(c) =~= text@.subrange(from + 2, colon as int));
    assert(body.skip(c + 1) =~= text@.subrange(colon + 1, to as int));
    let name = match hex_decode_range(text, from + 2, colon) {
        Some(v) => v,
        None => {
            return None;
        },
    };
    let value = match hex_decode_range(text, colon + 1, to) {
        Some(v) => v,
        None => {
            return None;
        },
    };
    Some(EncEntryTag { name, value, plaintext: flag == 49 })
}

/// Reads the tags of an entry from the text in which the database hands them
/// back. A text that is not the text of any sequence of tags is rejected as
/// `Unexpected`.
pub fn decode_tags(text: &[u8]) -> (out: Result<Vec<EncEntryTag>, Error>)
    ensures
        match out {
            Ok(tags) => encode_tags(views(tags@)) == text@,
            Err(e) => e.kind == ErrorKind::Unexpected && forall|tags: Seq<EncTagView>|
                encode_tags(tags) != text@,
        },
        out is Ok <==> parse_tags(text@) is Some,
{
    let n = text.len();
    let mut tags: Vec<EncEntryTag> = Vec::new();
    if n == 0 {
        assert(views(tags@) =~= Seq::<EncTagView>::empty());
        assert(text@ =~= Seq::<u8>::empty());
        return Ok(tags);
    }
    let mut pos: usize = 0;
    assert(text@.skip(0) =~= text@);
    assert(views(tags@) =~= Seq::<EncTagView>::empty());
    loop
        invariant
            n == text@.len(),
            n > 0,
            pos <= n,
            parse_tags(text@) == (match parse_segments(text@.skip(pos as int)) {
                None => None,
                Some(rest) => Some(views(tags@) + rest),
            }),
        decreases n - pos,
    {
        let ghost rest = text@.skip(pos as int);
        let ghost before = views(tags@);
        assert(rest =~= text@.subrange(pos as int, n as int));
        let end = find_in_range(text, pos, n, 44);
        assert(rest.take(end - pos) =~= text@.subrange(pos as int, end as int));
        match decode_tag(text, pos, end) {
            None => {
                proof {
                    assert(parse_tags(text@) is None);
                    assert forall|t: Seq<EncTagView>| encode_tags(t) != text@ by {
                        lemma_parse_encode_tags(t);
                    }
                }
                return Err(Error::new(ErrorKind::Unexpected));
            },
            Some(tag) => {
                tags.push(tag);
                assert(views(tags@) =~= before + seq![tag@]);
                if end >= n {
                    proof {
                        assert(before + seq![tag@] =~= views(tags@));
                        assert(parse_tags(text@) == Some(views(tags@)));
                        lemma_encode_parse_tags(text@);
                    }
                    return Ok(tags);
                }
                proof {
                    assert(rest.skip(end - pos + 1) =~= text@.skip(end + 1));
                    match parse_segments(text@.skip(end + 1)) {
                        None => {},
                        Some(more) => {
                            assert(before + (seq![tag@] + more) =~= views(tags@) + more);
                        },
                    }
                }
                pos = end + 1;
            },
        }
    }
}

} // verus!
