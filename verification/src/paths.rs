//! Request paths: cutting off the first segment and undoing its
//! percent-encoding.

use crate::models::Error;
use std::str::Utf8Error;
use vstd::prelude::*;
use vstd::utf8::{
    decode_utf8, encode_scalar, encode_utf8, encode_utf8_decode_utf8, encode_utf8_valid_utf8,
    valid_utf8,
};

verus! {

/// The error of `std::str::from_utf8`, which says where a byte sequence
/// stops being UTF-8.
#[verifier::external_type_specification]
#[verifier::external_body]
pub struct ExUtf8Error(Utf8Error);

/// The value of a byte as a hexadecimal digit, if it is one.
pub open spec fn hex_value(byte: u8) -> Option<int> {
    if 48 <= byte <= 57 {
        Some(byte - 48)
    } else if 65 <= byte <= 70 {
        Some(byte - 55)
    } else if 97 <= byte <= 102 {
        Some(byte - 87)
    } else {
        None
    }
}

/// Whether `bytes` begins with a percent sign and two hexadecimal digits.
pub open spec fn starts_with_escape(bytes: Seq<u8>) -> bool {
    &&& bytes.len() >= 3
    &&& bytes[0] == 37
    &&& hex_value(bytes[1]) is Some
    &&& hex_value(bytes[2]) is Some
}

/// `bytes` with every percent sign that two hexadecimal digits follow
/// replaced, together with them, by the byte that the digits denote. Any
/// other byte, a lone percent sign too, stands for itself.
pub open spec fn percent_decoded(bytes: Seq<u8>) -> Seq<u8>
    decreases bytes.len(),
{
    if bytes.len() == 0 {
        Seq::empty()
    } else if starts_with_escape(bytes) {
        seq![(hex_value(bytes[1])->0 * 16 + hex_value(bytes[2])->0) as u8] + percent_decoded(
            bytes.skip(3),
        )
    } else {
        seq![bytes[0]] + percent_decoded(bytes.skip(1))
    }
}

/// The text that a percent-encoded segment stands for, or nothing if what
/// it decodes to is not well-formed UTF-8.
pub open spec fn decoded_segment(segment: Seq<char>) -> Option<Seq<char>> {
    let bytes = percent_decoded(encode_utf8(segment));
    if valid_utf8(bytes) {
        Some(decode_utf8(bytes))
    } else {
        None
    }
}

/// Calls `percent_encoding::percent_decode` on the bytes of the segment and
/// `decode_utf8` on what it returns. That function decodes every `%` with
/// two hexadecimal digits behind it and leaves every other byte as it is;
/// the method then succeeds exactly if the decoded bytes are well-formed
/// UTF-8, and gives the text that they encode.
#[verifier::external_body]
pub(crate) fn percent_decode_utf8(segment: &str) -> (decoded: Result<String, Utf8Error>)
    ensures
        match decoded {
            Ok(text) => decoded_segment(segment@) == Some(text@),
            Err(_) => decoded_segment(segment@) is None,
        },
{
    match percent_encoding::percent_decode(segment.as_bytes()).decode_utf8() {
        Ok(text) => Ok(text.into_owned()),
        Err(error) => Err(error),
    }
}

/// No byte of the encoding of a character other than the percent sign is
/// the percent sign.
proof fn lemma_scalar_without_percent(c: char)
    requires
        c != '%',
    ensures
        forall|i: int|
            0 <= i < encode_scalar(c as u32).len() ==> (#[trigger] encode_scalar(c as u32)[i]) != 37,
{
    let v = c as u32;
    assert(v <= 0x7F ==> (v & 0x7F) == v) by (bit_vector);
    assert(forall|x: u8| (0x80u8 | x) != 37u8) by (bit_vector);
    assert(forall|x: u8| (0xC0u8 | x) != 37u8) by (bit_vector);
    assert(forall|x: u8| (0xE0u8 | x) != 37u8) by (bit_vector);
    assert(forall|x: u8| (0xF0u8 | x) != 37u8) by (bit_vector);
}

/// The encoding of a text without percent signs holds no percent sign.
proof fn lemma_encoding_without_percent(text: Seq<char>)
    requires
        forall|i: int| 0 <= i < text.len() ==> text[i] != '%',
    ensures
        forall|i: int| 0 <= i < encode_utf8(text).len() ==> (#[trigger] encode_utf8(text)[i]) != 37,
    decreases text.len(),
{
    if text.len() > 0 {
        let rest = text.drop_first();
        assert forall|i: int| 0 <= i < rest.len() implies rest[i] != '%' by {
            assert(rest[i] == text[i + 1]);
        }
        lemma_encoding_without_percent(rest);
        lemma_scalar_without_percent(text[0]);
        let first = encode_scalar(text[0] as u32);
        let whole = encode_utf8(text);
        assert(whole == first + encode_utf8(rest));
        assert forall|i: int| 0 <= i < whole.len() implies (#[trigger] whole[i]) != 37 by {
            if i < first.len() {
                assert(whole[i] == first[i]);
            } else {
                assert(whole[i] == encode_utf8(rest)[i - first.len()]);
            }
        }
    } else {
        assert(encode_utf8(text).len() == 0);
    }
}

/// Bytes without a percent sign decode to themselves.
proof fn lemma_decoded_without_percent(bytes: Seq<u8>)
    requires
        forall|i: int| 0 <= i < bytes.len() ==> bytes[i] != 37,
    ensures
        percent_decoded(bytes) == bytes,
    decreases bytes.len(),
{
    if bytes.len() > 0 {
        let rest = bytes.skip(1);
        assert forall|i: int| 0 <= i < rest.len() implies rest[i] != 37 by {
            assert(rest[i] == bytes[i + 1]);
        }
        lemma_decoded_without_percent(rest);
        assert(seq![bytes[0]] + rest =~= bytes);
    } else {
        assert(percent_decoded(bytes) =~= bytes);
    }
}

/// A segment without percent signs stands for itself.
pub proof fn lemma_plain_segment(segment: Seq<char>)
    requires
        forall|i: int| 0 <= i < segment.len() ==> segment[i] != '%',
    ensures
        decoded_segment(segment) == Some(segment),
{
    lemma_encoding_without_percent(segment);
    lemma_decoded_without_percent(encode_utf8(segment));
    encode_utf8_valid_utf8(segment);
    encode_utf8_decode_utf8(segment);
}

/// The number of characters of `path` before its first slash.
pub open spec fn head_length(path: Seq<char>) -> nat
    decreases path.len(),
{
    if path.len() == 0 || path[0] == '/' {
        0
    } else {
        1 + head_length(path.drop_first())
    }
}

/// The first segment of `path`, as it is written.
pub open spec fn raw_head(path: Seq<char>) -> Seq<char> {
    path.take(head_length(path) as int)
}

/// What follows the first slash of `path`, if it has one.
pub open spec fn tail_of(path: Seq<char>) -> Option<Seq<char>> {
    if head_length(path) < path.len() {
        Some(path.skip(head_length(path) as int + 1))
    } else {
        None
    }
}

/// What `split_one` returns: the first segment of the path, decoded, and
/// what follows the first slash, as it is written.
pub open spec fn split_path(path: Seq<char>) -> Result<(Seq<char>, Option<Seq<char>>), Error> {
    match decoded_segment(raw_head(path)) {
        Some(head) => Ok((head, tail_of(path))),
        None => Err(Error::Decode),
    }
}

/// The first slash of a path is where no slash stands before.
pub proof fn lemma_head_length(path: Seq<char>, k: int)
    requires
        0 <= k <= path.len(),
        forall|j: int| 0 <= j < k ==> path[j] != '/',
        k < path.len() ==> path[k] == '/',
    ensures
        head_length(path) == k,
    decreases path.len(),
{
    if path.len() > 0 && k > 0 {
        let rest = path.drop_first();
        assert forall|j: int| 0 <= j < k - 1 implies rest[j] != '/' by {
            assert(rest[j] == path[j + 1]);
        }
        lemma_head_length(rest, k - 1);
    }
}

/// The view of an optional string.
pub open spec fn tail_view(tail: Option<String>) -> Option<Seq<char>> {
    match tail {
        Some(s) => Some(s@),
        None => None,
    }
}

/// Splits a path at its first slash and decodes the part before it.
///
/// Fails if that part does not decode to well-formed UTF-8.
pub fn split_one(path: &str) -> (parts: Result<(String, Option<String>), Error>)
    ensures
        match parts {
            Ok((head, tail)) => split_path(path@) == Ok::<_, Error>((head@, tail_view(tail))),
            Err(e) => split_path(path@) == Err::<(Seq<char>, Option<Seq<char>>), _>(e),
        },
{
    let mut head = String::new();
    let mut rest = String::new();
    let mut split = false;
    for c in it: path.chars()
        invariant
            it.seq() == path@,
            forall|j: int| 0 <= j < head@.len() ==> path@[j] != '/',
            head@.len() <= it.index(),
            head@ == path@.take(head@.len() as int),
            split ==> head@.len() < it.index() && path@[head@.len() as int] == '/' && rest@
                == path@.subrange(head@.len() as int + 1, it.index() as int),
            !split ==> head@.len() == it.index() && rest@.len() == 0,
    {
        if split {
            rest.push(c);
            assert(rest@ =~= path@.subrange(head@.len() as int + 1, it.index() as int + 1));
        } else if c == '/' {
            split = true;
            assert(rest@ =~= path@.subrange(head@.len() as int + 1, it.index() as int + 1));
        } else {
            head.push(c);
            assert(head@ =~= path@.take(head@.len() as int));
        }
    }
    proof {
        lemma_head_length(path@, head@.len() as int);
        if split {
            assert(rest@ =~= path@.skip(head@.len() as int + 1));
        }
    }
    let tail = if split {
        Some(rest)
    } else {
        None
    };
    match percent_decode_utf8(head.as_str()) {
        Ok(decoded) => Ok((decoded, tail)),
        Err(_) => Err(Error::Decode),
    }
}

} // verus!
