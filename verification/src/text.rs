//! Text as UTF-8 bytes, and the separator of a map entry among them.

use crate::wire::{separator_at, SEPARATOR};
use vstd::prelude::*;
use vstd::utf8::{decode_utf8, encode_utf8, is_char_boundary, valid_utf8};

verus! {

/// Calls `String::from_utf8` and keeps the text where there is one. Trusted:
/// the call succeeds exactly on valid UTF-8, and the text then holds the
/// characters that the bytes encode.
#[verifier::external_body]
pub(crate) fn text_from_utf8(bytes: Vec<u8>) -> (text: Option<String>)
    ensures
        text is Some <==> valid_utf8(bytes@),
        text is Some ==> text->0@ == decode_utf8(bytes@),
{
    String::from_utf8(bytes).ok()
}

/// The first separator stands at `at` if one stands there and none before.
pub proof fn lemma_separator_found(payload: Seq<u8>, at: int)
    requires
        0 <= at < payload.len(),
        payload[at] == SEPARATOR,
        forall|j: int| 0 <= j < at ==> payload[j] != SEPARATOR,
    ensures
        separator_at(payload) == Some(at),
    decreases at,
{
    if at > 0 {
        lemma_separator_found(payload.drop_first(), at - 1);
    }
}

/// There is no first separator where there is none at all.
pub proof fn lemma_separator_absent(payload: Seq<u8>)
    requires
        forall|j: int| 0 <= j < payload.len() ==> payload[j] != SEPARATOR,
    ensures
        separator_at(payload) is None,
    decreases payload.len(),
{
    if payload.len() > 0 {
        lemma_separator_absent(payload.drop_first());
    }
}

/// What `separator_at` finds is a separator, the first one, inside `payload`.
pub proof fn lemma_separator_at(payload: Seq<u8>)
    ensures
        match separator_at(payload) {
            Some(at) => {
                &&& 0 <= at < payload.len()
                &&& payload[at] == SEPARATOR
                &&& forall|j: int| 0 <= j < at ==> payload[j] != SEPARATOR
            },
            None => forall|j: int| 0 <= j < payload.len() ==> payload[j] != SEPARATOR,
        },
    decreases payload.len(),
{
    if payload.len() > 0 && payload[0] != SEPARATOR {
        lemma_separator_at(payload.drop_first());
        let rest = payload.drop_first();
        match separator_at(rest) {
            Some(at) => {
                assert forall|j: int| 0 <= j < at + 1 implies payload[j] != SEPARATOR by {
                    if j > 0 {
                        assert(payload[j] == rest[j - 1]);
                    }
                }
            },
            None => {
                assert forall|j: int| 0 <= j < payload.len() implies payload[j] != SEPARATOR by {
                    if j > 0 {
                        assert(payload[j] == rest[j - 1]);
                    }
                }
            },
        }
    }
}

/// The UTF-8 form of a text that holds a `=` holds a separator: the place of one.
pub proof fn lemma_separator_in_text(text: Seq<char>) -> (at: int)
    requires
        text.contains('='),
    ensures
        0 <= at < encode_utf8(text).len(),
        encode_utf8(text)[at] == SEPARATOR,
    decreases text.len(),
{
    let first = vstd::utf8::encode_scalar(text[0] as u32);
    let others = text.drop_first();
    if text[0] == '=' {
        assert(('=' as u32) == 0x3d);
        assert((0x3du32 & 0x7f) as u8 == 0x3d) by (bit_vector);
        assert(first[0] == SEPARATOR);
        0
    } else {
        let place = choose|place: int| 0 <= place < text.len() && text[place] == '=';
        assert(others[place - 1] == '=');
        let at = lemma_separator_in_text(others);
        first.len() + at
    }
}

/// A separator in UTF-8 text is a character of its own: the text can be cut
/// in front of it and behind it, and both parts are UTF-8.
pub proof fn lemma_cut_at_separator(bytes: Seq<u8>, at: int)
    requires
        valid_utf8(bytes),
        0 <= at < bytes.len(),
        bytes[at] == SEPARATOR,
    ensures
        is_char_boundary(bytes, at),
        valid_utf8(bytes.take(at)),
        valid_utf8(bytes.skip(at)),
        is_char_boundary(bytes.skip(at), 1),
        valid_utf8(bytes.skip(at + 1)),
        decode_utf8(bytes) == decode_utf8(bytes.take(at)) + seq!['='] + decode_utf8(
            bytes.skip(at + 1),
        ),
{
    vstd::utf8::is_char_boundary_iff_not_is_continuation_byte(bytes, at);
    vstd::utf8::valid_utf8_split(bytes, at);
    vstd::utf8::decode_utf8_split(bytes, at);
    let tail = bytes.skip(at);
    assert(tail[0] == SEPARATOR);
    reveal_with_fuel(is_char_boundary, 2);
    assert(vstd::utf8::pop_first_scalar(tail) =~= bytes.skip(at + 1));
    assert(is_char_boundary(tail, 1));
    vstd::utf8::valid_utf8_split(tail, 1);
    vstd::utf8::decode_utf8_split(tail, 1);
    assert(tail.subrange(1, tail.len() as int) =~= bytes.skip(at + 1));
    let head = tail.subrange(0, 1);
    assert(head =~= seq![SEPARATOR]);
    reveal_with_fuel(decode_utf8, 2);
    reveal_with_fuel(valid_utf8, 2);
    assert(vstd::utf8::pop_first_scalar(head) =~= Seq::<u8>::empty());
    assert((0x3du8 & 0x7f) as u32 == 0x3d) by (bit_vector);
    assert(vstd::utf8::decode_first_scalar(head) == 0x3d);
    assert(0x3du32 as char == '=');
    assert(decode_utf8(head) =~= seq!['=']);
}

} // verus!
