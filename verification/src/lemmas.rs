//! Steps on the way to the laws: each kind of datum is read back from its bytes.

use crate::endian::{
    le_bytes, lemma_le_bytes_len, lemma_le_value_of_bytes, lemma_radix_values, radix, signed_of,
    unsigned_of,
};
use crate::error::Error;
use crate::text::lemma_separator_found;
use crate::value::{Datum, Layout};
use crate::wire::{
    blob, encoding, encodings, entries, entry, first_rejection, has_layout, is_dictionary,
    more_entries, parse, parse_blob, parse_entries, parse_entry, parse_fields, parse_number,
    parse_repeat, parse_text, rejection, SEPARATOR,
};
use vstd::prelude::*;
use vstd::utf8::{encode_scalar, encode_utf8, is_scalar, valid_utf8};

verus! {

/// A number that fits its width is read back from its bytes, and what stands
/// behind them is left.
pub proof fn lemma_parse_number(value: nat, width: nat, rest: Seq<u8>)
    requires
        value < radix(width),
    ensures
        parse_number(le_bytes(value, width) + rest, width) == Ok::<(nat, Seq<u8>), Error>(
            (value, rest),
        ),
{
    lemma_le_bytes_len(value, width);
    lemma_le_value_of_bytes(value, width);
    let all = le_bytes(value, width) + rest;
    assert(all.take(width as int) =~= le_bytes(value, width));
    assert(all.skip(width as int) =~= rest);
}

/// A byte string whose length fits four bytes is read back from behind its length.
pub proof fn lemma_parse_blob(payload: Seq<u8>, rest: Seq<u8>)
    requires
        payload.len() <= u32::MAX,
    ensures
        parse_blob(blob(payload) + rest) == Ok::<(Seq<u8>, Seq<u8>), Error>((payload, rest)),
{
    lemma_radix_values();
    lemma_parse_number(payload.len(), 4, payload + rest);
    assert(blob(payload) + rest =~= le_bytes(payload.len(), 4) + (payload + rest));
    assert((payload + rest).take(payload.len() as int) =~= payload);
    assert((payload + rest).skip(payload.len() as int) =~= rest);
}

/// A text whose UTF-8 length fits four bytes is read back from its bytes.
pub proof fn lemma_parse_text(text: Seq<char>, rest: Seq<u8>)
    requires
        encode_utf8(text).len() <= u32::MAX,
    ensures
        parse_text(blob(encode_utf8(text)) + rest) == Ok::<(Seq<char>, Seq<u8>), Error>(
            (text, rest),
        ),
{
    lemma_parse_blob(encode_utf8(text), rest);
    vstd::utf8::encode_utf8_valid_utf8(text);
    vstd::utf8::encode_utf8_decode_utf8(text);
}

/// Two's complement loses nothing of a signed number that fits its width.
pub proof fn lemma_signed_of_unsigned(value: int, width: nat)
    requires
        -(radix(width) as int) <= 2 * value < radix(width),
    ensures
        unsigned_of(value, width) < radix(width),
        signed_of(unsigned_of(value, width), width) == value,
{
}

/// The decoder reads a datum back from its bytes, whatever stands behind
/// them and whatever budget the envelope gave.
pub proof fn lemma_parse_encoding(datum: Datum, layout: Layout, rest: Seq<u8>, budget: nat)
    requires
        has_layout(datum, layout),
    ensures
        parse(layout, encoding(datum) + rest, budget) == Ok::<(Datum, Seq<u8>), Error>(
            (datum, rest),
        ),
    decreases datum,
{
    lemma_radix_values();
    match datum {
        Datum::Bool(v) => {
            lemma_parse_number(if v { 1nat } else { 0nat }, 1, rest);
            reveal_with_fuel(le_bytes, 2);
            assert(encoding(datum) =~= le_bytes(if v { 1nat } else { 0nat }, 1));
        },
        Datum::I8(v) => {
            lemma_signed_of_unsigned(v as int, 1);
            lemma_parse_number(unsigned_of(v as int, 1), 1, rest);
        },
        Datum::U8(v) => {
            lemma_parse_number(v as nat, 1, rest);
            reveal_with_fuel(le_bytes, 2);
            assert(encoding(datum) =~= le_bytes(v as nat, 1));
        },
        Datum::I16(v) => {
            lemma_signed_of_unsigned(v as int, 2);
            lemma_parse_number(unsigned_of(v as int, 2), 2, rest);
        },
        Datum::U16(v) => {
            lemma_parse_number(v as nat, 2, rest);
        },
        Datum::I32(v) => {
            lemma_signed_of_unsigned(v as int, 4);
            lemma_parse_number(unsigned_of(v as int, 4), 4, rest);
        },
        Datum::U32(v) => {
            lemma_parse_number(v as nat, 4, rest);
        },
        Datum::I64(v) => {
            lemma_signed_of_unsigned(v as int, 8);
            lemma_parse_number(unsigned_of(v as int, 8), 8, rest);
        },
        Datum::U64(v) => {
            lemma_parse_number(v as nat, 8, rest);
        },
        Datum::F32(bits) => {
            lemma_parse_number(bits as nat, 4, rest);
        },
        Datum::F64(bits) => {
            lemma_parse_number(bits as nat, 8, rest);
        },
        Datum::Text(text) => {
            lemma_parse_text(text, rest);
        },
        Datum::Bytes(bytes) => {
            lemma_parse_blob(bytes, rest);
        },
        Datum::Tuple(items) => {
            match layout {
                Layout::Tuple(fields) => {
                    lemma_parse_fields(items, fields, rest, budget);
                },
                Layout::Array(len, element) => {
                    lemma_parse_repeat(items, *element, rest, budget);
                },
                _ => {},
            }
        },
        Datum::Sequence(items) => {
            match layout {
                Layout::Sequence(element) => {
                    lemma_parse_number(items.len(), 4, encodings(items) + rest);
                    assert(encoding(datum) + rest =~= le_bytes(items.len(), 4) + (encodings(items)
                        + rest));
                    lemma_parse_repeat(items, *element, rest, budget);
                },
                _ => {},
            }
        },
        _ => {},
    }
}

/// The decoder reads the members of a tuple back from their bytes.
pub proof fn lemma_parse_fields(items: Seq<Datum>, fields: Seq<Layout>, rest: Seq<u8>, budget: nat)
    requires
        fields.len() == items.len(),
        forall|i: int| 0 <= i < items.len() ==> has_layout(items[i], #[trigger] fields[i]),
    ensures
        parse_fields(fields, encodings(items) + rest, budget) == Ok::<(Seq<Datum>, Seq<u8>), Error>(
            (items, rest),
        ),
    decreases items,
{
    if items.len() == 0 {
        assert(encodings(items) + rest =~= rest);
        assert(items =~= Seq::<Datum>::empty());
    } else {
        let behind = encodings(items.drop_first()) + rest;
        assert(has_layout(items[0], fields[0]));
        lemma_parse_encoding(items[0], fields[0], behind, budget);
        assert(encodings(items) + rest =~= encoding(items[0]) + behind);
        assert forall|i: int| 0 <= i < items.drop_first().len() implies has_layout(
            items.drop_first()[i],
            #[trigger] fields.drop_first()[i],
        ) by {
            assert(has_layout(items[i + 1], fields[i + 1]));
        }
        lemma_parse_fields(items.drop_first(), fields.drop_first(), rest, budget);
        assert(seq![items[0]] + items.drop_first() =~= items);
    }
}

/// The decoder reads data of one layout back from their bytes.
pub proof fn lemma_parse_repeat(items: Seq<Datum>, element: Layout, rest: Seq<u8>, budget: nat)
    requires
        forall|i: int| 0 <= i < items.len() ==> has_layout(#[trigger] items[i], element),
    ensures
        parse_repeat(element, items.len(), encodings(items) + rest, budget) == Ok::<
            (Seq<Datum>, Seq<u8>),
            Error,
        >((items, rest)),
    decreases items,
{
    if items.len() == 0 {
        assert(encodings(items) + rest =~= rest);
        assert(items =~= Seq::<Datum>::empty());
    } else {
        let behind = encodings(items.drop_first()) + rest;
        assert(has_layout(items[0], element));
        lemma_parse_encoding(items[0], element, behind, budget);
        assert(encodings(items) + rest =~= encoding(items[0]) + behind);
        assert forall|i: int| 0 <= i < items.drop_first().len() implies has_layout(
            #[trigger] items.drop_first()[i],
            element,
        ) by {
            assert(has_layout(items[i + 1], element));
        }
        lemma_parse_repeat(items.drop_first(), element, rest, budget);
        assert(seq![items[0]] + items.drop_first() =~= items);
    }
}

/// No byte of the UTF-8 form of a character other than `=` is the separator.
proof fn lemma_scalar_bytes(scalar: u32)
    requires
        is_scalar(scalar),
        scalar != 0x3d,
    ensures
        forall|j: int|
            0 <= j < encode_scalar(scalar).len() ==> #[trigger] encode_scalar(scalar)[j]
                != SEPARATOR,
{
    assert(scalar <= 0x7f && scalar != 0x3d ==> (scalar & 0x7f) as u8 != 0x3d) by (bit_vector);
    assert(0xc0u8 | ((scalar >> 6) & 0x1f) as u8 != 0x3d) by (bit_vector);
    assert(0xe0u8 | ((scalar >> 12) & 0x0f) as u8 != 0x3d) by (bit_vector);
    assert(0xf0u8 | ((scalar >> 18) & 0x7) as u8 != 0x3d) by (bit_vector);
    assert(0x80u8 | (scalar & 0x3f) as u8 != 0x3d) by (bit_vector);
    assert(0x80u8 | ((scalar >> 6) & 0x3f) as u8 != 0x3d) by (bit_vector);
    assert(0x80u8 | ((scalar >> 12) & 0x3f) as u8 != 0x3d) by (bit_vector);
}

/// The UTF-8 form of a text without `=` holds no separator.
pub proof fn lemma_key_bytes(key: Seq<char>)
    requires
        !key.contains('='),
    ensures
        forall|j: int| 0 <= j < encode_utf8(key).len() ==> encode_utf8(key)[j] != SEPARATOR,
    decreases key.len(),
{
    if key.len() > 0 {
        let first = key[0] as u32;
        let others = key.drop_first();
        assert(first != 0x3d) by {
            if first == 0x3d {
                vstd::utf8::char_u32_cast(key[0], first);
                assert(key[0] == '=');
                assert(key.contains('='));
            }
        }
        vstd::utf8::char_is_scalar(key[0]);
        lemma_scalar_bytes(first);
        assert(!others.contains('=')) by {
            if others.contains('=') {
                let at = choose|at: int| 0 <= at < others.len() && others[at] == '=';
                assert(key[at + 1] == '=');
            }
        }
        lemma_key_bytes(others);
        let head = encode_scalar(first);
        let rest = encode_utf8(others);
        assert forall|j: int| 0 <= j < encode_utf8(key).len() implies encode_utf8(key)[j]
            != SEPARATOR by {
            if j < head.len() {
                assert(encode_utf8(key)[j] == head[j]);
            } else {
                assert(encode_utf8(key)[j] == rest[j - head.len()]);
            }
        }
    }
}

/// The decoder reads an entry back from its bytes where the key holds no `=`,
/// the entry's length fits four bytes and the budget covers the entry.
pub proof fn lemma_parse_entry(key: Seq<char>, value: Seq<char>, rest: Seq<u8>, budget: nat)
    requires
        !key.contains('='),
        entry(key, value).len() <= u32::MAX,
        entry(key, value).len() <= budget,
    ensures
        parse_entry(entry(key, value) + rest, budget) == Ok::<
            (Seq<char>, Seq<char>, Seq<u8>, nat),
            Error,
        >((key, value, rest, (budget - entry(key, value).len()) as nat)),
{
    let front = encode_utf8(key);
    let back = encode_utf8(value);
    let payload = front + seq![SEPARATOR] + back;
    lemma_le_bytes_len(payload.len(), 4);
    lemma_parse_blob(payload, rest);
    lemma_key_bytes(key);
    lemma_separator_found(payload, front.len() as int);
    assert(payload.take(front.len() as int) =~= front);
    assert(payload.skip(front.len() as int + 1) =~= back);
    vstd::utf8::encode_utf8_valid_utf8(key);
    vstd::utf8::encode_utf8_valid_utf8(value);
    vstd::utf8::encode_utf8_decode_utf8(key);
    vstd::utf8::encode_utf8_decode_utf8(value);
    assert(valid_utf8(seq![SEPARATOR])) by {
        let one = seq![SEPARATOR];
        reveal_with_fuel(valid_utf8, 2);
        assert(vstd::utf8::pop_first_scalar(one) =~= Seq::<u8>::empty());
    }
    vstd::utf8::valid_utf8_concat(front, seq![SEPARATOR]);
    vstd::utf8::valid_utf8_concat(front + seq![SEPARATOR], back);
}

/// Entries in front of other bytes are read one by one, and what is left of
/// the budget goes to the bytes behind them.
pub proof fn lemma_parse_entries(
    pairs: Seq<(Seq<char>, Seq<char>)>,
    rest: Seq<u8>,
    spare: nat,
)
    requires
        is_dictionary(pairs),
    ensures
        parse_entries(entries(pairs) + rest, entries(pairs).len() + spare) == more_entries(
            pairs,
            parse_entries(rest, spare),
        ),
    decreases pairs.len(),
{
    if pairs.len() == 0 {
        assert(entries(pairs) + rest =~= rest);
        match parse_entries(rest, spare) {
            Ok((others, _)) => {
                assert(pairs + others =~= others);
            },
            Err(_) => {},
        }
    } else {
        let (key, value) = pairs[0];
        let others = pairs.drop_first();
        let one = entry(key, value);
        let behind = entries(others) + rest;
        let budget = entries(pairs).len() + spare;
        lemma_le_bytes_len((encode_utf8(key) + seq![SEPARATOR] + encode_utf8(value)).len(), 4);
        assert(entries(pairs) + rest =~= one + behind);
        assert(is_dictionary(others)) by {
            assert forall|i: int| 0 <= i < others.len() implies !(#[trigger] others[i]).0.contains(
                '=',
            ) by {
                assert(others[i] == pairs[i + 1]);
            }
        }
        lemma_parse_entry(key, value, behind, budget);
        lemma_parse_entries(others, rest, spare);
        match parse_entries(rest, spare) {
            Ok((last, _)) => {
                assert(seq![(key, value)] + (others + last) =~= pairs + last);
            },
            Err(_) => {},
        }
    }
}

/// The encoder refuses no part of a datum that has a layout.
pub proof fn lemma_layout_accepted(datum: Datum, layout: Layout)
    requires
        has_layout(datum, layout),
    ensures
        rejection(datum) is None,
    decreases datum,
{
    match datum {
        Datum::Tuple(items) => {
            lemma_members_accepted(items, layout, items.len() as int);
            assert(items.skip(0) =~= items);
        },
        Datum::Sequence(items) => {
            lemma_members_accepted(items, layout, items.len() as int);
            assert(items.skip(0) =~= items);
        },
        _ => {},
    }
}

proof fn lemma_members_accepted(items: Seq<Datum>, layout: Layout, left: int)
    requires
        0 <= left <= items.len(),
        has_layout(Datum::Tuple(items), layout) || has_layout(Datum::Sequence(items), layout),
    ensures
        first_rejection(items.skip(items.len() - left)) is None,
    decreases items, left,
{
    if left > 0 {
        let at = items.len() - left;
        let here = items.skip(at);
        assert(here.drop_first() =~= items.skip(at + 1));
        assert(here[0] == items[at]);
        match layout {
            Layout::Tuple(fields) => {
                assert(has_layout(items[at], fields[at]));
                lemma_layout_accepted(items[at], fields[at]);
            },
            Layout::Array(_, element) => {
                lemma_layout_accepted(items[at], *element);
            },
            Layout::Sequence(element) => {
                lemma_layout_accepted(items[at], *element);
            },
            _ => {},
        }
        lemma_members_accepted(items, layout, left - 1);
    }
}

} // verus!
