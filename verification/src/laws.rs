//! What holds of the format as a whole: the decoder reads back what the
//! encoder wrote, and nothing else reads as it.

use crate::endian::{le_bytes, lemma_le_bytes_len, lemma_le_bytes_wrap, lemma_radix_values, radix};
use crate::error::Error;
use crate::lemmas::{
    lemma_layout_accepted, lemma_parse_blob, lemma_parse_encoding, lemma_parse_entries,
    lemma_parse_number,
};
use crate::text::{lemma_cut_at_separator, lemma_separator_at, lemma_separator_in_text};
use crate::value::{Datum, Layout};
use crate::wire::{
    blob, decoding, encoding, encodings, entries, framed, has_layout, is_dictionary, is_message,
    parse, parse_blob, parse_entries, parse_entry, parse_text, rejection, separator_at,
    strict_decoding,
};
use vstd::prelude::*;
use vstd::utf8::{decode_utf8, valid_utf8};

verus! {

/// Round trip. Every message is written: the encoder refuses no part of it.
/// And the decoder, told the message's layout, reads the message back from
/// its framed bytes, whatever bytes stand behind them.
pub proof fn law_round_trip(datum: Datum, layout: Layout, trailing: Seq<u8>)
    requires
        is_message(datum, layout),
    ensures
        rejection(datum) is None,
        decoding(layout, framed(datum) + trailing) == Ok::<Datum, Error>(datum),
{
    lemma_radix_values();
    match datum {
        Datum::Entries(pairs) => {
            let body = entries(pairs);
            lemma_parse_number(body.len(), 4, body + trailing);
            assert(framed(datum) + trailing =~= le_bytes(body.len(), 4) + (body + trailing));
            lemma_parse_entries(pairs, trailing, 0);
            assert(pairs + Seq::<(Seq<char>, Seq<char>)>::empty() =~= pairs);
        },
        _ => {
            let body = encoding(datum);
            let budget = body.len() % radix(4);
            lemma_layout_accepted(datum, layout);
            lemma_le_bytes_wrap(body.len(), 4);
            lemma_parse_number(budget, 4, body + trailing);
            assert(framed(datum) + trailing =~= le_bytes(body.len(), 4) + (body + trailing));
            lemma_parse_encoding(datum, layout, trailing, budget);
        },
    }
}

/// Decoding normalises nothing. What the decoder reads from the framed bytes
/// of a message has the same framed bytes as the message, so decoding those
/// again gives the same datum again.
pub proof fn law_decoding_is_stable(datum: Datum, layout: Layout)
    requires
        is_message(datum, layout),
    ensures
        decoding(layout, framed(datum)) is Ok,
        framed(decoding(layout, framed(datum))->Ok_0) == framed(datum),
        decoding(layout, framed(decoding(layout, framed(datum))->Ok_0)) == decoding(
            layout,
            framed(datum),
        ),
{
    law_round_trip(datum, layout, Seq::empty());
    assert(framed(datum) + Seq::<u8>::empty() =~= framed(datum));
}

/// Inside a structure, too, a datum that has a layout is read back from its
/// bytes, and the bytes behind it are left for what comes next.
pub proof fn law_structure_round_trip(datum: Datum, layout: Layout, rest: Seq<u8>, budget: nat)
    requires
        has_layout(datum, layout),
    ensures
        parse(layout, encoding(datum) + rest, budget) == Ok::<(Datum, Seq<u8>), Error>(
            (datum, rest),
        ),
{
    lemma_parse_encoding(datum, layout, rest, budget);
}

/// A map entry that claims more bytes than the map has left is a bad entry,
/// after however many good entries it comes: the decode fails as a whole and
/// hands out none of the entries read before.
pub proof fn law_entry_beyond_budget(
    pairs: Seq<(Seq<char>, Seq<char>)>,
    payload: Seq<u8>,
    rest: Seq<u8>,
    spare: nat,
)
    requires
        is_dictionary(pairs),
        valid_utf8(payload),
        payload.len() <= u32::MAX,
        0 < spare < payload.len() + 4,
    ensures
        parse_entries(entries(pairs) + (blob(payload) + rest), entries(pairs).len() + spare)
            == Err::<(Seq<(Seq<char>, Seq<char>)>, Seq<u8>), Error>(Error::BadMapEntry),
{
    lemma_parse_entries(pairs, blob(payload) + rest, spare);
    lemma_parse_blob(payload, rest);
}

/// A map uses up its budget to the byte: where reading entries succeeds, the
/// bytes read are as many as the budget said.
pub proof fn law_map_uses_its_budget(bytes: Seq<u8>, budget: nat)
    requires
        parse_entries(bytes, budget) is Ok,
    ensures
        parse_entries(bytes, budget)->Ok_0.1.len() + budget == bytes.len(),
    decreases budget,
{
    if budget > 0 {
        let (_, _, rest, left) = parse_entry(bytes, budget)->Ok_0;
        law_map_uses_its_budget(rest, left);
    }
}

/// A tuple has no bytes of its own: two tuples written one after the other
/// are the bytes of the tuple of all their members, and a sequence is its
/// count in front of the bytes of the tuple of its elements.
pub proof fn law_tuples_concatenate(front: Seq<Datum>, back: Seq<Datum>)
    ensures
        encoding(Datum::Tuple(front + back)) == encoding(Datum::Tuple(front)) + encoding(
            Datum::Tuple(back),
        ),
        encoding(Datum::Sequence(front)) == le_bytes(front.len(), 4) + encoding(
            Datum::Tuple(front),
        ),
    decreases front.len(),
{
    if front.len() == 0 {
        assert(front + back =~= back);
        assert(encodings(front) + encodings(back) =~= encodings(back));
    } else {
        law_tuples_concatenate(front.drop_first(), back);
        assert((front + back).drop_first() =~= front.drop_first() + back);
        assert(encodings(front + back) =~= encodings(front) + encodings(back));
    }
}

/// Round trip under the strict decoder: a message whose bytes fit the length
/// field is read back, since it ends exactly where its length says.
pub proof fn law_strict_round_trip(datum: Datum, layout: Layout, trailing: Seq<u8>)
    requires
        is_message(datum, layout),
        framed(datum).len() <= u32::MAX,
    ensures
        strict_decoding(layout, framed(datum) + trailing) == Ok::<Datum, Error>(datum),
{
    lemma_radix_values();
    match datum {
        Datum::Entries(pairs) => {
            let body = entries(pairs);
            lemma_le_bytes_len(body.len(), 4);
            lemma_parse_number(body.len(), 4, body + trailing);
            assert(framed(datum) + trailing =~= le_bytes(body.len(), 4) + (body + trailing));
            lemma_parse_entries(pairs, trailing, 0);
            assert(pairs + Seq::<(Seq<char>, Seq<char>)>::empty() =~= pairs);
        },
        _ => {
            let body = encoding(datum);
            lemma_le_bytes_len(body.len(), 4);
            lemma_parse_number(body.len(), 4, body + trailing);
            assert(framed(datum) + trailing =~= le_bytes(body.len(), 4) + (body + trailing));
            lemma_parse_encoding(datum, layout, trailing, body.len());
        },
    }
}

/// A map entry parts at its first `=`: where an entry is read, its text is
/// the key, one `=` and the value, and the key holds no `=`.
pub proof fn law_entry_parts_at_first_separator(bytes: Seq<u8>, budget: nat)
    requires
        parse_entry(bytes, budget) is Ok,
    ensures
        parse_text(bytes) is Ok,
        parse_text(bytes)->Ok_0.0 == parse_entry(bytes, budget)->Ok_0.0 + seq!['=']
            + parse_entry(bytes, budget)->Ok_0.1,
        !parse_entry(bytes, budget)->Ok_0.0.contains('='),
{
    let payload = parse_blob(bytes)->Ok_0.0;
    let at = separator_at(payload)->0;
    let key = decode_utf8(payload.take(at));
    lemma_separator_at(payload);
    lemma_cut_at_separator(payload, at);
    if key.contains('=') {
        let place = lemma_separator_in_text(key);
        vstd::utf8::decode_utf8_encode_utf8(payload.take(at));
        assert(payload.take(at)[place] == payload[place]);
    }
}

/// Framing loses nothing: two messages of one layout with the same framed
/// bytes are the same message.
pub proof fn law_framing_is_injective(one: Datum, other: Datum, layout: Layout)
    requires
        is_message(one, layout),
        is_message(other, layout),
        framed(one) == framed(other),
    ensures
        one == other,
{
    law_round_trip(one, layout, Seq::empty());
    law_round_trip(other, layout, Seq::empty());
}

} // verus!
