//! The byte layout, stated as mathematics: what a value becomes on the wire,
//! and what a run of bytes reads back as.

use crate::endian::{le_bytes, le_value, lemma_le_value_bound, radix, signed_of, unsigned_of};
use crate::error::{Error, Method};
use crate::value::{Datum, Layout};
use vstd::prelude::*;
use vstd::utf8::{decode_utf8, encode_utf8, valid_utf8};

verus! {

/// The byte that parts the key of a map entry from its value: an ASCII `=`.
pub const SEPARATOR: u8 = 0x3d;

/// `payload` behind its length: four bytes that count the bytes that follow.
/// A length of 2^32 or more is cut to its low 32 bits.
pub open spec fn blob(payload: Seq<u8>) -> Seq<u8> {
    le_bytes(payload.len(), 4) + payload
}

/// One map entry: the text `key=value` behind its length.
pub open spec fn entry(key: Seq<char>, value: Seq<char>) -> Seq<u8> {
    blob(encode_utf8(key) + seq![SEPARATOR] + encode_utf8(value))
}

/// The entries of a map one after the other, with no count.
pub open spec fn entries(pairs: Seq<(Seq<char>, Seq<char>)>) -> Seq<u8>
    decreases pairs.len(),
{
    if pairs.len() == 0 {
        Seq::empty()
    } else {
        entry(pairs[0].0, pairs[0].1) + entries(pairs.drop_first())
    }
}

/// The bytes of `datum`: a scalar at its width, a text or a byte string behind
/// its length, the members of a tuple one after the other with nothing around
/// them, a sequence behind its count, a map as its entries behind their total
/// length. A count of 2^32 or more is cut to its low 32 bits, as a length is.
///
/// A part that the format has no place for adds no bytes. The encoder writes
/// no datum with such a part: see `rejection`.
pub open spec fn encoding(datum: Datum) -> Seq<u8>
    decreases datum,
{
    match datum {
        Datum::Bool(v) => seq![if v { 1u8 } else { 0u8 }],
        Datum::I8(v) => le_bytes(unsigned_of(v as int, 1), 1),
        Datum::U8(v) => seq![v],
        Datum::I16(v) => le_bytes(unsigned_of(v as int, 2), 2),
        Datum::U16(v) => le_bytes(v as nat, 2),
        Datum::I32(v) => le_bytes(unsigned_of(v as int, 4), 4),
        Datum::U32(v) => le_bytes(v as nat, 4),
        Datum::I64(v) => le_bytes(unsigned_of(v as int, 8), 8),
        Datum::U64(v) => le_bytes(v as nat, 8),
        Datum::F32(bits) => le_bytes(bits as nat, 4),
        Datum::F64(bits) => le_bytes(bits as nat, 8),
        Datum::Text(text) => blob(encode_utf8(text)),
        Datum::Bytes(bytes) => blob(bytes),
        Datum::Tuple(items) => encodings(items),
        Datum::Sequence(items) => le_bytes(items.len(), 4) + encodings(items),
        Datum::Entries(pairs) => blob(entries(pairs)),
        Datum::Char(_) => Seq::empty(),
        Datum::Optional(_) => Seq::empty(),
        Datum::Variant(_, _) => Seq::empty(),
    }
}

/// The bytes of `items`, one datum after the other.
pub open spec fn encodings(items: Seq<Datum>) -> Seq<u8>
    decreases items,
{
    if items.len() == 0 {
        Seq::empty()
    } else {
        encoding(items[0]) + encodings(items.drop_first())
    }
}

/// `datum` as an independent message: behind one length that counts the bytes
/// that follow. A map carries that length already.
pub open spec fn framed(datum: Datum) -> Seq<u8> {
    match datum {
        Datum::Entries(_) => encoding(datum),
        _ => blob(encoding(datum)),
    }
}

/// Why `datum` cannot be written: the error of the first part, in writing
/// order, that the format has no place for; `None` if there is no such part.
pub open spec fn rejection(datum: Datum) -> Option<Error>
    decreases datum,
{
    match datum {
        Datum::Char(_) => Some(Error::UnsupportedCharType),
        Datum::Optional(_) => Some(Error::UnsupportedEnumType),
        Datum::Variant(_, _) => Some(Error::UnsupportedEnumType),
        Datum::Tuple(items) => first_rejection(items),
        Datum::Sequence(items) => first_rejection(items),
        _ => None,
    }
}

/// The rejection of the first of `items` that has one.
pub open spec fn first_rejection(items: Seq<Datum>) -> Option<Error>
    decreases items,
{
    if items.len() == 0 {
        None
    } else {
        match rejection(items[0]) {
            Some(error) => Some(error),
            None => first_rejection(items.drop_first()),
        }
    }
}

/// Reads a number of `width` bytes from the front of `bytes`: the number and
/// the bytes behind it.
pub open spec fn parse_number(bytes: Seq<u8>, width: nat) -> Result<(nat, Seq<u8>), Error> {
    if bytes.len() < width {
        Err(Error::EndOfBuffer)
    } else {
        Ok((le_value(bytes.take(width as int)), bytes.skip(width as int)))
    }
}

/// A number read from `width` bytes fits in as many.
pub proof fn lemma_number_fits(bytes: Seq<u8>, width: nat)
    requires
        parse_number(bytes, width) is Ok,
    ensures
        parse_number(bytes, width)->Ok_0.0 < radix(width),
{
    lemma_le_value_bound(bytes.take(width as int));
}

/// Reads one byte as a truth value: zero is `false`, anything else `true`.
pub open spec fn parse_bool(bytes: Seq<u8>) -> Result<(bool, Seq<u8>), Error> {
    match parse_number(bytes, 1) {
        Ok((n, rest)) => Ok((n != 0, rest)),
        Err(error) => Err(error),
    }
}

/// Reads one byte.
pub open spec fn parse_u8(bytes: Seq<u8>) -> Result<(u8, Seq<u8>), Error> {
    match parse_number(bytes, 1) {
        Ok((n, rest)) => Ok((n as u8, rest)),
        Err(error) => Err(error),
    }
}

/// Reads two bytes, least significant first.
pub open spec fn parse_u16(bytes: Seq<u8>) -> Result<(u16, Seq<u8>), Error> {
    match parse_number(bytes, 2) {
        Ok((n, rest)) => Ok((n as u16, rest)),
        Err(error) => Err(error),
    }
}

/// Reads four bytes, least significant first.
pub open spec fn parse_u32(bytes: Seq<u8>) -> Result<(u32, Seq<u8>), Error> {
    match parse_number(bytes, 4) {
        Ok((n, rest)) => Ok((n as u32, rest)),
        Err(error) => Err(error),
    }
}

/// Reads eight bytes, least significant first.
pub open spec fn parse_u64(bytes: Seq<u8>) -> Result<(u64, Seq<u8>), Error> {
    match parse_number(bytes, 8) {
        Ok((n, rest)) => Ok((n as u64, rest)),
        Err(error) => Err(error),
    }
}

/// Reads one byte in two's complement.
pub open spec fn parse_i8(bytes: Seq<u8>) -> Result<(i8, Seq<u8>), Error> {
    match parse_number(bytes, 1) {
        Ok((n, rest)) => Ok((signed_of(n, 1) as i8, rest)),
        Err(error) => Err(error),
    }
}

/// Reads two bytes in two's complement, least significant first.
pub open spec fn parse_i16(bytes: Seq<u8>) -> Result<(i16, Seq<u8>), Error> {
    match parse_number(bytes, 2) {
        Ok((n, rest)) => Ok((signed_of(n, 2) as i16, rest)),
        Err(error) => Err(error),
    }
}

/// Reads four bytes in two's complement, least significant first.
pub open spec fn parse_i32(bytes: Seq<u8>) -> Result<(i32, Seq<u8>), Error> {
    match parse_number(bytes, 4) {
        Ok((n, rest)) => Ok((signed_of(n, 4) as i32, rest)),
        Err(error) => Err(error),
    }
}

/// Reads eight bytes in two's complement, least significant first.
pub open spec fn parse_i64(bytes: Seq<u8>) -> Result<(i64, Seq<u8>), Error> {
    match parse_number(bytes, 8) {
        Ok((n, rest)) => Ok((signed_of(n, 8) as i64, rest)),
        Err(error) => Err(error),
    }
}

/// Reads a length and as many bytes from the front of `bytes`: those bytes and
/// the bytes behind them.
pub open spec fn parse_blob(bytes: Seq<u8>) -> Result<(Seq<u8>, Seq<u8>), Error> {
    match parse_u32(bytes) {
        Err(error) => Err(error),
        Ok((len, rest)) => if rest.len() < len {
            Err(Error::EndOfBuffer)
        } else {
            Ok((rest.take(len as int), rest.skip(len as int)))
        },
    }
}

/// Reads a text from the front of `bytes`: its characters and the bytes behind it.
pub open spec fn parse_text(bytes: Seq<u8>) -> Result<(Seq<char>, Seq<u8>), Error> {
    match parse_blob(bytes) {
        Err(error) => Err(error),
        Ok((payload, rest)) => if valid_utf8(payload) {
            Ok((decode_utf8(payload), rest))
        } else {
            Err(Error::BadStringData)
        },
    }
}

/// Where the first separator stands in `payload`, if it holds one.
pub open spec fn separator_at(payload: Seq<u8>) -> Option<int>
    decreases payload.len(),
{
    if payload.len() == 0 {
        None
    } else if payload[0] == SEPARATOR {
        Some(0)
    } else {
        match separator_at(payload.drop_first()) {
            Some(at) => Some(at + 1),
            None => None,
        }
    }
}

/// One step of reading a map that has `budget` bytes left, with `budget` above
/// zero: the key and the value of the entry at the front of `bytes`, the bytes
/// behind it and the budget that is left.
///
/// The entry is read as a text. It is a bad entry if it takes more bytes, its
/// length field counted, than the budget has, or if it holds no separator;
/// else it parts at its first separator.
pub open spec fn parse_entry(bytes: Seq<u8>, budget: nat) -> Result<
    (Seq<char>, Seq<char>, Seq<u8>, nat),
    Error,
> {
    match parse_blob(bytes) {
        Err(error) => Err(error),
        Ok((payload, rest)) => if !valid_utf8(payload) {
            Err(Error::BadStringData)
        } else if budget < payload.len() + 4 {
            Err(Error::BadMapEntry)
        } else {
            match separator_at(payload) {
                None => Err(Error::BadMapEntry),
                Some(at) => Ok(
                    (
                        decode_utf8(payload.take(at)),
                        decode_utf8(payload.skip(at + 1)),
                        rest,
                        (budget - payload.len() - 4) as nat,
                    ),
                ),
            }
        },
    }
}

/// Reads map entries from the front of `bytes` until `budget` bytes are used
/// up: the pairs in the order read, and the bytes behind them.
pub open spec fn parse_entries(bytes: Seq<u8>, budget: nat) -> Result<
    (Seq<(Seq<char>, Seq<char>)>, Seq<u8>),
    Error,
>
    decreases budget,
{
    if budget == 0 {
        Ok((Seq::empty(), bytes))
    } else {
        match parse_entry(bytes, budget) {
            Err(error) => Err(error),
            Ok((key, value, rest, left)) => match parse_entries(rest, left) {
                Err(error) => Err(error),
                Ok((pairs, end)) => Ok((seq![(key, value)] + pairs, end)),
            },
        }
    }
}

/// The pairs read so far in front of what the rest of the entries read as.
pub open spec fn more_entries(
    front: Seq<(Seq<char>, Seq<char>)>,
    rest: Result<(Seq<(Seq<char>, Seq<char>)>, Seq<u8>), Error>,
) -> Result<(Seq<(Seq<char>, Seq<char>)>, Seq<u8>), Error> {
    match rest {
        Ok((pairs, end)) => Ok((front + pairs, end)),
        Err(error) => Err(error),
    }
}

/// The data read so far in front of what the rest of the members read as.
pub open spec fn more_items(
    front: Seq<Datum>,
    rest: Result<(Seq<Datum>, Seq<u8>), Error>,
) -> Result<(Seq<Datum>, Seq<u8>), Error> {
    match rest {
        Ok((items, end)) => Ok((front + items, end)),
        Err(error) => Err(error),
    }
}

/// Reads one datum of the given layout from the front of `bytes`: the datum
/// and the bytes behind it. `budget` is the length that the envelope gave; a
/// map reads entries until it has used as many bytes.
pub open spec fn parse(layout: Layout, bytes: Seq<u8>, budget: nat) -> Result<
    (Datum, Seq<u8>),
    Error,
>
    decreases layout, 0nat,
{
    match layout {
        Layout::Bool => match parse_bool(bytes) {
            Ok((v, rest)) => Ok((Datum::Bool(v), rest)),
            Err(error) => Err(error),
        },
        Layout::I8 => match parse_i8(bytes) {
            Ok((v, rest)) => Ok((Datum::I8(v), rest)),
            Err(error) => Err(error),
        },
        Layout::U8 => match parse_u8(bytes) {
            Ok((v, rest)) => Ok((Datum::U8(v), rest)),
            Err(error) => Err(error),
        },
        Layout::I16 => match parse_i16(bytes) {
            Ok((v, rest)) => Ok((Datum::I16(v), rest)),
            Err(error) => Err(error),
        },
        Layout::U16 => match parse_u16(bytes) {
            Ok((v, rest)) => Ok((Datum::U16(v), rest)),
            Err(error) => Err(error),
        },
        Layout::I32 => match parse_i32(bytes) {
            Ok((v, rest)) => Ok((Datum::I32(v), rest)),
            Err(error) => Err(error),
        },
        Layout::U32 => match parse_u32(bytes) {
            Ok((v, rest)) => Ok((Datum::U32(v), rest)),
            Err(error) => Err(error),
        },
        Layout::I64 => match parse_i64(bytes) {
            Ok((v, rest)) => Ok((Datum::I64(v), rest)),
            Err(error) => Err(error),
        },
        Layout::U64 => match parse_u64(bytes) {
            Ok((v, rest)) => Ok((Datum::U64(v), rest)),
            Err(error) => Err(error),
        },
        Layout::F32 => match parse_u32(bytes) {
            Ok((bits, rest)) => Ok((Datum::F32(bits), rest)),
            Err(error) => Err(error),
        },
        Layout::F64 => match parse_u64(bytes) {
            Ok((bits, rest)) => Ok((Datum::F64(bits), rest)),
            Err(error) => Err(error),
        },
        Layout::Text => match parse_text(bytes) {
            Ok((text, rest)) => Ok((Datum::Text(text), rest)),
            Err(error) => Err(error),
        },
        Layout::Bytes => match parse_blob(bytes) {
            Ok((payload, rest)) => Ok((Datum::Bytes(payload), rest)),
            Err(error) => Err(error),
        },
        Layout::Tuple(fields) => match parse_fields(fields, bytes, budget) {
            Ok((items, rest)) => Ok((Datum::Tuple(items), rest)),
            Err(error) => Err(error),
        },
        Layout::Array(len, element) => match parse_repeat(*element, len, bytes, budget) {
            Ok((items, rest)) => Ok((Datum::Tuple(items), rest)),
            Err(error) => Err(error),
        },
        Layout::Sequence(element) => match parse_counted(*element, bytes, budget) {
            Ok((items, rest)) => Ok((Datum::Sequence(items), rest)),
            Err(error) => Err(error),
        },
        Layout::Entries => match parse_entries(bytes, budget) {
            Ok((pairs, rest)) => Ok((Datum::Entries(pairs), rest)),
            Err(error) => Err(error),
        },
        Layout::Char => Err(Error::UnsupportedCharType),
        Layout::Optional => Err(Error::UnsupportedEnumType),
        Layout::Enum => Err(Error::UnsupportedEnumType),
        Layout::Any => Err(Error::UnsupportedDeserializerMethod(Method::Deserialize)),
        Layout::StructField => Err(Error::UnsupportedDeserializerMethod(Method::StructField)),
        Layout::IgnoredAny => Err(Error::UnsupportedDeserializerMethod(Method::IgnoredAny)),
    }
}

/// Reads one datum for each of `fields`, in order.
pub open spec fn parse_fields(fields: Seq<Layout>, bytes: Seq<u8>, budget: nat) -> Result<
    (Seq<Datum>, Seq<u8>),
    Error,
>
    decreases fields, 0nat,
{
    if fields.len() == 0 {
        Ok((Seq::empty(), bytes))
    } else {
        match parse(fields[0], bytes, budget) {
            Err(error) => Err(error),
            Ok((first, rest)) => match parse_fields(fields.drop_first(), rest, budget) {
                Err(error) => Err(error),
                Ok((others, end)) => Ok((seq![first] + others, end)),
            },
        }
    }
}

/// Reads `count` data of one layout.
pub open spec fn parse_repeat(element: Layout, count: nat, bytes: Seq<u8>, budget: nat) -> Result<
    (Seq<Datum>, Seq<u8>),
    Error,
>
    decreases element, count + 1,
{
    if count == 0 {
        Ok((Seq::empty(), bytes))
    } else {
        match parse(element, bytes, budget) {
            Err(error) => Err(error),
            Ok((first, rest)) => match parse_repeat(element, (count - 1) as nat, rest, budget) {
                Err(error) => Err(error),
                Ok((others, end)) => Ok((seq![first] + others, end)),
            },
        }
    }
}

/// Reads a count and as many data of one layout.
pub open spec fn parse_counted(element: Layout, bytes: Seq<u8>, budget: nat) -> Result<
    (Seq<Datum>, Seq<u8>),
    Error,
>
    decreases element, u32::MAX as nat + 2,
{
    match parse_u32(bytes) {
        Err(error) => Err(error),
        Ok((count, rest)) => parse_repeat(element, count as nat, rest, budget),
    }
}

/// Reads an independent message: the length in front, then one datum of the
/// given layout with that length as its budget. Bytes behind the datum are
/// left alone.
pub open spec fn decoding(layout: Layout, bytes: Seq<u8>) -> Result<Datum, Error> {
    match parse_u32(bytes) {
        Err(error) => Err(error),
        Ok((budget, rest)) => match parse(layout, rest, budget as nat) {
            Err(error) => Err(error),
            Ok((datum, _)) => Ok(datum),
        },
    }
}

/// Reads an independent message as `decoding` does, and holds the datum to
/// the length in front: a datum that ends before the length is used up is an
/// underflow, one that ends behind it an overflow.
pub open spec fn strict_decoding(layout: Layout, bytes: Seq<u8>) -> Result<Datum, Error> {
    match parse_u32(bytes) {
        Err(error) => Err(error),
        Ok((budget, body)) => match parse(layout, body, budget as nat) {
            Err(error) => Err(error),
            Ok((datum, rest)) => if body.len() - rest.len() < budget {
                Err(Error::Underflow)
            } else if body.len() - rest.len() > budget {
                Err(Error::Overflow)
            } else {
                Ok(datum)
            },
        },
    }
}

/// `datum` is one that the decoder hands back when it reads the datum's bytes
/// under `layout`: each part stands where the layout expects its kind, and
/// each length fits the four bytes that carry it.
pub open spec fn has_layout(datum: Datum, layout: Layout) -> bool
    decreases datum,
{
    match (layout, datum) {
        (Layout::Bool, Datum::Bool(_)) => true,
        (Layout::I8, Datum::I8(_)) => true,
        (Layout::U8, Datum::U8(_)) => true,
        (Layout::I16, Datum::I16(_)) => true,
        (Layout::U16, Datum::U16(_)) => true,
        (Layout::I32, Datum::I32(_)) => true,
        (Layout::U32, Datum::U32(_)) => true,
        (Layout::I64, Datum::I64(_)) => true,
        (Layout::U64, Datum::U64(_)) => true,
        (Layout::F32, Datum::F32(_)) => true,
        (Layout::F64, Datum::F64(_)) => true,
        (Layout::Text, Datum::Text(text)) => encode_utf8(text).len() <= u32::MAX,
        (Layout::Bytes, Datum::Bytes(bytes)) => bytes.len() <= u32::MAX,
        (Layout::Tuple(fields), Datum::Tuple(items)) => {
            &&& fields.len() == items.len()
            &&& forall|i: int| 0 <= i < items.len() ==> has_layout(items[i], #[trigger] fields[i])
        },
        (Layout::Array(len, element), Datum::Tuple(items)) => {
            &&& len == items.len()
            &&& forall|i: int| 0 <= i < items.len() ==> has_layout(#[trigger] items[i], *element)
        },
        (Layout::Sequence(element), Datum::Sequence(items)) => {
            &&& items.len() <= u32::MAX
            &&& forall|i: int| 0 <= i < items.len() ==> has_layout(#[trigger] items[i], *element)
        },
        _ => false,
    }
}

/// The pairs make a map that the decoder hands back: no key holds a `=`, and
/// the entries together fit the four bytes that carry their length.
pub open spec fn is_dictionary(pairs: Seq<(Seq<char>, Seq<char>)>) -> bool {
    &&& entries(pairs).len() <= u32::MAX
    &&& forall|i: int| 0 <= i < pairs.len() ==> !(#[trigger] pairs[i]).0.contains('=')
}

/// `datum` can travel as a message of the given layout: it is a map from text
/// to text that the decoder hands back, or it holds no map and has the layout.
pub open spec fn is_message(datum: Datum, layout: Layout) -> bool {
    match datum {
        Datum::Entries(pairs) => layout == Layout::Entries && is_dictionary(pairs),
        _ => has_layout(datum, layout),
    }
}


} // verus!
