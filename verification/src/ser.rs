//! Writing values as ROSMSG bytes.
//!
//! The format has no place for enumerations of any kind, optional values
//! among them, for single characters, or for maps other than from text to text.

use crate::endian::{
    le_bytes, lemma_le_bytes_wrap, lemma_radix_values, u16_to_bytes, u32_to_bytes, u64_to_bytes,
};
use crate::error::Error;
use crate::value::{data_of, lemma_data_of, pairs_of, Datum, Value};
use crate::wire::{
    blob, encoding, encodings, entries, first_rejection, framed, rejection, SEPARATOR,
};
use vstd::prelude::*;
use vstd::utf8::encode_utf8;

verus! {

/// Writes values into a buffer of bytes that it owns.
pub struct Serializer {
    writer: Vec<u8>,
}

impl View for Serializer {
    type V = Seq<u8>;

    /// The bytes written so far, behind those that the buffer came with.
    closed spec fn view(&self) -> Seq<u8> {
        self.writer@
    }
}

impl Serializer {
    /// A serializer that writes behind what `writer` holds.
    pub fn new(writer: Vec<u8>) -> (serializer: Self)
        ensures
            serializer@ == writer@,
    {
        Serializer { writer }
    }

    /// Hands the buffer back.
    pub fn into_inner(self) -> (writer: Vec<u8>)
        ensures
            writer@ == self@,
    {
        self.writer
    }

    /// Writes `len` as a length field: its low 32 bits.
    fn write_size(&mut self, len: usize)
        ensures
            final(self)@ == old(self)@ + le_bytes(len as nat, 4),
    {
        let low: u32 = ((len as u64) % 0x1_0000_0000u64) as u32;
        proof {
            lemma_radix_values();
            lemma_le_bytes_wrap(len as nat, 4);
        }
        let bytes = u32_to_bytes(low);
        self.writer.extend_from_slice(bytes.as_slice());
    }

    /// Writes one byte: 1 for `true`, 0 for `false`.
    pub fn serialize_bool(&mut self, v: bool) -> (result: Result<(), Error>)
        ensures
            result is Ok,
            final(self)@ == old(self)@ + encoding(Datum::Bool(v)),
    {
        self.writer.push(if v { 1 } else { 0 });
        Ok(())
    }

    /// Writes the byte of `v` in two's complement.
    pub fn serialize_i8(&mut self, v: i8) -> (result: Result<(), Error>)
        ensures
            result is Ok,
            final(self)@ == old(self)@ + encoding(Datum::I8(v)),
    {
        let byte: u8 = if v < 0 { (v as i16 + 0x100) as u8 } else { v as u8 };
        proof {
            lemma_radix_values();
            reveal_with_fuel(le_bytes, 2);
            assert(le_bytes(byte as nat, 1) =~= seq![byte]);
        }
        self.writer.push(byte);
        Ok(())
    }

    /// Writes the byte `v`.
    pub fn serialize_u8(&mut self, v: u8) -> (result: Result<(), Error>)
        ensures
            result is Ok,
            final(self)@ == old(self)@ + encoding(Datum::U8(v)),
    {
        self.writer.push(v);
        Ok(())
    }

    /// Writes the two bytes of `v`, least significant first.
    pub fn serialize_u16(&mut self, v: u16) -> (result: Result<(), Error>)
        ensures
            result is Ok,
            final(self)@ == old(self)@ + encoding(Datum::U16(v)),
    {
        let bytes = u16_to_bytes(v);
        self.writer.extend_from_slice(bytes.as_slice());
        Ok(())
    }

    /// Writes the four bytes of `v`, least significant first.
    pub fn serialize_u32(&mut self, v: u32) -> (result: Result<(), Error>)
        ensures
            result is Ok,
            final(self)@ == old(self)@ + encoding(Datum::U32(v)),
    {
        let bytes = u32_to_bytes(v);
        self.writer.extend_from_slice(bytes.as_slice());
        Ok(())
    }

    /// Writes the eight bytes of `v`, least significant first.
    pub fn serialize_u64(&mut self, v: u64) -> (result: Result<(), Error>)
        ensures
            result is Ok,
            final(self)@ == old(self)@ + encoding(Datum::U64(v)),
    {
        let bytes = u64_to_bytes(v);
        self.writer.extend_from_slice(bytes.as_slice());
        Ok(())
    }

    /// Writes the two bytes of `v` in two's complement, least significant first.
    pub fn serialize_i16(&mut self, v: i16) -> (result: Result<(), Error>)
        ensures
            result is Ok,
            final(self)@ == old(self)@ + encoding(Datum::I16(v)),
    {
        let unsigned: u16 = if v < 0 { (v as i32 + 0x1_0000) as u16 } else { v as u16 };
        proof {
            lemma_radix_values();
        }
        let bytes = u16_to_bytes(unsigned);
        self.writer.extend_from_slice(bytes.as_slice());
        Ok(())
    }

    /// Writes the four bytes of `v` in two's complement, least significant first.
    pub fn serialize_i32(&mut self, v: i32) -> (result: Result<(), Error>)
        ensures
            result is Ok,
            final(self)@ == old(self)@ + encoding(Datum::I32(v)),
    {
        let unsigned: u32 = if v < 0 { (v as i64 + 0x1_0000_0000) as u32 } else { v as u32 };
        proof {
            lemma_radix_values();
        }
        let bytes = u32_to_bytes(unsigned);
        self.writer.extend_from_slice(bytes.as_slice());
        Ok(())
    }

    /// Writes the eight bytes of `v` in two's complement, least significant first.
    pub fn serialize_i64(&mut self, v: i64) -> (result: Result<(), Error>)
        ensures
            result is Ok,
            final(self)@ == old(self)@ + encoding(Datum::I64(v)),
    {
        let unsigned: u64 = if v < 0 {
            (v as i128 + 0x1_0000_0000_0000_0000) as u64
        } else {
            v as u64
        };
        proof {
            lemma_radix_values();
        }
        let bytes = u64_to_bytes(unsigned);
        self.writer.extend_from_slice(bytes.as_slice());
        Ok(())
    }

    /// Writes the four bytes of an `f32`, given by its bits, least significant first.
    pub fn serialize_f32(&mut self, bits: u32) -> (result: Result<(), Error>)
        ensures
            result is Ok,
            final(self)@ == old(self)@ + encoding(Datum::F32(bits)),
    {
        self.serialize_u32(bits)
    }

    /// Writes the eight bytes of an `f64`, given by its bits, least significant first.
    pub fn serialize_f64(&mut self, bits: u64) -> (result: Result<(), Error>)
        ensures
            result is Ok,
            final(self)@ == old(self)@ + encoding(Datum::F64(bits)),
    {
        self.serialize_u64(bits)
    }

    /// Refuses: the format has no single characters.
    pub fn serialize_char(&mut self, v: char) -> (result: Result<(), Error>)
        ensures
            result == Err::<(), Error>(Error::UnsupportedCharType),
            final(self)@ == old(self)@,
    {
        Err(Error::UnsupportedCharType)
    }

    /// Writes the length of the text in bytes, then its UTF-8 bytes.
    pub fn serialize_str(&mut self, value: &str) -> (result: Result<(), Error>)
        ensures
            result is Ok,
            final(self)@ == old(self)@ + encoding(Datum::Text(value@)),
    {
        self.serialize_bytes(value.as_bytes())
    }

    /// Writes the number of bytes, then the bytes.
    pub fn serialize_bytes(&mut self, value: &[u8]) -> (result: Result<(), Error>)
        ensures
            result is Ok,
            final(self)@ == old(self)@ + blob(value@),
    {
        self.write_size(value.len());
        self.writer.extend_from_slice(value);
        assert(self@ =~= old(self)@ + blob(value@));
        Ok(())
    }

    /// Refuses: the format has no optional values.
    pub fn serialize_none(&mut self) -> (result: Result<(), Error>)
        ensures
            result == Err::<(), Error>(Error::UnsupportedEnumType),
            final(self)@ == old(self)@,
    {
        Err(Error::UnsupportedEnumType)
    }

    /// Refuses: the format has no optional values.
    pub fn serialize_some(&mut self, value: &Value) -> (result: Result<(), Error>)
        ensures
            result == Err::<(), Error>(Error::UnsupportedEnumType),
            final(self)@ == old(self)@,
    {
        Err(Error::UnsupportedEnumType)
    }

    /// Writes nothing: a unit has no bytes.
    pub fn serialize_unit(&mut self) -> (result: Result<(), Error>)
        ensures
            result is Ok,
            final(self)@ == old(self)@,
    {
        Ok(())
    }

    /// Writes nothing: a struct without members has no bytes.
    pub fn serialize_unit_struct(&mut self, name: &str) -> (result: Result<(), Error>)
        ensures
            result is Ok,
            final(self)@ == old(self)@,
    {
        self.serialize_unit()
    }

    /// Refuses: the format has no enumerations.
    pub fn serialize_unit_variant(
        &mut self,
        name: &str,
        variant_index: usize,
        variant: &str,
    ) -> (result: Result<(), Error>)
        ensures
            result == Err::<(), Error>(Error::UnsupportedEnumType),
            final(self)@ == old(self)@,
    {
        Err(Error::UnsupportedEnumType)
    }

    /// Writes the one member of a struct that wraps it, with nothing around it.
    pub fn serialize_newtype_struct(&mut self, name: &str, value: &Value) -> (result: Result<
        (),
        Error,
    >)
        ensures
            wrote(old(self)@, value@, result, final(self)@),
    {
        self.serialize(value)
    }

    /// Refuses: the format has no enumerations.
    pub fn serialize_newtype_variant(
        &mut self,
        name: &str,
        variant_index: usize,
        variant: &str,
        value: &Value,
    ) -> (result: Result<(), Error>)
        ensures
            result == Err::<(), Error>(Error::UnsupportedEnumType),
            final(self)@ == old(self)@,
    {
        Err(Error::UnsupportedEnumType)
    }

    /// Writes `value` as the layout has it. Where a part of it has no place in
    /// the format, nothing is written and the error names the first such part.
    pub fn serialize(&mut self, value: &Value) -> (result: Result<(), Error>)
        ensures
            wrote(old(self)@, value@, result, final(self)@),
        decreases value,
    {
        match value {
            Value::Bool(v) => self.serialize_bool(*v),
            Value::I8(v) => self.serialize_i8(*v),
            Value::U8(v) => self.serialize_u8(*v),
            Value::I16(v) => self.serialize_i16(*v),
            Value::U16(v) => self.serialize_u16(*v),
            Value::I32(v) => self.serialize_i32(*v),
            Value::U32(v) => self.serialize_u32(*v),
            Value::I64(v) => self.serialize_i64(*v),
            Value::U64(v) => self.serialize_u64(*v),
            Value::F32(bits) => self.serialize_f32(*bits),
            Value::F64(bits) => self.serialize_f64(*bits),
            Value::Text(text) => self.serialize_str(text.as_str()),
            Value::Bytes(bytes) => self.serialize_bytes(bytes.as_slice()),
            Value::Tuple(items) => self.serialize_members(items),
            Value::Sequence(items) => {
                let mark = self.writer.len();
                proof {
                    lemma_data_of(items@);
                }
                self.write_size(items.len());
                match self.serialize_members(items) {
                    Ok(()) => {
                        assert(self@ =~= old(self)@ + encoding(value@));
                        Ok(())
                    },
                    Err(error) => {
                        self.writer.truncate(mark);
                        assert(self@ =~= old(self)@);
                        Err(error)
                    },
                }
            },
            Value::Entries(pairs) => self.serialize_entries(pairs),
            Value::Char(v) => self.serialize_char(*v),
            Value::Optional(inner) => match inner {
                Some(inner_value) => self.serialize_some(inner_value),
                None => self.serialize_none(),
            },
            Value::Variant(_, _) => Err(Error::UnsupportedEnumType),
        }
    }

    /// Writes `items` one after the other, or nothing if one of them has no
    /// place in the format.
    fn serialize_members(&mut self, items: &Vec<Value>) -> (result: Result<(), Error>)
        ensures
            match first_rejection(data_of(items@)) {
                Some(error) => result == Err::<(), Error>(error) && final(self)@ == old(self)@,
                None => result is Ok && final(self)@ == old(self)@ + encodings(data_of(items@)),
            },
        decreases items,
    {
        let mark = self.writer.len();
        let ghost data = data_of(items@);
        proof {
            lemma_data_of(items@);
            assert(data.skip(0) =~= data);
        }
        let mut i: usize = 0;
        while i < items.len()
            invariant
                i <= items.len(),
                data == data_of(items@),
                data.len() == items.len(),
                forall|k: int| 0 <= k < items.len() ==> #[trigger] data[k] == items[k]@,
                mark == old(self)@.len(),
                self@.len() >= mark,
                self@.take(mark as int) == old(self)@,
                first_rejection(data) == first_rejection(data.skip(i as int)),
                self@ + encodings(data.skip(i as int)) == old(self)@ + encodings(data),
            decreases items.len() - i,
        {
            proof {
                assert(decreases_to!(*items => items@));
                assert(decreases_to!(items@ => items@[i as int]));
                assert(data.skip(i as int).drop_first() =~= data.skip(i + 1));
                assert(data.skip(i as int)[0] == items[i as int]@);
            }
            let ghost before = self@;
            match self.serialize(&items[i]) {
                Ok(()) => {
                    assert(self@ + encodings(data.skip(i + 1)) =~= before + encodings(
                        data.skip(i as int),
                    ));
                    assert(self@.take(mark as int) =~= before.take(mark as int));
                },
                Err(error) => {
                    self.writer.truncate(mark);
                    assert(self@ =~= old(self)@);
                    return Err(error);
                },
            }
            i += 1;
        }
        assert(data.skip(i as int) =~= Seq::<Datum>::empty());
        assert(self@ =~= old(self)@ + encodings(data));
        Ok(())
    }

    /// Writes a map from text to text: its entries behind their total length.
    fn serialize_entries(&mut self, pairs: &Vec<(String, String)>) -> (result: Result<(), Error>)
        ensures
            result is Ok,
            final(self)@ == old(self)@ + blob(entries(pairs_of(pairs@))),
    {
        let ghost all = pairs_of(pairs@);
        let ghost done = *final(self);
        let mut map = CompoundMap::new(self);
        assert(all.skip(0) =~= all);
        let mut i: usize = 0;
        while i < pairs.len()
            invariant
                i <= pairs.len(),
                all == pairs_of(pairs@),
                *map.ser == *old(self),
                *final(map.ser) == done,
                map.buffer@ + entries(all.skip(i as int)) == entries(all),
            decreases pairs.len() - i,
        {
            proof {
                assert(all.skip(i as int).drop_first() =~= all.skip(i + 1));
            }
            let ghost before = map.buffer@;
            let _ = map.serialize_key(pairs[i].0.as_str());
            let _ = map.serialize_value(pairs[i].1.as_str());
            assert(map.buffer@ + entries(all.skip(i + 1)) =~= before + entries(all.skip(i as int)));
            i += 1;
        }
        assert(all.skip(i as int) =~= Seq::<(Seq<char>, Seq<char>)>::empty());
        assert(map.buffer@ =~= entries(all));
        map.end()
    }

    /// Opens a block for a sequence of `len` elements: the block starts with
    /// that count, and `end` writes it behind its length in bytes. A sequence
    /// of unknown length is refused.
    pub fn serialize_seq<'a>(&'a mut self, len: Option<usize>) -> (result: Result<
        Compound<'a>,
        Error,
    >)
        ensures
            match len {
                Some(count) => {
                    &&& result is Ok
                    &&& *result->Ok_0.ser == *old(self)
                    &&& *final(result->Ok_0.ser) == *final(self)
                    &&& result->Ok_0.buffer@ == le_bytes(count as nat, 4)
                },
                None => {
                    &&& result is Err
                    &&& result->Err_0 == Error::VariableArraySizeAnnotation
                    &&& *final(self) == *old(self)
                },
            },
    {
        let size = match len {
            Some(v) => v,
            None => {
                return Err(Error::VariableArraySizeAnnotation);
            },
        };
        let mut v = Compound::new(self);
        v.buffer.write_size(size);
        Ok(v)
    }

    /// Opens a block for `size` members of fixed number: the block starts
    /// empty, and `end` writes it behind its length in bytes.
    pub fn serialize_seq_fixed_size<'a>(&'a mut self, size: usize) -> (result: Result<
        Compound<'a>,
        Error,
    >)
        ensures
            result is Ok,
            *result->Ok_0.ser == *old(self),
            *final(result->Ok_0.ser) == *final(self),
            result->Ok_0.buffer@ == Seq::<u8>::empty(),
    {
        Ok(Compound::new(self))
    }

    /// Opens a block for the members of a tuple.
    pub fn serialize_tuple<'a>(&'a mut self, len: usize) -> (result: Result<Compound<'a>, Error>)
        ensures
            result is Ok,
            *result->Ok_0.ser == *old(self),
            *final(result->Ok_0.ser) == *final(self),
            result->Ok_0.buffer@ == Seq::<u8>::empty(),
    {
        self.serialize_seq_fixed_size(len)
    }

    /// Opens a block for the members of a tuple struct.
    pub fn serialize_tuple_struct<'a>(&'a mut self, name: &str, len: usize) -> (result: Result<
        Compound<'a>,
        Error,
    >)
        ensures
            result is Ok,
            *result->Ok_0.ser == *old(self),
            *final(result->Ok_0.ser) == *final(self),
            result->Ok_0.buffer@ == Seq::<u8>::empty(),
    {
        self.serialize_seq_fixed_size(len)
    }

    /// Refuses: the format has no enumerations.
    pub fn serialize_tuple_variant<'a>(
        &'a mut self,
        name: &str,
        variant_index: usize,
        variant: &str,
        len: usize,
    ) -> (result: Result<Compound<'a>, Error>)
        ensures
            result is Err,
            result->Err_0 == Error::UnsupportedEnumType,
            *final(self) == *old(self),
    {
        Err(Error::UnsupportedEnumType)
    }

    /// Opens a block for the entries of a map from text to text.
    pub fn serialize_map<'a>(&'a mut self, len: Option<usize>) -> (result: Result<
        CompoundMap<'a>,
        Error,
    >)
        ensures
            result is Ok,
            *result->Ok_0.ser == *old(self),
            *final(result->Ok_0.ser) == *final(self),
            result->Ok_0.buffer@ == Seq::<u8>::empty(),
    {
        Ok(CompoundMap::new(self))
    }

    /// Opens a block for the members of a struct.
    pub fn serialize_struct<'a>(&'a mut self, name: &str, len: usize) -> (result: Result<
        Compound<'a>,
        Error,
    >)
        ensures
            result is Ok,
            *result->Ok_0.ser == *old(self),
            *final(result->Ok_0.ser) == *final(self),
            result->Ok_0.buffer@ == Seq::<u8>::empty(),
    {
        self.serialize_seq_fixed_size(len)
    }

    /// Refuses: the format has no enumerations.
    pub fn serialize_struct_variant<'a>(
        &'a mut self,
        name: &str,
        variant_index: usize,
        variant: &str,
        len: usize,
    ) -> (result: Result<Compound<'a>, Error>)
        ensures
            result is Err,
            result->Err_0 == Error::UnsupportedEnumType,
            *final(self) == *old(self),
    {
        Err(Error::UnsupportedEnumType)
    }
}

/// A block under construction: what is written to it gathers in a buffer, and
/// `end` writes the buffer to the serializer behind its length in bytes.
pub struct Compound<'a> {
    pub ser: &'a mut Serializer,
    pub buffer: Serializer,
}

impl<'a> Compound<'a> {
    fn new(ser: &'a mut Serializer) -> (compound: Compound<'a>)
        ensures
            *compound.ser == *old(ser),
            *final(compound.ser) == *final(ser),
            compound.buffer@ == Seq::<u8>::empty(),
    {
        Compound { ser: ser, buffer: Serializer::new(Vec::new()) }
    }

    /// Writes one element to the block, or nothing if a part of the element
    /// has no place in the format.
    pub fn serialize_element(&mut self, value: &Value) -> (result: Result<(), Error>)
        ensures
            wrote(old(self).buffer@, value@, result, final(self).buffer@),
            final(self).ser == old(self).ser,
    {
        self.buffer.serialize(value)
    }

    /// Writes one member of a struct to the block; its name does not travel.
    pub fn serialize_field(&mut self, key: &str, value: &Value) -> (result: Result<(), Error>)
        ensures
            wrote(old(self).buffer@, value@, result, final(self).buffer@),
            final(self).ser == old(self).ser,
    {
        self.buffer.serialize(value)
    }

    /// Closes the block: the serializer gets its length in bytes, then its bytes.
    pub fn end(self) -> (result: Result<(), Error>)
        ensures
            result is Ok,
            final(self.ser)@ == old(self.ser)@ + blob(self.buffer@),
    {
        let Compound { ser, buffer } = self;
        let bytes = buffer.into_inner();
        ser.serialize_bytes(bytes.as_slice())
    }
}

/// A map under construction: each entry is written to a buffer as the text
/// `key=value` behind its length, and `end` writes the buffer to the
/// serializer behind its length in bytes.
pub struct CompoundMap<'a> {
    pub ser: &'a mut Serializer,
    pub buffer: Serializer,
    pub item: Vec<u8>,
}

impl<'a> CompoundMap<'a> {
    fn new(ser: &'a mut Serializer) -> (map: CompoundMap<'a>)
        ensures
            *map.ser == *old(ser),
            *final(map.ser) == *final(ser),
            map.buffer@ == Seq::<u8>::empty(),
            map.item@ == Seq::<u8>::empty(),
    {
        CompoundMap { ser: ser, buffer: Serializer::new(Vec::new()), item: Vec::new() }
    }

    /// Starts an entry: the key and the separator.
    pub fn serialize_key(&mut self, key: &str) -> (result: Result<(), Error>)
        ensures
            result is Ok,
            final(self).item@ == encode_utf8(key@) + seq![SEPARATOR],
            final(self).buffer == old(self).buffer,
            final(self).ser == old(self).ser,
    {
        self.item = Vec::new();
        self.item.extend_from_slice(key.as_bytes());
        self.item.push(SEPARATOR);
        Ok(())
    }

    /// Completes the entry that `serialize_key` started and writes it to the
    /// buffer behind its length.
    pub fn serialize_value(&mut self, value: &str) -> (result: Result<(), Error>)
        ensures
            result is Ok,
            final(self).item@ == old(self).item@ + encode_utf8(value@),
            final(self).buffer@ == old(self).buffer@ + blob(final(self).item@),
            final(self).ser == old(self).ser,
    {
        self.item.extend_from_slice(value.as_bytes());
        self.buffer.serialize_bytes(self.item.as_slice())
    }

    /// Closes the map: the serializer gets the length of the entries in bytes,
    /// then the entries.
    pub fn end(self) -> (result: Result<(), Error>)
        ensures
            result is Ok,
            final(self.ser)@ == old(self.ser)@ + blob(self.buffer@),
    {
        let CompoundMap { ser, buffer, item } = self;
        let bytes = buffer.into_inner();
        ser.serialize_bytes(bytes.as_slice())
    }
}

/// What a write of `datum` does to a sink that held `before`: where a part of
/// the datum has no place in the format, the error names the first such part
/// and the sink is as it was; else the datum's bytes stand behind `before`.
pub open spec fn wrote(
    before: Seq<u8>,
    datum: Datum,
    result: Result<(), Error>,
    after: Seq<u8>,
) -> bool {
    match rejection(datum) {
        Some(error) => result == Err::<(), Error>(error) && after == before,
        None => result is Ok && after == before + encoding(datum),
    }
}

/// What an encode of `datum` into a fresh buffer gives: the error of the
/// first part that has no place in the format, or else `bytes`.
pub open spec fn encoded(datum: Datum, bytes: Seq<u8>, result: Result<Vec<u8>, Error>) -> bool {
    match rejection(datum) {
        Some(error) => result is Err && result->Err_0 == error,
        None => result is Ok && result->Ok_0@ == bytes,
    }
}

/// Writes `value` behind what `writer` holds, with no length in front. Where
/// a part of the value has no place in the format, nothing is written.
pub fn to_writer(writer: &mut Vec<u8>, value: &Value) -> (result: Result<(), Error>)
    ensures
        wrote(old(writer)@, value@, result, final(writer)@),
{
    let mut serializer = Serializer::new(Vec::new());
    match serializer.serialize(value) {
        Ok(()) => {
            let bytes = serializer.into_inner();
            writer.extend_from_slice(bytes.as_slice());
            assert(writer@ =~= old(writer)@ + encoding(value@));
            Ok(())
        },
        Err(error) => Err(error),
    }
}

/// The bytes of `value`, with no length in front.
pub fn to_vec(value: &Value) -> (result: Result<Vec<u8>, Error>)
    ensures
        encoded(value@, encoding(value@), result),
{
    let mut writer = Vec::with_capacity(128);
    match to_writer(&mut writer, value) {
        Ok(()) => Ok(writer),
        Err(error) => Err(error),
    }
}

/// `value` as an independent message: its bytes behind their number. A map
/// is its own message, since its entries stand behind their length already.
pub fn encode_framed(value: &Value) -> (result: Result<Vec<u8>, Error>)
    ensures
        encoded(value@, framed(value@), result),
{
    match value {
        Value::Entries(_) => to_vec(value),
        _ => {
            let mut serializer = Serializer::new(Vec::new());
            let mut block = Compound::new(&mut serializer);
            match block.serialize_element(value) {
                Ok(()) => {
                    let _ = block.end();
                    Ok(serializer.into_inner())
                },
                Err(error) => Err(error),
            }
        },
    }
}

} // verus!
