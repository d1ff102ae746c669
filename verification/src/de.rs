//! Reading ROSMSG bytes back into values.
//!
//! The bytes carry no type information, so every read is told what to expect.
//! The format has no place for enumerations of any kind, optional values
//! among them, for single characters, or for maps other than from text to text.

use crate::endian::{
    le_value, lemma_le_value_bound, lemma_radix_values, u16_from_bytes, u32_from_bytes,
    u64_from_bytes,
};
use crate::error::{Error, Method};
use crate::text::{
    lemma_cut_at_separator, lemma_separator_absent, lemma_separator_found, text_from_utf8,
};
use crate::value::{data_of, layouts_of, lemma_layouts_of, pairs_of, Datum, Layout, Shape, Value};
use crate::wire::{
    decoding, lemma_number_fits, more_entries, more_items, parse, parse_blob, parse_bool,
    parse_counted, parse_entries, parse_entry, parse_fields, parse_i16, parse_i32, parse_i64,
    parse_i8, parse_number, parse_repeat, parse_text, parse_u16, parse_u32, parse_u64, parse_u8,
    separator_at, strict_decoding, SEPARATOR,
};
use vstd::prelude::*;
use vstd::slice::slice_to_vec;
use vstd::utf8::encode_utf8;

verus! {

/// Reads values from the front of a run of bytes.
pub struct Deserializer<'a> {
    reader: &'a [u8],
    length: u32,
}

impl<'a> Deserializer<'a> {
    /// The bytes not read yet.
    pub closed spec fn remaining(&self) -> Seq<u8> {
        self.reader@
    }

    /// The length that the envelope gave: what a map may use up.
    pub closed spec fn budget(&self) -> nat {
        self.length as nat
    }

    /// A deserializer at the front of `reader`, for a value that its envelope
    /// gave `expected_length` bytes.
    pub fn new(reader: &'a [u8], expected_length: u32) -> (deserializer: Self)
        ensures
            deserializer.remaining() == reader@,
            deserializer.budget() == expected_length,
    {
        Deserializer { reader: reader, length: expected_length }
    }

    /// Hands back the bytes not read yet.
    pub fn into_inner(self) -> (reader: &'a [u8])
        ensures
            reader@ == self.remaining(),
    {
        self.reader
    }

    /// Takes `width` bytes from the front, or fails and takes none if fewer are left.
    fn take(&mut self, width: usize) -> (result: Result<&'a [u8], Error>)
        ensures
            final(self).budget() == old(self).budget(),
            old(self).remaining().len() < width ==> {
                &&& result is Err
                &&& result->Err_0 == Error::EndOfBuffer
                &&& final(self).remaining() == old(self).remaining()
            },
            old(self).remaining().len() >= width ==> {
                &&& result is Ok
                &&& result->Ok_0@ == old(self).remaining().take(width as int)
                &&& final(self).remaining() == old(self).remaining().skip(width as int)
            },
    {
        if self.reader.len() < width {
            return Err(Error::EndOfBuffer);
        }
        let (head, tail) = self.reader.split_at(width);
        self.reader = tail;
        Ok(head)
    }

    /// Reads a length field: four bytes, least significant first.
    fn pop_length(&mut self) -> (result: Result<u32, Error>)
        ensures
            old(self).read_exactly(parse_u32(old(self).remaining()), result, *final(self)),
    {
        self.deserialize_u32()
    }

    /// Reads a text: its length in bytes, then as many bytes, which must be
    /// UTF-8. Hands back the number of bytes read, the length field counted,
    /// and the text. On failure nothing is read.
    pub fn get_string(&mut self) -> (result: Result<(u64, String), Error>)
        ensures
            old(self).read_text(
                parse_text(old(self).remaining()),
                match result {
                    Ok((_, text)) => Ok(text),
                    Err(error) => Err(error),
                },
                *final(self),
            ),
            result is Ok ==> result->Ok_0.0 == encode_utf8(result->Ok_0.1@).len() + 4,
    {
        let start = self.reader;
        let length = match self.pop_length() {
            Ok(length) => length,
            Err(error) => {
                return Err(error);
            },
        };
        let payload = match self.take(length as usize) {
            Ok(payload) => payload,
            Err(error) => {
                self.reader = start;
                return Err(error);
            },
        };
        let buffer = slice_to_vec(payload);
        match text_from_utf8(buffer) {
            Some(text) => {
                proof {
                    vstd::utf8::decode_utf8_encode_utf8(payload@);
                }
                Ok((length as u64 + 4, text))
            },
            None => {
                self.reader = start;
                Err(Error::BadStringData)
            },
        }
    }

    /// Refuses: the bytes do not say what they hold.
    pub fn deserialize(&mut self) -> (result: Result<Value, Error>)
        ensures
            result is Err,
            result->Err_0 == Error::UnsupportedDeserializerMethod(Method::Deserialize),
            *final(self) == *old(self),
    {
        Err(Error::UnsupportedDeserializerMethod(Method::Deserialize))
    }

    /// Reads one byte: zero is `false`, anything else `true`.
    pub fn deserialize_bool(&mut self) -> (result: Result<bool, Error>)
        ensures
            old(self).read_exactly(parse_bool(old(self).remaining()), result, *final(self)),
    {
        proof {
            lemma_radix_values();
            if parse_number(self.remaining(), 1) is Ok {
                lemma_number_fits(self.remaining(), 1);
            }
        }
        match self.deserialize_u8() {
            Ok(byte) => Ok(byte != 0),
            Err(error) => Err(error),
        }
    }

    /// Reads one byte.
    pub fn deserialize_u8(&mut self) -> (result: Result<u8, Error>)
        ensures
            old(self).read_exactly(parse_u8(old(self).remaining()), result, *final(self)),
    {
        match self.take(1) {
            Ok(bytes) => {
                proof {
                    reveal_with_fuel(le_value, 2);
                }
                Ok(bytes[0])
            },
            Err(error) => Err(error),
        }
    }

    /// Reads one byte in two's complement.
    pub fn deserialize_i8(&mut self) -> (result: Result<i8, Error>)
        ensures
            old(self).read_exactly(parse_i8(old(self).remaining()), result, *final(self)),
    {
        proof {
            lemma_radix_values();
            if parse_number(self.remaining(), 1) is Ok {
                lemma_number_fits(self.remaining(), 1);
            }
        }
        match self.deserialize_u8() {
            Ok(byte) => {
                Ok(if byte >= 0x80 { (byte as i16 - 0x100) as i8 } else { byte as i8 })
            },
            Err(error) => Err(error),
        }
    }

    /// Reads two bytes, least significant first.
    pub fn deserialize_u16(&mut self) -> (result: Result<u16, Error>)
        ensures
            old(self).read_exactly(parse_u16(old(self).remaining()), result, *final(self)),
    {
        match self.take(2) {
            Ok(bytes) => {
                proof {
                    lemma_radix_values();
                    lemma_le_value_bound(bytes@);
                    assert(bytes@.subrange(0, 2) =~= bytes@);
                }
                Ok(u16_from_bytes(bytes))
            },
            Err(error) => Err(error),
        }
    }

    /// Reads four bytes, least significant first.
    pub fn deserialize_u32(&mut self) -> (result: Result<u32, Error>)
        ensures
            old(self).read_exactly(parse_u32(old(self).remaining()), result, *final(self)),
    {
        match self.take(4) {
            Ok(bytes) => {
                proof {
                    lemma_radix_values();
                    lemma_le_value_bound(bytes@);
                    assert(bytes@.subrange(0, 4) =~= bytes@);
                }
                Ok(u32_from_bytes(bytes))
            },
            Err(error) => Err(error),
        }
    }

    /// Reads eight bytes, least significant first.
    pub fn deserialize_u64(&mut self) -> (result: Result<u64, Error>)
        ensures
            old(self).read_exactly(parse_u64(old(self).remaining()), result, *final(self)),
    {
        match self.take(8) {
            Ok(bytes) => {
                proof {
                    lemma_radix_values();
                    lemma_le_value_bound(bytes@);
                    assert(bytes@.subrange(0, 8) =~= bytes@);
                }
                Ok(u64_from_bytes(bytes))
            },
            Err(error) => Err(error),
        }
    }

    /// Reads two bytes in two's complement, least significant first.
    pub fn deserialize_i16(&mut self) -> (result: Result<i16, Error>)
        ensures
            old(self).read_exactly(parse_i16(old(self).remaining()), result, *final(self)),
    {
        proof {
            lemma_radix_values();
            if parse_number(self.remaining(), 2) is Ok {
                lemma_number_fits(self.remaining(), 2);
            }
        }
        match self.deserialize_u16() {
            Ok(n) => {
                Ok(if n >= 0x8000 { (n as i32 - 0x1_0000) as i16 } else { n as i16 })
            },
            Err(error) => Err(error),
        }
    }

    /// Reads four bytes in two's complement, least significant first.
    pub fn deserialize_i32(&mut self) -> (result: Result<i32, Error>)
        ensures
            old(self).read_exactly(parse_i32(old(self).remaining()), result, *final(self)),
    {
        proof {
            lemma_radix_values();
            if parse_number(self.remaining(), 4) is Ok {
                lemma_number_fits(self.remaining(), 4);
            }
        }
        match self.deserialize_u32() {
            Ok(n) => {
                Ok(if n >= 0x8000_0000 { (n as i64 - 0x1_0000_0000) as i32 } else { n as i32 })
            },
            Err(error) => Err(error),
        }
    }

    /// Reads eight bytes in two's complement, least significant first.
    pub fn deserialize_i64(&mut self) -> (result: Result<i64, Error>)
        ensures
            old(self).read_exactly(parse_i64(old(self).remaining()), result, *final(self)),
    {
        proof {
            lemma_radix_values();
            if parse_number(self.remaining(), 8) is Ok {
                lemma_number_fits(self.remaining(), 8);
            }
        }
        match self.deserialize_u64() {
            Ok(n) => {
                Ok(
                    if n >= 0x8000_0000_0000_0000 {
                        (n as i128 - 0x1_0000_0000_0000_0000) as i64
                    } else {
                        n as i64
                    },
                )
            },
            Err(error) => Err(error),
        }
    }

    /// Reads the bits of an `f32`: four bytes, least significant first.
    pub fn deserialize_f32(&mut self) -> (result: Result<u32, Error>)
        ensures
            old(self).read_exactly(parse_u32(old(self).remaining()), result, *final(self)),
    {
        self.deserialize_u32()
    }

    /// Reads the bits of an `f64`: eight bytes, least significant first.
    pub fn deserialize_f64(&mut self) -> (result: Result<u64, Error>)
        ensures
            old(self).read_exactly(parse_u64(old(self).remaining()), result, *final(self)),
    {
        self.deserialize_u64()
    }

    /// Refuses: the format has no single characters.
    pub fn deserialize_char(&mut self) -> (result: Result<char, Error>)
        ensures
            result == Err::<char, Error>(Error::UnsupportedCharType),
            *final(self) == *old(self),
    {
        Err(Error::UnsupportedCharType)
    }

    /// Reads a text: its length in bytes, then its UTF-8 bytes.
    pub fn deserialize_str(&mut self) -> (result: Result<String, Error>)
        ensures
            old(self).read_text(parse_text(old(self).remaining()), result, *final(self)),
    {
        match self.get_string() {
            Ok((_, text)) => Ok(text),
            Err(error) => Err(error),
        }
    }

    /// Reads a text: its length in bytes, then its UTF-8 bytes.
    pub fn deserialize_string(&mut self) -> (result: Result<String, Error>)
        ensures
            old(self).read_text(parse_text(old(self).remaining()), result, *final(self)),
    {
        self.deserialize_str()
    }

    /// Reads a byte string: the number of bytes, then the bytes. On failure
    /// nothing is read.
    pub fn deserialize_bytes(&mut self) -> (result: Result<Vec<u8>, Error>)
        ensures
            old(self).read_bytes(parse_blob(old(self).remaining()), result, *final(self)),
    {
        let start = self.reader;
        let length = match self.pop_length() {
            Ok(length) => length,
            Err(error) => {
                return Err(error);
            },
        };
        match self.take(length as usize) {
            Ok(payload) => Ok(slice_to_vec(payload)),
            Err(error) => {
                self.reader = start;
                Err(error)
            },
        }
    }

    /// Reads a byte string: the number of bytes, then the bytes. On failure
    /// nothing is read.
    pub fn deserialize_byte_buf(&mut self) -> (result: Result<Vec<u8>, Error>)
        ensures
            old(self).read_bytes(parse_blob(old(self).remaining()), result, *final(self)),
    {
        self.deserialize_bytes()
    }

    /// Refuses: the format has no optional values.
    pub fn deserialize_option(&mut self) -> (result: Result<Value, Error>)
        ensures
            result is Err,
            result->Err_0 == Error::UnsupportedEnumType,
            *final(self) == *old(self),
    {
        Err(Error::UnsupportedEnumType)
    }

    /// Reads nothing: a unit has no bytes.
    pub fn deserialize_unit(&mut self) -> (result: Result<(), Error>)
        ensures
            result is Ok,
            *final(self) == *old(self),
    {
        Ok(())
    }

    /// Reads nothing: a struct without members has no bytes.
    pub fn deserialize_unit_struct(&mut self, name: &str) -> (result: Result<(), Error>)
        ensures
            result is Ok,
            *final(self) == *old(self),
    {
        Ok(())
    }

    /// Reads the one member of a struct that wraps it.
    pub fn deserialize_newtype_struct(&mut self, name: &str, shape: &Shape) -> (result: Result<
        Value,
        Error,
    >)
        ensures
            old(self).read(
                parse(shape@, old(self).remaining(), old(self).budget()),
                result,
                *final(self),
            ),
        decreases shape, 1nat,
    {
        self.deserialize_as(shape)
    }

    /// Reads a sequence: the number of elements, then as many values of the
    /// shape `element`. On failure nothing is read.
    pub fn deserialize_seq(&mut self, element: &Shape) -> (result: Result<Vec<Value>, Error>)
        ensures
            old(self).read_items(
                parse_counted(element@, old(self).remaining(), old(self).budget()),
                result,
                *final(self),
            ),
        decreases element, 3nat,
    {
        let start = self.reader;
        let len = match self.pop_length() {
            Ok(len) => len as usize,
            Err(error) => {
                return Err(error);
            },
        };
        match self.deserialize_seq_fixed_size(len, element) {
            Ok(items) => Ok(items),
            Err(error) => {
                self.reader = start;
                Err(error)
            },
        }
    }

    /// Reads `len` values of the shape `element`, one after the other. On
    /// failure nothing is read.
    pub fn deserialize_seq_fixed_size(&mut self, len: usize, element: &Shape) -> (result: Result<
        Vec<Value>,
        Error,
    >)
        ensures
            old(self).read_items(
                parse_repeat(element@, len as nat, old(self).remaining(), old(self).budget()),
                result,
                *final(self),
            ),
        decreases element, 2nat,
    {
        let start = self.reader;
        let ghost budget = self.budget();
        let ghost whole = parse_repeat(element@, len as nat, self.remaining(), budget);
        let mut items: Vec<Value> = Vec::new();
        let mut visitor = SeqVisitor { deserializer: self, len: len };
        assert(data_of(items@) =~= Seq::<Datum>::empty());
        let mut failure: Option<Error> = None;
        loop
            invariant_except_break
                failure is None,
                whole == more_items(
                    data_of(items@),
                    parse_repeat(
                        element@,
                        visitor.len as nat,
                        visitor.deserializer.remaining(),
                        budget,
                    ),
                ),
            invariant
                after_borrow(*self) == *final(visitor.deserializer),
                visitor.deserializer.budget() == budget,
            ensures
                match failure {
                    Some(error) => whole == Err::<(Seq<Datum>, Seq<u8>), Error>(error),
                    None => whole == Ok::<(Seq<Datum>, Seq<u8>), Error>(
                        (data_of(items@), visitor.deserializer.remaining()),
                    ),
                },
            decreases visitor.len,
        {
            let ghost before = data_of(items@);
            let ghost earlier = items@;
            match visitor.visit_seed(element) {
                Ok(Some(value)) => {
                    items.push(value);
                    proof {
                        let one = seq![value@];
                        assert(items@.drop_last() =~= earlier);
                        assert(data_of(items@) =~= before + one);
                        match parse_repeat(
                            element@,
                            visitor.len as nat,
                            visitor.deserializer.remaining(),
                            budget,
                        ) {
                            Ok((others, _)) => {
                                assert(before + (one + others) =~= (before + one) + others);
                            },
                            Err(_) => {},
                        }
                    }
                },
                Ok(None) => {
                    assert(before + Seq::<Datum>::empty() =~= before);
                    break ;
                },
                Err(error) => {
                    failure = Some(error);
                    break ;
                },
            }
        }
        match failure {
            Some(error) => {
                self.reader = start;
                Err(error)
            },
            None => Ok(items),
        }
    }

    /// Reads one value for each of `fields`, in order. On failure nothing is read.
    pub fn deserialize_tuple(&mut self, fields: &Vec<Shape>) -> (result: Result<Vec<Value>, Error>)
        ensures
            old(self).read_items(
                parse_fields(layouts_of(fields@), old(self).remaining(), old(self).budget()),
                result,
                *final(self),
            ),
        decreases fields, 2nat,
    {
        let start = self.reader;
        let ghost budget = self.budget();
        let ghost layouts = layouts_of(fields@);
        let ghost whole = parse_fields(layouts, self.remaining(), budget);
        let mut items: Vec<Value> = Vec::new();
        let mut visitor = TupleVisitor(self);
        proof {
            lemma_layouts_of(fields@);
            assert(data_of(items@) =~= Seq::<Datum>::empty());
            assert(layouts.skip(0) =~= layouts);
        }
        let mut failure: Option<Error> = None;
        let mut i: usize = 0;
        loop
            invariant_except_break
                failure is None,
                whole == more_items(
                    data_of(items@),
                    parse_fields(layouts.skip(i as int), visitor.0.remaining(), budget),
                ),
            invariant
                i <= fields.len(),
                layouts == layouts_of(fields@),
                layouts.len() == fields.len(),
                forall|k: int| 0 <= k < fields.len() ==> #[trigger] layouts[k] == fields[k]@,
                after_borrow(*self) == *final(visitor.0),
                visitor.0.budget() == budget,
            ensures
                match failure {
                    Some(error) => whole == Err::<(Seq<Datum>, Seq<u8>), Error>(error),
                    None => whole == Ok::<(Seq<Datum>, Seq<u8>), Error>(
                        (data_of(items@), visitor.0.remaining()),
                    ),
                },
            decreases fields.len() - i,
        {
            let ghost before = data_of(items@);
            let ghost earlier = items@;
            if i >= fields.len() {
                proof {
                    assert(layouts.skip(i as int) =~= Seq::<Layout>::empty());
                    assert(before + Seq::<Datum>::empty() =~= before);
                }
                break ;
            }
            proof {
                assert(decreases_to!(*fields => fields@));
                assert(decreases_to!(fields@ => fields@[i as int]));
                assert(layouts.skip(i as int).drop_first() =~= layouts.skip(i + 1));
                assert(layouts.skip(i as int)[0] == fields[i as int]@);
            }
            match visitor.visit_seed(&fields[i]) {
                Ok(Some(value)) => {
                    items.push(value);
                    proof {
                        let one = seq![value@];
                        assert(items@.drop_last() =~= earlier);
                        assert(data_of(items@) =~= before + one);
                        match parse_fields(layouts.skip(i + 1), visitor.0.remaining(), budget) {
                            Ok((others, _)) => {
                                assert(before + (one + others) =~= (before + one) + others);
                            },
                            Err(_) => {},
                        }
                    }
                },
                Ok(None) => {
                    break ;
                },
                Err(error) => {
                    failure = Some(error);
                    break ;
                },
            }
            i += 1;
        }
        match failure {
            Some(error) => {
                self.reader = start;
                Err(error)
            },
            None => Ok(items),
        }
    }

    /// Reads the members of a tuple struct, in order. On failure nothing is read.
    pub fn deserialize_tuple_struct(&mut self, name: &str, fields: &Vec<Shape>) -> (result: Result<
        Vec<Value>,
        Error,
    >)
        ensures
            old(self).read_items(
                parse_fields(layouts_of(fields@), old(self).remaining(), old(self).budget()),
                result,
                *final(self),
            ),
        decreases fields, 3nat,
    {
        self.deserialize_tuple(fields)
    }

    /// Reads the members of a struct, in declared order. On failure nothing is read.
    pub fn deserialize_struct(&mut self, name: &str, fields: &Vec<Shape>) -> (result: Result<
        Vec<Value>,
        Error,
    >)
        ensures
            old(self).read_items(
                parse_fields(layouts_of(fields@), old(self).remaining(), old(self).budget()),
                result,
                *final(self),
            ),
        decreases fields, 3nat,
    {
        self.deserialize_tuple(fields)
    }

    /// Refuses: the bytes do not name the fields of a struct.
    pub fn deserialize_struct_field(&mut self) -> (result: Result<Value, Error>)
        ensures
            result is Err,
            result->Err_0 == Error::UnsupportedDeserializerMethod(Method::StructField),
            *final(self) == *old(self),
    {
        Err(Error::UnsupportedDeserializerMethod(Method::StructField))
    }

    /// Refuses: the format has no enumerations.
    pub fn deserialize_enum(&mut self, name: &str) -> (result: Result<Value, Error>)
        ensures
            result is Err,
            result->Err_0 == Error::UnsupportedEnumType,
            *final(self) == *old(self),
    {
        Err(Error::UnsupportedEnumType)
    }

    /// Refuses: the bytes do not say what to skip.
    pub fn deserialize_ignored_any(&mut self) -> (result: Result<Value, Error>)
        ensures
            result is Err,
            result->Err_0 == Error::UnsupportedDeserializerMethod(Method::IgnoredAny),
            *final(self) == *old(self),
    {
        Err(Error::UnsupportedDeserializerMethod(Method::IgnoredAny))
    }

    /// `after` is this deserializer after a read that went as `outcome` says:
    /// on success the bytes behind what was read are left, on failure nothing
    /// is read. The budget stays.
    pub open spec fn moved<T>(&self, outcome: Result<(T, Seq<u8>), Error>, after: Self) -> bool {
        &&& after.budget() == self.budget()
        &&& after.remaining() == match outcome {
            Ok((_, rest)) => rest,
            Err(_) => self.remaining(),
        }
    }

    /// A read that went as `outcome` says handed out `result`, the very value
    /// or the error, and left this deserializer as `after`.
    pub open spec fn read_exactly<T>(
        &self,
        outcome: Result<(T, Seq<u8>), Error>,
        result: Result<T, Error>,
        after: Self,
    ) -> bool {
        &&& self.moved(outcome, after)
        &&& match outcome {
            Ok((value, _)) => result == Ok::<T, Error>(value),
            Err(error) => result == Err::<T, Error>(error),
        }
    }

    /// A read that went as `outcome` says handed out `result`, a text of
    /// those characters or the error, and left this deserializer as `after`.
    pub open spec fn read_text(
        &self,
        outcome: Result<(Seq<char>, Seq<u8>), Error>,
        result: Result<String, Error>,
        after: Self,
    ) -> bool {
        &&& self.moved(outcome, after)
        &&& match outcome {
            Ok((text, _)) => result is Ok && result->Ok_0@ == text,
            Err(error) => result is Err && result->Err_0 == error,
        }
    }

    /// A read that went as `outcome` says handed out `result`, those bytes or
    /// the error, and left this deserializer as `after`.
    pub open spec fn read_bytes(
        &self,
        outcome: Result<(Seq<u8>, Seq<u8>), Error>,
        result: Result<Vec<u8>, Error>,
        after: Self,
    ) -> bool {
        &&& self.moved(outcome, after)
        &&& match outcome {
            Ok((bytes, _)) => result is Ok && result->Ok_0@ == bytes,
            Err(error) => result is Err && result->Err_0 == error,
        }
    }

    /// A read that went as `outcome` says handed out `result`, values with
    /// those data as their models or the error, and left this deserializer
    /// as `after`.
    pub open spec fn read_items(
        &self,
        outcome: Result<(Seq<Datum>, Seq<u8>), Error>,
        result: Result<Vec<Value>, Error>,
        after: Self,
    ) -> bool {
        &&& self.moved(outcome, after)
        &&& match outcome {
            Ok((items, _)) => result is Ok && data_of(result->Ok_0@) == items,
            Err(error) => result is Err && result->Err_0 == error,
        }
    }

    /// A read that went as `outcome` says handed out `result`, those pairs of
    /// texts or the error, and left this deserializer as `after`.
    pub open spec fn read_pairs(
        &self,
        outcome: Result<(Seq<(Seq<char>, Seq<char>)>, Seq<u8>), Error>,
        result: Result<Vec<(String, String)>, Error>,
        after: Self,
    ) -> bool {
        &&& self.moved(outcome, after)
        &&& match outcome {
            Ok((pairs, _)) => result is Ok && pairs_of(result->Ok_0@) == pairs,
            Err(error) => result is Err && result->Err_0 == error,
        }
    }

    /// A read that went as `outcome` says handed out `result`, a value with
    /// that datum as its model or the error, and left this deserializer as
    /// `after`.
    pub open spec fn read(
        &self,
        outcome: Result<(Datum, Seq<u8>), Error>,
        result: Result<Value, Error>,
        after: Self,
    ) -> bool {
        &&& self.moved(outcome, after)
        &&& match outcome {
            Ok((datum, _)) => result is Ok && result->Ok_0@ == datum,
            Err(error) => result is Err && result->Err_0 == error,
        }
    }

    /// Reads one value of the given shape. On failure nothing is read.
    pub fn deserialize_as(&mut self, shape: &Shape) -> (result: Result<Value, Error>)
        ensures
            old(self).read(
                parse(shape@, old(self).remaining(), old(self).budget()),
                result,
                *final(self),
            ),
        decreases shape, 0nat,
    {
        match shape {
            Shape::Bool => match self.deserialize_bool() {
                Ok(v) => Ok(Value::Bool(v)),
                Err(error) => Err(error),
            },
            Shape::I8 => match self.deserialize_i8() {
                Ok(v) => Ok(Value::I8(v)),
                Err(error) => Err(error),
            },
            Shape::U8 => match self.deserialize_u8() {
                Ok(v) => Ok(Value::U8(v)),
                Err(error) => Err(error),
            },
            Shape::I16 => match self.deserialize_i16() {
                Ok(v) => Ok(Value::I16(v)),
                Err(error) => Err(error),
            },
            Shape::U16 => match self.deserialize_u16() {
                Ok(v) => Ok(Value::U16(v)),
                Err(error) => Err(error),
            },
            Shape::I32 => match self.deserialize_i32() {
                Ok(v) => Ok(Value::I32(v)),
                Err(error) => Err(error),
            },
            Shape::U32 => match self.deserialize_u32() {
                Ok(v) => Ok(Value::U32(v)),
                Err(error) => Err(error),
            },
            Shape::I64 => match self.deserialize_i64() {
                Ok(v) => Ok(Value::I64(v)),
                Err(error) => Err(error),
            },
            Shape::U64 => match self.deserialize_u64() {
                Ok(v) => Ok(Value::U64(v)),
                Err(error) => Err(error),
            },
            Shape::F32 => match self.deserialize_f32() {
                Ok(bits) => Ok(Value::F32(bits)),
                Err(error) => Err(error),
            },
            Shape::F64 => match self.deserialize_f64() {
                Ok(bits) => Ok(Value::F64(bits)),
                Err(error) => Err(error),
            },
            Shape::Text => match self.deserialize_string() {
                Ok(text) => Ok(Value::Text(text)),
                Err(error) => Err(error),
            },
            Shape::Bytes => match self.deserialize_byte_buf() {
                Ok(bytes) => Ok(Value::Bytes(bytes)),
                Err(error) => Err(error),
            },
            Shape::Tuple(fields) => match self.deserialize_tuple(fields) {
                Ok(items) => Ok(Value::Tuple(items)),
                Err(error) => Err(error),
            },
            Shape::Array(len, element) => match self.deserialize_seq_fixed_size(*len, element) {
                Ok(items) => Ok(Value::Tuple(items)),
                Err(error) => Err(error),
            },
            Shape::Sequence(element) => match self.deserialize_seq(element) {
                Ok(items) => Ok(Value::Sequence(items)),
                Err(error) => Err(error),
            },
            Shape::Entries => match self.deserialize_map() {
                Ok(pairs) => Ok(Value::Entries(pairs)),
                Err(error) => Err(error),
            },
            Shape::Char => match self.deserialize_char() {
                Ok(v) => Ok(Value::Char(v)),
                Err(error) => Err(error),
            },
            Shape::Optional => self.deserialize_option(),
            Shape::Enum => self.deserialize_enum(""),
            Shape::Any => self.deserialize(),
            Shape::StructField => self.deserialize_struct_field(),
            Shape::IgnoredAny => self.deserialize_ignored_any(),
        }
    }

    /// Reads a map from text to text: entries until the budget is used up.
    /// On failure nothing is read.
    ///
    /// The budget is the length that this deserializer was made with, wherever
    /// in a structure the map stands. So a map reads as it was written where
    /// it is the whole message. For a map inside a structure, read the length
    /// of its entries and hand it to `deserialize_map_within`.
    pub fn deserialize_map(&mut self) -> (result: Result<Vec<(String, String)>, Error>)
        ensures
            old(self).read_pairs(
                parse_entries(old(self).remaining(), old(self).budget()),
                result,
                *final(self),
            ),
    {
        self.deserialize_map_within(self.length)
    }

    /// Reads a map from text to text that is told how many bytes its entries
    /// take: entries until `budget` bytes are used up. On failure nothing is
    /// read.
    pub fn deserialize_map_within(&mut self, budget: u32) -> (result: Result<
        Vec<(String, String)>,
        Error,
    >)
        ensures
            old(self).read_pairs(
                parse_entries(old(self).remaining(), budget as nat),
                result,
                *final(self),
            ),
    {
        let start = self.reader;
        let ghost whole = parse_entries(self.remaining(), budget as nat);
        let mut pairs: Vec<(String, String)> = Vec::new();
        let mut visitor = MapVisitor {
            deserializer: self,
            size: budget,
            key: String::new(),
            value: String::new(),
        };
        assert(pairs_of(pairs@) =~= Seq::<(Seq<char>, Seq<char>)>::empty());
        let mut failure: Option<Error> = None;
        loop
            invariant_except_break
                failure is None,
                whole == more_entries(
                    pairs_of(pairs@),
                    parse_entries(visitor.deserializer.remaining(), visitor.size as nat),
                ),
            invariant
                after_borrow(*self) == *final(visitor.deserializer),
                visitor.deserializer.budget() == old(self).budget(),
                whole == parse_entries(old(self).remaining(), budget as nat),
            ensures
                match failure {
                    Some(error) => whole == Err::<(Seq<(Seq<char>, Seq<char>)>, Seq<u8>), Error>(
                        error,
                    ),
                    None => whole == Ok::<(Seq<(Seq<char>, Seq<char>)>, Seq<u8>), Error>(
                        (pairs_of(pairs@), visitor.deserializer.remaining()),
                    ),
                },
            decreases visitor.size,
        {
            let ghost before = pairs_of(pairs@);
            match visitor.visit_key_seed() {
                Ok(Some(key)) => {
                    let value = match visitor.visit_value_seed() {
                        Ok(value) => value,
                        Err(error) => {
                            failure = Some(error);
                            break ;
                        },
                    };
                    pairs.push((key, value));
                    proof {
                        let one = seq![(key@, value@)];
                        assert(pairs_of(pairs@) =~= before + one);
                        match parse_entries(
                            visitor.deserializer.remaining(),
                            visitor.size as nat,
                        ) {
                            Ok((others, _)) => {
                                assert(before + (one + others) =~= (before + one) + others);
                            },
                            Err(_) => {},
                        }
                    }
                },
                Ok(None) => {
                    assert(pairs_of(pairs@) + Seq::<(Seq<char>, Seq<char>)>::empty() =~= pairs_of(
                        pairs@,
                    ));
                    break ;
                },
                Err(error) => {
                    failure = Some(error);
                    break ;
                },
            }
        }
        match failure {
            Some(error) => {
                self.reader = start;
                Err(error)
            },
            None => Ok(pairs),
        }
    }
}

/// Walks the elements of a sequence: it holds how many are left to read.
struct SeqVisitor<'a, 'b> {
    deserializer: &'a mut Deserializer<'b>,
    len: usize,
}

impl<'a, 'b> SeqVisitor<'a, 'b> {
    /// Reads the next element under the shape `seed`, or hands out `None`
    /// when no element is left, which is no failure.
    fn visit_seed(&mut self, seed: &Shape) -> (result: Result<Option<Value>, Error>)
        ensures
            *final(final(self).deserializer) == *final(old(self).deserializer),
            final(self).deserializer.budget() == old(self).deserializer.budget(),
            old(self).len == 0 ==> {
                &&& result is Ok
                &&& result->Ok_0 is None
                &&& final(self).len == 0
                &&& final(self).deserializer.remaining() == old(self).deserializer.remaining()
            },
            old(self).len > 0 ==> {
                &&& final(self).len == old(self).len - 1
                &&& match parse(
                    seed@,
                    old(self).deserializer.remaining(),
                    old(self).deserializer.budget(),
                ) {
                    Ok((datum, rest)) => {
                        &&& result is Ok
                        &&& result->Ok_0 is Some
                        &&& result->Ok_0->0@ == datum
                        &&& final(self).deserializer.remaining() == rest
                    },
                    Err(error) => {
                        &&& result is Err
                        &&& result->Err_0 == error
                        &&& final(self).deserializer.remaining() == old(
                            self,
                        ).deserializer.remaining()
                    },
                }
            },
        decreases seed, 1nat,
    {
        if self.len > 0 {
            self.len -= 1;
            match self.deserializer.deserialize_as(seed) {
                Ok(value) => Ok(Some(value)),
                Err(error) => Err(error),
            }
        } else {
            Ok(None)
        }
    }
}

/// Walks the members of a tuple: the shapes say how many there are.
struct TupleVisitor<'a, 'b>(&'a mut Deserializer<'b>);

impl<'a, 'b> TupleVisitor<'a, 'b> {
    /// Reads the next member under the shape `seed`.
    fn visit_seed(&mut self, seed: &Shape) -> (result: Result<Option<Value>, Error>)
        ensures
            *final(final(self).0) == *final(old(self).0),
            final(self).0.budget() == old(self).0.budget(),
            match parse(seed@, old(self).0.remaining(), old(self).0.budget()) {
                Ok((datum, rest)) => {
                    &&& result is Ok
                    &&& result->Ok_0 is Some
                    &&& result->Ok_0->0@ == datum
                    &&& final(self).0.remaining() == rest
                },
                Err(error) => {
                    &&& result is Err
                    &&& result->Err_0 == error
                    &&& final(self).0.remaining() == old(self).0.remaining()
                },
            },
        decreases seed, 1nat,
    {
        match self.0.deserialize_as(seed) {
            Ok(value) => Ok(Some(value)),
            Err(error) => Err(error),
        }
    }
}

/// Where the first separator stands in `bytes`, if there is one.
fn find_separator(bytes: &[u8]) -> (at: Option<usize>)
    ensures
        match separator_at(bytes@) {
            Some(place) => at == Some(place as usize) && 0 <= place < bytes@.len() && bytes@[place]
                == SEPARATOR,
            None => at is None,
        },
{
    let mut i: usize = 0;
    while i < bytes.len()
        invariant
            i <= bytes.len(),
            forall|j: int| 0 <= j < i ==> bytes@[j] != SEPARATOR,
        decreases bytes.len() - i,
    {
        if bytes[i] == SEPARATOR {
            proof {
                lemma_separator_found(bytes@, i as int);
            }
            return Some(i);
        }
        i += 1;
    }
    proof {
        lemma_separator_absent(bytes@);
    }
    None
}

/// Walks the entries of a map: it holds the bytes that the map has left, and
/// the key and the value of the entry read last.
struct MapVisitor<'a, 'b> {
    deserializer: &'a mut Deserializer<'b>,
    key: String,
    value: String,
    size: u32,
}

impl<'a, 'b> MapVisitor<'a, 'b> {
    /// Reads one entry and parts it at its first separator. On failure
    /// nothing is read and the budget is as it was.
    fn pop_item(&mut self) -> (result: Result<(), Error>)
        ensures
            *final(final(self).deserializer) == *final(old(self).deserializer),
            final(self).deserializer.budget() == old(self).deserializer.budget(),
            match parse_entry(old(self).deserializer.remaining(), old(self).size as nat) {
                Ok((key, value, rest, left)) => {
                    &&& result is Ok
                    &&& final(self).key@ == key
                    &&& final(self).value@ == value
                    &&& final(self).size == left
                    &&& final(self).deserializer.remaining() == rest
                },
                Err(error) => {
                    &&& result is Err
                    &&& result->Err_0 == error
                    &&& final(self).size == old(self).size
                    &&& final(self).deserializer.remaining() == old(self).deserializer.remaining()
                },
            },
    {
        let start = self.deserializer.reader;
        let ghost payload = parse_blob(self.deserializer.remaining())->Ok_0.0;
        let (len, data) = match self.deserializer.get_string() {
            Ok(read) => read,
            Err(error) => {
                return Err(error);
            },
        };
        proof {
            vstd::utf8::decode_utf8_encode_utf8(payload);
        }
        if (self.size as u64) < len {
            self.deserializer.reader = start;
            return Err(Error::BadMapEntry);
        }
        let bytes = data.as_str().as_bytes();
        let at = match find_separator(bytes) {
            Some(at) => at,
            None => {
                self.deserializer.reader = start;
                return Err(Error::BadMapEntry);
            },
        };
        proof {
            lemma_cut_at_separator(payload, at as int);
        }
        self.size = self.size - (len as u32);
        let (key, tail) = data.as_str().split_at(at);
        let (_, value) = tail.split_at(1);
        proof {
            vstd::utf8::encode_utf8_decode_utf8(key@);
            vstd::utf8::encode_utf8_decode_utf8(value@);
            assert(payload.skip(at as int).subrange(1, payload.skip(at as int).len() as int)
                =~= payload.skip(at + 1));
        }
        self.key = key.to_owned();
        self.value = value.to_owned();
        Ok(())
    }

    /// Reads the next entry and hands out its key, or `None` when the map
    /// has no bytes left.
    fn visit_key_seed(&mut self) -> (result: Result<Option<String>, Error>)
        ensures
            *final(final(self).deserializer) == *final(old(self).deserializer),
            final(self).deserializer.budget() == old(self).deserializer.budget(),
            old(self).size == 0 ==> {
                &&& result is Ok
                &&& result->Ok_0 is None
                &&& final(self).size == 0
                &&& final(self).deserializer.remaining() == old(self).deserializer.remaining()
            },
            old(self).size > 0 ==> match parse_entry(
                old(self).deserializer.remaining(),
                old(self).size as nat,
            ) {
                Ok((key, value, rest, left)) => {
                    &&& result is Ok
                    &&& result->Ok_0 is Some
                    &&& result->Ok_0->0@ == key
                    &&& final(self).value@ == value
                    &&& final(self).size == left
                    &&& left < old(self).size
                    &&& final(self).deserializer.remaining() == rest
                },
                Err(error) => {
                    &&& result is Err
                    &&& result->Err_0 == error
                    &&& final(self).deserializer.remaining() == old(self).deserializer.remaining()
                },
            },
    {
        if self.size > 0 {
            match self.pop_item() {
                Ok(()) => Ok(Some(self.key.clone())),
                Err(error) => Err(error),
            }
        } else {
            Ok(None)
        }
    }

    /// Hands out the value of the entry read last.
    fn visit_value_seed(&mut self) -> (result: Result<String, Error>)
        ensures
            *final(self) == *old(self),
            result is Ok,
            result->Ok_0@ == old(self).value@,
    {
        Ok(self.value.clone())
    }
}

/// What a decode that reads as `outcome` hands out: a value with the datum as
/// its model, or the error.
pub open spec fn decoded(outcome: Result<Datum, Error>, result: Result<Value, Error>) -> bool {
    match outcome {
        Ok(datum) => result is Ok && result->Ok_0@ == datum,
        Err(error) => result is Err && result->Err_0 == error,
    }
}

/// Reads an independent message from `bytes`: the length in front, then one
/// value of the given shape. The length is what a map may use up; for other
/// shapes the value ends where its structure ends. Bytes behind the value are
/// left alone.
pub fn from_slice(bytes: &[u8], shape: &Shape) -> (result: Result<Value, Error>)
    ensures
        decoded(decoding(shape@, bytes@), result),
{
    let mut envelope = Deserializer::new(bytes, 0);
    let length = match envelope.pop_length() {
        Ok(length) => length,
        Err(error) => {
            return Err(error);
        },
    };
    let mut deserializer = Deserializer::new(envelope.into_inner(), length);
    deserializer.deserialize_as(shape)
}

/// Reads an independent message from `bytes` as `from_slice` does, and holds
/// the value to the length in front: a value that ends before the length is
/// used up is an underflow, one that ends behind it an overflow. Bytes behind
/// the length's reach are left alone.
pub fn from_slice_strict(bytes: &[u8], shape: &Shape) -> (result: Result<Value, Error>)
    ensures
        decoded(strict_decoding(shape@, bytes@), result),
{
    let mut envelope = Deserializer::new(bytes, 0);
    let length = match envelope.pop_length() {
        Ok(length) => length,
        Err(error) => {
            return Err(error);
        },
    };
    let body = envelope.into_inner();
    let mut deserializer = Deserializer::new(body, length);
    let value = match deserializer.deserialize_as(shape) {
        Ok(value) => value,
        Err(error) => {
            return Err(error);
        },
    };
    let rest = deserializer.into_inner();
    let used: i128 = body.len() as i128 - rest.len() as i128;
    if used < length as i128 {
        Err(Error::Underflow)
    } else if used > length as i128 {
        Err(Error::Overflow)
    } else {
        Ok(value)
    }
}

/// Reads an independent message from the bytes of `value`, as `from_slice` does.
pub fn from_str(value: &str, shape: &Shape) -> (result: Result<Value, Error>)
    ensures
        decoded(decoding(shape@, encode_utf8(value@)), result),
{
    from_slice(value.as_bytes(), shape)
}

} // verus!
