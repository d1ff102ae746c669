//! What can go wrong while a value is written or read.

use vstd::prelude::*;
use vstd::string::StringExecFns;

verus! {

/// A way of reading that needs type information from the byte stream, which
/// this format does not carry.
#[derive(Debug, Clone, Copy, PartialEq, Eq)]
pub enum Method {
    /// Reading a value of whatever type the stream announces.
    Deserialize,
    /// Reading the name of a struct field.
    StructField,
    /// Skipping a value of whatever type the stream announces.
    IgnoredAny,
}

/// Every failure of an encode or a decode. Each one ends the call: no partial
/// value is handed out.
#[derive(Debug, Clone, Copy, PartialEq, Eq)]
pub enum Error {
    /// The decoder was asked for a way of reading that the format cannot serve.
    UnsupportedDeserializerMethod(Method),
    /// A value ended behind the length that its envelope gave. Only the strict
    /// decoder says so.
    Overflow,
    /// A value ended before the length that its envelope gave was used up.
    /// Only the strict decoder says so.
    Underflow,
    /// The source ended before a length or a field was read in full.
    EndOfBuffer,
    /// The bytes of a text are not UTF-8.
    BadStringData,
    /// A map entry has no `=`, or claims more bytes than the map has left.
    BadMapEntry,
    /// A value stands where the format takes text only: as the key or the
    /// value of a map entry. The codec itself takes such entries as text and
    /// never says so; it is for those who build its values from other types.
    UnexpectedType,
    /// Single characters are not part of the format.
    UnsupportedCharType,
    /// Enumerations and optional values are not part of the format.
    UnsupportedEnumType,
    /// A sequence of unknown length was to be written.
    VariableArraySizeAnnotation,
}

impl Method {
    /// The name of the way of reading, as `name` hands it out.
    pub open spec fn name_text(self) -> Seq<char> {
        match self {
            Method::Deserialize => "deserialize"@,
            Method::StructField => "deserialize_struct_field"@,
            Method::IgnoredAny => "deserialize_ignored_any"@,
        }
    }

    /// The name of the way of reading.
    pub fn name(&self) -> (text: &'static str)
        ensures
            text@ == self.name_text(),
    {
        match self {
            Method::Deserialize => "deserialize",
            Method::StructField => "deserialize_struct_field",
            Method::IgnoredAny => "deserialize_ignored_any",
        }
    }
}

impl Error {
    /// What the error says in words, as `description` hands it out.
    pub open spec fn description_text(self) -> Seq<char> {
        match self {
            Error::UnsupportedDeserializerMethod(_) =>
                "Deserializer method is not supported in ROSMSG"@,
            Error::Overflow => "Attempted to read beyond the end of decoded value's length"@,
            Error::Underflow => "Decoded data is shorter than predicted value length"@,
            Error::EndOfBuffer => "Reached end of memory buffer"@,
            Error::BadStringData => "Strings need to be UTF-8"@,
            Error::BadMapEntry => "Bad map entry format given"@,
            Error::UnexpectedType => "Type was not expected by the deserializer"@,
            Error::UnsupportedCharType => "Chars are not supported in ROSMSG"@,
            Error::UnsupportedEnumType => "Enumerations are not supported in ROSMSG"@,
            Error::VariableArraySizeAnnotation =>
                "Size annotation in variable size array is missing"@,
        }
    }

    /// What the error says in words.
    pub fn description(&self) -> (text: &'static str)
        ensures
            text@ == self.description_text(),
    {
        match self {
            Error::UnsupportedDeserializerMethod(_) =>
                "Deserializer method is not supported in ROSMSG",
            Error::Overflow => "Attempted to read beyond the end of decoded value's length",
            Error::Underflow => "Decoded data is shorter than predicted value length",
            Error::EndOfBuffer => "Reached end of memory buffer",
            Error::BadStringData => "Strings need to be UTF-8",
            Error::BadMapEntry => "Bad map entry format given",
            Error::UnexpectedType => "Type was not expected by the deserializer",
            Error::UnsupportedCharType => "Chars are not supported in ROSMSG",
            Error::UnsupportedEnumType => "Enumerations are not supported in ROSMSG",
            Error::VariableArraySizeAnnotation =>
                "Size annotation in variable size array is missing",
        }
    }

    /// What the error says to a reader, as `message` hands it out.
    pub open spec fn message_text(self) -> Seq<char> {
        match self {
            Error::UnsupportedDeserializerMethod(method) =>
                "Deserializer method is not supported in ROSMSG: "@ + method.name_text(),
            Error::EndOfBuffer => "Reached end of memory buffer while reading data"@,
            Error::BadMapEntry => "Map entries need to have a format of \"key=value\""@,
            _ => self.description_text(),
        }
    }

    /// What the error says to a reader: the description, made more exact
    /// where there is more to say.
    pub fn message(&self) -> (text: String)
        ensures
            text@ == self.message_text(),
    {
        match self {
            Error::UnsupportedDeserializerMethod(method) => {
                let text = "Deserializer method is not supported in ROSMSG: ".to_owned();
                text.concat(method.name())
            },
            Error::EndOfBuffer => "Reached end of memory buffer while reading data".to_owned(),
            Error::BadMapEntry => "Map entries need to have a format of \"key=value\"".to_owned(),
            _ => self.description().to_owned(),
        }
    }
}

} // verus!
