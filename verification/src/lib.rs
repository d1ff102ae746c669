//! A schema-driven binary codec for ROSMSG, the tag-free little-endian format
//! in which ROS nodes exchange messages and connection headers.
//!
//! The bytes carry no type information. A value is written as its [`Value`]
//! tree says, and read back as a [`Shape`] tells the decoder:
//!
//! * a scalar is its bytes at its width, least significant first;
//! * a text or a byte string stands behind its length in bytes;
//! * the members of a tuple, a struct or an array of fixed size stand one
//!   after the other, with nothing around them;
//! * a sequence stands behind the number of its elements;
//! * a map from text to text is its entries `key=value`, each a text, one
//!   after the other behind their total length.
//!
//! An independent message is a value behind its length in bytes.
//! [`encode_framed`] writes one, [`from_slice`] reads one; [`to_vec`] writes
//! a value with no length in front, as it stands inside a structure.
//!
//! What a function writes or reads is stated over the models in [`wire`];
//! [`laws`] proves that the decoder reads back what the encoder wrote.

pub mod de;
pub mod endian;
pub mod error;
pub mod laws;
pub mod lemmas;
pub mod ser;
pub mod text;
pub mod value;
pub mod wire;

pub use self::de::{from_slice, from_slice_strict, from_str, Deserializer};
pub use self::error::{Error, Method};
pub use self::ser::{encode_framed, to_vec, to_writer, Compound, CompoundMap, Serializer};
pub use self::value::{Datum, Layout, Shape, Value};
