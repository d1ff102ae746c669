//! Values, the shapes that tell a decoder what to read, and their
//! mathematical models.

use vstd::prelude::*;

verus! {

/// A value as the encoder walks it. Floating-point numbers are held by their
/// IEEE 754 bit patterns.
#[derive(Debug, PartialEq, Eq)]
pub enum Value {
    Bool(bool),
    I8(i8),
    U8(u8),
    I16(i16),
    U16(u16),
    I32(i32),
    U32(u32),
    I64(i64),
    U64(u64),
    /// The bits of an `f32`.
    F32(u32),
    /// The bits of an `f64`.
    F64(u64),
    Text(String),
    Bytes(Vec<u8>),
    /// A tuple, a struct or an array of fixed size: the members in declared order.
    Tuple(Vec<Value>),
    /// A sequence whose length travels with it.
    Sequence(Vec<Value>),
    /// A map from text to text, as its entries in order.
    Entries(Vec<(String, String)>),
    /// A single character. The format has no place for it.
    Char(char),
    /// An optional value. The format has no place for it.
    Optional(Option<Box<Value>>),
    /// A variant of an enumeration, by its index, with its fields. The format
    /// has no place for it.
    Variant(u32, Vec<Value>),
}

/// The mathematical model of a [`Value`].
pub enum Datum {
    Bool(bool),
    I8(i8),
    U8(u8),
    I16(i16),
    U16(u16),
    I32(i32),
    U32(u32),
    I64(i64),
    U64(u64),
    F32(u32),
    F64(u64),
    Text(Seq<char>),
    Bytes(Seq<u8>),
    Tuple(Seq<Datum>),
    Sequence(Seq<Datum>),
    Entries(Seq<(Seq<char>, Seq<char>)>),
    Char(char),
    Optional(Option<Box<Datum>>),
    Variant(u32, Seq<Datum>),
}

/// What a decoder is told to read.
#[derive(Debug, PartialEq, Eq)]
pub enum Shape {
    Bool,
    I8,
    U8,
    I16,
    U16,
    I32,
    U32,
    I64,
    U64,
    F32,
    F64,
    Text,
    Bytes,
    /// A tuple or a struct: one shape for each member, in declared order.
    Tuple(Vec<Shape>),
    /// An array of fixed size: so many members of one shape.
    Array(usize, Box<Shape>),
    /// A sequence whose length is read from the stream.
    Sequence(Box<Shape>),
    /// A map from text to text.
    Entries,
    Char,
    Optional,
    Enum,
    /// Whatever the stream announces.
    Any,
    /// The name of a struct field.
    StructField,
    /// Whatever the stream announces, to be skipped.
    IgnoredAny,
}

/// The mathematical model of a [`Shape`].
pub enum Layout {
    Bool,
    I8,
    U8,
    I16,
    U16,
    I32,
    U32,
    I64,
    U64,
    F32,
    F64,
    Text,
    Bytes,
    Tuple(Seq<Layout>),
    Array(nat, Box<Layout>),
    Sequence(Box<Layout>),
    Entries,
    Char,
    Optional,
    Enum,
    Any,
    StructField,
    IgnoredAny,
}

/// The models of `items`, in order.
pub open spec fn data_of(items: Seq<Value>) -> Seq<Datum>
    decreases items,
{
    if items.len() == 0 {
        Seq::empty()
    } else {
        data_of(items.drop_last()).push(items.last()@)
    }
}

/// The models of `shapes`, in order.
pub open spec fn layouts_of(shapes: Seq<Shape>) -> Seq<Layout>
    decreases shapes,
{
    if shapes.len() == 0 {
        Seq::empty()
    } else {
        layouts_of(shapes.drop_last()).push(shapes.last()@)
    }
}

/// The models of map entries, in order.
pub open spec fn pairs_of(entries: Seq<(String, String)>) -> Seq<(Seq<char>, Seq<char>)> {
    Seq::new(entries.len(), |i: int| (entries[i].0@, entries[i].1@))
}

impl View for Value {
    type V = Datum;

    open spec fn view(&self) -> Datum
        decreases self,
    {
        match self {
            Value::Bool(v) => Datum::Bool(*v),
            Value::I8(v) => Datum::I8(*v),
            Value::U8(v) => Datum::U8(*v),
            Value::I16(v) => Datum::I16(*v),
            Value::U16(v) => Datum::U16(*v),
            Value::I32(v) => Datum::I32(*v),
            Value::U32(v) => Datum::U32(*v),
            Value::I64(v) => Datum::I64(*v),
            Value::U64(v) => Datum::U64(*v),
            Value::F32(v) => Datum::F32(*v),
            Value::F64(v) => Datum::F64(*v),
            Value::Text(s) => Datum::Text(s@),
            Value::Bytes(b) => Datum::Bytes(b@),
            Value::Tuple(items) => Datum::Tuple(data_of(items@)),
            Value::Sequence(items) => Datum::Sequence(data_of(items@)),
            Value::Entries(entries) => Datum::Entries(pairs_of(entries@)),
            Value::Char(c) => Datum::Char(*c),
            Value::Optional(inner) => Datum::Optional(
                match inner {
                    Some(value) => Some(Box::new((**value)@)),
                    None => None,
                },
            ),
            Value::Variant(index, fields) => Datum::Variant(*index, data_of(fields@)),
        }
    }
}

impl View for Shape {
    type V = Layout;

    open spec fn view(&self) -> Layout
        decreases self,
    {
        match self {
            Shape::Bool => Layout::Bool,
            Shape::I8 => Layout::I8,
            Shape::U8 => Layout::U8,
            Shape::I16 => Layout::I16,
            Shape::U16 => Layout::U16,
            Shape::I32 => Layout::I32,
            Shape::U32 => Layout::U32,
            Shape::I64 => Layout::I64,
            Shape::U64 => Layout::U64,
            Shape::F32 => Layout::F32,
            Shape::F64 => Layout::F64,
            Shape::Text => Layout::Text,
            Shape::Bytes => Layout::Bytes,
            Shape::Tuple(fields) => Layout::Tuple(layouts_of(fields@)),
            Shape::Array(len, element) => Layout::Array(*len as nat, Box::new((**element)@)),
            Shape::Sequence(element) => Layout::Sequence(Box::new((**element)@)),
            Shape::Entries => Layout::Entries,
            Shape::Char => Layout::Char,
            Shape::Optional => Layout::Optional,
            Shape::Enum => Layout::Enum,
            Shape::Any => Layout::Any,
            Shape::StructField => Layout::StructField,
            Shape::IgnoredAny => Layout::IgnoredAny,
        }
    }
}

/// `data_of` keeps the length and models each item in its place.
pub proof fn lemma_data_of(items: Seq<Value>)
    ensures
        data_of(items).len() == items.len(),
        forall|i: int| 0 <= i < items.len() ==> #[trigger] data_of(items)[i] == items[i]@,
    decreases items.len(),
{
    if items.len() > 0 {
        lemma_data_of(items.drop_last());
        assert(data_of(items) == data_of(items.drop_last()).push(items.last()@));
        assert(data_of(items.drop_last()).len() == items.len() - 1);
    }
}

/// `layouts_of` keeps the length and models each shape in its place.
pub proof fn lemma_layouts_of(shapes: Seq<Shape>)
    ensures
        layouts_of(shapes).len() == shapes.len(),
        forall|i: int| 0 <= i < shapes.len() ==> #[trigger] layouts_of(shapes)[i] == shapes[i]@,
    decreases shapes.len(),
{
    if shapes.len() > 0 {
        lemma_layouts_of(shapes.drop_last());
        assert(layouts_of(shapes) == layouts_of(shapes.drop_last()).push(shapes.last()@));
        assert(layouts_of(shapes.drop_last()).len() == shapes.len() - 1);
    }
}

impl Clone for Value {
    /// A value with the same model.
    fn clone(&self) -> (copy: Self)
        ensures
            copy@ == self@,
        decreases self,
    {
        match self {
            Value::Bool(v) => Value::Bool(*v),
            Value::I8(v) => Value::I8(*v),
            Value::U8(v) => Value::U8(*v),
            Value::I16(v) => Value::I16(*v),
            Value::U16(v) => Value::U16(*v),
            Value::I32(v) => Value::I32(*v),
            Value::U32(v) => Value::U32(*v),
            Value::I64(v) => Value::I64(*v),
            Value::U64(v) => Value::U64(*v),
            Value::F32(bits) => Value::F32(*bits),
            Value::F64(bits) => Value::F64(*bits),
            Value::Text(text) => Value::Text(text.clone()),
            Value::Bytes(bytes) => {
                let copy = bytes.clone();
                assert(copy@ =~= bytes@);
                Value::Bytes(copy)
            },
            Value::Tuple(items) => Value::Tuple(clone_values(items)),
            Value::Sequence(items) => Value::Sequence(clone_values(items)),
            Value::Entries(entries) => {
                let mut copies: Vec<(String, String)> = Vec::new();
                let mut i: usize = 0;
                while i < entries.len()
                    invariant
                        i <= entries.len(),
                        copies.len() == i,
                        pairs_of(copies@) == pairs_of(entries@).take(i as int),
                    decreases entries.len() - i,
                {
                    let ghost before = copies@;
                    let key = entries[i].0.clone();
                    let value = entries[i].1.clone();
                    copies.push((key, value));
                    proof {
                        assert forall|k: int| 0 <= k < i + 1 implies pairs_of(copies@)[k]
                            == pairs_of(entries@)[k] by {
                            if k < i {
                                assert(copies@[k] == before[k]);
                                assert(pairs_of(before)[k] == pairs_of(entries@).take(i as int)[k]);
                            }
                        }
                        assert(pairs_of(copies@) =~= pairs_of(entries@).take(i + 1));
                    }
                    i += 1;
                }
                assert(pairs_of(copies@) =~= pairs_of(entries@));
                Value::Entries(copies)
            },
            Value::Char(c) => Value::Char(*c),
            Value::Optional(inner) => Value::Optional(
                match inner {
                    Some(value) => Some(Box::new((**value).clone())),
                    None => None,
                },
            ),
            Value::Variant(index, fields) => Value::Variant(*index, clone_values(fields)),
        }
    }
}

/// Values with the same models as `items`, in order.
fn clone_values(items: &Vec<Value>) -> (copies: Vec<Value>)
    ensures
        data_of(copies@) == data_of(items@),
    decreases items,
{
    let mut copies: Vec<Value> = Vec::new();
    let mut i: usize = 0;
    proof {
        lemma_data_of(items@);
        assert(data_of(copies@) =~= data_of(items@).take(0));
    }
    while i < items.len()
        invariant
            i <= items.len(),
            data_of(copies@) == data_of(items@).take(i as int),
        decreases items.len() - i,
    {
        proof {
            assert(decreases_to!(*items => items@));
            assert(decreases_to!(items@ => items@[i as int]));
        }
        let ghost before = copies@;
        copies.push(items[i].clone());
        proof {
            lemma_data_of(items@);
            assert(copies@.drop_last() =~= before);
            assert(data_of(copies@) =~= data_of(items@).take(i + 1));
        }
        i += 1;
    }
    assert(data_of(items@).take(i as int) =~= data_of(items@));
    copies
}

impl Clone for Shape {
    /// A shape with the same model.
    fn clone(&self) -> (copy: Self)
        ensures
            copy@ == self@,
        decreases self,
    {
        match self {
            Shape::Bool => Shape::Bool,
            Shape::I8 => Shape::I8,
            Shape::U8 => Shape::U8,
            Shape::I16 => Shape::I16,
            Shape::U16 => Shape::U16,
            Shape::I32 => Shape::I32,
            Shape::U32 => Shape::U32,
            Shape::I64 => Shape::I64,
            Shape::U64 => Shape::U64,
            Shape::F32 => Shape::F32,
            Shape::F64 => Shape::F64,
            Shape::Text => Shape::Text,
            Shape::Bytes => Shape::Bytes,
            Shape::Tuple(fields) => Shape::Tuple(clone_shapes(fields)),
            Shape::Array(len, element) => Shape::Array(*len, Box::new((**element).clone())),
            Shape::Sequence(element) => Shape::Sequence(Box::new((**element).clone())),
            Shape::Entries => Shape::Entries,
            Shape::Char => Shape::Char,
            Shape::Optional => Shape::Optional,
            Shape::Enum => Shape::Enum,
            Shape::Any => Shape::Any,
            Shape::StructField => Shape::StructField,
            Shape::IgnoredAny => Shape::IgnoredAny,
        }
    }
}

/// Shapes with the same models as `shapes`, in order.
fn clone_shapes(shapes: &Vec<Shape>) -> (copies: Vec<Shape>)
    ensures
        layouts_of(copies@) == layouts_of(shapes@),
    decreases shapes,
{
    let mut copies: Vec<Shape> = Vec::new();
    let mut i: usize = 0;
    proof {
        lemma_layouts_of(shapes@);
        assert(layouts_of(copies@) =~= layouts_of(shapes@).take(0));
    }
    while i < shapes.len()
        invariant
            i <= shapes.len(),
            layouts_of(copies@) == layouts_of(shapes@).take(i as int),
        decreases shapes.len() - i,
    {
        proof {
            assert(decreases_to!(*shapes => shapes@));
            assert(decreases_to!(shapes@ => shapes@[i as int]));
        }
        let ghost before = copies@;
        copies.push(shapes[i].clone());
        proof {
            lemma_layouts_of(shapes@);
            assert(copies@.drop_last() =~= before);
            assert(layouts_of(copies@) =~= layouts_of(shapes@).take(i + 1));
        }
        i += 1;
    }
    assert(layouts_of(shapes@).take(i as int) =~= layouts_of(shapes@));
    copies
}

} // verus!
