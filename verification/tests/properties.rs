use rosmsg::{
    encode_framed, from_slice, from_str, to_vec, to_writer, Deserializer, Error, Method,
    Serializer, Shape, Value,
};

fn text(value: &str) -> Value {
    Value::Text(String::from(value))
}

fn pair(key: &str, value: &str) -> (String, String) {
    (String::from(key), String::from(value))
}

fn round_trips(value: Value, shape: Shape) {
    let bytes = encode_framed(&value).unwrap();
    assert_eq!(value, from_slice(&bytes, &shape).unwrap());
    let mut longer = bytes.clone();
    longer.extend_from_slice(&[0xff, 0x3d, 0x00]);
    assert_eq!(value, from_slice(&longer, &shape).unwrap());
}

#[test]
fn scalars_round_trip() {
    round_trips(Value::Bool(true), Shape::Bool);
    round_trips(Value::Bool(false), Shape::Bool);
    round_trips(Value::I8(i8::MIN), Shape::I8);
    round_trips(Value::I8(-1), Shape::I8);
    round_trips(Value::U8(u8::MAX), Shape::U8);
    round_trips(Value::I16(i16::MIN), Shape::I16);
    round_trips(Value::I16(i16::MAX), Shape::I16);
    round_trips(Value::U16(u16::MAX), Shape::U16);
    round_trips(Value::I32(i32::MIN), Shape::I32);
    round_trips(Value::I32(-1), Shape::I32);
    round_trips(Value::U32(u32::MAX), Shape::U32);
    round_trips(Value::I64(i64::MIN), Shape::I64);
    round_trips(Value::I64(i64::MAX), Shape::I64);
    round_trips(Value::U64(u64::MAX), Shape::U64);
    round_trips(Value::F32((-0.0f32).to_bits()), Shape::F32);
    round_trips(Value::F32(f32::NAN.to_bits()), Shape::F32);
    round_trips(Value::F64(f64::INFINITY.to_bits()), Shape::F64);
    round_trips(Value::F64(1e-300f64.to_bits()), Shape::F64);
}

#[test]
fn text_and_bytes_round_trip() {
    round_trips(text(""), Shape::Text);
    round_trips(text("a=b"), Shape::Text);
    round_trips(text("gr\u{fc}\u{df}e \u{4e16}\u{754c} \u{1f600}"), Shape::Text);
    round_trips(Value::Bytes(vec![]), Shape::Bytes);
    round_trips(Value::Bytes(vec![0, 61, 255, 128]), Shape::Bytes);
}

#[test]
fn nested_structures_round_trip() {
    let inner = Shape::Tuple(vec![Shape::Text, Shape::Sequence(Box::new(Shape::I32))]);
    let shape = Shape::Tuple(vec![
        Shape::Sequence(Box::new(inner)),
        Shape::Array(2, Box::new(Shape::Tuple(vec![Shape::U8, Shape::Bool]))),
        Shape::Tuple(vec![]),
        Shape::F64,
    ]);
    let value = Value::Tuple(vec![
        Value::Sequence(vec![
            Value::Tuple(vec![
                text("one"),
                Value::Sequence(vec![Value::I32(-1), Value::I32(70000)]),
            ]),
            Value::Tuple(vec![text(""), Value::Sequence(vec![])]),
        ]),
        Value::Tuple(vec![
            Value::Tuple(vec![Value::U8(1), Value::Bool(true)]),
            Value::Tuple(vec![Value::U8(2), Value::Bool(false)]),
        ]),
        Value::Tuple(vec![]),
        Value::F64(2.5f64.to_bits()),
    ]);
    round_trips(value, shape);
}

#[test]
fn empty_sequence_round_trips_under_any_element_shape() {
    round_trips(Value::Sequence(vec![]), Shape::Sequence(Box::new(Shape::Text)));
    round_trips(Value::Sequence(vec![]), Shape::Sequence(Box::new(Shape::U64)));
    assert_eq!(
        vec![4, 0, 0, 0, 0, 0, 0, 0],
        encode_framed(&Value::Sequence(vec![])).unwrap()
    );
}

#[test]
fn maps_round_trip() {
    round_trips(Value::Entries(vec![]), Shape::Entries);
    round_trips(Value::Entries(vec![pair("abc", "123")]), Shape::Entries);
    round_trips(
        Value::Entries(vec![
            pair("topic", "/chatter"),
            pair("", ""),
            pair("formula", "a=b=c"),
            pair("gr\u{fc}n", "\u{4e16}\u{754c}"),
            pair("topic", "again"),
        ]),
        Shape::Entries,
    );
}

#[test]
fn a_map_is_its_own_message() {
    let map = Value::Entries(vec![pair("abc", "123"), pair("AAA", "B0")]);
    assert_eq!(to_vec(&map).unwrap(), encode_framed(&map).unwrap());
    assert_eq!(map, from_slice(&to_vec(&map).unwrap(), &Shape::Entries).unwrap());
}

#[test]
fn decoding_twice_gives_the_same() {
    let value = Value::Tuple(vec![text("x"), Value::Sequence(vec![Value::U16(9)])]);
    let shape = Shape::Tuple(vec![Shape::Text, Shape::Sequence(Box::new(Shape::U16))]);
    let bytes = encode_framed(&value).unwrap();
    let first = from_slice(&bytes, &shape).unwrap();
    let second = from_slice(&bytes, &shape).unwrap();
    assert_eq!(first, second);
    assert_eq!(bytes, encode_framed(&first).unwrap());
    let map = Value::Entries(vec![pair("k", "v=w")]);
    let bytes = encode_framed(&map).unwrap();
    let first = from_slice(&bytes, &Shape::Entries).unwrap();
    assert_eq!(map, first);
    assert_eq!(bytes, encode_framed(&first).unwrap());
    assert_eq!(first, from_slice(&bytes, &Shape::Entries).unwrap());
}

#[test]
fn text_is_counted_in_bytes() {
    assert_eq!(
        vec![13, 0, 0, 0, 72, 101, 108, 108, 111, 44, 32, 87, 111, 114, 108, 100, 33],
        to_vec(&text("Hello, World!")).unwrap()
    );
    assert_eq!(vec![0, 0, 0, 0], to_vec(&text("")).unwrap());
    assert_eq!(
        vec![2, 0, 0, 0, 0xc3, 0xbc],
        to_vec(&text("\u{fc}")).unwrap()
    );
}

#[test]
fn scalars_are_little_endian() {
    assert_eq!(
        vec![0x45, 0x23, 0x01, 0xCD],
        to_vec(&Value::U32(0xCD012345)).unwrap()
    );
    assert_eq!(vec![0xff, 0xff], to_vec(&Value::I16(-1)).unwrap());
    assert_eq!(
        vec![0xfe, 0xff, 0xff, 0xff, 0xff, 0xff, 0xff, 0xff],
        to_vec(&Value::I64(-2)).unwrap()
    );
    assert_eq!(vec![0x80], to_vec(&Value::I8(-128)).unwrap());
}

#[test]
fn a_budget_of_zero_is_an_empty_map() {
    let mut deserializer = Deserializer::new(&[7, 0, 0, 0], 0);
    assert_eq!(
        Vec::<(String, String)>::new(),
        deserializer.deserialize_map().unwrap()
    );
    assert_eq!(&[7, 0, 0, 0], deserializer.into_inner());
    assert_eq!(
        Value::Entries(vec![]),
        from_slice(&[0, 0, 0, 0], &Shape::Entries).unwrap()
    );
}

#[test]
fn one_entry_in_its_envelope() {
    let input = [11, 0, 0, 0, 7, 0, 0, 0, 97, 98, 99, 61, 49, 50, 51];
    assert_eq!(
        Value::Entries(vec![pair("abc", "123")]),
        from_slice(&input, &Shape::Entries).unwrap()
    );
}

#[test]
fn an_entry_parts_at_its_first_separator() {
    let input = [9, 0, 0, 0, 5, 0, 0, 0, 97, 61, 61, 98, 61];
    assert_eq!(
        Value::Entries(vec![pair("a", "=b=")]),
        from_slice(&input, &Shape::Entries).unwrap()
    );
    let input = [5, 0, 0, 0, 1, 0, 0, 0, 61];
    assert_eq!(
        Value::Entries(vec![pair("", "")]),
        from_slice(&input, &Shape::Entries).unwrap()
    );
}

#[test]
fn an_entry_beyond_the_budget_is_bad() {
    let input = [10, 0, 0, 0, 7, 0, 0, 0, 97, 98, 99, 61, 49, 50, 51];
    assert_eq!(
        Err(Error::BadMapEntry),
        from_slice(&input, &Shape::Entries)
    );
    let input = [
        15, 0, 0, 0, 3, 0, 0, 0, 97, 61, 98, 7, 0, 0, 0, 97, 98, 99, 61, 49, 50, 51,
    ];
    assert_eq!(
        Err(Error::BadMapEntry),
        from_slice(&input, &Shape::Entries)
    );
    let mut deserializer = Deserializer::new(&input[4..], 15);
    assert_eq!(Err(Error::BadMapEntry), deserializer.deserialize_map());
    assert_eq!(&input[4..], deserializer.into_inner());
}

#[test]
fn an_entry_without_separator_is_bad() {
    let input = [7, 0, 0, 0, 3, 0, 0, 0, 97, 98, 99];
    assert_eq!(
        Err(Error::BadMapEntry),
        from_slice(&input, &Shape::Entries)
    );
}

#[test]
fn a_map_that_outruns_its_source_fails() {
    let input = [12, 0, 0, 0, 3, 0, 0, 0, 97, 61, 98];
    assert_eq!(
        Err(Error::EndOfBuffer),
        from_slice(&input, &Shape::Entries)
    );
    let input = [11, 0, 0, 0, 7, 0, 0, 0, 97, 98, 99, 61];
    assert_eq!(
        Err(Error::EndOfBuffer),
        from_slice(&input, &Shape::Entries)
    );
}

#[test]
fn a_sequence_is_counted_in_elements() {
    let items = vec![
        Value::I16(7),
        Value::I16(1025),
        Value::I16(33),
        Value::I16(57),
    ];
    assert_eq!(
        vec![4, 0, 0, 0, 7, 0, 1, 4, 33, 0, 57, 0],
        to_vec(&Value::Sequence(items)).unwrap()
    );
    let members = vec![
        Value::I16(7),
        Value::I16(1025),
        Value::I16(33),
        Value::I16(57),
    ];
    assert_eq!(
        vec![7, 0, 1, 4, 33, 0, 57, 0],
        to_vec(&Value::Tuple(members)).unwrap()
    );
    let members = vec![
        Value::I16(7),
        Value::I16(1025),
        Value::I16(33),
        Value::I16(57),
    ];
    assert_eq!(
        vec![8, 0, 0, 0, 7, 0, 1, 4, 33, 0, 57, 0],
        encode_framed(&Value::Tuple(members)).unwrap()
    );
}

#[test]
fn a_record_has_no_length_of_its_own() {
    let record = Value::Tuple(vec![Value::Bool(true), Value::U8(7)]);
    assert_eq!(vec![1, 7], to_vec(&record).unwrap());
    assert_eq!(Vec::<u8>::new(), to_vec(&Value::Tuple(vec![])).unwrap());
    let outer = Value::Tuple(vec![
        Value::Tuple(vec![Value::Bool(true), Value::U8(7)]),
        Value::Tuple(vec![Value::U8(9)]),
    ]);
    assert_eq!(vec![1, 7, 9], to_vec(&outer).unwrap());
}

#[test]
fn what_the_format_cannot_hold_is_refused() {
    assert_eq!(Err(Error::UnsupportedCharType), to_vec(&Value::Char('x')));
    assert_eq!(
        Err(Error::UnsupportedEnumType),
        to_vec(&Value::Optional(None))
    );
    assert_eq!(
        Err(Error::UnsupportedEnumType),
        to_vec(&Value::Optional(Some(Box::new(Value::U8(1)))))
    );
    assert_eq!(
        Err(Error::UnsupportedEnumType),
        to_vec(&Value::Variant(0, vec![]))
    );
    assert_eq!(
        Err(Error::UnsupportedEnumType),
        encode_framed(&Value::Variant(2, vec![Value::U8(1)]))
    );
    let nested = Value::Tuple(vec![
        Value::U8(1),
        Value::Sequence(vec![text("a"), Value::Char('b')]),
        Value::Optional(None),
    ]);
    assert_eq!(Err(Error::UnsupportedCharType), to_vec(&nested));
    assert_eq!(Err(Error::UnsupportedCharType), encode_framed(&nested));
    let mut sink = vec![42];
    assert_eq!(
        Err(Error::UnsupportedCharType),
        to_writer(&mut sink, &nested)
    );
    assert_eq!(vec![42], sink);
}

#[test]
fn shapes_that_the_format_cannot_hold_are_refused() {
    let data = [4, 0, 0, 0, 1, 2, 3, 4];
    assert_eq!(
        Err(Error::UnsupportedCharType),
        from_slice(&data, &Shape::Char)
    );
    assert_eq!(
        Err(Error::UnsupportedEnumType),
        from_slice(&data, &Shape::Optional)
    );
    assert_eq!(
        Err(Error::UnsupportedEnumType),
        from_slice(&data, &Shape::Enum)
    );
    assert_eq!(
        Err(Error::UnsupportedDeserializerMethod(Method::Deserialize)),
        from_slice(&data, &Shape::Any)
    );
    assert_eq!(
        Err(Error::UnsupportedDeserializerMethod(Method::StructField)),
        from_slice(&data, &Shape::StructField)
    );
    assert_eq!(
        Err(Error::UnsupportedDeserializerMethod(Method::IgnoredAny)),
        from_slice(&data, &Shape::IgnoredAny)
    );
    let shape = Shape::Tuple(vec![Shape::U8, Shape::Sequence(Box::new(Shape::Optional))]);
    assert_eq!(
        Err(Error::UnsupportedEnumType),
        from_slice(&[5, 0, 0, 0, 9, 1, 0, 0, 0], &shape)
    );
}

#[test]
fn a_source_that_ends_early_fails() {
    assert_eq!(Err(Error::EndOfBuffer), from_slice(&[], &Shape::U8));
    assert_eq!(Err(Error::EndOfBuffer), from_slice(&[1, 0, 0], &Shape::U8));
    assert_eq!(
        Err(Error::EndOfBuffer),
        from_slice(&[1, 0, 0, 0], &Shape::U8)
    );
    assert_eq!(
        Err(Error::EndOfBuffer),
        from_slice(&[3, 0, 0, 0, 1, 2, 3], &Shape::U32)
    );
    assert_eq!(
        Err(Error::EndOfBuffer),
        from_slice(&[6, 0, 0, 0, 3, 0, 0, 0, 97, 98], &Shape::Text)
    );
    assert_eq!(
        Err(Error::EndOfBuffer),
        from_slice(&[6, 0, 0, 0, 3, 0, 0, 0, 97, 98], &Shape::Bytes)
    );
    assert_eq!(
        Err(Error::EndOfBuffer),
        from_slice(
            &[6, 0, 0, 0, 2, 0, 0, 0, 7, 0, 1],
            &Shape::Sequence(Box::new(Shape::I16))
        )
    );
    assert_eq!(
        Err(Error::EndOfBuffer),
        from_slice(&[1, 0, 0, 0, 1], &Shape::Tuple(vec![Shape::Bool, Shape::U8]))
    );
    assert_eq!(Err(Error::EndOfBuffer), from_str("\x01\0\0", &Shape::Bool));
}

#[test]
fn text_must_be_utf8() {
    assert_eq!(
        Err(Error::BadStringData),
        from_slice(&[6, 0, 0, 0, 2, 0, 0, 0, 0xc3, 0x28], &Shape::Text)
    );
    assert_eq!(
        Err(Error::BadStringData),
        from_slice(&[5, 0, 0, 0, 1, 0, 0, 0, 0xff], &Shape::Text)
    );
    assert_eq!(
        Value::Bytes(vec![0xc3, 0x28]),
        from_slice(&[6, 0, 0, 0, 2, 0, 0, 0, 0xc3, 0x28], &Shape::Bytes).unwrap()
    );
    assert_eq!(
        Err(Error::BadStringData),
        from_slice(&[7, 0, 0, 0, 3, 0, 0, 0, 97, 61, 0xff], &Shape::Entries)
    );
}

#[test]
fn bytes_behind_the_value_are_left_alone() {
    assert_eq!(
        Value::U8(150),
        from_slice(&[1, 0, 0, 0, 150, 1, 2, 3], &Shape::U8).unwrap()
    );
    assert_eq!(
        Value::U8(150),
        from_slice(&[9, 0, 0, 0, 150], &Shape::U8).unwrap()
    );
}

#[test]
fn any_byte_but_zero_is_true() {
    assert_eq!(
        Value::Bool(true),
        from_slice(&[1, 0, 0, 0, 2], &Shape::Bool).unwrap()
    );
    assert_eq!(
        Value::Bool(true),
        from_slice(&[1, 0, 0, 0, 255], &Shape::Bool).unwrap()
    );
}

#[test]
fn a_failed_read_takes_nothing() {
    let data = [2, 0, 0, 0, 0xc3, 0x28, 5];
    let mut deserializer = Deserializer::new(&data, 0);
    assert_eq!(Err(Error::BadStringData), deserializer.get_string());
    assert_eq!(Ok(2), deserializer.deserialize_u32());
    assert_eq!(Err(Error::EndOfBuffer), deserializer.deserialize_u32());
    let shape = Shape::Tuple(vec![Shape::U16, Shape::U16]);
    assert_eq!(
        Err(Error::EndOfBuffer),
        deserializer.deserialize_as(&shape)
    );
    assert_eq!(Ok(0xc3), deserializer.deserialize_u8());
    assert_eq!(&[0x28, 5], deserializer.into_inner());
}

#[test]
fn get_string_counts_what_it_read() {
    let data = [3, 0, 0, 0, 97, 0xc3, 0xbc, 9];
    let mut deserializer = Deserializer::new(&data, 0);
    assert_eq!(
        Ok((7, String::from("a\u{fc}"))),
        deserializer.get_string()
    );
    assert_eq!(&[9], deserializer.into_inner());
}

#[test]
fn the_serializer_writes_behind_what_its_buffer_holds() {
    let mut serializer = Serializer::new(vec![9, 9]);
    serializer.serialize_bool(true).unwrap();
    serializer.serialize_i8(-2).unwrap();
    serializer.serialize_u16(0x0102).unwrap();
    serializer.serialize_i32(-3).unwrap();
    serializer.serialize_f32(1.0f32.to_bits()).unwrap();
    serializer.serialize_str("ab").unwrap();
    serializer.serialize_bytes(&[5, 6]).unwrap();
    serializer.serialize_unit().unwrap();
    serializer.serialize_unit_struct("Unit").unwrap();
    serializer
        .serialize_newtype_struct("Wrapper", &Value::U8(77))
        .unwrap();
    assert_eq!(
        vec![
            9, 9, 1, 0xfe, 2, 1, 0xfd, 0xff, 0xff, 0xff, 0, 0, 0x80, 0x3f, 2, 0, 0, 0, 97, 98, 2,
            0, 0, 0, 5, 6, 77
        ],
        serializer.into_inner()
    );
}

#[test]
fn the_serializer_refuses_what_the_format_cannot_hold() {
    let mut serializer = Serializer::new(Vec::new());
    assert_eq!(
        Err(Error::UnsupportedCharType),
        serializer.serialize_char('c')
    );
    assert_eq!(Err(Error::UnsupportedEnumType), serializer.serialize_none());
    assert_eq!(
        Err(Error::UnsupportedEnumType),
        serializer.serialize_some(&Value::U8(1))
    );
    assert_eq!(
        Err(Error::UnsupportedEnumType),
        serializer.serialize_unit_variant("E", 0, "A")
    );
    assert_eq!(
        Err(Error::UnsupportedEnumType),
        serializer.serialize_newtype_variant("E", 0, "A", &Value::U8(1))
    );
    assert!(matches!(
        serializer.serialize_tuple_variant("E", 0, "A", 1),
        Err(Error::UnsupportedEnumType)
    ));
    assert!(matches!(
        serializer.serialize_struct_variant("E", 0, "A", 1),
        Err(Error::UnsupportedEnumType)
    ));
    assert!(matches!(
        serializer.serialize_seq(None),
        Err(Error::VariableArraySizeAnnotation)
    ));
    assert_eq!(Vec::<u8>::new(), serializer.into_inner());
}

#[test]
fn a_block_is_written_behind_its_length() {
    let mut serializer = Serializer::new(vec![1]);
    let mut block = serializer.serialize_seq(Some(2)).unwrap();
    block.serialize_element(&Value::U16(7)).unwrap();
    block.serialize_element(&Value::U16(8)).unwrap();
    block.end().unwrap();
    let mut block = serializer.serialize_tuple(2).unwrap();
    block.serialize_element(&Value::Bool(true)).unwrap();
    assert_eq!(
        Err(Error::UnsupportedCharType),
        block.serialize_element(&Value::Char('x'))
    );
    block.serialize_element(&Value::U8(7)).unwrap();
    block.end().unwrap();
    let mut block = serializer.serialize_struct("Point", 1).unwrap();
    block.serialize_field("x", &text("p")).unwrap();
    block.end().unwrap();
    let block = serializer.serialize_tuple_struct("Empty", 0).unwrap();
    block.end().unwrap();
    let mut block = serializer.serialize_seq_fixed_size(1).unwrap();
    block
        .serialize_element(&Value::Sequence(vec![Value::U8(3)]))
        .unwrap();
    block.end().unwrap();
    assert_eq!(
        vec![
            1, 8, 0, 0, 0, 2, 0, 0, 0, 7, 0, 8, 0, 2, 0, 0, 0, 1, 7, 5, 0, 0, 0, 1, 0, 0, 0, 112,
            0, 0, 0, 0, 5, 0, 0, 0, 1, 0, 0, 0, 3
        ],
        serializer.into_inner()
    );
}

#[test]
fn a_map_is_written_entry_by_entry() {
    let mut serializer = Serializer::new(Vec::new());
    let mut map = serializer.serialize_map(None).unwrap();
    map.serialize_key("abc").unwrap();
    map.serialize_value("123").unwrap();
    map.serialize_key("AAA").unwrap();
    map.serialize_value("B0").unwrap();
    map.end().unwrap();
    assert_eq!(
        vec![
            21, 0, 0, 0, 7, 0, 0, 0, 97, 98, 99, 61, 49, 50, 51, 6, 0, 0, 0, 65, 65, 65, 61, 66,
            48
        ],
        serializer.into_inner()
    );
}

#[test]
fn to_writer_appends() {
    let mut sink = vec![1, 2];
    to_writer(&mut sink, &Value::U16(0x0403)).unwrap();
    to_writer(&mut sink, &Value::Tuple(vec![Value::U8(5), text("")])).unwrap();
    assert_eq!(vec![1, 2, 3, 4, 5, 0, 0, 0, 0], sink);
}

#[test]
fn the_deserializer_reads_each_kind() {
    let data = [
        1, 0xfe, 2, 1, 0xfd, 0xff, 0xff, 0xff, 0, 0, 0x80, 0x3f, 2, 0, 0, 0, 97, 98, 2, 0, 0, 0, 5,
        6, 0xff, 0xff, 0xff, 0xff, 0xff, 0xff, 0xff, 0x7f, 1, 0, 0, 0, 0, 0, 0, 0x80, 0, 0, 0, 0,
        0, 0, 0xf0, 0x3f, 0x80, 0xff,
    ];
    let mut deserializer = Deserializer::new(&data, 0);
    assert_eq!(Ok(true), deserializer.deserialize_bool());
    assert_eq!(Ok(-2), deserializer.deserialize_i8());
    assert_eq!(Ok(0x0102), deserializer.deserialize_u16());
    assert_eq!(Ok(-3), deserializer.deserialize_i32());
    assert_eq!(Ok(1.0f32.to_bits()), deserializer.deserialize_f32());
    assert_eq!(Ok(String::from("ab")), deserializer.deserialize_str());
    assert_eq!(Ok(vec![5, 6]), deserializer.deserialize_bytes());
    assert_eq!(Ok(i64::MAX as u64), deserializer.deserialize_u64());
    assert_eq!(Ok(i64::MIN + 1), deserializer.deserialize_i64());
    assert_eq!(Ok(1.0f64.to_bits()), deserializer.deserialize_f64());
    assert_eq!(Ok(-128), deserializer.deserialize_i16());
    assert_eq!(Ok(()), deserializer.deserialize_unit());
    assert_eq!(Ok(()), deserializer.deserialize_unit_struct("Unit"));
    assert_eq!(Err(Error::EndOfBuffer), deserializer.deserialize_u8());
    assert_eq!(Err(Error::UnsupportedCharType), deserializer.deserialize_char());
    assert_eq!(
        Err(Error::UnsupportedEnumType),
        deserializer.deserialize_option()
    );
    assert_eq!(
        Err(Error::UnsupportedEnumType),
        deserializer.deserialize_enum("E")
    );
    assert_eq!(
        Err(Error::UnsupportedDeserializerMethod(Method::Deserialize)),
        deserializer.deserialize()
    );
    assert_eq!(
        Err(Error::UnsupportedDeserializerMethod(Method::StructField)),
        deserializer.deserialize_struct_field()
    );
    assert_eq!(
        Err(Error::UnsupportedDeserializerMethod(Method::IgnoredAny)),
        deserializer.deserialize_ignored_any()
    );
}

#[test]
fn the_deserializer_reads_structures() {
    let data = [2, 0, 0, 0, 7, 8, 1, 9, 3, 4, 5, 6, 1, 0, 0, 0, 97, 1, 77];
    let mut deserializer = Deserializer::new(&data, 0);
    assert_eq!(
        Ok(vec![Value::U8(7), Value::U8(8)]),
        deserializer.deserialize_seq(&Shape::U8)
    );
    assert_eq!(
        Ok(vec![Value::Bool(true), Value::U8(9)]),
        deserializer.deserialize_tuple(&vec![Shape::Bool, Shape::U8])
    );
    assert_eq!(
        Ok(vec![Value::U16(0x0403), Value::U16(0x0605)]),
        deserializer.deserialize_seq_fixed_size(2, &Shape::U16)
    );
    assert_eq!(
        Ok(vec![text("a")]),
        deserializer.deserialize_struct("Name", &vec![Shape::Text])
    );
    assert_eq!(
        Ok(vec![Value::Bool(true)]),
        deserializer.deserialize_tuple_struct("Flag", &vec![Shape::Bool])
    );
    assert_eq!(
        Ok(Value::U8(77)),
        deserializer.deserialize_newtype_struct("Wrapper", &Shape::U8)
    );
    assert_eq!(Ok(String::new()), Deserializer::new(&[0, 0, 0, 0], 0).deserialize_string());
    assert_eq!(
        Ok(vec![1]),
        Deserializer::new(&[1, 0, 0, 0, 1], 0).deserialize_byte_buf()
    );
}

#[test]
fn a_map_inside_a_structure_reads_by_the_envelope() {
    let shape = Shape::Tuple(vec![Shape::U8, Shape::Entries]);
    let input = [4, 0, 0, 0, 9, 3, 0, 0, 0, 97, 61, 98];
    assert_eq!(
        Err(Error::BadMapEntry),
        from_slice(&input, &shape)
    );
    let input = [7, 0, 0, 0, 9, 3, 0, 0, 0, 97, 61, 98];
    assert_eq!(
        Value::Tuple(vec![Value::U8(9), Value::Entries(vec![pair("a", "b")])]),
        from_slice(&input, &shape).unwrap()
    );
}

#[test]
fn the_strict_decoder_holds_a_value_to_its_length() {
    assert_eq!(
        Ok(Value::U8(150)),
        rosmsg::from_slice_strict(&[1, 0, 0, 0, 150], &Shape::U8)
    );
    assert_eq!(
        Ok(Value::U8(150)),
        rosmsg::from_slice_strict(&[1, 0, 0, 0, 150, 7, 7], &Shape::U8)
    );
    assert_eq!(
        Err(Error::Underflow),
        rosmsg::from_slice_strict(&[2, 0, 0, 0, 150, 7], &Shape::U8)
    );
    assert_eq!(
        Err(Error::Overflow),
        rosmsg::from_slice_strict(&[1, 0, 0, 0, 150, 7], &Shape::U16)
    );
    assert_eq!(
        Err(Error::Overflow),
        rosmsg::from_slice_strict(&[0, 0, 0, 0, 150], &Shape::U8)
    );
    assert_eq!(
        Err(Error::EndOfBuffer),
        rosmsg::from_slice_strict(&[2, 0, 0, 0, 150], &Shape::U16)
    );
    assert_eq!(
        Err(Error::EndOfBuffer),
        rosmsg::from_slice_strict(&[2, 0, 0], &Shape::U16)
    );
    let value = Value::Tuple(vec![text("abc"), Value::Sequence(vec![Value::I16(-5)])]);
    let shape = Shape::Tuple(vec![Shape::Text, Shape::Sequence(Box::new(Shape::I16))]);
    let bytes = encode_framed(&value).unwrap();
    assert_eq!(Ok(value), rosmsg::from_slice_strict(&bytes, &shape));
    let map = Value::Entries(vec![pair("abc", "123"), pair("k", "")]);
    let bytes = encode_framed(&map).unwrap();
    assert_eq!(Ok(map), rosmsg::from_slice_strict(&bytes, &Shape::Entries));
}

#[test]
fn a_map_uses_its_budget_to_the_byte() {
    let data = [3, 0, 0, 0, 97, 61, 98, 2, 0, 0, 0, 61, 99, 9, 9];
    let mut deserializer = Deserializer::new(&data, 13);
    assert_eq!(
        Ok(vec![pair("a", "b"), pair("", "c")]),
        deserializer.deserialize_map()
    );
    assert_eq!(&[9, 9], deserializer.into_inner());
    let mut deserializer = Deserializer::new(&data, 7);
    assert_eq!(Ok(vec![pair("a", "b")]), deserializer.deserialize_map());
    assert_eq!(&data[7..], deserializer.into_inner());
    let mut deserializer = Deserializer::new(&data, 12);
    assert_eq!(Err(Error::BadMapEntry), deserializer.deserialize_map());
}

#[test]
fn tuples_written_one_after_the_other_are_one_tuple() {
    let front = Value::Tuple(vec![Value::U8(1), text("a")]);
    let back = Value::Tuple(vec![Value::Bool(true)]);
    let both = Value::Tuple(vec![Value::U8(1), text("a"), Value::Bool(true)]);
    let mut bytes = to_vec(&front).unwrap();
    bytes.extend_from_slice(&to_vec(&back).unwrap());
    assert_eq!(bytes, to_vec(&both).unwrap());
    let sequence = Value::Sequence(vec![Value::U8(1), text("a"), Value::Bool(true)]);
    let mut counted = vec![3, 0, 0, 0];
    counted.extend_from_slice(&bytes);
    assert_eq!(counted, to_vec(&sequence).unwrap());
}

#[test]
fn errors_say_what_went_wrong() {
    assert_eq!(
        "Deserializer method is not supported in ROSMSG",
        Error::UnsupportedDeserializerMethod(Method::Deserialize).description()
    );
    assert_eq!(
        "Deserializer method is not supported in ROSMSG: deserialize",
        Error::UnsupportedDeserializerMethod(Method::Deserialize).message()
    );
    assert_eq!(
        "Deserializer method is not supported in ROSMSG: deserialize_struct_field",
        Error::UnsupportedDeserializerMethod(Method::StructField).message()
    );
    assert_eq!(
        "Deserializer method is not supported in ROSMSG: deserialize_ignored_any",
        Error::UnsupportedDeserializerMethod(Method::IgnoredAny).message()
    );
    assert_eq!("deserialize", Method::Deserialize.name());
    assert_eq!(
        "Attempted to read beyond the end of decoded value's length",
        Error::Overflow.message()
    );
    assert_eq!(
        "Decoded data is shorter than predicted value length",
        Error::Underflow.message()
    );
    assert_eq!("Reached end of memory buffer", Error::EndOfBuffer.description());
    assert_eq!(
        "Reached end of memory buffer while reading data",
        Error::EndOfBuffer.message()
    );
    assert_eq!("Strings need to be UTF-8", Error::BadStringData.message());
    assert_eq!("Bad map entry format given", Error::BadMapEntry.description());
    assert_eq!(
        "Map entries need to have a format of \"key=value\"",
        Error::BadMapEntry.message()
    );
    assert_eq!(
        "Type was not expected by the deserializer",
        Error::UnexpectedType.message()
    );
    assert_eq!(
        "Chars are not supported in ROSMSG",
        Error::UnsupportedCharType.message()
    );
    assert_eq!(
        "Enumerations are not supported in ROSMSG",
        Error::UnsupportedEnumType.message()
    );
    assert_eq!(
        "Size annotation in variable size array is missing",
        Error::VariableArraySizeAnnotation.message()
    );
}

#[test]
fn a_message_holds_its_structure_with_nothing_between() {
    let simple = Value::Tuple(vec![
        Value::I16(2050),
        Value::Bool(true),
        Value::U8(7),
        text("ABC012"),
        Value::Sequence(vec![
            Value::Bool(true),
            Value::Bool(false),
            Value::Bool(false),
            Value::Bool(true),
        ]),
    ]);
    assert_eq!(
        vec![
            22, 0, 0, 0, 2, 8, 1, 7, 6, 0, 0, 0, 65, 66, 67, 48, 49, 50, 4, 0, 0, 0, 1, 0, 0, 1
        ],
        encode_framed(&simple).unwrap()
    );
    let part = |a: &str, b: bool| Value::Tuple(vec![text(a), Value::Bool(b)]);
    let complex = Value::Tuple(vec![
        Value::Sequence(vec![
            part("ABC", true),
            part("1!!!!", true),
            part("234b", false),
        ]),
        text("EEe"),
    ]);
    assert_eq!(
        vec![
            38, 0, 0, 0, 3, 0, 0, 0, 3, 0, 0, 0, 65, 66, 67, 1, 5, 0, 0, 0, 49, 33, 33, 33, 33, 1,
            4, 0, 0, 0, 50, 51, 52, 98, 0, 3, 0, 0, 0, 69, 69, 101
        ],
        encode_framed(&complex).unwrap()
    );
}

#[test]
fn clones_are_equal() {
    let value = Value::Tuple(vec![
        Value::Bool(true),
        Value::I64(-7),
        Value::F32(1.5f32.to_bits()),
        text("abc"),
        Value::Bytes(vec![1, 2, 3]),
        Value::Sequence(vec![Value::Tuple(vec![Value::U8(1)]), Value::Tuple(vec![])]),
        Value::Entries(vec![pair("a", "b"), pair("c", "")]),
        Value::Char('x'),
        Value::Optional(Some(Box::new(Value::Optional(None)))),
        Value::Variant(3, vec![Value::U16(9)]),
    ]);
    assert_eq!(value, value.clone());
    let shape = Shape::Tuple(vec![
        Shape::Bool,
        Shape::Array(3, Box::new(Shape::Sequence(Box::new(Shape::Text)))),
        Shape::Entries,
        Shape::Tuple(vec![Shape::F64, Shape::Any]),
    ]);
    assert_eq!(shape, shape.clone());
}

#[test]
fn a_map_inside_a_structure_reads_within_its_own_length() {
    let value = Value::Tuple(vec![
        Value::U8(9),
        Value::Entries(vec![pair("a", "b"), pair("key", "v=w")]),
        Value::U8(8),
    ]);
    let bytes = to_vec(&value).unwrap();
    let mut deserializer = Deserializer::new(&bytes, 0);
    assert_eq!(Ok(9), deserializer.deserialize_u8());
    let length = deserializer.deserialize_u32().unwrap();
    assert_eq!(18, length);
    assert_eq!(
        Ok(vec![pair("a", "b"), pair("key", "v=w")]),
        deserializer.deserialize_map_within(length)
    );
    assert_eq!(Ok(8), deserializer.deserialize_u8());
    assert_eq!(Vec::<u8>::new(), deserializer.into_inner());
    let mut deserializer = Deserializer::new(&bytes[5..], 0);
    assert_eq!(
        Err(Error::BadMapEntry),
        deserializer.deserialize_map_within(17)
    );
    assert_eq!(Ok(Vec::new()), deserializer.deserialize_map_within(0));
}
