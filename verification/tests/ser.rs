use rosmsg::{encode_framed, to_vec, Serializer, Value};

fn text(value: &str) -> Value {
    Value::Text(String::from(value))
}

fn pair(key: &str, value: &str) -> (String, String) {
    (String::from(key), String::from(value))
}

#[test]
fn writes_u8() {
    assert_eq!(vec![150], to_vec(&Value::U8(150)).unwrap());
}

#[test]
fn writes_u16() {
    assert_eq!(vec![0x34, 0xA2], to_vec(&Value::U16(0xA234)).unwrap());
}

#[test]
fn writes_u32() {
    assert_eq!(
        vec![0x45, 0x23, 1, 0xCD],
        to_vec(&Value::U32(0xCD012345)).unwrap()
    );
}

#[test]
fn writes_u64() {
    assert_eq!(
        vec![0xBB, 0xAA, 0x10, 0x32, 0x54, 0x76, 0x98, 0xAB],
        to_vec(&Value::U64(0xAB9876543210AABB)).unwrap()
    );
}

#[test]
fn writes_i8() {
    assert_eq!(vec![156], to_vec(&Value::I8(-100)).unwrap());
}

#[test]
fn writes_i16() {
    assert_eq!(vec![0xD0, 0x8A], to_vec(&Value::I16(-30000)).unwrap());
}

#[test]
fn writes_i32() {
    assert_eq!(
        vec![0x00, 0x6C, 0xCA, 0x88],
        to_vec(&Value::I32(-2000000000)).unwrap()
    );
}

#[test]
fn writes_i64() {
    assert_eq!(
        vec![0x00, 0x00, 0x7c, 0x1d, 0xaf, 0x93, 0x19, 0x83],
        to_vec(&Value::I64(-9000000000000000000)).unwrap()
    );
}

#[test]
fn writes_f32() {
    assert_eq!(
        vec![0x00, 0x70, 0x7b, 0x44],
        to_vec(&Value::F32(1005.75f32.to_bits())).unwrap()
    );
}

#[test]
fn writes_f64() {
    assert_eq!(
        vec![0x00, 0x00, 0x00, 0x00, 0x00, 0x6e, 0x8f, 0x40],
        to_vec(&Value::F64(1005.75f64.to_bits())).unwrap()
    );
}

#[test]
fn writes_bool() {
    assert_eq!(vec![1], to_vec(&Value::Bool(true)).unwrap());
    assert_eq!(vec![0], to_vec(&Value::Bool(false)).unwrap());
}

#[test]
fn writes_string() {
    assert_eq!(vec![0, 0, 0, 0], to_vec(&text("")).unwrap());
    assert_eq!(
        vec![13, 0, 0, 0, 72, 101, 108, 108, 111, 44, 32, 87, 111, 114, 108, 100, 33],
        to_vec(&text("Hello, World!")).unwrap()
    );
}

#[test]
fn writes_array() {
    let array = Value::Tuple(vec![
        Value::I16(7),
        Value::I16(1025),
        Value::I16(33),
        Value::I16(57),
    ]);
    assert_eq!(
        vec![8, 0, 0, 0, 7, 0, 1, 4, 33, 0, 57, 0],
        encode_framed(&array).unwrap()
    );
}

#[test]
fn writes_vector() {
    let vector = Value::Sequence(vec![
        Value::I16(7),
        Value::I16(1025),
        Value::I16(33),
        Value::I16(57),
    ]);
    assert_eq!(
        vec![12, 0, 0, 0, 4, 0, 0, 0, 7, 0, 1, 4, 33, 0, 57, 0],
        encode_framed(&vector).unwrap()
    );
}

fn test_struct_one() -> Vec<u8> {
    let mut serializer = Serializer::new(Vec::new());
    let mut v = serializer.serialize_struct("TestStructOne", 5).unwrap();
    v.serialize_field("a", &Value::I16(2050)).unwrap();
    v.serialize_field("b", &Value::Bool(true)).unwrap();
    v.serialize_field("c", &Value::U8(7)).unwrap();
    v.serialize_field("d", &text("ABC012")).unwrap();
    let mut e = v.buffer.serialize_seq(Some(4)).unwrap();
    e.serialize_element(&Value::Bool(true)).unwrap();
    e.serialize_element(&Value::Bool(false)).unwrap();
    e.serialize_element(&Value::Bool(false)).unwrap();
    e.serialize_element(&Value::Bool(true)).unwrap();
    e.end().unwrap();
    v.end().unwrap();
    serializer.into_inner()
}

#[test]
fn writes_tuple() {
    let mut serializer = Serializer::new(Vec::new());
    let mut v = serializer.serialize_tuple(5).unwrap();
    v.serialize_element(&Value::I16(2050)).unwrap();
    v.serialize_element(&Value::Bool(true)).unwrap();
    v.serialize_element(&Value::U8(7)).unwrap();
    v.serialize_element(&text("ABC012")).unwrap();
    let mut e = v.buffer.serialize_seq(Some(4)).unwrap();
    e.serialize_element(&Value::Bool(true)).unwrap();
    e.serialize_element(&Value::Bool(false)).unwrap();
    e.serialize_element(&Value::Bool(false)).unwrap();
    e.serialize_element(&Value::Bool(true)).unwrap();
    e.end().unwrap();
    v.end().unwrap();
    assert_eq!(
        vec![
            26, 0, 0, 0, 2, 8, 1, 7, 6, 0, 0, 0, 65, 66, 67, 48, 49, 50, 8, 0, 0, 0, 4, 0, 0, 0,
            1, 0, 0, 1
        ],
        serializer.into_inner()
    );
}

#[test]
fn writes_simple_struct() {
    assert_eq!(
        vec![
            26, 0, 0, 0, 2, 8, 1, 7, 6, 0, 0, 0, 65, 66, 67, 48, 49, 50, 8, 0, 0, 0, 4, 0, 0, 0,
            1, 0, 0, 1
        ],
        test_struct_one()
    );
}

fn test_struct_part(parts: &mut Serializer, a: &str, b: bool) {
    let mut part = parts.serialize_struct("TestStructPart", 2).unwrap();
    part.serialize_field("a", &text(a)).unwrap();
    part.serialize_field("b", &Value::Bool(b)).unwrap();
    part.end().unwrap();
}

#[test]
fn writes_complex_struct() {
    let mut serializer = Serializer::new(Vec::new());
    let mut v = serializer.serialize_struct("TestStructBig", 2).unwrap();
    let mut parts = v.buffer.serialize_seq(Some(3)).unwrap();
    test_struct_part(&mut parts.buffer, "ABC", true);
    test_struct_part(&mut parts.buffer, "1!!!!", true);
    test_struct_part(&mut parts.buffer, "234b", false);
    parts.end().unwrap();
    v.serialize_field("b", &text("EEe")).unwrap();
    v.end().unwrap();
    assert_eq!(
        vec![
            54, 0, 0, 0, 43, 0, 0, 0, 3, 0, 0, 0, 8, 0, 0, 0, 3, 0, 0, 0, 65, 66, 67, 1, 10, 0, 0,
            0, 5, 0, 0, 0, 49, 33, 33, 33, 33, 1, 9, 0, 0, 0, 4, 0, 0, 0, 50, 51, 52, 98, 0, 3, 0,
            0, 0, 69, 69, 101
        ],
        serializer.into_inner()
    );
}

#[test]
fn writes_empty_string_string_map() {
    let data = Value::Entries(Vec::new());
    assert_eq!(vec![0, 0, 0, 0], to_vec(&data).unwrap());
}

#[test]
fn writes_single_item_string_string_map() {
    let data = Value::Entries(vec![pair("abc", "123")]);
    assert_eq!(
        vec![11, 0, 0, 0, 7, 0, 0, 0, 97, 98, 99, 61, 49, 50, 51],
        to_vec(&data).unwrap()
    );
}

#[test]
fn writes_multiple_item_string_string_map() {
    let data = Value::Entries(vec![pair("abc", "123"), pair("AAA", "B0")]);
    let answer = to_vec(&data).unwrap();
    assert!(
        vec![
            21, 0, 0, 0, 7, 0, 0, 0, 97, 98, 99, 61, 49, 50, 51, 6, 0, 0, 0, 65, 65, 65, 61, 66,
            48
        ] == answer
            || vec![
                21, 0, 0, 0, 6, 0, 0, 0, 65, 65, 65, 61, 66, 48, 7, 0, 0, 0, 97, 98, 99, 61, 49,
                50, 51
            ] == answer
    );
}
