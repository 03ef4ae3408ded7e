use binsard::codec::{
    read_bytes, read_len_prefix, read_raw, read_string, read_tag, read_uint, write_bytes,
    write_len_prefix, write_raw, write_string, write_uint, MAX_DECODE_LEN,
};
use binsard::definition::{
    make_mod_name, mod_name_from_lower, parse_fields, DataDesc, FieldDesc, Fields, FieldsDesc,
    InputDesc, StructOrEnum, VariantDesc,
};
use binsard::message::{
    decode_message, encode_message, fits_prefix, schema_is_wf, try_encode_message, value_conforms,
    Alternatives, Schema, Value,
};
use binsard::schema::{
    check_tag_width, classify_type, field_codec, get_bits_attr, get_byte_size, get_len_bytes_attr,
    max_variants, parse_array_len, parse_attributes, primitive_from_name, validate_len_bytes,
    ArrayLen, AttributeError, BinSardAttributes, BinSardFieldAttribute, BinSardStructAttribute,
    ClassifyError, FieldAttrEntry, FieldCodec, FieldKind, PrimitiveKind, TypeDesc,
};
use binsard::{DecodeError, DecodeHelper, EncodeHelper};

// --- Big-endian integers ---

#[test]
fn write_uint_is_big_endian() {
    let mut data = vec![0xFF];
    write_uint(&mut data, 42, 4);
    assert_eq!(data, vec![0xFF, 0x00, 0x00, 0x00, 0x2A]);
    let mut data = Vec::new();
    write_uint(&mut data, 0x0102, 2);
    assert_eq!(data, vec![0x01, 0x02]);
}

#[test]
fn write_uint_drops_high_bytes() {
    let mut data = Vec::new();
    write_uint(&mut data, 0x1_0203, 2);
    assert_eq!(data, vec![0x02, 0x03]);
}

#[test]
fn write_uint_sixteen_bytes() {
    let mut data = Vec::new();
    write_uint(&mut data, u128::MAX - 1, 16);
    assert_eq!(data.len(), 16);
    assert_eq!(data[15], 0xFE);
    assert_eq!(read_uint(&data, 0, 16), Ok((u128::MAX - 1, 16)));
}

#[test]
fn read_uint_at_cursor() {
    let data = [0xAA, 0x12, 0x34, 0x56, 0x78];
    assert_eq!(read_uint(&data, 1, 4), Ok((0x1234_5678, 5)));
    assert_eq!(read_uint(&data, 1, 0), Ok((0, 1)));
}

#[test]
fn read_uint_past_end_is_eof() {
    let data = [0x12, 0x34];
    assert_eq!(read_uint(&data, 1, 2), Err(DecodeError::UnexpectedEof));
    assert_eq!(read_uint(&data, 2, 1), Err(DecodeError::UnexpectedEof));
}

// --- Length prefixes, byte strings and strings ---

#[test]
fn len_prefix_widths() {
    let mut data = Vec::new();
    write_len_prefix(&mut data, 2, 1);
    write_len_prefix(&mut data, 2, 2);
    write_len_prefix(&mut data, 2, 4);
    assert_eq!(data, vec![2, 0, 2, 0, 0, 0, 2]);
    assert_eq!(read_len_prefix(&data, 0, 1), Ok((2, 1)));
    assert_eq!(read_len_prefix(&data, 1, 2), Ok((2, 3)));
    assert_eq!(read_len_prefix(&data, 3, 4), Ok((2, 7)));
}

#[test]
fn len_prefix_above_limit_is_refused() {
    let mut data = Vec::new();
    write_len_prefix(&mut data, MAX_DECODE_LEN + 1, 4);
    assert_eq!(read_len_prefix(&data, 0, 4), Err(DecodeError::LengthTooLarge));
    let mut data = Vec::new();
    write_len_prefix(&mut data, MAX_DECODE_LEN, 4);
    assert_eq!(read_len_prefix(&data, 0, 4), Ok((MAX_DECODE_LEN, 4)));
    assert_eq!(read_bytes(&[0x01, 0x00, 0x00, 0x01], 0, 4), Err(DecodeError::LengthTooLarge));
}

#[test]
fn bytes_field_roundtrip() {
    let mut data = vec![9];
    write_bytes(&mut data, &[0xAA, 0xBB], 2);
    assert_eq!(data, vec![9, 0, 2, 0xAA, 0xBB]);
    assert_eq!(read_bytes(&data, 1, 2), Ok((vec![0xAA, 0xBB], 5)));
}

#[test]
fn bytes_field_truncated_is_eof() {
    assert_eq!(read_bytes(&[0x00, 0x0A, 1, 2], 0, 2), Err(DecodeError::UnexpectedEof));
    assert_eq!(read_bytes(&[0x00], 0, 2), Err(DecodeError::UnexpectedEof));
}

#[test]
fn string_field_roundtrip() {
    let mut data = Vec::new();
    write_string(&mut data, "Grüße 🌍", 1);
    assert_eq!(data[0] as usize, "Grüße 🌍".len());
    assert_eq!(read_string(&data, 0, 1), Ok(("Grüße 🌍".to_string(), data.len())));
}

#[test]
fn string_field_invalid_utf8() {
    let data = [2, 0xC3, 0x28];
    assert_eq!(read_string(&data, 0, 1), Err(DecodeError::InvalidUtf8));
}

#[test]
fn raw_bytes_roundtrip() {
    let mut data = Vec::new();
    write_raw(&mut data, &[1, 2, 3, 4]);
    assert_eq!(data, vec![1, 2, 3, 4]);
    assert_eq!(read_raw(&data, 1, 3), Ok((vec![2, 3, 4], 4)));
    assert_eq!(read_raw(&data, 1, 4), Err(DecodeError::UnexpectedEof));
}

// --- Enum tags ---

#[test]
fn tag_known_and_unknown() {
    let mut enc = EncodeHelper::default();
    enc.write_partly(2, 3);
    enc.write_partly(6, 3);
    let data = enc.finish();
    let mut dec = DecodeHelper::default();
    assert_eq!(read_tag(&mut dec, &data, 3, 3), Ok(2));
    assert_eq!(read_tag(&mut dec, &data, 3, 6), Err(DecodeError::UnknownTag(6)));
    assert_eq!(dec.bit_idx(), 6);
    assert_eq!(read_tag(&mut dec, &data, 3, 6), Err(DecodeError::UnexpectedEof));
    assert_eq!(dec.bit_idx(), 6);
}

#[test]
fn tag_wider_than_a_byte_is_cut_to_a_byte() {
    let mut enc = EncodeHelper::default();
    enc.write_partly(0x101, 12);
    let data = enc.finish();
    let mut dec = DecodeHelper::default();
    assert_eq!(read_tag(&mut dec, &data, 12, 2), Ok(1));
}

// --- Derive-time rules ---

fn path(name: &str, arg: Option<TypeDesc>) -> TypeDesc {
    TypeDesc::Path { ident: Some(name.to_string()), first_arg: arg.map(Box::new) }
}

#[test]
fn primitive_names_and_sizes() {
    assert_eq!(primitive_from_name(&"u16".to_string()), Some(PrimitiveKind::U16));
    assert_eq!(primitive_from_name(&"f64".to_string()), Some(PrimitiveKind::F64));
    assert_eq!(primitive_from_name(&"usize".to_string()), None);
    assert_eq!(get_byte_size(PrimitiveKind::I8), 1);
    assert_eq!(get_byte_size(PrimitiveKind::U16), 2);
    assert_eq!(get_byte_size(PrimitiveKind::F32), 4);
    assert_eq!(get_byte_size(PrimitiveKind::I64), 8);
    assert_eq!(get_byte_size(PrimitiveKind::U128), 16);
}

#[test]
fn classify_plain_types() {
    assert!(matches!(classify_type(&path("bool", None)), Ok((false, FieldKind::Bool))));
    assert!(matches!(classify_type(&path("String", None)), Ok((false, FieldKind::String))));
    assert!(matches!(
        classify_type(&path("i32", None)),
        Ok((false, FieldKind::Primitive { kind: PrimitiveKind::I32 }))
    ));
    match classify_type(&path("SensorReading", None)) {
        Ok((false, FieldKind::StructOrEnum { type_ident })) => assert_eq!(type_ident, "SensorReading"),
        other => panic!("unexpected {other:?}", other = other.is_ok()),
    }
    assert!(matches!(
        classify_type(&TypeDesc::Array { len: ArrayLen::Int("4".to_string()) }),
        Ok((false, FieldKind::Array { size: 4 }))
    ));
}

#[test]
fn classify_vec_types() {
    match classify_type(&path("Vec", Some(path("u8", None)))) {
        Ok((false, FieldKind::Vec { inner_type })) => assert_eq!(inner_type, "u8"),
        _ => panic!("Vec<u8> misclassified"),
    }
    assert!(matches!(classify_type(&path("Vec", None)), Err(ClassifyError::VecMissingParam)));
    assert!(matches!(
        classify_type(&path("Vec", Some(TypeDesc::Other))),
        Err(ClassifyError::VecInnerNotPath)
    ));
    assert!(matches!(
        classify_type(&path("Vec", Some(TypeDesc::Path { ident: None, first_arg: None }))),
        Err(ClassifyError::VecInnerUnresolved)
    ));
}

#[test]
fn classify_option_types() {
    assert!(matches!(
        classify_type(&path("Option", Some(path("u16", None)))),
        Ok((true, FieldKind::Primitive { kind: PrimitiveKind::U16 }))
    ));
    assert!(matches!(
        classify_type(&path("Option", Some(path("Option", Some(path("bool", None)))))),
        Ok((true, FieldKind::Bool))
    ));
    assert!(matches!(
        classify_type(&path("Option", Some(TypeDesc::Array { len: ArrayLen::Int("8".to_string()) }))),
        Ok((true, FieldKind::Array { size: 8 }))
    ));
    // `Option<[u8; 1 + 1]>`: the length is not a literal.
    assert!(matches!(
        classify_type(&path("Option", Some(TypeDesc::Array { len: ArrayLen::NotLiteral }))),
        Err(ClassifyError::ArrayLenNotLiteral)
    ));
    assert!(matches!(
        classify_type(&path("Option", Some(TypeDesc::Other))),
        Err(ClassifyError::UnsupportedOptionInner)
    ));
    assert!(matches!(classify_type(&path("Option", None)), Err(ClassifyError::OptionMissingParam)));
}

#[test]
fn classify_unsupported_types() {
    assert!(matches!(classify_type(&TypeDesc::Other), Err(ClassifyError::UnsupportedType)));
    assert!(matches!(
        classify_type(&TypeDesc::Path { ident: None, first_arg: None }),
        Err(ClassifyError::UnresolvedIdent)
    ));
    assert!(matches!(
        classify_type(&TypeDesc::Array { len: ArrayLen::Int("18446744073709551616".to_string()) }),
        Err(ClassifyError::ArrayLenInvalid)
    ));
    assert_eq!(parse_array_len(&ArrayLen::Int("32".to_string())), Ok(32));
    assert_eq!(parse_array_len(&ArrayLen::Int("+7".to_string())), Ok(7));
    assert_eq!(parse_array_len(&ArrayLen::Int("0".to_string())), Ok(0));
    assert_eq!(parse_array_len(&ArrayLen::Int("".to_string())), Err(ClassifyError::ArrayLenInvalid));
    assert_eq!(parse_array_len(&ArrayLen::Int("1_0".to_string())), Err(ClassifyError::ArrayLenInvalid));
    assert_eq!(parse_array_len(&ArrayLen::Int("-1".to_string())), Err(ClassifyError::ArrayLenInvalid));
    assert_eq!(parse_array_len(&ArrayLen::NotLiteral), Err(ClassifyError::ArrayLenNotLiteral));
}

#[test]
fn field_codec_table() {
    assert_eq!(field_codec(&FieldKind::Bool, Some(3), None), FieldCodec::Bit);
    assert_eq!(field_codec(&FieldKind::String, None, None), FieldCodec::Str { len_bytes: 1 });
    assert_eq!(field_codec(&FieldKind::String, None, Some(4)), FieldCodec::Str { len_bytes: 4 });
    assert_eq!(
        field_codec(&FieldKind::Primitive { kind: PrimitiveKind::U16 }, None, None),
        FieldCodec::BigEndian { width: 2 }
    );
    assert_eq!(
        field_codec(&FieldKind::Primitive { kind: PrimitiveKind::U16 }, Some(12), None),
        FieldCodec::Bits { n: 12 }
    );
    assert_eq!(
        field_codec(&FieldKind::Vec { inner_type: "u8".to_string() }, None, None),
        FieldCodec::Bytes { len_bytes: 2 }
    );
    assert_eq!(
        field_codec(&FieldKind::Vec { inner_type: "u8".to_string() }, None, Some(1)),
        FieldCodec::Bytes { len_bytes: 1 }
    );
    assert_eq!(
        field_codec(&FieldKind::Vec { inner_type: "TagKV".to_string() }, None, None),
        FieldCodec::List { len_bytes: 1 }
    );
    assert_eq!(field_codec(&FieldKind::Array { size: 4 }, None, None), FieldCodec::Raw { size: 4 });
    assert_eq!(
        field_codec(&FieldKind::StructOrEnum { type_ident: "Location".to_string() }, None, None),
        FieldCodec::Nested
    );
}

fn entry(variant: Option<&str>, field: &str, bits: Option<usize>, len_bytes: Option<usize>) -> FieldAttrEntry {
    FieldAttrEntry {
        variant: variant.map(|v| v.to_string()),
        field: field.to_string(),
        attr: BinSardFieldAttribute { bits, len_bytes },
    }
}

#[test]
fn attribute_lookup_by_variant() {
    let attrs = vec![
        entry(Some("Variant1"), "value", Some(4), None),
        entry(Some("Variant2"), "value", Some(8), None),
        entry(None, "name", None, Some(2)),
    ];
    let value = "value".to_string();
    let name = "name".to_string();
    let v1 = "Variant1".to_string();
    let v2 = "Variant2".to_string();
    assert_eq!(get_bits_attr(Some(&value), &attrs, Some(&v1)), Some(4));
    assert_eq!(get_bits_attr(Some(&value), &attrs, Some(&v2)), Some(8));
    assert_eq!(get_bits_attr(Some(&value), &attrs, None), None);
    assert_eq!(get_bits_attr(None, &attrs, Some(&v1)), None);
    assert_eq!(get_len_bytes_attr(Some(&name), &attrs, None), Some(2));
    assert_eq!(get_len_bytes_attr(Some(&name), &attrs, Some(&v1)), None);
}

#[test]
fn attribute_lookup_later_entry_wins() {
    let attrs = vec![entry(None, "x", Some(3), None), entry(None, "x", Some(5), None)];
    assert_eq!(get_bits_attr(Some(&"x".to_string()), &attrs, None), Some(5));
}

#[test]
fn len_bytes_validation() {
    let field = "name".to_string();
    assert!(validate_len_bytes(1, None, &field).is_ok());
    assert!(validate_len_bytes(2, None, &field).is_ok());
    assert!(validate_len_bytes(4, None, &field).is_ok());
    match validate_len_bytes(3, None, &field) {
        Err(AttributeError::InvalidLenBytes { variant: None, field, len_bytes: 3 }) => assert_eq!(field, "name"),
        _ => panic!("len_bytes = 3 accepted"),
    }
}

#[test]
fn parse_attributes_reports_first_invalid_field() {
    let ok = parse_attributes(
        BinSardStructAttribute { bits: 4, reserve_bits: 2 },
        vec![entry(None, "a", None, Some(4)), entry(Some("V"), "b", Some(3), None)],
    );
    match ok {
        Ok(BinSardAttributes { bits: 4, reserve_bits: 2, field_attrs }) => assert_eq!(field_attrs.len(), 2),
        _ => panic!("valid attributes refused"),
    }
    let bad = parse_attributes(
        BinSardStructAttribute::default(),
        vec![
            entry(None, "a", None, Some(2)),
            entry(Some("V"), "b", None, Some(3)),
            entry(None, "c", None, Some(5)),
        ],
    );
    match bad {
        Err(AttributeError::InvalidLenBytes { variant: Some(v), field, len_bytes: 3 }) => {
            assert_eq!(v, "V");
            assert_eq!(field, "b");
        }
        _ => panic!("invalid len_bytes not reported"),
    }
}

#[test]
fn struct_attribute_defaults() {
    let d = BinSardStructAttribute::default();
    assert_eq!(d.bits, 8);
    assert_eq!(d.reserve_bits, 0);
}

#[test]
fn enum_tag_width_check() {
    // Three variants do not fit a 1-bit tag.
    match check_tag_width(3, 1) {
        Err(AttributeError::TooManyVariants { count: 3, bits: 1, max: 2 }) => {}
        _ => panic!("three variants accepted in one bit"),
    }
    assert!(check_tag_width(3, 2).is_ok());
    assert!(check_tag_width(256, 8).is_ok());
    assert!(check_tag_width(257, 8).is_err());
    assert_eq!(max_variants(8), 256);
    assert_eq!(max_variants(0), 1);
    assert_eq!(max_variants(usize::BITS as usize), usize::MAX);
}

// --- Whole messages ---

fn pair(first: Schema, rest: Schema) -> Schema {
    Schema::Pair { first: Box::new(first), rest: Box::new(rest) }
}

fn pv(a: Value, b: Value) -> Value {
    Value::Pair(Box::new(a), Box::new(b))
}

#[test]
fn message_sensor_reading_bytes() {
    let schema = pair(Schema::Bits { n: 4 }, pair(Schema::Bits { n: 12 }, pair(Schema::Bool, Schema::Unit)));
    let value = pv(Value::Bits(9), pv(Value::Bits(3000), pv(Value::Bool(true), Value::Unit)));
    assert_eq!(encode_message(&schema, 0, &value), vec![1, 187, 137]);
}

#[test]
fn message_compact_flags_bytes() {
    let schema = pair(
        Schema::Bool,
        pair(
            Schema::Bool,
            pair(
                Schema::Bool,
                pair(
                    Schema::Bits { n: 3 },
                    pair(Schema::Bits { n: 5 }, pair(Schema::Bytes { len_bytes: 2 }, Schema::Unit)),
                ),
            ),
        ),
    );
    let value = pv(
        Value::Bool(true),
        pv(
            Value::Bool(false),
            pv(
                Value::Bool(true),
                pv(Value::Bits(7), pv(Value::Bits(31), pv(Value::Bytes(vec![0xAA; 3]), Value::Unit))),
            ),
        ),
    );
    let encoded = encode_message(&schema, 0, &value);
    assert_eq!(encoded, vec![0x00, 0x03, 0xAA, 0xAA, 0xAA, 0x07, 0xFD]);
    assert!(decode_message(&schema, 0, &encoded).is_ok());
}

#[test]
fn message_reserved_bits() {
    let schema = pair(Schema::Bits { n: 4 }, Schema::Unit);
    let value = pv(Value::Bits(9), Value::Unit);
    let encoded = encode_message(&schema, 4, &value);
    assert_eq!(encoded, vec![0x90]);
    match decode_message(&schema, 4, &encoded) {
        Ok(Value::Pair(a, _)) => assert!(matches!(*a, Value::Bits(9))),
        _ => panic!("reserved bits not skipped"),
    }
}

#[test]
fn message_unknown_tag_and_eof() {
    let alts = Alternatives::Alt {
        fields: Box::new(Schema::Unit),
        rest: Box::new(Alternatives::Alt { fields: Box::new(Schema::Unit), rest: Box::new(Alternatives::End) }),
    };
    let schema = Schema::Enum { tag_bits: 2, variants: Box::new(alts) };
    assert!(matches!(decode_message(&schema, 0, &[0x03]), Err(DecodeError::UnknownTag(3))));
    assert!(matches!(decode_message(&schema, 0, &[]), Err(DecodeError::UnexpectedEof)));
    match decode_message(&schema, 0, &[0x01]) {
        Ok(Value::Variant(1, f)) => assert!(matches!(*f, Value::Unit)),
        _ => panic!("tag 1 not decoded"),
    }
}

#[test]
fn message_list_of_records_shares_bit_stream() {
    let item = pair(Schema::Uint { width: 1 }, pair(Schema::Bool, Schema::Unit));
    let schema = Schema::List { len_bytes: 1, item: Box::new(item) };
    let elem = |x: u128, b: bool| pv(Value::Uint(x), pv(Value::Bool(b), Value::Unit));
    let value = Value::Cons(
        Box::new(elem(5, true)),
        Box::new(Value::Cons(Box::new(elem(6, false)), Box::new(Value::Nil))),
    );
    let encoded = encode_message(&schema, 0, &value);
    assert_eq!(encoded, vec![2, 5, 6, 0b01]);
    assert!(decode_message(&schema, 0, &encoded).is_ok());
    assert!(matches!(decode_message(&schema, 0, &[2, 5]), Err(DecodeError::UnexpectedEof)));
}

// --- Reading type definitions ---

fn named(name: &str, ty: TypeDesc) -> FieldDesc {
    FieldDesc { ident: Some(name.to_string()), ty }
}

fn unnamed(ty: TypeDesc) -> FieldDesc {
    FieldDesc { ident: None, ty }
}

#[test]
fn parse_struct_with_named_fields() {
    let input = InputDesc {
        ident: "Sensor".to_string(),
        data: DataDesc::Struct(FieldsDesc::Named(vec![
            named("channel", path("u8", None)),
            named("label", path("Option", Some(path("String", None)))),
            named("items", path("Vec", Some(path("Point", None)))),
        ])),
    };
    match StructOrEnum::parse(&input) {
        Ok(StructOrEnum::Struct { name, fields: Fields::Named { fields } }) => {
            assert_eq!(name, "Sensor");
            assert_eq!(fields.len(), 3);
            assert_eq!(fields[0].name.as_deref(), Some("channel"));
            assert!(!fields[0].optional);
            assert!(matches!(fields[0].kind, FieldKind::Primitive { kind: PrimitiveKind::U8 }));
            assert_eq!(fields[1].name.as_deref(), Some("label"));
            assert!(fields[1].optional);
            assert!(matches!(fields[1].kind, FieldKind::String));
            assert!(!fields[2].optional);
            match &fields[2].kind {
                FieldKind::Vec { inner_type } => assert_eq!(inner_type, "Point"),
                _ => panic!("expected a Vec kind"),
            }
        },
        _ => panic!("expected a struct with named fields"),
    }
}

#[test]
fn parse_tuple_struct_drops_names() {
    let input = InputDesc {
        ident: "Pair".to_string(),
        data: DataDesc::Struct(FieldsDesc::Unnamed(vec![
            unnamed(path("u32", None)),
            unnamed(TypeDesc::Array { len: ArrayLen::Int("4".to_string()) }),
        ])),
    };
    match StructOrEnum::parse(&input) {
        Ok(StructOrEnum::Struct { name, fields: Fields::Unnamed { fields } }) => {
            assert_eq!(name, "Pair");
            assert_eq!(fields.len(), 2);
            assert!(fields[0].name.is_none());
            assert!(matches!(fields[1].kind, FieldKind::Array { size: 4 }));
        },
        _ => panic!("expected a tuple struct"),
    }
}

#[test]
fn parse_enum_keeps_variant_order() {
    let input = InputDesc {
        ident: "Command".to_string(),
        data: DataDesc::Enum(vec![
            VariantDesc { ident: "Ping".to_string(), fields: FieldsDesc::Unit },
            VariantDesc {
                ident: "Move".to_string(),
                fields: FieldsDesc::Named(vec![named("x", path("i32", None)), named("y", path("i32", None))]),
            },
            VariantDesc {
                ident: "Send".to_string(),
                fields: FieldsDesc::Unnamed(vec![unnamed(path("Payload", None))]),
            },
        ]),
    };
    match StructOrEnum::parse(&input) {
        Ok(StructOrEnum::Enum { name, variants }) => {
            assert_eq!(name, "Command");
            assert_eq!(variants.len(), 3);
            assert_eq!(variants[0].variant, "Ping");
            assert!(matches!(variants[0].fields, Fields::Unit));
            assert_eq!(variants[1].variant, "Move");
            assert!(matches!(&variants[1].fields, Fields::Named { fields } if fields.len() == 2));
            assert_eq!(variants[2].variant, "Send");
            match &variants[2].fields {
                Fields::Unnamed { fields } => {
                    assert!(matches!(&fields[0].kind, FieldKind::StructOrEnum { type_ident } if type_ident == "Payload"));
                },
                _ => panic!("expected unnamed fields"),
            }
        },
        _ => panic!("expected an enum"),
    }
}

#[test]
fn parse_reports_first_bad_field() {
    let input = InputDesc {
        ident: "Bad".to_string(),
        data: DataDesc::Struct(FieldsDesc::Named(vec![
            named("ok", path("u8", None)),
            named("first", TypeDesc::Array { len: ArrayLen::NotLiteral }),
            named("second", TypeDesc::Other),
        ])),
    };
    assert!(matches!(StructOrEnum::parse(&input), Err(ClassifyError::ArrayLenNotLiteral)));
}

#[test]
fn parse_reports_first_bad_variant() {
    let input = InputDesc {
        ident: "Bad".to_string(),
        data: DataDesc::Enum(vec![
            VariantDesc { ident: "A".to_string(), fields: FieldsDesc::Unit },
            VariantDesc {
                ident: "B".to_string(),
                fields: FieldsDesc::Unnamed(vec![unnamed(path("Option", Some(TypeDesc::Other)))]),
            },
            VariantDesc { ident: "C".to_string(), fields: FieldsDesc::Unnamed(vec![unnamed(TypeDesc::Other)]) },
        ]),
    };
    assert!(matches!(StructOrEnum::parse(&input), Err(ClassifyError::UnsupportedOptionInner)));
}

#[test]
fn parse_refuses_union() {
    let input = InputDesc { ident: "U".to_string(), data: DataDesc::Union };
    assert!(matches!(StructOrEnum::parse(&input), Err(ClassifyError::UnionNotSupported)));
}

#[test]
fn parse_fields_of_unit() {
    assert!(matches!(parse_fields(&FieldsDesc::Unit), Ok(Fields::Unit)));
}

#[test]
fn mod_name_is_lowercased() {
    assert_eq!(make_mod_name(&"SensorReading".to_string(), "encode"), "__binsard_encode_sensorreading");
    assert_eq!(make_mod_name(&"Point".to_string(), "decode"), "__binsard_decode_point");
    assert_eq!(mod_name_from_lower("abc", "x"), "__binsard_x_abc");
}

// --- Error descriptions ---

#[test]
fn decode_error_descriptions() {
    assert_eq!(DecodeError::UnexpectedEof.describe(), "unexpected end of input");
    assert_eq!(DecodeError::InvalidUtf8.describe(), "invalid UTF-8 in string field");
    assert_eq!(DecodeError::UnknownTag(7).describe(), "unknown enum tag: 7");
    assert_eq!(DecodeError::UnknownTag(42).describe(), "unknown enum tag: 42");
    assert_eq!(DecodeError::UnknownTag(255).describe(), "unknown enum tag: 255");
    assert_eq!(DecodeError::UnknownTag(0).describe(), "unknown enum tag: 0");
    assert_eq!(DecodeError::LengthTooLarge.describe(), "length prefix is too large");
}

// --- Scenarios from the documentation and the examples ---

fn priority_schema() -> Schema {
    let alts = Alternatives::Alt {
        fields: Box::new(Schema::Unit),
        rest: Box::new(Alternatives::Alt {
            fields: Box::new(Schema::Unit),
            rest: Box::new(Alternatives::Alt { fields: Box::new(Schema::Unit), rest: Box::new(Alternatives::End) }),
        }),
    };
    Schema::Enum { tag_bits: 2, variants: Box::new(alts) }
}

#[test]
fn priority_high_is_one_byte() {
    let encoded = try_encode_message(&priority_schema(), 0, &Value::Variant(2, Box::new(Value::Unit))).unwrap();
    assert_eq!(encoded, vec![0b10]);
    match decode_message(&priority_schema(), 0, &encoded) {
        Ok(Value::Variant(2, f)) => assert!(matches!(*f, Value::Unit)),
        _ => panic!("Priority::High not decoded"),
    }
}

#[test]
fn packet_packs_twenty_three_bits_into_three_bytes() {
    let sensor = pair(Schema::Bits { n: 4 }, pair(Schema::Bits { n: 12 }, pair(Schema::Bool, Schema::Unit)));
    let schema = pair(Schema::Bits { n: 4 }, pair(priority_schema(), pair(sensor, Schema::Unit)));
    let sensor_value = pv(Value::Bits(12), pv(Value::Bits(2048), pv(Value::Bool(true), Value::Unit)));
    let value = pv(Value::Bits(3), pv(Value::Variant(2, Box::new(Value::Unit)), pv(sensor_value, Value::Unit)));
    let encoded = try_encode_message(&schema, 0, &value).unwrap();
    assert_eq!(encoded.len(), 3);
    let decoded = decode_message(&schema, 0, &encoded).unwrap();
    let again = try_encode_message(&schema, 0, &decoded).unwrap();
    assert_eq!(again, encoded);
}

fn point_schema() -> Schema {
    pair(Schema::Uint { width: 4 }, pair(Schema::Uint { width: 4 }, Schema::Unit))
}

#[test]
fn point_is_eight_bytes_and_truncation_is_eof() {
    let value = pv(Value::Uint(10), pv(Value::Uint((-5i32) as u32 as u128), Value::Unit));
    let encoded = try_encode_message(&point_schema(), 0, &value).unwrap();
    assert_eq!(encoded, vec![0, 0, 0, 10, 0xFF, 0xFF, 0xFF, 0xFB]);
    assert!(matches!(decode_message(&point_schema(), 0, &[0x00, 0x01]), Err(DecodeError::UnexpectedEof)));
    assert!(matches!(decode_message(&point_schema(), 0, &[]), Err(DecodeError::UnexpectedEof)));
}

#[test]
fn message_with_payload_roundtrip() {
    let schema = pair(Schema::Uint { width: 4 }, pair(Schema::Bool, pair(Schema::Bytes { len_bytes: 2 }, Schema::Unit)));
    let value = pv(Value::Uint(42), pv(Value::Bool(true), pv(Value::Bytes(vec![0xDE, 0xAD]), Value::Unit)));
    let encoded = try_encode_message(&schema, 0, &value).unwrap();
    assert_eq!(encoded, vec![0, 0, 0, 42, 0, 2, 0xDE, 0xAD, 0x01]);
    match decode_message(&schema, 0, &encoded) {
        Ok(Value::Pair(id, rest)) => {
            assert!(matches!(*id, Value::Uint(42)));
            match *rest {
                Value::Pair(active, rest) => {
                    assert!(matches!(*active, Value::Bool(true)));
                    assert!(matches!(*rest, Value::Pair(ref p, _) if matches!(**p, Value::Bytes(ref b) if *b == vec![0xDE, 0xAD])));
                },
                _ => panic!("missing fields"),
            }
        },
        _ => panic!("message not decoded"),
    }
}

#[test]
fn try_encode_refuses_what_does_not_fit() {
    let schema = pair(Schema::Str { len_bytes: 1 }, Schema::Unit);
    let long = pv(Value::Str("x".repeat(256)), Value::Unit);
    assert!(try_encode_message(&schema, 0, &long).is_none());
    let ok = pv(Value::Str("x".repeat(255)), Value::Unit);
    assert_eq!(try_encode_message(&schema, 0, &ok).unwrap().len(), 256);
    let wrong_shape = pv(Value::Bool(true), Value::Unit);
    assert!(try_encode_message(&schema, 0, &wrong_shape).is_none());
    assert!(!value_conforms(&schema, &wrong_shape));
    assert!(value_conforms(&schema, &ok));
}

#[test]
fn schema_checks() {
    assert!(schema_is_wf(&point_schema()));
    assert!(schema_is_wf(&priority_schema()));
    assert!(!schema_is_wf(&Schema::Bits { n: 65 }));
    assert!(!schema_is_wf(&Schema::Uint { width: 17 }));
    assert!(!schema_is_wf(&Schema::Str { len_bytes: 3 }));
    assert!(fits_prefix(255, 1));
    assert!(!fits_prefix(256, 1));
    assert!(fits_prefix(65535, 2));
    assert!(!fits_prefix(65536, 2));
    assert!(!fits_prefix(0, 3));
}
