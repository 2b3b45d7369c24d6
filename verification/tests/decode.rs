use zmerald::de::{de_any_number, decode_value, from_str, AnyNum};
use zmerald::error::{err, Error, ErrorCode};
use zmerald::item::{FieldShape, Item, Shape, VariantForm, VariantShape};
use zmerald::value::{Number, Value};

fn fs(name: &str, shape: Shape) -> FieldShape {
    FieldShape { name: name.to_string(), shape }
}

fn vs(name: &str, form: VariantForm) -> VariantShape {
    VariantShape { name: name.to_string(), form }
}

fn my_struct_shape() -> Shape {
    Shape::Struct(
        "MyStruct".to_string(),
        vec![fs("x", Shape::F32), fs("y", Shape::F32)],
    )
}

fn my_struct_item(x: f32, y: f32) -> Item {
    Item::Struct(
        "MyStruct".to_string(),
        vec![
            ("x".to_string(), Item::F32(x.to_bits())),
            ("y".to_string(), Item::F32(y.to_bits())),
        ],
    )
}

fn my_enum_shape() -> Shape {
    Shape::Enum(
        "MyEnum".to_string(),
        vec![
            vs("A", VariantForm::Unit),
            vs("B", VariantForm::Newtype(Box::new(Shape::Bool))),
            vs("C", VariantForm::Tuple(vec![Shape::Bool, Shape::F32])),
            vs(
                "D",
                VariantForm::Struct(vec![fs("a", Shape::I32), fs("b", Shape::I32)]),
            ),
        ],
    )
}

#[test]
fn test_empty_struct() {
    assert_eq!(
        Ok(Item::UnitStruct("EmptyStruct1".to_string())),
        from_str("EmptyStruct1", &Shape::UnitStruct("EmptyStruct1".to_string()))
    );
    assert_eq!(
        Ok(Item::UnitStruct("EmptyStruct2".to_string())),
        from_str("EmptyStruct2{}", &Shape::UnitStruct("EmptyStruct2".to_string()))
    );
}

#[test]
fn test_struct() {
    assert_eq!(
        Ok(Item::UnitStruct("UnitStruct".to_string())),
        from_str("{}", &Shape::UnitStruct("UnitStruct".to_string()))
    );

    let my_struct = my_struct_item(4.0, 7.0);
    assert_eq!(Ok(my_struct), from_str("MyStruct{x:4,y:7,}", &my_struct_shape()));
    let my_struct = my_struct_item(4.0, 7.0);
    assert_eq!(Ok(my_struct), from_str("{x:4,y:7}", &my_struct_shape()));
    let my_struct = my_struct_item(4.0, 7.0);
    assert_eq!(
        Ok(my_struct),
        from_str(
            "MyStruct{
            <x> 4,
            <y> 7
        }",
            &my_struct_shape()
        )
    );

    let my_struct5_shape = Shape::Struct(
        "MyStruct5".to_string(),
        vec![fs("x", Shape::List(Box::new(Shape::U32)))],
    );
    let my_struct5 = Item::Struct(
        "MyStruct5".to_string(),
        vec![("x".to_string(), Item::List(vec![Item::U32(4), Item::U32(5)]))],
    );
    assert_eq!(
        Ok(my_struct5),
        from_str(
            "MyStruct5{
            x: [4],
            x: [5]
        }",
            &my_struct5_shape
        )
    );

    let my_struct4_shape = Shape::Struct(
        "MyStruct4".to_string(),
        vec![
            fs("x", Shape::Option(Box::new(Shape::Str))),
            fs("y", Shape::Str),
            fs("z", Shape::F32),
        ],
    );
    let my_struct4 = Item::Struct(
        "MyStruct4".to_string(),
        vec![
            (
                "x".to_string(),
                Item::Option(Some(Box::new(Item::Str("zme".to_string())))),
            ),
            ("y".to_string(), Item::Str("rald".to_string())),
            ("z".to_string(), Item::F32(1.0f32.to_bits())),
        ],
    );
    assert_eq!(
        Ok(my_struct4),
        from_str("MyStruct4{x:zme,y: rald,z:1.0}", &my_struct4_shape)
    );

    let new_type_shape = Shape::NewtypeStruct("NewType".to_string(), Box::new(Shape::I32));
    assert_eq!(
        Ok(Item::NewtypeStruct(
            "NewType".to_string(),
            Box::new(Item::I32(42))
        )),
        from_str("NewType(42)", &new_type_shape)
    );
    assert_eq!(
        Ok(Item::NewtypeStruct(
            "NewType".to_string(),
            Box::new(Item::I32(33))
        )),
        from_str("(33)", &new_type_shape)
    );

    let tuple_struct_shape = Shape::TupleStruct("TupleStruct".to_string(), vec![Shape::F32, Shape::F32]);
    assert_eq!(
        Ok(Item::TupleStruct(
            "TupleStruct".to_string(),
            vec![Item::F32(2.0f32.to_bits()), Item::F32(5.0f32.to_bits())]
        )),
        from_str("TupleStruct(2,5,)", &tuple_struct_shape)
    );
    assert_eq!(
        Ok(Item::TupleStruct(
            "TupleStruct".to_string(),
            vec![Item::F32(3.0f32.to_bits()), Item::F32(4.0f32.to_bits())]
        )),
        from_str("(3,4)", &tuple_struct_shape)
    );

    let my_struct2_shape = Shape::Struct(
        "MyStruct2".to_string(),
        vec![
            fs(
                "x",
                Shape::Mapping(Box::new(Shape::U16), Box::new(Shape::U16)),
            ),
            fs("y", Shape::U16),
        ],
    );
    let my_struct2 = Item::Struct(
        "MyStruct2".to_string(),
        vec![
            (
                "x".to_string(),
                Item::Mapping(vec![(Item::U16(4), Item::U16(7))]),
            ),
            ("y".to_string(), Item::U16(7)),
        ],
    );
    assert_eq!(
        Ok(my_struct2),
        from_str("MyStruct2{x:{4:7},y:7}", &my_struct2_shape)
    );
}

#[test]
fn test_option() {
    let shape = Shape::Option(Box::new(Shape::U8));
    assert_eq!(
        Ok(Item::Option(Some(Box::new(Item::U8(1))))),
        from_str("1", &shape)
    );
    assert_eq!(Ok(Item::Option(None)), from_str("None", &shape));
}

#[test]
fn test_enum() {
    assert_eq!(
        Ok(Item::UnitVariant("A".to_string())),
        from_str("A", &my_enum_shape())
    );
    assert_eq!(
        Ok(Item::NewtypeVariant(
            "B".to_string(),
            Box::new(Item::Bool(true))
        )),
        from_str("B(true,)", &my_enum_shape())
    );
    assert_eq!(
        Ok(Item::TupleVariant(
            "C".to_string(),
            vec![Item::Bool(true), Item::F32(3.5f32.to_bits())]
        )),
        from_str("C(true,3.5,)", &my_enum_shape())
    );
    assert_eq!(
        Ok(Item::StructVariant(
            "D".to_string(),
            vec![("a".to_string(), Item::I32(2)), ("b".to_string(), Item::I32(3))]
        )),
        from_str("D{a:2,b:3,}", &my_enum_shape())
    );
}

#[test]
fn test_array() {
    let empty_shape = Shape::Tuple(vec![]);
    assert_eq!(Ok(Item::Tuple(vec![])), from_str("()", &empty_shape));
    let empty_list = Shape::List(Box::new(Shape::I32));
    assert_eq!(Ok(Item::List(vec![])), from_str("[]", &empty_list));

    let trio = Shape::Tuple(vec![Shape::I32, Shape::I32, Shape::I32]);
    assert_eq!(
        Ok(Item::Tuple(vec![Item::I32(2), Item::I32(3), Item::I32(4)])),
        from_str("(2,3,4,)", &trio)
    );
    assert_eq!(
        Ok(Item::List(vec![Item::I32(2), Item::I32(3), Item::I32(4)])),
        from_str("[2,3,4,]", &empty_list)
    );

    let strings = Shape::List(Box::new(Shape::Str));
    assert_eq!(
        Ok(Item::List(vec![
            Item::Str("zme".to_string()),
            Item::Str("rald".to_string())
        ])),
        from_str("[\"zme\",rald]", &strings)
    );
    assert_eq!(
        Ok(Item::List(vec![
            Item::Str("a".to_string()),
            Item::Str("b".to_string()),
            Item::Str("he lo".to_string())
        ])),
        from_str("[a,   b,      \"he lo\"]", &strings)
    );
}

#[test]
fn test_map() {
    let map_shape = Shape::Mapping(
        Box::new(Shape::Tuple(vec![Shape::Bool, Shape::Bool])),
        Box::new(Shape::I32),
    );
    let expected = Item::Mapping(vec![
        (
            Item::Tuple(vec![Item::Bool(true), Item::Bool(false)]),
            Item::I32(4),
        ),
        (
            Item::Tuple(vec![Item::Bool(false), Item::Bool(false)]),
            Item::I32(123),
        ),
    ]);
    assert_eq!(
        Ok(&expected),
        from_str(
            "{
            (true,false,):4,
            (false,false,):123,
        }",
            &map_shape
        )
        .as_ref()
    );

    assert_eq!(
        Ok(expected),
        from_str(
            "{
            <(true,false)> 4,
            <(false, false)> 123
        }",
            &map_shape
        )
    );

    let nested_shape = Shape::Mapping(
        Box::new(Shape::Str),
        Box::new(Shape::Mapping(Box::new(Shape::I32), Box::new(Shape::I32))),
    );
    let nested = Item::Mapping(vec![(
        Item::Str("first".to_string()),
        Item::Mapping(vec![(Item::I32(4), Item::I32(5))]),
    )]);
    assert_eq!(
        Ok(nested),
        from_str(
            "{
            first <4> 5;
        }",
            &nested_shape
        )
    );

    let nested_struct_shape = Shape::Mapping(
        Box::new(Shape::Str),
        Box::new(Shape::Mapping(
            Box::new(Shape::I32),
            Box::new(my_struct_shape()),
        )),
    );
    let nested_struct = Item::Mapping(vec![(
        Item::Str("first".to_string()),
        Item::Mapping(vec![(Item::I32(4), my_struct_item(4.0, 7.0))]),
    )]);
    assert_eq!(
        Ok(nested_struct),
        from_str(
            "{
            \"first\" <4> { x:4, y:7 };
        }",
            &nested_struct_shape
        )
    );
}

#[test]
fn test_string() {
    let s = from_str("\"A string\"", &Shape::Str).unwrap();
    assert_eq!(Item::Str("A string".to_string()), s);

    let s = from_str("zmerald", &Shape::Str).unwrap();
    assert_eq!(Item::Str("zmerald".to_string()), s);

    let s = from_str("s\u{fc}d", &Shape::Str).unwrap();
    assert_eq!(Item::Str("s\u{fc}d".to_string()), s);
}

#[test]
fn test_char() {
    assert_eq!(Ok(Item::Char('c')), from_str("'c'", &Shape::Char));
    assert_eq!(Ok(Item::Char('c')), from_str("c", &Shape::Char));
    assert_eq!(
        Ok(Item::Char('\u{20ac}')),
        from_str("\u{20ac}", &Shape::Char)
    );
}

#[test]
fn test_escape_char() {
    assert_eq!(Item::Char('\''), from_str("'\\''", &Shape::Char).unwrap());
}

#[test]
fn test_escape() {
    assert_eq!(
        Item::Str("\"Quoted\"".to_string()),
        from_str(r#""\"Quoted\"""#, &Shape::Str).unwrap()
    );
}

#[test]
fn unicode_escapes_in_strings() {
    assert_eq!(
        from_str("\"caf\\u{e9}\"", &Shape::Str),
        Ok(Item::Str("caf\u{e9}".to_string()))
    );
    assert_eq!(
        from_str("\"tab\\there\"", &Shape::Str),
        Ok(Item::Str("tab\there".to_string()))
    );
}

#[test]
fn test_comment() {
    assert_eq!(
        my_struct_item(1.0, 2.0),
        from_str(
            "{
x: 1.0, # x is just 1
# There is another comment in the very next line..
# And y is indeed
y: 2.0 # 2!
}",
            &my_struct_shape()
        )
        .unwrap()
    );
}

#[test]
fn test_err_wrong_value() {
    assert_eq!(from_str("'c'", &Shape::F32), err(ErrorCode::ExpectedFloat, 1, 1));
    assert_eq!(from_str("'c'", &Shape::Str), err(ErrorCode::ExpectedString, 1, 1));
    let map_shape = Shape::Mapping(Box::new(Shape::U32), Box::new(Shape::U32));
    assert_eq!(from_str("'c'", &map_shape), err(ErrorCode::ExpectedMap, 1, 1));
    let arr_shape = Shape::Tuple(vec![Shape::U8, Shape::U8, Shape::U8, Shape::U8, Shape::U8]);
    assert_eq!(from_str("'c'", &arr_shape), err(ErrorCode::ExpectedArray, 1, 1));
    assert_eq!(
        from_str("'c'", &Shape::List(Box::new(Shape::U32))),
        err(ErrorCode::ExpectedArray, 1, 1)
    );
    assert_eq!(
        from_str("'c'", &my_enum_shape()),
        err(ErrorCode::ExpectedIdentifier, 1, 1)
    );
    assert_eq!(
        from_str("'c'", &my_struct_shape()),
        err(ErrorCode::ExpectedNamedStruct("MyStruct".to_string()), 1, 1)
    );
    assert_eq!(
        from_str("NotMyStruct(x: 4, y: 2)", &my_struct_shape()),
        err(
            ErrorCode::ExpectedStructName {
                expected: "MyStruct".to_string(),
                found: "NotMyStruct".to_string()
            },
            1,
            1
        )
    );
    assert_eq!(
        from_str("'c'", &Shape::Tuple(vec![Shape::U8, Shape::Bool])),
        err(ErrorCode::ExpectedArray, 1, 1)
    );
    assert_eq!(
        from_str("notabool", &Shape::Bool),
        err(ErrorCode::ExpectedBoolean, 1, 1)
    );

    assert_eq!(
        from_str("MyStruct{\n    x: true}", &my_struct_shape()),
        err(ErrorCode::ExpectedFloat, 2, 8)
    );
    assert_eq!(
        from_str("MyStruct{\n    x: 3.5, \n    y:}", &my_struct_shape()),
        err(ErrorCode::ExpectedFloat, 3, 7)
    );
}

#[test]
fn test_perm_ws() {
    assert_eq!(
        from_str(
            "\nMyStruct  \t { \n x   : 3.5 , \t y\n: 4.5 \n } \t\n",
            &my_struct_shape()
        ),
        Ok(my_struct_item(3.5, 4.5))
    );
}

#[test]
fn untagged() {
    let shape = Shape::Untagged(vec![Shape::U8, Shape::Bool]);
    assert_eq!(from_str("true", &shape).unwrap(), Item::Bool(true));
    assert_eq!(from_str("8", &shape).unwrap(), Item::U8(8));
}

#[test]
fn rename() {
    let shape = Shape::Enum(
        "Foo".to_string(),
        vec![vs("2d", VariantForm::Unit), vs("triangle-list", VariantForm::Unit)],
    );
    assert_eq!(
        from_str("r#2d", &shape).unwrap(),
        Item::UnitVariant("2d".to_string())
    );
    assert_eq!(
        from_str("r#triangle-list", &shape).unwrap(),
        Item::UnitVariant("triangle-list".to_string())
    );
}

#[test]
fn forgot_apostrophes() {
    let de = from_str("(4, \"Hello)", &Shape::Tuple(vec![Shape::I32, Shape::Str]));

    assert!(match de {
        Err(Error {
            code: ErrorCode::ExpectedStringEnd,
            position: _,
        }) => true,
        _ => false,
    });
}

#[test]
fn ws_tuple_newtype_variant() {
    assert_eq!(
        Ok(Item::NewtypeVariant(
            "B".to_string(),
            Box::new(Item::Bool(true))
        )),
        from_str("B  ( \n true \n ) ", &my_enum_shape())
    );
}

#[test]
fn test_byte_stream() {
    let shape = Shape::Struct(
        "BytesStruct".to_string(),
        vec![fs("small", Shape::List(Box::new(Shape::U8))), fs("large", Shape::Bytes)],
    );
    assert_eq!(
        Ok(Item::Struct(
            "BytesStruct".to_string(),
            vec![
                (
                    "small".to_string(),
                    Item::List(vec![Item::U8(1), Item::U8(2)])
                ),
                ("large".to_string(), Item::Bytes(vec![1, 2, 3, 4])),
            ]
        )),
        from_str("BytesStruct{ small:[1, 2], large:\"AQIDBA==\" }", &shape),
    );
}

#[test]
fn test_numbers() {
    assert_eq!(
        Ok(Item::List(vec![
            Item::I32(1234),
            Item::I32(12345),
            Item::I32(123456),
            Item::I32(1234567),
            Item::I32(555_555),
        ])),
        from_str(
            "[1_234, 12_345, 1_2_3_4_5_6, 1_234_567, 5_55_55_5]",
            &Shape::List(Box::new(Shape::I32))
        ),
    );
}

#[test]
fn test_any_number_precision() {
    assert_eq!(de_any_number("1"), AnyNum::U8(1));
    assert_eq!(de_any_number("+1"), AnyNum::I8(1));
    assert_eq!(de_any_number("-1"), AnyNum::I8(-1));
    assert_eq!(de_any_number("-1.0"), AnyNum::F32((-1.0f32).to_bits()));
    assert_eq!(de_any_number("1."), AnyNum::F32(1.0f32.to_bits()));
    assert_eq!(de_any_number("-1."), AnyNum::F32((-1.0f32).to_bits()));
    assert_eq!(de_any_number("0.3"), AnyNum::F64(0.3f64.to_bits()));
}

#[test]
fn decode_value_group_separators() {
    assert_eq!(
        decode_value("1_234"),
        Ok(Value::Number(Number::Integer(1234)))
    );
    assert_eq!(
        decode_value("1_2_3_4_5_6"),
        Ok(Value::Number(Number::Integer(123456)))
    );
}

#[test]
fn decode_value_trees() {
    let v = decode_value("[1, true, \"x\"]").unwrap();
    assert_eq!(
        v,
        Value::List(vec![
            Value::Number(Number::Integer(1)),
            Value::Bool(true),
            Value::String("x".to_string()),
        ])
    );
    let v = decode_value("{ a: 1, b: None }").unwrap();
    match v {
        Value::Mapping(m) => {
            assert_eq!(m.len(), 2);
            assert_eq!(
                m.get(&Value::String("a".to_string())),
                Some(&Value::Number(Number::Integer(1)))
            );
            assert_eq!(
                m.get(&Value::String("b".to_string())),
                Some(&Value::Option(None))
            );
        }
        other => panic!("expected a map, got {:?}", other),
    }
}

#[test]
fn error_positions_after_newlines() {
    let got = from_str("{\n  x: 1.0,\n  y: nope\n}", &my_struct_shape());
    assert_eq!(got, err(ErrorCode::ExpectedFloat, 3, 6));
}

#[test]
fn trailing_characters_rejected() {
    let got = from_str("true false", &Shape::Bool);
    assert_eq!(got, err(ErrorCode::TrailingCharacters, 1, 6));
}

#[test]
fn rebind_dynamic_tree() {
    // parse once into the dynamic tree, then bind into typed shapes
    let v = decode_value("{ x: 4, y: [1, 2] }").unwrap();
    let shape = Shape::Struct(
        "S".to_string(),
        vec![fs("x", Shape::U8), fs("y", Shape::List(Box::new(Shape::I64)))],
    );
    assert_eq!(
        v.into_rust(&shape),
        Ok(Item::Struct(
            "S".to_string(),
            vec![
                ("x".to_string(), Item::U8(4)),
                (
                    "y".to_string(),
                    Item::List(vec![Item::I64(1), Item::I64(2)])
                ),
            ]
        ))
    );
    // an unsigned width refuses a negative integer
    let neg = decode_value("-3").unwrap();
    assert!(neg.into_rust(&Shape::U8).is_err());
    assert_eq!(neg.into_rust(&Shape::I8), Ok(Item::I8(-3)));
    // a non-number refuses a numeric shape
    let b = decode_value("true").unwrap();
    assert!(b.into_rust(&Shape::U32).is_err());
    assert_eq!(b.into_rust(&Shape::Bool), Ok(Item::Bool(true)));
}

#[test]
fn remaining_error_kinds() {
    // a word where an integer is required
    assert_eq!(
        from_str("x", &Shape::U8),
        err(ErrorCode::ExpectedInteger, 1, 1)
    );
    // nothing at all where a char is required
    assert_eq!(from_str("", &Shape::Char), err(ErrorCode::ExpectedChar, 1, 1));
    // an unclosed unit
    assert_eq!(
        from_str("(]", &Shape::Unit),
        err(ErrorCode::ExpectedUnit, 1, 1)
    );
    // an unknown enum variant carries the name that was found
    let got = from_str("E", &my_enum_shape());
    assert_eq!(got, err(ErrorCode::Mismatch("E".to_string()), 1, 1));
    // a string that is not valid base64 where bytes are required
    assert!(matches!(
        from_str("\"%%\"", &Shape::Bytes),
        Err(Error { code: ErrorCode::Mismatch(_), .. })
    ));
    // an empty input for the dynamic reader
    assert_eq!(decode_value(""), err(ErrorCode::Eof, 1, 1));
}

#[test]
fn any_number_group_separators() {
    assert_eq!(de_any_number("1_234"), AnyNum::U16(1234));
    assert_eq!(de_any_number("1_2_3_4_5_6"), AnyNum::U32(123456));
    assert_eq!(de_any_number("12_345"), AnyNum::U16(12345));
    assert_eq!(de_any_number("1_234_567"), AnyNum::U32(1234567));
    assert_eq!(de_any_number("5_55_55_5"), AnyNum::U32(555555));
    assert_eq!(de_any_number("+1_2"), AnyNum::I8(12));
    assert_eq!(de_any_number("-1_2_8"), AnyNum::I8(-128));
}
