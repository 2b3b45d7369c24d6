use zmerald::de::{decode_value, from_str};
use zmerald::item::{FieldShape, Item, Shape, VariantForm, VariantShape};
use zmerald::ser::{to_string, to_string_pretty, value_to_string, value_to_string_pretty, PrettyConfig};
use zmerald::value::{f64_rank, value_eq, Float, Number, Value, ValueMap};

fn fs(name: &str, shape: Shape) -> FieldShape {
    FieldShape { name: name.to_string(), shape }
}

fn vs(name: &str, form: VariantForm) -> VariantShape {
    VariantShape { name: name.to_string(), form }
}

#[test]
fn canonical_primitives() {
    assert_eq!(to_string(&Item::Bool(true)), "true");
    assert_eq!(to_string(&Item::Bool(false)), "false");
    assert_eq!(to_string(&Item::U8(0)), "0");
    assert_eq!(to_string(&Item::U64(18446744073709551615)), "18446744073709551615");
    assert_eq!(to_string(&Item::I64(-9223372036854775808)), "-9223372036854775808");
    assert_eq!(to_string(&Item::I32(-42)), "-42");
    assert_eq!(to_string(&Item::Char('c')), "'c'");
    assert_eq!(to_string(&Item::Char('\'')), "'\\''");
    assert_eq!(to_string(&Item::Char('\\')), "'\\\\'");
    assert_eq!(to_string(&Item::Str("he lo".to_string())), "\"he lo\"");
    assert_eq!(
        to_string(&Item::Str("say \"hi\"".to_string())),
        "\"say \\\"hi\\\"\""
    );
    assert_eq!(to_string(&Item::Unit), "()");
    assert_eq!(to_string(&Item::Option(None)), "None");
    assert_eq!(
        to_string(&Item::Option(Some(Box::new(Item::U8(1))))),
        "1"
    );
    assert_eq!(to_string(&Item::Bytes(vec![1, 2, 3, 4])), "\"AQIDBA==\"");
    assert_eq!(to_string(&Item::F32(3.5f32.to_bits())), "3.5");
}

#[test]
fn canonical_composites() {
    assert_eq!(
        to_string(&Item::List(vec![Item::U8(1), Item::U8(2), Item::U8(3)])),
        "[1,2,3]"
    );
    assert_eq!(
        to_string(&Item::Tuple(vec![Item::Bool(true), Item::U8(4)])),
        "(true,4)"
    );
    assert_eq!(
        to_string(&Item::Mapping(vec![
            (Item::U8(4), Item::U8(7)),
            (Item::U8(5), Item::U8(8)),
        ])),
        "{4:7,5:8}"
    );
    assert_eq!(
        to_string(&Item::Struct(
            "MyStruct".to_string(),
            vec![
                ("x".to_string(), Item::U8(4)),
                ("y".to_string(), Item::U8(7)),
            ]
        )),
        "{x:4,y:7}"
    );
    assert_eq!(
        to_string(&Item::StructVariant(
            "D".to_string(),
            vec![
                ("a".to_string(), Item::I32(2)),
                ("b".to_string(), Item::I32(3)),
            ]
        )),
        "D{a:2,b:3}"
    );
    assert_eq!(
        to_string(&Item::UnitVariant("triangle-list".to_string())),
        "r#triangle-list"
    );
}

#[test]
fn enum_round_trip() {
    // a tuple variant serializes to its canonical text and decodes back to
    // the identical variant and payload
    let c = Item::TupleVariant(
        "C".to_string(),
        vec![Item::Bool(true), Item::F32(3.5f32.to_bits())],
    );
    let text = to_string(&c);
    assert_eq!(text, "C(true,3.5)");
    let shape = Shape::Enum(
        "MyEnum".to_string(),
        vec![
            vs("A", VariantForm::Unit),
            vs("B", VariantForm::Newtype(Box::new(Shape::Bool))),
            vs("C", VariantForm::Tuple(vec![Shape::Bool, Shape::F32])),
        ],
    );
    assert_eq!(from_str(&text, &shape), Ok(c));
}

#[test]
fn newtype_variant_wrapping() {
    // a boolean payload is never double-wrapped
    let b = Item::NewtypeVariant("B".to_string(), Box::new(Item::Bool(true)));
    assert_eq!(to_string(&b), "B(true)");
    // a struct payload reuses the variant's parentheses: exactly one pair
    let s = Item::NewtypeVariant(
        "W".to_string(),
        Box::new(Item::Struct(
            "Inner".to_string(),
            vec![
                ("x".to_string(), Item::U8(1)),
                ("y".to_string(), Item::U8(2)),
            ],
        )),
    );
    assert_eq!(to_string(&s), "W(x:1,y:2)");
    // a tuple payload likewise
    let t = Item::NewtypeVariant(
        "W".to_string(),
        Box::new(Item::Tuple(vec![Item::U8(1), Item::U8(2)])),
    );
    assert_eq!(to_string(&t), "W(1,2)");
}

#[test]
fn primitive_round_trips() {
    // decode(encode(v)) == v for primitives, canonical and pretty
    let cases = vec![
        (Item::Bool(true), Shape::Bool),
        (Item::Bool(false), Shape::Bool),
        (Item::U8(255), Shape::U8),
        (Item::U16(65535), Shape::U16),
        (Item::U32(4294967295), Shape::U32),
        (Item::U64(18446744073709551615), Shape::U64),
        (Item::I8(-128), Shape::I8),
        (Item::I16(-32768), Shape::I16),
        (Item::I32(-2147483648), Shape::I32),
        (Item::I64(-9223372036854775808), Shape::I64),
        (Item::Char('q'), Shape::Char),
        (Item::Char('\''), Shape::Char),
        (Item::Char('\\'), Shape::Char),
        (Item::Str("plain words".to_string()), Shape::Str),
        (Item::Unit, Shape::Unit),
        (Item::Option(None), Shape::Option(Box::new(Shape::U8))),
        (Item::F32(2.5f32.to_bits()), Shape::F32),
        (Item::F64(0.3f64.to_bits()), Shape::F64),
        (Item::Bytes(vec![9, 8, 7]), Shape::Bytes),
    ];
    for (item, shape) in cases {
        let canonical = to_string(&item);
        assert_eq!(from_str(&canonical, &shape), Ok(item));
        // pretty mode emits the same text for these primitives
        let again = from_str(&canonical, &shape).unwrap();
        let pretty = to_string_pretty(&again, PrettyConfig::new());
        assert_eq!(from_str(&pretty, &shape).unwrap(), again);
    }
}

#[test]
fn pretty_idempotence() {
    // re-decoding pretty-printed output reproduces the value it was printed from
    let item = Item::Struct(
        "Config".to_string(),
        vec![
            ("flag".to_string(), Item::Bool(true)),
            ("count".to_string(), Item::U32(12)),
            (
                "names".to_string(),
                Item::List(vec![
                    Item::Str("a".to_string()),
                    Item::Str("b".to_string()),
                ]),
            ),
            (
                "pair".to_string(),
                Item::Tuple(vec![Item::I32(-1), Item::I32(2)]),
            ),
        ],
    );
    let shape = Shape::Struct(
        "Config".to_string(),
        vec![
            fs("flag", Shape::Bool),
            fs("count", Shape::U32),
            fs("names", Shape::List(Box::new(Shape::Str))),
            fs("pair", Shape::Tuple(vec![Shape::I32, Shape::I32])),
        ],
    );
    let configs = vec![
        PrettyConfig::new(),
        PrettyConfig::new().struct_names(true),
        PrettyConfig::new().separate_tuple_members(true),
        PrettyConfig::new().compact_arrays(true),
        PrettyConfig::new().depth_limit(1),
        PrettyConfig::new().indentor("\t".to_string()),
        PrettyConfig::new().decimal_floats(true),
    ];
    for config in configs {
        let pretty = to_string_pretty(&item, config);
        assert_eq!(from_str(&pretty, &shape), Ok(from_str(&to_string(&item), &shape).unwrap()));
    }
}

#[test]
fn pretty_layout() {
    let item = Item::Struct(
        "P".to_string(),
        vec![
            ("x".to_string(), Item::U8(1)),
            ("y".to_string(), Item::U8(2)),
        ],
    );
    assert_eq!(
        to_string_pretty(&item, PrettyConfig::new()),
        "{\n    x: 1,\n    y: 2,\n}"
    );
    assert_eq!(
        to_string_pretty(&item, PrettyConfig::new().struct_names(true)),
        "P{\n    x: 1,\n    y: 2,\n}"
    );
    let list = Item::List(vec![Item::U8(1), Item::U8(2)]);
    assert_eq!(
        to_string_pretty(&list, PrettyConfig::new()),
        "[\n    1,\n    2,\n]"
    );
    assert_eq!(
        to_string_pretty(&list, PrettyConfig::new().compact_arrays(true)),
        "[1, 2]"
    );
    assert_eq!(
        to_string_pretty(&list, PrettyConfig::new().enumerate_arrays(true)),
        "[\n    /*[0]*/ 1,\n    /*[1]*/ 2,\n]"
    );
    assert_eq!(
        to_string_pretty(&Item::F32(1.0f32.to_bits()), PrettyConfig::new().decimal_floats(true)),
        "1.0"
    );
}

#[test]
fn pretty_config_defaults() {
    let c = PrettyConfig::new();
    assert_eq!(c.depth_limit, usize::MAX);
    assert_eq!(c.new_line, "\n");
    assert_eq!(c.indentor, "    ");
    assert_eq!(c.separator, " ");
    assert!(!c.struct_names);
    assert!(!c.separate_tuple_members);
    assert!(!c.enumerate_arrays);
    assert!(!c.decimal_floats);
    assert!(!c.compact_arrays);
    let c = PrettyConfig::new()
        .depth_limit(3)
        .struct_names(true)
        .decimal_floats(true);
    assert_eq!(c.depth_limit, 3);
    assert!(c.struct_names);
    assert!(c.decimal_floats);
}

#[test]
fn value_map_semantics() {
    let mut m = ValueMap::new();
    assert!(m.is_empty());
    assert_eq!(m.insert(Value::String("a".to_string()), Value::Bool(true)), None);
    assert_eq!(
        m.insert(Value::String("b".to_string()), Value::Unit),
        None
    );
    assert_eq!(m.len(), 2);
    // overwriting keeps the position and returns the displaced value
    assert_eq!(
        m.insert(Value::String("a".to_string()), Value::Bool(false)),
        Some(Value::Bool(true))
    );
    assert_eq!(m.len(), 2);
    assert_eq!(m.entry(0).1, Value::Bool(false));
    assert_eq!(
        m.remove(&Value::String("a".to_string())),
        Some(Value::Bool(false))
    );
    assert_eq!(m.len(), 1);
    assert_eq!(m.remove(&Value::String("a".to_string())), None);
}

#[test]
fn float_total_order() {
    let nan = f64::NAN.to_bits();
    let neg_zero = (-0.0f64).to_bits();
    let pos_zero = 0.0f64.to_bits();
    // every NaN is the same value and the two zeros coincide
    assert_eq!(f64_rank(nan), f64_rank((f64::NAN * 2.0).to_bits()));
    assert_eq!(f64_rank(neg_zero), f64_rank(pos_zero));
    assert!(Float::new(nan).same(Float::new(nan)));
    // NaN is the minimum; negatives run below positives
    assert!(f64_rank(nan) < f64_rank(f64::NEG_INFINITY.to_bits()));
    assert!(f64_rank((-1.5f64).to_bits()) < f64_rank((-1.0f64).to_bits()));
    assert!(f64_rank((-1.0f64).to_bits()) < f64_rank(1.0f64.to_bits()));
    assert!(f64_rank(1.0f64.to_bits()) < f64_rank(f64::INFINITY.to_bits()));
}

#[test]
fn value_equality() {
    let a = Value::Number(Number::Float(Float::new(f64::NAN.to_bits())));
    let b = Value::Number(Number::Float(Float::new((f64::NAN * 3.0).to_bits())));
    assert!(value_eq(&a, &b));
    assert!(!value_eq(&a, &Value::Number(Number::Integer(1))));
    assert!(value_eq(
        &Value::List(vec![Value::Bool(true)]),
        &Value::List(vec![Value::Bool(true)])
    ));
    assert!(!value_eq(
        &Value::List(vec![Value::Bool(true)]),
        &Value::List(vec![])
    ));
}

#[test]
fn number_widening() {
    assert_eq!(Number::from_u64(7), Number::Integer(7));
    assert_eq!(
        Number::from_u64(9223372036854775807),
        Number::Integer(9223372036854775807)
    );
    // beyond the signed range the value falls back to a float
    match Number::from_u64(18446744073709551615) {
        Number::Float(f) => {
            assert_eq!(f.get(), (18446744073709551615u64 as f64).to_bits());
        }
        other => panic!("expected a float, got {:?}", other),
    }
    assert_eq!(Number::Integer(-3).as_i64(), Some(-3));
    assert_eq!(Number::Integer(-3).as_f64_bits(), None);
}

#[test]
fn repeated_sequence_field_accumulates() {
    // the general merge rule, on concrete values
    let shape = Shape::Struct(
        "S".to_string(),
        vec![fs("x", Shape::List(Box::new(Shape::U32))), fs("y", Shape::U8)],
    );
    let got = from_str("S{ x: [4], y: 1, x: [5, 6] }", &shape).unwrap();
    assert_eq!(
        got,
        Item::Struct(
            "S".to_string(),
            vec![
                (
                    "x".to_string(),
                    Item::List(vec![Item::U32(4), Item::U32(5), Item::U32(6)])
                ),
                ("y".to_string(), Item::U8(1)),
            ]
        )
    );
    // a non-sequence field is overwritten instead: the last value wins
    let shape2 = Shape::Struct("S".to_string(), vec![fs("y", Shape::U8)]);
    let got = from_str("S{ y: 1, y: 2 }", &shape2).unwrap();
    assert_eq!(
        got,
        Item::Struct("S".to_string(), vec![("y".to_string(), Item::U8(2))])
    );
}

#[test]
fn base64_strings_round_trip() {
    let item = Item::Bytes(vec![0, 255, 17, 3]);
    let text = to_string(&item);
    assert_eq!(from_str(&text, &Shape::Bytes), Ok(item));
}

#[test]
fn dynamic_value_round_trip() {
    let v = decode_value("{ a: 1, b: [true, false], c: \"hi\" }").unwrap();
    let text = value_to_string(&v);
    assert_eq!(text, "{\"a\":1,\"b\":[true,false],\"c\":\"hi\"}");
    assert_eq!(decode_value(&text).unwrap(), v);
    let pretty = value_to_string_pretty(&v, PrettyConfig::new());
    assert_eq!(decode_value(&pretty).unwrap(), v);
}
