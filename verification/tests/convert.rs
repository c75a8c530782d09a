use avro_to_json::base64_encode;
use avro_to_json::avro_value_to_json;
use avro_to_json::convert_avro_to_json;
use avro_to_json::convert_avro_to_json_with_color;
use avro_to_json::write_json_output;
use avro_to_json::json_text::to_json_string;
use avro_to_json::json_text::to_json_string_pretty;
use avro_to_json::colorize::colorize_json;
use avro_to_json::value::AvroVal;
use avro_to_json::value::JsonVal;

fn obj_get<'a>(entries: &'a [(String, JsonVal)], key: &str) -> &'a JsonVal {
    &entries.iter().find(|(k, _)| k == key).expect("key absent").1
}

#[test]
fn test_avro_null_to_json() {
    let avro_value = AvroVal::Null;
    let json_value = avro_value_to_json(&avro_value);
    assert_eq!(json_value, JsonVal::Null);
}

#[test]
fn test_avro_boolean_to_json() {
    let avro_value = AvroVal::Boolean(true);
    let json_value = avro_value_to_json(&avro_value);
    assert_eq!(json_value, JsonVal::Bool(true));
}

#[test]
fn test_avro_int_to_json() {
    let avro_value = AvroVal::Int(42);
    let json_value = avro_value_to_json(&avro_value);
    assert_eq!(json_value, JsonVal::NumLong(42));
}

#[test]
fn test_avro_string_to_json() {
    let avro_value = AvroVal::Str("hello".to_string());
    let json_value = avro_value_to_json(&avro_value);
    assert_eq!(json_value, JsonVal::Str("hello".to_string()));
}

#[test]
fn test_avro_array_to_json() {
    let avro_array = vec![
        AvroVal::Str("item1".to_string()),
        AvroVal::Str("item2".to_string()),
    ];
    let avro_value = AvroVal::Array(avro_array);
    let json_value = avro_value_to_json(&avro_value);

    match json_value {
        JsonVal::Arr(arr) => {
            assert_eq!(arr.len(), 2);
            assert_eq!(arr[0], JsonVal::Str("item1".to_string()));
            assert_eq!(arr[1], JsonVal::Str("item2".to_string()));
        }
        _ => panic!("Expected array"),
    }
}

#[test]
fn test_avro_record_to_json() {
    let mut fields = Vec::new();
    fields.push(("name".to_string(), AvroVal::Str("John".to_string())));
    fields.push(("age".to_string(), AvroVal::Int(30)));

    let avro_value = AvroVal::Record(fields);
    let json_value = avro_value_to_json(&avro_value);

    match json_value {
        JsonVal::Obj(obj) => {
            assert_eq!(obj.len(), 2);
            assert_eq!(*obj_get(&obj, "name"), JsonVal::Str("John".to_string()));
            assert_eq!(*obj_get(&obj, "age"), JsonVal::NumLong(30));
        }
        _ => panic!("Expected object"),
    }
}

#[test]
fn test_base64_encode() {
    let input = b"hello";
    let encoded = base64_encode(input);
    assert_eq!(encoded, "aGVsbG8=");

    let input2 = b"hello world";
    let encoded2 = base64_encode(input2);
    assert_eq!(encoded2, "aGVsbG8gd29ybGQ=");
}

#[test]
fn test_avro_bytes_to_json() {
    let bytes = vec![0x48, 0x65, 0x6c, 0x6c, 0x6f];
    let avro_value = AvroVal::Bytes(bytes);
    let json_value = avro_value_to_json(&avro_value);
    assert_eq!(json_value, JsonVal::Str("SGVsbG8=".to_string()));
}

#[test]
fn test_base64_rfc_vectors() {
    assert_eq!(base64_encode(b""), "");
    assert_eq!(base64_encode(b"f"), "Zg==");
    assert_eq!(base64_encode(b"fo"), "Zm8=");
    assert_eq!(base64_encode(b"foo"), "Zm9v");
    assert_eq!(base64_encode(b"foob"), "Zm9vYg==");
    assert_eq!(base64_encode(b"fooba"), "Zm9vYmE=");
    assert_eq!(base64_encode(b"foobar"), "Zm9vYmFy");
}

#[test]
fn test_finite_double_maps_to_number() {
    let f: f64 = 2.5;
    let avro_value = AvroVal::Double(f.to_bits(), "2.5".to_string());
    let json_value = avro_value_to_json(&avro_value);
    assert_eq!(json_value, JsonVal::NumDouble(f.to_bits(), "2.5".to_string()));
    assert_eq!(to_json_string(&json_value), "2.5");
}

#[test]
fn test_nonfinite_double_maps_to_null() {
    let nan = AvroVal::Double(f64::NAN.to_bits(), String::new());
    assert_eq!(avro_value_to_json(&nan), JsonVal::Null);
    let inf = AvroVal::Double(f64::INFINITY.to_bits(), String::new());
    assert_eq!(avro_value_to_json(&inf), JsonVal::Null);
    let neg_inf = AvroVal::Float(f64::NEG_INFINITY.to_bits(), String::new());
    assert_eq!(avro_value_to_json(&neg_inf), JsonVal::Null);
}

#[test]
fn test_union_is_transparent() {
    let direct = avro_value_to_json(&AvroVal::Int(5));
    let through_union = avro_value_to_json(&AvroVal::Union(1, Box::new(AvroVal::Int(5))));
    assert_eq!(direct, through_union);
    let null_branch = avro_value_to_json(&AvroVal::Union(0, Box::new(AvroVal::Null)));
    assert_eq!(null_branch, JsonVal::Null);
}

#[test]
fn test_map_duplicate_keys_last_write_wins() {
    let entries = vec![
        ("k".to_string(), AvroVal::Int(1)),
        ("other".to_string(), AvroVal::Int(2)),
        ("k".to_string(), AvroVal::Int(3)),
    ];
    let json_value = avro_value_to_json(&AvroVal::Mapping(entries));
    match json_value {
        JsonVal::Obj(obj) => {
            assert_eq!(obj.len(), 2);
            assert_eq!(obj[0].0, "k");
            assert_eq!(obj[0].1, JsonVal::NumLong(3));
            assert_eq!(obj[1].0, "other");
        }
        _ => panic!("Expected object"),
    }
}

#[test]
fn test_tagged_time_strings() {
    assert_eq!(
        avro_value_to_json(&AvroVal::Date(19000)),
        JsonVal::Str("days-since-epoch:19000".to_string())
    );
    assert_eq!(
        avro_value_to_json(&AvroVal::TimestampMillis(-5)),
        JsonVal::Str("timestamp-millis:-5".to_string())
    );
    assert_eq!(
        avro_value_to_json(&AvroVal::TimeMicros(i64::MIN)),
        JsonVal::Str(format!("time-micros:{}", i64::MIN))
    );
    assert_eq!(
        avro_value_to_json(&AvroVal::LocalTimestampMicros(7)),
        JsonVal::Str("local-timestamp-micros:7".to_string())
    );
}

#[test]
fn test_duration_matches_host_debug_form() {
    let raw: [u8; 12] = [5, 0, 0, 0, 2, 0, 0, 0, 7, 0, 0, 0];
    let d = apache_avro::Duration::from(raw);
    let expected = format!("duration:{:?}:{:?}:{:?}", d.months(), d.days(), d.millis());
    let got = avro_value_to_json(&AvroVal::Duration(5, 2, 7));
    assert_eq!(got, JsonVal::Str(expected));
}

#[test]
fn test_enum_and_fixed() {
    assert_eq!(
        avro_value_to_json(&AvroVal::Enum(2, "HEARTS".to_string())),
        JsonVal::Str("HEARTS".to_string())
    );
    assert_eq!(
        avro_value_to_json(&AvroVal::Fixed(2, vec![0xde, 0xad])),
        JsonVal::Str("3q0=".to_string())
    );
    assert_eq!(
        avro_value_to_json(&AvroVal::Uuid("550e8400-e29b-41d4-a716-446655440000".to_string())),
        JsonVal::Str("550e8400-e29b-41d4-a716-446655440000".to_string())
    );
    assert_eq!(
        avro_value_to_json(&AvroVal::Decimal("4096".to_string())),
        JsonVal::Str("decimal:4096".to_string())
    );
}

#[test]
fn test_serializer_matches_host_compact() {
    // Keys in alphabetical order so the host library's sorted maps agree
    // with insertion order.
    let ours = JsonVal::Obj(vec![
        ("a".to_string(), JsonVal::Arr(vec![
            JsonVal::NumLong(-7),
            JsonVal::Bool(false),
            JsonVal::Null,
        ])),
        ("b".to_string(), JsonVal::Str("x\"y\\z\n\u{1}".to_string())),
    ]);
    let mut m = serde_json::Map::new();
    m.insert(
        "a".to_string(),
        serde_json::Value::Array(vec![
            serde_json::Value::Number(serde_json::Number::from(-7)),
            serde_json::Value::Bool(false),
            serde_json::Value::Null,
        ]),
    );
    m.insert(
        "b".to_string(),
        serde_json::Value::String("x\"y\\z\n\u{1}".to_string()),
    );
    let host = serde_json::Value::Object(m);
    assert_eq!(to_json_string(&ours), serde_json::to_string(&host).unwrap());
    assert_eq!(
        to_json_string_pretty(&ours),
        serde_json::to_string_pretty(&host).unwrap()
    );
}

#[test]
fn test_empty_containers_serialize() {
    assert_eq!(to_json_string(&JsonVal::Arr(vec![])), "[]");
    assert_eq!(to_json_string_pretty(&JsonVal::Arr(vec![])), "[]");
    assert_eq!(to_json_string(&JsonVal::Obj(vec![])), "{}");
    assert_eq!(to_json_string_pretty(&JsonVal::Obj(vec![])), "{}");
    let empty_arr = serde_json::Value::Array(vec![]);
    let empty_obj = serde_json::Value::Object(serde_json::Map::new());
    assert_eq!(
        to_json_string_pretty(&JsonVal::Arr(vec![])),
        serde_json::to_string_pretty(&empty_arr).unwrap()
    );
    assert_eq!(
        to_json_string_pretty(&JsonVal::Obj(vec![])),
        serde_json::to_string_pretty(&empty_obj).unwrap()
    );
}

#[test]
fn test_empty_records_array_mode() {
    let records: Vec<AvroVal> = Vec::new();
    assert_eq!(convert_avro_to_json(&records, false, true), "[]\n");
    assert_eq!(convert_avro_to_json(&records, true, true), "[]\n");
}

#[test]
fn test_empty_records_line_mode() {
    let records: Vec<AvroVal> = Vec::new();
    assert_eq!(convert_avro_to_json(&records, false, false), "");
    assert_eq!(convert_avro_to_json(&records, true, false), "");
}

#[test]
fn test_single_record_array_mode() {
    let records = vec![AvroVal::Record(vec![
        ("name".to_string(), AvroVal::Str("John".to_string())),
        ("age".to_string(), AvroVal::Int(30)),
    ])];
    let out = convert_avro_to_json(&records, false, true);
    assert_eq!(out, "[{\"name\":\"John\",\"age\":30}]\n");
}

#[test]
fn test_two_records_line_mode() {
    let records = vec![
        AvroVal::Record(vec![("a".to_string(), AvroVal::Int(1))]),
        AvroVal::Record(vec![("b".to_string(), AvroVal::Int(2))]),
    ];
    let out = convert_avro_to_json(&records, false, false);
    assert_eq!(out, "{\"a\":1}\n{\"b\":2}\n");
    assert_eq!(out.lines().count(), 2);
    for line in out.lines() {
        assert!(line.starts_with('{') && line.ends_with('}'));
        assert!(!line.contains('\n'));
    }
}

#[test]
fn test_write_json_output_units() {
    let records = vec![JsonVal::NumLong(1), JsonVal::Str("x".to_string())];
    let units = write_json_output(records, false, false, false);
    assert_eq!(units, vec!["1".to_string(), "\"x\"".to_string()]);

    let records2 = vec![JsonVal::NumLong(1), JsonVal::Str("x".to_string())];
    let units2 = write_json_output(records2, false, true, false);
    assert_eq!(units2, vec!["[1,\"x\"]".to_string()]);
}

#[test]
fn test_colorize_applies_styles() {
    colored::control::set_override(true);
    let out = colorize_json("{}");
    assert_eq!(out, "\u{1b}[34m{\u{1b}[0m\u{1b}[34m}\u{1b}[0m");
    let styled = colorize_json("{\"a\":1,\"b\":[true,null]}");
    assert_ne!(styled, "{\"a\":1,\"b\":[true,null]}");
    let stripped: String = {
        let mut s = styled.clone();
        for code in ["\u{1b}[31m", "\u{1b}[32m", "\u{1b}[33m", "\u{1b}[34m", "\u{1b}[35m",
            "\u{1b}[36m", "\u{1b}[37m", "\u{1b}[0m"] {
            s = s.replace(code, "");
        }
        s
    };
    assert_eq!(stripped, "{\"a\":1,\"b\":[true,null]}");
    colored::control::unset_override();
}

#[test]
fn test_colorize_disabled_preserves_text() {
    colored::control::set_override(false);
    let text = "{\"k\":\"v w\",\"n\":-1.5e3}";
    assert_eq!(colorize_json(text), text);
    colored::control::unset_override();
}

#[test]
fn test_convert_with_color_plain_when_off() {
    let records = vec![AvroVal::Boolean(true)];
    let plain = convert_avro_to_json_with_color(&records, false, false, false);
    assert_eq!(plain, "true\n");
}

#[test]
fn test_pretty_line_mode_record() {
    let records = vec![AvroVal::Record(vec![
        ("a".to_string(), AvroVal::Int(1)),
    ])];
    let out = convert_avro_to_json(&records, true, false);
    assert_eq!(out, "{\n  \"a\": 1\n}\n");
}

#[test]
fn test_nested_pretty_array_mode() {
    let records = vec![AvroVal::Array(vec![AvroVal::Int(1), AvroVal::Int(2)])];
    let out = convert_avro_to_json(&records, true, true);
    assert_eq!(out, "[\n  [\n    1,\n    2\n  ]\n]\n");
}
