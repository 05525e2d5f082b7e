use serde_numpy::parsing::array_types::{Array, Base, F32Bits, F64Bits};
use serde_numpy::parsing::errors::{DecodeError, ValueKind};
use serde_numpy::parsing::python_types::{JsonNumber, NumRepr, PythonType};
use serde_numpy::parsing::parse_utils::{get_shape, to_i32, to_i64};
use serde_numpy::parsing::{InputTypes, OutputTypes, Structure, StructureDescriptor};

use num_traits::ToPrimitive;

fn num(n: &serde_json::Number) -> JsonNumber {
    if let Some(u) = n.as_u64() {
        JsonNumber {
            repr: NumRepr::Uint(u),
            as_i64: u.to_i64(),
            as_u64: Some(u),
            as_f32_bits: (u as f32).to_bits(),
            as_f64_bits: (u as f64).to_bits(),
        }
    } else if let Some(i) = n.as_i64() {
        JsonNumber {
            repr: NumRepr::Int(i),
            as_i64: Some(i),
            as_u64: i.to_u64(),
            as_f32_bits: (i as f32).to_bits(),
            as_f64_bits: (i as f64).to_bits(),
        }
    } else {
        let f = n.as_f64().unwrap();
        JsonNumber {
            repr: NumRepr::Float(f.to_bits()),
            as_i64: f.to_i64(),
            as_u64: f.to_u64(),
            as_f32_bits: (f as f32).to_bits(),
            as_f64_bits: f.to_bits(),
        }
    }
}

fn to_py(v: &serde_json::Value) -> PythonType {
    match v {
        serde_json::Value::Null => PythonType::Null,
        serde_json::Value::Bool(b) => PythonType::Bool(*b),
        serde_json::Value::Number(n) => PythonType::Number(num(n)),
        serde_json::Value::String(s) => PythonType::Str(s.clone()),
        serde_json::Value::Array(items) => PythonType::List(items.iter().map(to_py).collect()),
        serde_json::Value::Object(entries) => {
            PythonType::Dict(entries.iter().map(|(k, x)| (k.clone(), to_py(x))).collect())
        }
    }
}

fn descriptor(schema_json: &str) -> StructureDescriptor {
    let v: serde_json::Value = serde_json::from_str(schema_json).unwrap();
    StructureDescriptor::from_value(&to_py(&v)).unwrap()
}

fn decode(d: &StructureDescriptor, json: &str) -> Result<OutputTypes, DecodeError> {
    let v: serde_json::Value = serde_json::from_str(json).unwrap();
    d.deserialize(&to_py(&v))
}

#[test]
fn scalar_passthrough() {
    let d = descriptor(r#"{"a": "int32"}"#);
    let out = decode(&d, r#"{"a": 5}"#).unwrap();
    let expected = OutputTypes::Dict(vec![(
        "a".to_string(),
        OutputTypes::I32(Array(Base::Scalar(5), None)),
    )]);
    assert_eq!(out, expected);
}

#[test]
fn one_dimensional_shape_inference() {
    let d = descriptor(r#"{"a": "int32"}"#);
    let out = decode(&d, r#"{"a": [1, 2, 3]}"#).unwrap();
    let expected = OutputTypes::Dict(vec![(
        "a".to_string(),
        OutputTypes::I32(Array(Base::Array(vec![1, 2, 3]), Some(vec![3]))),
    )]);
    assert_eq!(out, expected);
}

#[test]
fn nested_shape_inference() {
    let d = descriptor(r#"{"a": "int32"}"#);
    let out = decode(&d, r#"{"a": [[1, 2], [3, 4], [5, 6]]}"#).unwrap();
    let expected = OutputTypes::Dict(vec![(
        "a".to_string(),
        OutputTypes::I32(Array(Base::Array(vec![1, 2, 3, 4, 5, 6]), Some(vec![3, 2]))),
    )]);
    assert_eq!(out, expected);
}

#[test]
fn irregular_shape_is_rejected() {
    let d = descriptor(r#"{"a": "int32"}"#);
    let err = decode(&d, r#"{"a": [[1, 2], [3]]}"#).unwrap_err();
    assert_eq!(
        err,
        DecodeError::IrregularShape { shape: vec![2, 2], len: 3 }
    );
}

#[test]
fn overflow_is_rejected_and_in_range_passes() {
    let d = descriptor(r#""int8""#);
    let err = decode(&d, "300").unwrap_err();
    assert_eq!(
        err,
        DecodeError::CastOverflow { value: NumRepr::Uint(300), target: InputTypes::int8 }
    );
    let out = decode(&d, "120").unwrap();
    assert_eq!(out, OutputTypes::I8(Array(Base::Scalar(120), None)));
}

#[test]
fn row_transpose() {
    let d = descriptor(r#"{"rows": [["int32", "float32"]]}"#);
    let out = decode(&d, r#"{"rows": [[1, 2.5], [3, 4.5]]}"#).unwrap();
    let expected = OutputTypes::Dict(vec![(
        "rows".to_string(),
        OutputTypes::List(vec![
            OutputTypes::I32(Array(Base::Array(vec![1, 3]), Some(vec![2]))),
            OutputTypes::F32(Array(
                Base::Array(vec![F32Bits(2.5f32.to_bits()), F32Bits(4.5f32.to_bits())]),
                Some(vec![2]),
            )),
        ]),
    )]);
    assert_eq!(out, expected);
}

#[test]
fn keyed_row_transpose_missing_key() {
    let d = descriptor(r#"{"rows": [{"x": "int32", "y": "float32"}]}"#);
    let err = decode(&d, r#"{"rows": [{"x": 1, "y": 2.5}, {"x": 3}]}"#).unwrap_err();
    assert_eq!(err, DecodeError::MissingKeys { keys: vec!["y".to_string()] });
}

#[test]
fn keyed_row_transpose() {
    let d = descriptor(r#"{"rows": [{"x": "int32", "y": "float32"}]}"#);
    let out = decode(&d, r#"{"rows": [{"x": 1, "y": 2.5}, {"x": 3, "y": 4.5}]}"#).unwrap();
    let expected = OutputTypes::Dict(vec![(
        "rows".to_string(),
        OutputTypes::Dict(vec![
            (
                "x".to_string(),
                OutputTypes::I32(Array(Base::Array(vec![1, 3]), Some(vec![2]))),
            ),
            (
                "y".to_string(),
                OutputTypes::F32(Array(
                    Base::Array(vec![F32Bits(2.5f32.to_bits()), F32Bits(4.5f32.to_bits())]),
                    Some(vec![2]),
                )),
            ),
        ]),
    )]);
    assert_eq!(out, expected);
}

#[test]
fn unknown_fields_are_tolerated() {
    let d = descriptor(r#"{"a": "int32"}"#);
    let out = decode(&d, r#"{"a": 1, "b": 2}"#).unwrap();
    let expected = OutputTypes::Dict(vec![(
        "a".to_string(),
        OutputTypes::I32(Array(Base::Scalar(1), None)),
    )]);
    assert_eq!(out, expected);
}

#[test]
fn missing_fields_are_strict() {
    let d = descriptor(r#"{"a": "int32", "b": "int32"}"#);
    let err = decode(&d, r#"{"a": 1}"#).unwrap_err();
    assert_eq!(err, DecodeError::MissingKeys { keys: vec!["b".to_string()] });
}

#[test]
fn empty_array_has_zero_shape() {
    let d = descriptor(r#"{"a": "int32"}"#);
    let out = decode(&d, r#"{"a": []}"#).unwrap();
    let expected = OutputTypes::Dict(vec![(
        "a".to_string(),
        OutputTypes::I32(Array(Base::Array(vec![]), Some(vec![0]))),
    )]);
    assert_eq!(out, expected);
}

#[test]
fn unsupported_type_token() {
    let v: serde_json::Value = serde_json::from_str(r#"{"a": "int128"}"#).unwrap();
    let err = StructureDescriptor::from_value(&to_py(&v)).unwrap_err();
    assert_eq!(err, DecodeError::UnsupportedType { token: "int128".to_string() });
}

#[test]
fn empty_structure_list_is_rejected() {
    let v: serde_json::Value = serde_json::from_str(r#"{"a": []}"#).unwrap();
    let err = StructureDescriptor::from_value(&to_py(&v)).unwrap_err();
    assert_eq!(
        err,
        DecodeError::UnsupportedType { token: "unsupported structure".to_string() }
    );
}

#[test]
fn schema_mismatch_object_against_sequence() {
    let d = descriptor(r#"{"a": "int32"}"#);
    let err = decode(&d, r#"[1, 2]"#).unwrap_err();
    assert_eq!(
        err,
        DecodeError::SchemaMismatch { expected: ValueKind::Dict, found: ValueKind::List }
    );
}

#[test]
fn schema_mismatch_number_against_string() {
    let d = descriptor(r#"{"a": "int32"}"#);
    let err = decode(&d, r#"{"a": "five"}"#).unwrap_err();
    assert_eq!(
        err,
        DecodeError::SchemaMismatch { expected: ValueKind::Number, found: ValueKind::Str }
    );
}

#[test]
fn sequence_exhausted_in_tuple() {
    let d = descriptor(r#"{"a": ["int32", "float32"]}"#);
    let err = decode(&d, r#"{"a": [[1, 2]]}"#).unwrap_err();
    assert_eq!(err, DecodeError::SequenceExhausted { expected: 2, found: 1 });
}

#[test]
fn sequence_exhausted_in_row() {
    let d = descriptor(r#"{"a": [["int32", "float32"]]}"#);
    let err = decode(&d, r#"{"a": [[1, 2.5], [3]]}"#).unwrap_err();
    assert_eq!(err, DecodeError::SequenceExhausted { expected: 2, found: 1 });
}

#[test]
fn trailing_tuple_elements_are_ignored() {
    let d = descriptor(r#"{"a": ["int32"]}"#);
    let out = decode(&d, r#"{"a": [7, [1, 2], "extra"]}"#).unwrap();
    let expected = OutputTypes::Dict(vec![(
        "a".to_string(),
        OutputTypes::List(vec![OutputTypes::I32(Array(Base::Scalar(7), None))]),
    )]);
    assert_eq!(out, expected);
}

#[test]
fn float_to_int_truncates_in_range() {
    let d = descriptor(r#""int32""#);
    let out = decode(&d, "5.7").unwrap();
    assert_eq!(out, OutputTypes::I32(Array(Base::Scalar(5), None)));
}

#[test]
fn float_to_int_overflow() {
    let d = descriptor(r#""int8""#);
    let err = decode(&d, "300.5").unwrap_err();
    assert_eq!(
        err,
        DecodeError::CastOverflow {
            value: NumRepr::Float(300.5f64.to_bits()),
            target: InputTypes::int8
        }
    );
}

#[test]
fn uint64_keeps_large_values() {
    let d = descriptor(r#""uint64""#);
    let out = decode(&d, "18446744073709551615").unwrap();
    assert_eq!(out, OutputTypes::U64(Array(Base::Scalar(u64::MAX), None)));
    let err = decode(&d, "-1").unwrap_err();
    assert_eq!(
        err,
        DecodeError::CastOverflow { value: NumRepr::Int(-1), target: InputTypes::uint64 }
    );
}

#[test]
fn bool_array() {
    let d = descriptor(r#"{"m": "bool_"}"#);
    let out = decode(&d, r#"{"m": [[true, false], [false, true]]}"#).unwrap();
    let expected = OutputTypes::Dict(vec![(
        "m".to_string(),
        OutputTypes::Bool(Array(
            Base::Array(vec![true, false, false, true]),
            Some(vec![2, 2]),
        )),
    )]);
    assert_eq!(out, expected);
}

#[test]
fn bool_array_rejects_numbers() {
    let d = descriptor(r#"{"m": "bool_"}"#);
    let err = decode(&d, r#"{"m": [true, 1]}"#).unwrap_err();
    assert_eq!(
        err,
        DecodeError::SchemaMismatch { expected: ValueKind::Bool, found: ValueKind::Number }
    );
}

#[test]
fn float64_roundtrips_bits() {
    let d = descriptor(r#""float64""#);
    let out = decode(&d, "2.5").unwrap();
    assert_eq!(
        out,
        OutputTypes::F64(Array(Base::Scalar(F64Bits(2.5f64.to_bits())), None))
    );
}

#[test]
fn dynamic_passthrough_keeps_subtree() {
    let d = descriptor(r#"{"a": "any"}"#);
    let out = decode(&d, r#"{"a": {"x": [1, "two", null]}}"#).unwrap();
    let v: serde_json::Value = serde_json::from_str(r#"{"x": [1, "two", null]}"#).unwrap();
    let expected = OutputTypes::Dict(vec![(
        "a".to_string(),
        OutputTypes::PythonType(to_py(&v)),
    )]);
    assert_eq!(out, expected);
}

#[test]
fn dynamic_column_in_rows() {
    let d = descriptor(r#"{"rows": [["int32", "str"]]}"#);
    let out = decode(&d, r#"{"rows": [[1, "a"], [2, "b"]]}"#).unwrap();
    let expected = OutputTypes::Dict(vec![(
        "rows".to_string(),
        OutputTypes::List(vec![
            OutputTypes::I32(Array(Base::Array(vec![1, 2]), Some(vec![2]))),
            OutputTypes::PyList(vec![
                PythonType::Str("a".to_string()),
                PythonType::Str("b".to_string()),
            ]),
        ]),
    )]);
    assert_eq!(out, expected);
}

#[test]
fn duplicate_keyed_row_key_is_last_write_wins() {
    // A keyed row whose map holds the same declared key twice keeps the
    // later value; this is built directly because JSON maps dedup keys.
    let cols = vec![("x".to_string(), InputTypes::int32)];
    let d = StructureDescriptor { data: Structure::ListofMap(vec![cols]) };
    let row = PythonType::Dict(vec![
        ("x".to_string(), int_number(1)),
        ("x".to_string(), int_number(2)),
    ]);
    let out = d.deserialize(&PythonType::List(vec![row])).unwrap();
    let expected = OutputTypes::Dict(vec![(
        "x".to_string(),
        OutputTypes::I32(Array(Base::Array(vec![2]), Some(vec![1]))),
    )]);
    assert_eq!(out, expected);
}

fn int_number(i: i64) -> PythonType {
    PythonType::Number(JsonNumber {
        repr: NumRepr::Int(i),
        as_i64: Some(i),
        as_u64: i.to_u64(),
        as_f32_bits: (i as f32).to_bits(),
        as_f64_bits: (i as f64).to_bits(),
    })
}

#[test]
fn duplicate_object_key_is_last_write_wins() {
    // An input object holding the same declared key twice keeps the later
    // value; this is built directly because JSON maps dedup keys.
    let d = StructureDescriptor {
        data: Structure::Object(vec![(
            "x".to_string(),
            Structure::Type(InputTypes::int32),
        )]),
    };
    let value = PythonType::Dict(vec![
        ("x".to_string(), int_number(1)),
        ("x".to_string(), int_number(2)),
    ]);
    let out = d.deserialize(&value).unwrap();
    let expected = OutputTypes::Dict(vec![(
        "x".to_string(),
        OutputTypes::I32(Array(Base::Scalar(2), None)),
    )]);
    assert_eq!(out, expected);
}

#[test]
fn msgpack_documents_decode() {
    // The engine is agnostic to the wire encoding: the same schema decodes
    // a MessagePack document once the tokenizer has produced the value tree.
    let d = descriptor(r#"{"a": "int32"}"#);
    let v: serde_json::Value = serde_json::from_str(r#"{"a": [1, 2, 3]}"#).unwrap();
    let bytes = rmp_serde::to_vec_named(&v).unwrap();
    let round: serde_json::Value = rmp_serde::from_slice(&bytes).unwrap();
    let out = d.deserialize(&to_py(&round)).unwrap();
    let expected = OutputTypes::Dict(vec![(
        "a".to_string(),
        OutputTypes::I32(Array(Base::Array(vec![1, 2, 3]), Some(vec![3]))),
    )]);
    assert_eq!(out, expected);
}

#[test]
fn kind_names() {
    assert_eq!(InputTypes::int32.kind_name(), "np.int32");
    assert_eq!(InputTypes::bool_.kind_name(), "np.bool_");
    assert_eq!(InputTypes::any.kind_name(), "any");
}

#[test]
fn from_str_parses_tokens() {
    assert_eq!(InputTypes::from_str("int8").unwrap(), InputTypes::int8);
    assert_eq!(InputTypes::from_str("uint64").unwrap(), InputTypes::uint64);
    assert_eq!(InputTypes::from_str("float32").unwrap(), InputTypes::float32);
    assert_eq!(InputTypes::from_str("bool_").unwrap(), InputTypes::bool_);
    assert_eq!(InputTypes::from_str("any").unwrap(), InputTypes::any);
    assert_eq!(
        InputTypes::from_str("whatever").unwrap_err(),
        DecodeError::UnsupportedType { token: "whatever".to_string() }
    );
}

#[test]
fn to_i32_truncates() {
    assert_eq!(to_i32(5), 5);
    assert_eq!(to_i32(-5), -5);
    assert_eq!(to_i32(0x1_0000_0005), 5);
    assert_eq!(to_i64(1 << 40), 1 << 40);
}

#[test]
fn get_shape_reads_dimensions() {
    let v: serde_json::Value = serde_json::from_str("[[1, 2], [3, 4], [5, 6]]").unwrap();
    let value = to_py(&v);
    let none: Option<usize> = None;
    assert_eq!(get_shape(&value, &none), vec![3, 2]);
    assert_eq!(get_shape(&value, &Some(0usize)), vec![3]);
    let scalar = to_py(&serde_json::from_str("7").unwrap());
    assert_eq!(get_shape(&scalar, &none), Vec::<usize>::new());
}
