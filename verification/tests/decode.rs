use serde_numpy::parsing::array_types::{Array, Base, F32Bits};
use serde_numpy::parsing::python_types::{JsonNumber, NumRepr, PythonType};
use serde_numpy::parsing::{OutputTypes, StructureDescriptor};

use num_traits::ToPrimitive;

fn num(n: &serde_json::Number) -> JsonNumber {
    if let Some(u) = n.as_u64() {
        JsonNumber {
            repr: NumRepr::Uint(u),
            as_i64: u.to_i64(),
            as_u64: Some(u),
            as_f32_bits: (u as f32).to_bits(),
            as_f64_bits: (u as f64).to_bits(),
        }
    } else if let Some(i) = n.as_i64() {
        JsonNumber {
            repr: NumRepr::Int(i),
            as_i64: Some(i),
            as_u64: i.to_u64(),
            as_f32_bits: (i as f32).to_bits(),
            as_f64_bits: (i as f64).to_bits(),
        }
    } else {
        let f = n.as_f64().unwrap();
        JsonNumber {
            repr: NumRepr::Float(f.to_bits()),
            as_i64: f.to_i64(),
            as_u64: f.to_u64(),
            as_f32_bits: (f as f32).to_bits(),
            as_f64_bits: f.to_bits(),
        }
    }
}

fn to_py(v: &serde_json::Value) -> PythonType {
    match v {
        serde_json::Value::Null => PythonType::Null,
        serde_json::Value::Bool(b) => PythonType::Bool(*b),
        serde_json::Value::Number(n) => PythonType::Number(num(n)),
        serde_json::Value::String(s) => PythonType::Str(s.clone()),
        serde_json::Value::Array(items) => PythonType::List(items.iter().map(to_py).collect()),
        serde_json::Value::Object(entries) => {
            PythonType::Dict(entries.iter().map(|(k, x)| (k.clone(), to_py(x))).collect())
        }
    }
}

fn descriptor(schema_json: &str) -> StructureDescriptor {
    let v: serde_json::Value = serde_json::from_str(schema_json).unwrap();
    StructureDescriptor::from_value(&to_py(&v)).unwrap()
}

fn decode(d: &StructureDescriptor, json: &str) -> OutputTypes {
    let v: serde_json::Value = serde_json::from_str(json).unwrap();
    d.deserialize(&to_py(&v)).unwrap()
}

fn f32bits(x: f32) -> F32Bits {
    F32Bits(x.to_bits())
}

#[test]
fn test_flat() {
    let flat_structure = r#"{
        "int": "int32",
        "int_arr": "int32",
        "int_arr2D": "int32",
        "int_arr3D": "int32",
        "float": "float32",
        "float_arr": "float32"
    }"#;

    let structure_descriptor = descriptor(flat_structure);

    let json = r#"{
        "int": 5,
        "int_arr": [-1, 3],
        "int_arr2D": [[1, 2], [3, 4], [5, 6]],
        "int_arr3D": [[[1, 2], [3, 4], [5, 6]]],
        "float": -1.8,
        "float_arr": [6.7, 7.8]
    }"#;

    let out = decode(&structure_descriptor, json);

    // Input objects arrive with their keys sorted, so the decoded entries
    // appear in sorted key order.
    let expected = OutputTypes::Dict(vec![
        (
            "float".to_string(),
            OutputTypes::F32(Array(Base::Scalar(f32bits(-1.8f64 as f32)), None)),
        ),
        (
            "float_arr".to_string(),
            OutputTypes::F32(Array(
                Base::Array(vec![f32bits(6.7f64 as f32), f32bits(7.8f64 as f32)]),
                Some(vec![2]),
            )),
        ),
        (
            "int".to_string(),
            OutputTypes::I32(Array(Base::Scalar(5), None)),
        ),
        (
            "int_arr".to_string(),
            OutputTypes::I32(Array(Base::Array(vec![-1, 3]), Some(vec![2]))),
        ),
        (
            "int_arr2D".to_string(),
            OutputTypes::I32(Array(Base::Array(vec![1, 2, 3, 4, 5, 6]), Some(vec![3, 2]))),
        ),
        (
            "int_arr3D".to_string(),
            OutputTypes::I32(Array(
                Base::Array(vec![1, 2, 3, 4, 5, 6]),
                Some(vec![1, 3, 2]),
            )),
        ),
    ]);

    assert_eq!(out, expected);
}

#[test]
fn test_nested() {
    let nested_structure = r#"{
        "int": {"int_arr2D": "int32"},
        "float": {"float_arr2D": "float32"}
    }"#;

    let structure_descriptor = descriptor(nested_structure);

    let json = r#"{
        "int": {"int_arr2D": [[1, 2], [3, 4], [5, 6]]},
        "float": {"float_arr2D": [6.7, 7.8]}
    }"#;

    let out = decode(&structure_descriptor, json);

    let int_arr =
        OutputTypes::I32(Array(Base::Array(vec![1, 2, 3, 4, 5, 6]), Some(vec![3, 2])));

    let float_arr = OutputTypes::F32(Array(
        Base::Array(vec![f32bits(6.7f64 as f32), f32bits(7.8f64 as f32)]),
        Some(vec![2]),
    ));

    let expected = OutputTypes::Dict(vec![
        (
            "float".to_string(),
            OutputTypes::Dict(vec![("float_arr2D".to_string(), float_arr)]),
        ),
        (
            "int".to_string(),
            OutputTypes::Dict(vec![("int_arr2D".to_string(), int_arr)]),
        ),
    ]);

    assert_eq!(out, expected);
}

#[test]
fn test_list() {
    let structure = r#"{
        "arr1": ["int32", "float32"],
        "arr2": ["float32", "float32"]
    }"#;

    let structure_descriptor = descriptor(structure);

    let json = r#"{
        "arr1": [[[1, 2], [3, 4], [5, 6]], [6.7, 7.8]],
        "arr2": [[3.4, 4.5], [6.7, 7.8]]
    }"#;

    let out = decode(&structure_descriptor, json);

    let expected = OutputTypes::Dict(vec![
        (
            "arr1".to_string(),
            OutputTypes::List(vec![
                OutputTypes::I32(Array(Base::Array(vec![1, 2, 3, 4, 5, 6]), Some(vec![3, 2]))),
                OutputTypes::F32(Array(
                    Base::Array(vec![f32bits(6.7f64 as f32), f32bits(7.8f64 as f32)]),
                    Some(vec![2]),
                )),
            ]),
        ),
        (
            "arr2".to_string(),
            OutputTypes::List(vec![
                OutputTypes::F32(Array(
                    Base::Array(vec![f32bits(3.4f64 as f32), f32bits(4.5f64 as f32)]),
                    Some(vec![2]),
                )),
                OutputTypes::F32(Array(
                    Base::Array(vec![f32bits(6.7f64 as f32), f32bits(7.8f64 as f32)]),
                    Some(vec![2]),
                )),
            ]),
        ),
    ]);

    assert_eq!(out, expected);
}

#[test]
fn test_list_of_lists() {
    let structure = r#"{
        "arr1": [["int32", "float32"]]
    }"#;

    let structure_descriptor = descriptor(structure);

    let json = r#"{
        "arr1": [[1, 2.1],
                 [3, 4.3],
                 [5, 6.5],
                 [6, 7.8]]
    }"#;

    let out = decode(&structure_descriptor, json);

    let expected = OutputTypes::Dict(vec![(
        "arr1".to_string(),
        OutputTypes::List(vec![
            OutputTypes::I32(Array(Base::Array(vec![1, 3, 5, 6]), Some(vec![4]))),
            OutputTypes::F32(Array(
                Base::Array(vec![
                    f32bits(2.1f64 as f32),
                    f32bits(4.3f64 as f32),
                    f32bits(6.5f64 as f32),
                    f32bits(7.8f64 as f32),
                ]),
                Some(vec![4]),
            )),
        ]),
    )]);

    assert_eq!(out, expected);
}

#[test]
fn test_list_of_maps() {
    let structure = r#"{
        "arr1": [{"a": "int32", "b": "float32"}]
    }"#;

    let structure_descriptor = descriptor(structure);

    let json = r#"{
        "arr1": [{"a": 1, "b": 2.1},
                 {"a": 3, "b": 4.3},
                 {"a": 5, "b": 6.5},
                 {"a": 6, "b": 7.8}]
    }"#;

    let out = decode(&structure_descriptor, json);

    let expected = OutputTypes::Dict(vec![(
        "arr1".to_string(),
        OutputTypes::Dict(vec![
            (
                "a".to_string(),
                OutputTypes::I32(Array(Base::Array(vec![1, 3, 5, 6]), Some(vec![4]))),
            ),
            (
                "b".to_string(),
                OutputTypes::F32(Array(
                    Base::Array(vec![
                        f32bits(2.1f64 as f32),
                        f32bits(4.3f64 as f32),
                        f32bits(6.5f64 as f32),
                        f32bits(7.8f64 as f32),
                    ]),
                    Some(vec![4]),
                )),
            ),
        ]),
    )]);

    assert_eq!(out, expected);
}
