use std::cmp::Ordering;

use jsonschema::data::{ArrayType, Attributes, DeducedType, EnumType, StructAttribute, StructType, VariantType};
use jsonschema::deduce::DeduceType;
use jsonschema::error::DeduceTypeError;
use jsonschema::json::JsonValue;
use jsonschema::paths::Location;
use jsonschema::required::{compile, CompiledRequired};
use jsonschema::tools::combine;

fn names(parts: &[&str]) -> Vec<String> {
    parts.iter().map(|p| p.to_string()).collect()
}

fn attribute(inner_type: DeducedType, is_optional: bool) -> StructAttribute {
    StructAttribute { inner_type, is_optional }
}

fn structure(name: &[&str], attrs: Vec<(&str, StructAttribute)>, additional: Option<DeducedType>) -> DeducedType {
    let mut attributes = Attributes::new();
    for (k, a) in attrs {
        attributes.insert(k.to_string(), a);
    }
    DeducedType::Struct(Box::new(StructType { name: names(name), attributes, additional_attributes: additional }))
}

fn strings(items: &[&str]) -> JsonValue {
    JsonValue::Array(items.iter().map(|s| JsonValue::String(s.to_string())).collect())
}

/// The struct that the `properties` keyword of the schemas below describes:
/// each property optional, with its type.
fn properties_struct() -> DeducedType {
    structure(
        &["myname"],
        vec![
            ("color", attribute(DeducedType::Integer, true)),
            ("size_cm", attribute(DeducedType::Number, true)),
        ],
        None,
    )
}

fn required_struct(required: &[&str]) -> DeducedType {
    let schema = strings(required);
    let compiled = compile(&Location::new(), &schema).unwrap().unwrap();
    compiled.deduce_type(&names(&["myname"])).unwrap()
}

#[test]
fn deduce_type_test1() {
    let combined = combine(&properties_struct(), &required_struct(&["color", "size_cm"]));
    assert_eq!(
        combined,
        Ok(structure(
            &["myname"],
            vec![
                ("color", attribute(DeducedType::Integer, false)),
                ("size_cm", attribute(DeducedType::Number, false)),
            ],
            None,
        ))
    );
}

#[test]
fn deduce_type_test2() {
    let combined = combine(&properties_struct(), &required_struct(&["color"]));
    assert_eq!(
        combined,
        Ok(structure(
            &["myname"],
            vec![
                ("color", attribute(DeducedType::Integer, false)),
                ("size_cm", attribute(DeducedType::Number, true)),
            ],
            None,
        ))
    );
}

#[test]
fn combine_in_either_order_gives_the_same_attributes() {
    let a = properties_struct();
    let b = required_struct(&["color", "weight"]);
    let ab = combine(&a, &b).unwrap();
    let ba = combine(&b, &a).unwrap();
    let attrs = |t: &DeducedType| match t {
        DeducedType::Struct(s) => {
            let mut v: Vec<(String, bool, String)> = Vec::new();
            for k in ["color", "size_cm", "weight"] {
                if let Some(a) = s.attributes.get(&k.to_string()) {
                    v.push((k.to_string(), a.is_optional, format!("{:?}", a.inner_type)));
                }
            }
            v
        }
        _ => panic!("not a struct"),
    };
    assert_eq!(attrs(&ab), attrs(&ba));
    assert_eq!(
        attrs(&ab),
        vec![
            ("color".to_string(), false, "Integer".to_string()),
            ("size_cm".to_string(), true, "Number".to_string()),
            ("weight".to_string(), false, "Any".to_string()),
        ]
    );
}

#[test]
fn any_is_neutral_on_both_sides() {
    let t = properties_struct();
    assert_eq!(combine(&DeducedType::Any, &t), Ok(properties_struct()));
    assert_eq!(combine(&t, &DeducedType::Any), Ok(properties_struct()));
    assert_eq!(combine(&DeducedType::Any, &DeducedType::Any), Ok(DeducedType::Any));
    assert_eq!(combine(&DeducedType::Integer, &DeducedType::Any), Ok(DeducedType::Integer));
    assert_eq!(DeducedType::Any.combine(&DeducedType::Null), Ok(DeducedType::Null));
}

#[test]
fn combine_structs_of_different_names_is_unexpected() {
    let a = structure(&["a"], vec![], None);
    let b = structure(&["b", "c"], vec![], None);
    assert_eq!(
        combine(&a, &b),
        Err(DeduceTypeError::Unexpected(
            "combining structs with different name [\"b\", \"c\"]!=[\"a\"]".to_string()
        ))
    );
}

#[test]
fn combine_other_types_is_not_implemented() {
    assert_eq!(
        combine(&DeducedType::Integer, &DeducedType::String),
        Err(DeduceTypeError::NotImplemented(
            "DeduceType::combine: case not implemented for (Integer,String)".to_string()
        ))
    );
}

#[test]
fn combine_reports_error_of_common_attribute() {
    let a = structure(&["s"], vec![("x", attribute(DeducedType::Integer, true))], None);
    let b = structure(&["s"], vec![("x", attribute(DeducedType::Boolean, true))], None);
    assert_eq!(
        combine(&a, &b),
        Err(DeduceTypeError::NotImplemented(
            "DeduceType::combine: case not implemented for (Integer,Boolean)".to_string()
        ))
    );
}

#[test]
fn combine_additional_attributes() {
    let a = structure(&["s"], vec![], Some(DeducedType::Any));
    let b = structure(&["s"], vec![], Some(DeducedType::Number));
    let none = structure(&["s"], vec![], None);
    assert_eq!(combine(&a, &b), Ok(structure(&["s"], vec![], Some(DeducedType::Number))));
    assert_eq!(combine(&none, &b), Ok(structure(&["s"], vec![], Some(DeducedType::Number))));
    assert_eq!(combine(&b, &none), Ok(structure(&["s"], vec![], Some(DeducedType::Number))));
    assert_eq!(combine(&none, &none), Ok(structure(&["s"], vec![], None)));
    let c = structure(&["s"], vec![], Some(DeducedType::String));
    assert!(matches!(combine(&b, &c), Err(DeduceTypeError::NotImplemented(_))));
}

#[test]
fn combine_nested_structs() {
    let inner1 = structure(&["i"], vec![("p", attribute(DeducedType::Any, true))], None);
    let inner2 = structure(&["i"], vec![("p", attribute(DeducedType::Boolean, false))], None);
    let a = structure(&["o"], vec![("x", attribute(inner1, true))], None);
    let b = structure(&["o"], vec![("x", attribute(inner2, true))], None);
    let expected_inner = structure(&["i"], vec![("p", attribute(DeducedType::Boolean, false))], None);
    assert_eq!(
        combine(&a, &b),
        Ok(structure(&["o"], vec![("x", attribute(expected_inner, true))], None))
    );
}

#[test]
fn error_constructors() {
    assert_eq!(DeduceTypeError::not_implemented("x"), DeduceTypeError::NotImplemented("x".to_string()));
    assert_eq!(DeduceTypeError::unexpected("y"), DeduceTypeError::Unexpected("y".to_string()));
}

#[test]
fn index_follows_declaration_order() {
    let all = vec![
        DeducedType::String,
        DeducedType::Number,
        DeducedType::Integer,
        DeducedType::Boolean,
        DeducedType::Enum(Box::new(EnumType { name: names(&["e"]), enum_entries: vec![JsonValue::Null] })),
        DeducedType::Array(Box::new(ArrayType { inner_type: DeducedType::Any })),
        structure(&["s"], vec![], None),
        DeducedType::Variant(Box::new(VariantType { name: names(&["v"]), possible_types: vec![] })),
        DeducedType::Any,
        DeducedType::Null,
    ];
    for (i, t) in all.iter().enumerate() {
        assert_eq!(t.index(), i);
    }
    for i in 0..all.len() {
        for j in 0..all.len() {
            assert_eq!(all[i].partial_cmp(&all[j]), Some(i.cmp(&j)));
        }
    }
}

#[test]
fn order_by_names_and_items() {
    let s = |n: &[&str]| structure(n, vec![], None);
    assert_eq!(s(&["a"]).partial_cmp(&s(&["b"])), Some(Ordering::Less));
    assert_eq!(s(&["b"]).partial_cmp(&s(&["a"])), Some(Ordering::Greater));
    assert_eq!(s(&["a"]).partial_cmp(&s(&["a", "b"])), Some(Ordering::Less));
    assert_eq!(s(&["ab"]).partial_cmp(&s(&["a", "z"])), Some(Ordering::Greater));
    assert_eq!(s(&["é"]).partial_cmp(&s(&["z"])), Some(Ordering::Greater));
    assert_eq!(s(&["x"]).partial_cmp(&s(&["x"])), Some(Ordering::Equal));
    let different_attrs = structure(&["x"], vec![("k", attribute(DeducedType::Any, false))], None);
    assert_eq!(s(&["x"]).partial_cmp(&different_attrs), Some(Ordering::Equal));
    let arr = |t: DeducedType| DeducedType::Array(Box::new(ArrayType { inner_type: t }));
    assert_eq!(arr(DeducedType::String).partial_cmp(&arr(DeducedType::Null)), Some(Ordering::Less));
    assert_eq!(arr(s(&["b"])).partial_cmp(&arr(s(&["a"]))), Some(Ordering::Greater));
    assert!(DeducedType::Integer < DeducedType::Boolean);
    let e = |n: &str| DeducedType::Enum(Box::new(EnumType { name: names(&[n]), enum_entries: vec![] }));
    assert_eq!(e("b").partial_cmp(&e("c")), Some(Ordering::Less));
    let v = |n: &str| DeducedType::Variant(Box::new(VariantType { name: names(&[n]), possible_types: vec![] }));
    assert_eq!(v("d").partial_cmp(&v("c")), Some(Ordering::Greater));
}

#[test]
fn duplicate_keeps_everything() {
    let mut members = jsonschema::json::JsonObject::new();
    members.insert("k".to_string(), JsonValue::Number("1.5".to_string()));
    let t = DeducedType::Variant(Box::new(VariantType {
        name: names(&["v"]),
        possible_types: vec![
            DeducedType::Enum(Box::new(EnumType {
                name: names(&["e"]),
                enum_entries: vec![JsonValue::Object(members), JsonValue::Bool(true)],
            })),
            properties_struct(),
        ],
    }));
    assert_eq!(t.duplicate(), t);
}

struct NoDeduction;

impl DeduceType for NoDeduction {}

#[test]
fn default_deduction_is_not_implemented() {
    assert_eq!(
        NoDeduction.deduce_type(&names(&["root", "x"])),
        Err(DeduceTypeError::NotImplemented("Trait default impl for [\"root\", \"x\"]: ".to_string()))
    );
}

#[test]
fn compiled_keyword_deduces_required_attributes() {
    let schema = strings(&["a", "b", "a"]);
    let compiled = compile(&Location::new(), &schema).unwrap().unwrap();
    assert!(matches!(compiled, CompiledRequired::Many(_)));
    assert_eq!(
        compiled.deduce_type(&names(&["t"])),
        Ok(structure(
            &["t"],
            vec![("a", attribute(DeducedType::Any, false)), ("b", attribute(DeducedType::Any, false))],
            None
        ))
    );
}

#[test]
fn combine_results_are_equal_in_either_order() {
    let a = structure(&["s"], vec![("x", attribute(DeducedType::Any, true))], None);
    let b = structure(&["s"], vec![("y", attribute(DeducedType::Integer, false))], None);
    assert_eq!(combine(&a, &b), combine(&b, &a));
    assert_eq!(combine(&properties_struct(), &required_struct(&["weight", "color"])),
        combine(&required_struct(&["weight", "color"]), &properties_struct()));
}

#[test]
fn attributes_with_the_same_map_are_equal() {
    let mut a = Attributes::new();
    a.insert("b".to_string(), attribute(DeducedType::Any, true));
    a.insert("a".to_string(), attribute(DeducedType::Null, false));
    let mut b = Attributes::new();
    b.insert("a".to_string(), attribute(DeducedType::Null, false));
    b.insert("b".to_string(), attribute(DeducedType::Number, true));
    b.insert("b".to_string(), attribute(DeducedType::Any, true));
    assert_eq!(a, b);
    assert_eq!(a.len(), 2);
    assert_eq!(a.entry(0).0, "a");
    assert_eq!(a.entry(1).0, "b");
}

#[test]
fn clone_keeps_everything() {
    let t = DeducedType::Array(Box::new(ArrayType { inner_type: properties_struct() }));
    assert_eq!(t.clone(), t);
    let s = StructType { name: names(&["n"]), attributes: Attributes::new(), additional_attributes: Some(DeducedType::Any) };
    assert_eq!(s.clone(), s);
    let v = VariantType { name: names(&["v"]), possible_types: vec![DeducedType::Null] };
    assert_eq!(v.clone(), v);
    let e = EnumType { name: names(&["e"]), enum_entries: vec![JsonValue::Bool(false)] };
    assert_eq!(e.clone(), e);
    let a = ArrayType { inner_type: DeducedType::String };
    assert_eq!(a.clone(), a);
    let at = attribute(DeducedType::Boolean, true);
    assert_eq!(at.clone(), at);
}

#[test]
fn method_combine_merges_under_first_name() {
    let a = structure(&["a"], vec![("x", attribute(DeducedType::Integer, true))], None);
    let b = structure(&["b"], vec![("x", attribute(DeducedType::Any, false)), ("y", attribute(DeducedType::Null, true))], None);
    assert_eq!(
        a.combine(&b),
        Ok(structure(
            &["a"],
            vec![("x", attribute(DeducedType::Integer, false)), ("y", attribute(DeducedType::Null, true))],
            None
        ))
    );
    assert!(matches!(combine(&a, &b), Err(DeduceTypeError::Unexpected(_))));
}

#[test]
fn method_combine_unsupported_case_has_fixed_message() {
    assert_eq!(
        DeducedType::String.combine(&DeducedType::Number),
        Err(DeduceTypeError::NotImplemented("DeduceType::combine: case not implemented".to_string()))
    );
    let a = structure(&["s"], vec![("x", attribute(DeducedType::String, true))], None);
    let b = structure(&["t"], vec![("x", attribute(DeducedType::Number, true))], None);
    assert_eq!(
        a.combine(&b),
        Err(DeduceTypeError::NotImplemented("DeduceType::combine: case not implemented".to_string()))
    );
    assert_eq!(DeducedType::Integer.combine(&DeducedType::Any), Ok(DeducedType::Integer));
}

#[test]
fn error_text_is_its_debug_text() {
    assert_eq!(DeduceTypeError::not_implemented("a \"b\"").to_string(), "NotImplemented(\"a \\\"b\\\"\")");
    assert_eq!(DeduceTypeError::unexpected("x").to_string(), "Unexpected(\"x\")");
}
