use jsonschema::data::DeducedType;
use jsonschema::deduce::DeduceType;
use jsonschema::json::{JsonObject, JsonValue};
use jsonschema::paths::Location;
use jsonschema::required::{
    compile, compile_with_path, CompiledRequired, RequiredValidator, SingleItemRequiredValidator,
};
use jsonschema::validation::{JsonType, ValidationErrorKind};

fn strings(items: &[&str]) -> JsonValue {
    JsonValue::Array(items.iter().map(|s| JsonValue::String(s.to_string())).collect())
}

fn object(keys: &[&str]) -> JsonValue {
    let mut o = JsonObject::new();
    for k in keys {
        o.insert(k.to_string(), JsonValue::Null);
    }
    JsonValue::Object(o)
}

fn segments(l: &Location) -> Vec<String> {
    l.segments.clone()
}

fn at(parts: &[&str]) -> Location {
    let mut l = Location::new();
    for p in parts {
        l = l.join(p);
    }
    l
}

fn property(kind: &ValidationErrorKind) -> String {
    match kind {
        ValidationErrorKind::Required { property: JsonValue::String(s) } => s.clone(),
        other => panic!("unexpected kind {:?}", other),
    }
}

#[test]
fn location_of_keyword() {
    for schema in [strings(&["a"]), strings(&["a", "b"])] {
        let compiled = compile(&Location::new(), &schema).unwrap().unwrap();
        let instance = object(&[]);
        let e = compiled.validate(&instance, &Location::new()).unwrap_err();
        assert_eq!(segments(&e.schema_path), vec!["required".to_string()]);
        assert_eq!(segments(&e.evaluation_path), vec!["required".to_string()]);
        assert!(e.instance_path.segments.is_empty());
    }
}

#[test]
fn compile_single_many_and_errors() {
    let loc = at(&["properties", "x", "required"]);
    let one = strings(&["a"]);
    match compile_with_path(&one, loc.duplicate()).unwrap().unwrap() {
        CompiledRequired::Single(v) => {
            assert_eq!(v.value, "a");
            assert_eq!(v.location, loc);
        }
        other => panic!("{:?}", other),
    }
    let two = strings(&["a", "b"]);
    match compile_with_path(&two, loc.duplicate()).unwrap().unwrap() {
        CompiledRequired::Many(v) => assert_eq!(v.required, vec!["a".to_string(), "b".to_string()]),
        other => panic!("{:?}", other),
    }
    let none = strings(&[]);
    match compile_with_path(&none, loc.duplicate()).unwrap().unwrap() {
        CompiledRequired::Many(v) => assert!(v.required.is_empty()),
        other => panic!("{:?}", other),
    }

    let bad_one = JsonValue::Array(vec![JsonValue::Bool(true)]);
    let e = compile_with_path(&bad_one, loc.duplicate()).unwrap().unwrap_err();
    assert_eq!(e.kind, ValidationErrorKind::Type { expected: JsonType::String });
    assert_eq!(*e.instance, JsonValue::Bool(true));
    assert_eq!(e.schema_path, loc);
    assert!(e.instance_path.segments.is_empty());

    let bad_many = JsonValue::Array(vec![
        JsonValue::String("a".to_string()),
        JsonValue::Number("3".to_string()),
        JsonValue::Null,
    ]);
    let e = compile_with_path(&bad_many, loc.duplicate()).unwrap().unwrap_err();
    assert_eq!(e.kind, ValidationErrorKind::Type { expected: JsonType::String });
    assert_eq!(*e.instance, JsonValue::Number("3".to_string()));

    let not_array = JsonValue::String("a".to_string());
    let e = compile_with_path(&not_array, loc.duplicate()).unwrap().unwrap_err();
    assert_eq!(e.kind, ValidationErrorKind::Type { expected: JsonType::Array });
    assert_eq!(*e.instance, not_array);
}

#[test]
fn validate_reports_first_missing_and_iter_errors_all() {
    let schema = strings(&["a", "b", "c"]);
    let compiled = compile(&at(&["root"]), &schema).unwrap().unwrap();
    let instance = object(&["b", "z"]);
    let where_ = at(&["items", "0"]);
    assert!(!compiled.is_valid(&instance));
    let e = compiled.validate(&instance, &where_).unwrap_err();
    assert_eq!(property(&e.kind), "a");
    assert_eq!(segments(&e.schema_path), vec!["root".to_string(), "required".to_string()]);
    assert_eq!(e.instance_path, where_);
    assert_eq!(*e.instance, instance);
    let all = compiled.iter_errors(&instance, &where_);
    let props: Vec<String> = all.iter().map(|e| property(&e.kind)).collect();
    assert_eq!(props, vec!["a".to_string(), "c".to_string()]);

    let full = object(&["a", "b", "c"]);
    assert!(compiled.is_valid(&full));
    assert!(compiled.validate(&full, &where_).is_ok());
    assert!(compiled.iter_errors(&full, &where_).is_empty());
}

#[test]
fn non_objects_always_pass() {
    let schema = strings(&["a", "b"]);
    let compiled = compile(&Location::new(), &schema).unwrap().unwrap();
    let single_schema = strings(&["a"]);
    let single = compile(&Location::new(), &single_schema).unwrap().unwrap();
    for v in [
        JsonValue::Null,
        JsonValue::Bool(false),
        JsonValue::Number("1".to_string()),
        JsonValue::String("a".to_string()),
        strings(&["a", "b"]),
    ] {
        for c in [&compiled, &single] {
            assert!(c.is_valid(&v));
            assert!(c.validate(&v, &Location::new()).is_ok());
            assert!(c.iter_errors(&v, &Location::new()).is_empty());
        }
    }
}

#[test]
fn single_item_validator() {
    let v = match SingleItemRequiredValidator::compile("a", at(&["required"])).unwrap() {
        CompiledRequired::Single(v) => v,
        other => panic!("{:?}", other),
    };
    assert!(!v.is_valid(&object(&[])));
    assert!(!v.is_valid(&object(&["b"])));
    assert!(v.is_valid(&object(&["b", "a"])));
    let empty = object(&[]);
    let e = v.validate(&empty, &Location::new()).unwrap_err();
    assert_eq!(property(&e.kind), "a");
    assert_eq!(v.iter_errors(&empty, &Location::new()).len(), 1);
    assert!(v.iter_errors(&object(&["a"]), &Location::new()).is_empty());
}

#[test]
fn quick_check_with_repeated_names_differs_from_validate() {
    let items = strings(&["a", "a"]);
    let list = match &items {
        JsonValue::Array(v) => v.as_slice(),
        _ => unreachable!(),
    };
    let v = match RequiredValidator::compile(list, Location::new()).unwrap() {
        CompiledRequired::Many(v) => v,
        other => panic!("{:?}", other),
    };
    let instance = object(&["a"]);
    assert!(!v.is_valid(&instance));
    assert!(v.validate(&instance, &Location::new()).is_ok());
    assert!(v.iter_errors(&instance, &Location::new()).is_empty());
}

#[test]
fn single_and_list_of_one_agree() {
    let single = match SingleItemRequiredValidator::compile("k", Location::new()).unwrap() {
        CompiledRequired::Single(v) => v,
        other => panic!("{:?}", other),
    };
    let one = strings(&["k"]);
    let list = match RequiredValidator::compile(
        match &one {
            JsonValue::Array(v) => v.as_slice(),
            _ => unreachable!(),
        },
        Location::new(),
    )
    .unwrap()
    {
        CompiledRequired::Many(v) => v,
        other => panic!("{:?}", other),
    };
    let name = vec!["n".to_string()];
    assert_eq!(single.deduce_type(&name), list.deduce_type(&name));
    for inst in [object(&[]), object(&["k"]), object(&["j"]), JsonValue::Null] {
        assert_eq!(single.is_valid(&inst), list.is_valid(&inst));
        assert_eq!(
            single.validate(&inst, &Location::new()).is_ok(),
            list.validate(&inst, &Location::new()).is_ok()
        );
        assert_eq!(
            single.iter_errors(&inst, &Location::new()),
            list.iter_errors(&inst, &Location::new())
        );
    }
    assert!(matches!(single.deduce_type(&name), Ok(DeducedType::Struct(_))));
}

#[test]
fn json_object_members() {
    let mut o = JsonObject::new();
    assert!(o.is_empty());
    o.insert("a".to_string(), JsonValue::Null);
    o.insert("b".to_string(), JsonValue::Bool(true));
    o.insert("a".to_string(), JsonValue::Bool(false));
    assert_eq!(o.len(), 2);
    assert!(o.contains_key(&"a".to_string()));
    assert!(!o.contains_key(&"c".to_string()));
    let copy = JsonValue::Object(o.duplicate());
    assert_eq!(copy, JsonValue::Object(o));
}

#[test]
fn json_objects_with_the_same_members_are_equal() {
    let mut a = JsonObject::new();
    a.insert("z".to_string(), JsonValue::Null);
    a.insert("é".to_string(), JsonValue::Bool(true));
    a.insert("a".to_string(), JsonValue::Null);
    let mut b = JsonObject::new();
    b.insert("a".to_string(), JsonValue::Null);
    b.insert("é".to_string(), JsonValue::Bool(true));
    b.insert("z".to_string(), JsonValue::Null);
    assert_eq!(a, b);
    assert_eq!(format!("{:?}", a), format!("{:?}", b));
}
