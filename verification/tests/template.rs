use netai_cloud::actor::json::JsonValue;
use netai_cloud::actor::template::{check_integer_bounds, field_walk_panics, fill_default_field, store_checked_text, fill_default_step, update_field_string, update_field_value, BoundError, FieldSpec, FillError, FillTask, UpdateError, UpdateStep, get_field, DefaultAction, FieldError, FieldKind};
use netai_cloud::sorted::SortedMap;

fn specs(entries: &[(&str, &str)]) -> SortedMap<String, String> {
    let mut m = SortedMap::new();
    for (k, v) in entries {
        m.insert(k.to_string(), v.to_string());
    }
    m
}

fn object(members: Vec<(&str, JsonValue)>) -> JsonValue {
    JsonValue::Object(members.into_iter().map(|(k, v)| (k.to_string(), v)).collect())
}

#[test]
fn get_field_creates_objects_on_the_way() {
    let specs = specs(&[("/", "root"), ("/a/", "A"), ("/a/b/", "B")]);
    let mut map = JsonValue::Null;
    assert_eq!(get_field(&specs, &mut map, "/a/b/"), Ok("B".to_string()));
    assert_eq!(map, object(vec![("a", object(vec![("b", JsonValue::Null)]))]));
}

#[test]
fn get_field_of_the_root() {
    let specs = specs(&[("/", "root")]);
    let mut map = JsonValue::Number(3);
    assert_eq!(get_field(&specs, &mut map, "/"), Ok("root".to_string()));
    assert_eq!(map, JsonValue::Number(3));
}

#[test]
fn get_field_pads_arrays() {
    let specs = specs(&[("/", "root"), ("/xs/", "XS")]);
    let mut map = object(vec![("xs", JsonValue::Array(vec![JsonValue::Bool(true)]))]);
    assert_eq!(get_field(&specs, &mut map, "/xs/2/"), Ok("XS".to_string()));
    assert_eq!(
        map,
        object(vec![("xs", JsonValue::Array(vec![JsonValue::Bool(true), JsonValue::Null, JsonValue::Null]))])
    );
}

#[test]
fn get_field_keeps_members_in_key_order() {
    let specs = specs(&[("/", "root"), ("/b/", "B")]);
    let mut map = object(vec![("a", JsonValue::Number(1)), ("c", JsonValue::Number(2))]);
    assert_eq!(get_field(&specs, &mut map, "/b/"), Ok("B".to_string()));
    assert_eq!(
        map,
        object(vec![("a", JsonValue::Number(1)), ("b", JsonValue::Null), ("c", JsonValue::Number(2))])
    );
    assert_eq!(get_field(&specs, &mut map, "/b/"), Ok("B".to_string()));
    assert_eq!(
        map,
        object(vec![("a", JsonValue::Number(1)), ("b", JsonValue::Null), ("c", JsonValue::Number(2))])
    );
}

#[test]
fn get_field_errors() {
    let mut map = JsonValue::Null;
    assert_eq!(get_field(&specs(&[]), &mut map, "/a/"), Err(FieldError::NoRootField));
    let mut map = JsonValue::Null;
    assert_eq!(
        get_field(&specs(&[("/", "root")]), &mut map, "/z/"),
        Err(FieldError::NoObjectField { name: "/z/".to_string() })
    );
    let mut map = JsonValue::Number(1);
    assert_eq!(
        get_field(&specs(&[("/", "root"), ("/a/", "A")]), &mut map, "/a/"),
        Err(FieldError::NotAnObject { spec: "A".to_string(), child: "a".to_string(), name: "/a/".to_string() })
    );
    let mut map = object(vec![("xs", JsonValue::Text("no".to_string()))]);
    assert_eq!(
        get_field(&specs(&[("/", "root"), ("/xs/", "XS")]), &mut map, "/xs/0/"),
        Err(FieldError::NotAnArray { spec: "XS".to_string(), index: 0, name: "/xs/0/".to_string() })
    );
    let mut map = JsonValue::Array(vec![]);
    assert_eq!(get_field(&specs(&[("/", "root")]), &mut map, "/0/"), Ok("root".to_string()));
    assert_eq!(map, JsonValue::Array(vec![JsonValue::Null]));
}

#[test]
fn defaults_of_scalars() {
    let now = "2024-01-01T00:00:00+00:00";
    let b = FieldKind::Boolean { default: Some(true) };
    assert_eq!(fill_default_step(&b, "/f/", true, None, false, true, now), DefaultAction::Put(JsonValue::Bool(true)));
    assert_eq!(fill_default_step(&b, "/f/", false, None, false, true, now), DefaultAction::Keep);
    let i = FieldKind::Integer { default: None, minimum: None, maximum: None };
    assert_eq!(fill_default_step(&i, "/f/", true, None, false, true, now), DefaultAction::Missing);
    assert_eq!(fill_default_step(&i, "/f/", true, None, true, true, now), DefaultAction::Keep);
    let t = FieldKind::DateTime { default_now: true };
    assert_eq!(fill_default_step(&t, "/f/", true, None, false, true, now), DefaultAction::Put(JsonValue::Text(now.to_string())));
    assert_eq!(fill_default_step(&FieldKind::Ip, "/f/", true, None, false, true, now), DefaultAction::Missing);
    assert_eq!(fill_default_step(&FieldKind::NoValue, "/f/", false, None, false, true, now), DefaultAction::Put(JsonValue::Null));
}

#[test]
fn defaults_of_objects_and_arrays() {
    let now = "";
    let o = FieldKind::Object { children: vec!["a".to_string(), "b".to_string()] };
    assert_eq!(
        fill_default_step(&o, "/x/", true, None, false, true, now),
        DefaultAction::Descend {
            init: Some(JsonValue::Object(vec![])),
            children: vec!["/x/a/".to_string(), "/x/b/".to_string()],
            is_atom: true,
        }
    );
    let a = FieldKind::ObjectArray { children: vec!["c".to_string()] };
    assert_eq!(
        fill_default_step(&a, "/ys/", false, Some(2), false, true, now),
        DefaultAction::Descend { init: None, children: vec!["/ys/0/".to_string(), "/ys/1/".to_string()], is_atom: false }
    );
    assert_eq!(
        fill_default_step(&a, "/ys/", true, None, false, true, now),
        DefaultAction::Descend { init: Some(JsonValue::Array(vec![])), children: vec![], is_atom: false }
    );
    assert_eq!(fill_default_step(&a, "/ys/", false, None, false, true, now), DefaultAction::Keep);
    assert_eq!(
        fill_default_step(&a, "/ys/0/", true, None, false, false, now),
        DefaultAction::Descend {
            init: Some(JsonValue::Object(vec![])),
            children: vec!["/ys/0/c/".to_string()],
            is_atom: true,
        }
    );
}

#[test]
fn integer_bounds() {
    assert_eq!(check_integer_bounds("x", 5, Some(5), Some(5)), Ok(()));
    assert_eq!(check_integer_bounds("x", 5, Some(4), None), Ok(()));
    let e = check_integer_bounds("x", 4, Some(5), Some(3)).unwrap_err();
    assert_eq!(e, BoundError::BelowMinimum { value: 4, minimum: 5, name: "x".to_string() });
    assert_eq!(e.message(), "value 4 should be greater than minimum value 5: \"x\"");
    let e = check_integer_bounds("/n/", 9, None, Some(-3)).unwrap_err();
    assert_eq!(e.message(), "value 9 should be less than maximum value -3: \"/n/\"");
    assert_eq!(check_integer_bounds("x", -9, None, None), Ok(()));
}

fn field(kind: FieldKind) -> FieldSpec {
    FieldSpec { kind, optional: false }
}

fn schema() -> SortedMap<String, FieldSpec> {
    let mut m = SortedMap::new();
    m.insert("/".to_string(), field(FieldKind::Object { children: vec!["n".to_string(), "xs".to_string(), "when".to_string()] }));
    m.insert("/n/".to_string(), field(FieldKind::Integer { default: Some(7), minimum: Some(0), maximum: Some(10) }));
    m.insert("/xs/".to_string(), field(FieldKind::ObjectArray { children: vec!["b".to_string()] }));
    m.insert("/xs/b/".to_string(), field(FieldKind::Boolean { default: None }));
    m.insert("/when/".to_string(), field(FieldKind::DateTime { default_now: true }));
    m.insert("/id/".to_string(), field(FieldKind::Uuid));
    m.insert("/ip/".to_string(), field(FieldKind::Ip));
    m.insert("/c/".to_string(), field(FieldKind::OneOfStrings { default: None, choices: vec!["a".to_string(), "b".to_string()] }));
    m
}

#[test]
fn fill_default_field_writes_and_hands_on() {
    let specs = schema();
    let mut map = JsonValue::Null;
    let tasks = fill_default_field(&specs, &mut map, "/", false, true, "now").unwrap();
    assert_eq!(map, JsonValue::Object(vec![]));
    assert_eq!(
        tasks,
        vec![
            FillTask { name: "/n/".to_string(), optional: false, is_atom: true },
            FillTask { name: "/xs/".to_string(), optional: false, is_atom: true },
            FillTask { name: "/when/".to_string(), optional: false, is_atom: true },
        ]
    );
    assert_eq!(fill_default_field(&specs, &mut map, "/n/", false, true, "now").unwrap(), vec![]);
    assert_eq!(fill_default_field(&specs, &mut map, "/when/", false, true, "T").unwrap(), vec![]);
    assert_eq!(map, object(vec![("n", JsonValue::Number(7)), ("when", JsonValue::Text("T".to_string()))]));
    let mut map = object(vec![("xs", JsonValue::Array(vec![object(vec![])]))]);
    assert_eq!(
        fill_default_field(&specs, &mut map, "/xs/", false, true, "T").unwrap(),
        vec![FillTask { name: "/xs/0/".to_string(), optional: false, is_atom: false }]
    );
    assert_eq!(
        fill_default_field(&specs, &mut map, "/xs/0/", false, false, "T").unwrap(),
        vec![FillTask { name: "/xs/0/b/".to_string(), optional: false, is_atom: true }]
    );
    match fill_default_field(&specs, &mut map, "/xs/0/b/", false, true, "T") {
        Err(FillError::Missing { name, .. }) => assert_eq!(name, "/xs/0/b/"),
        other => panic!("unexpected {other:?}"),
    }
    assert_eq!(fill_default_field(&specs, &mut map, "/xs/0/b/", true, true, "T").unwrap(), vec![]);
}

#[test]
fn update_field_value_checks_and_writes() {
    let specs = schema();
    let mut map = JsonValue::Null;
    assert!(matches!(update_field_value(&specs, &mut map, "/n/", JsonValue::Number(3)), Ok(UpdateStep::Done)));
    assert_eq!(map, object(vec![("n", JsonValue::Number(3))]));
    match update_field_value(&specs, &mut map, "/n/", JsonValue::Number(11)) {
        Err(UpdateError::Bound(e)) => assert_eq!(e.message(), "value 11 should be less than maximum value 10: \"/n/\""),
        other => panic!("unexpected {other:?}"),
    }
    assert!(matches!(update_field_value(&specs, &mut map, "/n/", JsonValue::Bool(true)), Err(UpdateError::Mismatch { .. })));
    assert_eq!(map, object(vec![("n", JsonValue::Number(3))]));
    assert!(matches!(update_field_value(&specs, &mut map, "/c/", JsonValue::Text("z".to_string())), Err(UpdateError::NotAChoice { .. })));
    assert!(matches!(update_field_value(&specs, &mut map, "/c/", JsonValue::Text("a".to_string())), Ok(UpdateStep::Done)));
    assert!(matches!(
        update_field_value(&specs, &mut map, "/id/", JsonValue::Text("67e55044-10b1-426f-9247-bb680e5fe0c8".to_string())),
        Ok(UpdateStep::Done)
    ));
    assert!(matches!(update_field_value(&specs, &mut map, "/id/", JsonValue::Text("nope".to_string())), Err(UpdateError::Invalid { .. })));
    assert!(matches!(
        update_field_value(&specs, &mut map, "/when/", JsonValue::Text("2024-01-01T00:00:00Z".to_string())),
        Ok(UpdateStep::Done)
    ));
    assert!(matches!(update_field_value(&specs, &mut map, "/when/", JsonValue::Text("yesterday".to_string())), Err(UpdateError::Invalid { .. })));
    match update_field_value(&specs, &mut map, "/ip/", JsonValue::Text("10.0.0.1".to_string())) {
        Ok(UpdateStep::CheckAddress { name, text }) => assert_eq!((name.as_str(), text.as_str()), ("/ip/", "10.0.0.1")),
        other => panic!("unexpected {other:?}"),
    }
}

#[test]
fn update_field_value_hands_on_children() {
    let specs = schema();
    let mut map = JsonValue::Null;
    let value = JsonValue::Array(vec![object(vec![("isOn", JsonValue::Bool(true))]), JsonValue::Null]);
    match update_field_value(&specs, &mut map, "/xs/", value) {
        Ok(UpdateStep::Updates(u)) => {
            assert_eq!(u.len(), 2);
            assert_eq!(u[0].0, "/xs/0/");
            assert_eq!(u[1].0, "/xs/1/");
        },
        other => panic!("unexpected {other:?}"),
    }
    match update_field_value(&specs, &mut map, "/", object(vec![("fooBar", JsonValue::Number(1))])) {
        Ok(UpdateStep::Updates(u)) => assert_eq!(u[0].0, "/foo_bar/"),
        other => panic!("unexpected {other:?}"),
    }
    match update_field_value(&specs, &mut map, "/", JsonValue::Text("stored".to_string())) {
        Ok(UpdateStep::Resolve { name, reference }) => assert_eq!((name.as_str(), reference.as_str()), ("/", "stored")),
        other => panic!("unexpected {other:?}"),
    }
}

#[test]
fn update_field_string_reads_by_kind() {
    let specs = schema();
    let mut map = JsonValue::Null;
    assert!(matches!(update_field_string(&specs, &mut map, "/n/", "+4"), Ok(UpdateStep::Done)));
    assert_eq!(map, object(vec![("n", JsonValue::Number(4))]));
    assert!(matches!(update_field_string(&specs, &mut map, "/n/", "4x"), Err(UpdateError::NotParsed { .. })));
    assert!(matches!(update_field_string(&specs, &mut map, "/n/", "-1"), Err(UpdateError::Bound(_))));
    let mut items = object(vec![("xs", JsonValue::Array(vec![]))]);
    assert!(matches!(update_field_string(&specs, &mut items, "/xs/0/b/", "true"), Ok(UpdateStep::Done)));
    assert_eq!(items, object(vec![("xs", JsonValue::Array(vec![object(vec![("b", JsonValue::Bool(true))])]))]));
    assert!(matches!(update_field_string(&specs, &mut items, "/xs/0/b/", "True"), Err(UpdateError::NotParsed { .. })));
    assert!(matches!(update_field_string(&specs, &mut map, "/xs/", "t"), Err(UpdateError::Mismatch { .. })));
    assert!(matches!(update_field_string(&specs, &mut map, "/c/", "b"), Ok(UpdateStep::Done)));
}

#[test]
fn walks_that_index_a_null_are_told_apart() {
    let specs = schema();
    let map = object(vec![("n", JsonValue::Number(1))]);
    assert!(field_walk_panics(&specs, &map, "/xs/0/b/"));
    assert!(!field_walk_panics(&specs, &map, "/n/"));
    let map = object(vec![("xs", JsonValue::Array(vec![]))]);
    assert!(!field_walk_panics(&specs, &map, "/xs/3/b/"));
    assert!(!field_walk_panics(&specs, &map, "/zz/0/"));
}

#[test]
fn checked_text_is_stored() {
    let specs = schema();
    let mut map = JsonValue::Null;
    assert!(store_checked_text(&specs, &mut map, "/ip/", "10.0.0.1").is_ok());
    assert_eq!(map, object(vec![("ip", JsonValue::Text("10.0.0.1".to_string()))]));
}
