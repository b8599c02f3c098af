use smol::{parse_eson_file, parse_jsonish_file, parse_and_serialize, serialize_jsonvalue, Dialect,
    Value};

fn s(text: &str) -> String {
    text.to_string()
}

fn expected_tree() -> Value {
    Value::Object(vec![
        (s("a"), Value::Str(s("foobar"))),
        (s("b"), Value::Str(s("\\\"baz\\\""))),
        (s("c"), Value::Number(s("-12.43"))),
        (s("d"), Value::Null),
        (
            s("$nested"),
            Value::Object(vec![
                (s("anotherOne"), Value::Boolean(true)),
                (s("asdf"), Value::Boolean(false)),
            ]),
        ),
        (
            s("_stuff"),
            Value::Array(vec![
                Value::Number(s("1")),
                Value::Number(s("2")),
                Value::Number(s("3")),
                Value::Null,
                Value::Object(vec![]),
                Value::Boolean(false),
                Value::Str(s("asdf")),
                Value::Array(Vec::new()),
            ]),
        ),
    ])
}

fn expected_tree_with_tail() -> Value {
    match expected_tree() {
        Value::Object(mut pairs) => {
            pairs.push((s("a.b!{}"), Value::Str(s("c"))));
            Value::Object(pairs)
        },
        _ => unreachable!(),
    }
}

#[test]
fn eson_parses_json() {
    let json = r#"
        {
            "a": "foobar",
            "b": "\"baz\"",
            "c": -12.43,
            "d": null,
            "$nested": {
                "anotherOne": true,
                "asdf": false
            },
            "_stuff": [1, 2, 3, null, {}, false, "asdf", []]
        }
        "#;

    let expected = expected_tree();

    let result = parse_eson_file(json);

    assert!(result.is_ok(), "{:?}", result);

    let result = result.unwrap();
    assert_eq!(result, expected);

    let serialized = serialize_jsonvalue(&result);
    let expected = r#"{"a": "foobar","b": "\"baz\"","c": -12.43,"d": null,"$nested": {"anotherOne": true,"asdf": false},"_stuff": [1,2,3,null,{},false,"asdf",[]]}"#;
    assert_eq!(serialized, expected);
}

#[test]
fn eson_parses_ecmascript_object() {
    let es = r#"
        {
            a: "foobar",
            b: "\"baz\"",
            c: -12.43,
            d: null,
            $nested: {
                anotherOne: true,
                asdf: false,
            },
            _stuff: [1, 2, 3, null, {}, false, "asdf", [],],
        }
        "#;

    let expected = expected_tree();

    let result = parse_eson_file(es);

    assert!(result.is_ok(), "{:?}", result);

    let result = result.unwrap();
    assert_eq!(result, expected);

    let serialized = serialize_jsonvalue(&result);
    let expected = r#"{"a": "foobar","b": "\"baz\"","c": -12.43,"d": null,"$nested": {"anotherOne": true,"asdf": false},"_stuff": [1,2,3,null,{},false,"asdf",[]]}"#;
    assert_eq!(serialized, expected);
}

#[test]
fn jsonish_parses_json() {
    let json = r#"
        {
            "a": "foobar",
            "b": "\"baz\"",
            "c": -12.43,
            "d": null,
            "$nested": {
                "anotherOne": true,
                "asdf": false
            },
            "_stuff": [1, 2, 3, null, {}, false, "asdf", []],
            "a.b!{}": "c",
        }
        "#;

    let expected = expected_tree_with_tail();

    let result = parse_jsonish_file(json);

    assert!(result.is_ok(), "{:?}", result);

    let result = result.unwrap();
    assert_eq!(result, expected);

    let serialized = serialize_jsonvalue(&result);
    let expected = r#"{"a": "foobar","b": "\"baz\"","c": -12.43,"d": null,"$nested": {"anotherOne": true,"asdf": false},"_stuff": [1,2,3,null,{},false,"asdf",[]],"a.b!{}": "c"}"#;
    assert_eq!(serialized, expected);
}

#[test]
fn jsonish_parses_ecmascript_object() {
    let es = r#"
        {
            a: "foobar",
            b: "\"baz\"",
            c: -12.43,
            'd': null,
            $nested: {
                anotherOne: true,
                asdf: false,
            },
            _stuff: [1, 2, 3, null, {}, false, 'asdf', [],],
            "a.b!{}": "c",
        }
        "#;

    let expected = expected_tree_with_tail();

    let result = parse_jsonish_file(es);

    assert!(result.is_ok(), "{:?}", result);

    let result = result.unwrap();
    assert_eq!(result, expected);

    let serialized = serialize_jsonvalue(&result);
    let expected = r#"{"a": "foobar","b": "\"baz\"","c": -12.43,"d": null,"$nested": {"anotherOne": true,"asdf": false},"_stuff": [1,2,3,null,{},false,"asdf",[]],"a.b!{}": "c"}"#;
    assert_eq!(serialized, expected);
}

#[test]
fn jsonish_scenario_mixed_sugar() {
    let text = r#"{a: "foobar", b: 'baz', c: -12.43, d: null, nested: {x: true}, list: [1,2,3,],}"#;
    let out = parse_and_serialize(text, Dialect::Jsonish).unwrap();
    assert_eq!(
        out,
        r#"{"a": "foobar","b": "baz","c": -12.43,"d": null,"nested": {"x": true},"list": [1,2,3]}"#
    );
}

#[test]
fn empty_object_and_array_round_trip_unchanged() {
    assert_eq!(parse_and_serialize("{}", Dialect::Eson).unwrap(), "{}");
    assert_eq!(parse_and_serialize("[]", Dialect::Eson).unwrap(), "[]");
    assert_eq!(parse_and_serialize("{}", Dialect::Jsonish).unwrap(), "{}");
    assert_eq!(parse_and_serialize("[]", Dialect::Jsonish).unwrap(), "[]");
}

#[test]
fn key_order_is_preserved() {
    let result = parse_eson_file(r#"{"b": 1, "a": 2}"#).unwrap();
    assert_eq!(
        result,
        Value::Object(vec![
            (s("b"), Value::Number(s("1"))),
            (s("a"), Value::Number(s("2"))),
        ])
    );
    assert_eq!(serialize_jsonvalue(&result), r#"{"b": 1,"a": 2}"#);
}

#[test]
fn sugar_forms_parse_to_identical_trees() {
    // quoted versus unquoted identifier keys
    assert_eq!(
        parse_eson_file("{a: 1}").unwrap(),
        parse_eson_file("{\"a\": 1}").unwrap()
    );
    // presence versus absence of a trailing comma
    assert_eq!(
        parse_eson_file("[1, 2, ]").unwrap(),
        parse_eson_file("[1, 2]").unwrap()
    );
    assert_eq!(
        parse_eson_file("{a: 1,}").unwrap(),
        parse_eson_file("{a: 1}").unwrap()
    );
    // single versus double quotes, for keys and for values
    assert_eq!(
        parse_jsonish_file("{'k': 'v'}").unwrap(),
        parse_jsonish_file("{\"k\": \"v\"}").unwrap()
    );
}

#[test]
fn serialization_is_deterministic() {
    let a = parse_jsonish_file("{a: [1, {b: 'x'}], c: null}").unwrap();
    let b = parse_jsonish_file("{a: [1, {b: 'x'}], c: null}").unwrap();
    assert_eq!(serialize_jsonvalue(&a), serialize_jsonvalue(&b));
    assert_eq!(serialize_jsonvalue(&a), serialize_jsonvalue(&a));
}

#[test]
fn strict_json_round_trips_semantically() {
    let text = r#"{"k": [true, false, null, "v", 3.5], "m": {}}"#;
    let once = parse_eson_file(text).unwrap();
    let reparsed = parse_eson_file(&serialize_jsonvalue(&once)).unwrap();
    assert_eq!(once, reparsed);
}

#[test]
fn eson_rejects_single_quotes() {
    assert!(parse_eson_file("{'a': 1}").is_err());
    assert!(parse_eson_file("['x']").is_err());
}

#[test]
fn identifier_keys_keep_unicode_escapes_verbatim() {
    let result = parse_eson_file("{\\u0041b: 1}").unwrap();
    assert_eq!(
        result,
        Value::Object(vec![(s("\\u0041b"), Value::Number(s("1")))])
    );
    assert_eq!(serialize_jsonvalue(&result), "{\"\\u0041b\": 1}");
}

#[test]
fn string_escapes_pass_through_unchanged() {
    let result = parse_jsonish_file(r#"["a\nb", 'c\'d']"#).unwrap();
    assert_eq!(
        result,
        Value::Array(vec![Value::Str(s("a\\nb")), Value::Str(s("c\\'d"))])
    );
    assert_eq!(serialize_jsonvalue(&result), r#"["a\nb","c\'d"]"#);
}

#[test]
fn number_literals_keep_their_text() {
    assert_eq!(
        parse_and_serialize("[0.5, 1e3, -0.25, 7]", Dialect::Eson).unwrap(),
        "[0.5,1e3,-0.25,7]"
    );
}
