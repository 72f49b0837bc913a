use freemkv_tools::json::object_from;
use freemkv_tools::json::Json;
use freemkv_tools::json::JsonObject;
use freemkv_tools::json_value::from_value;
use freemkv_tools::json_value::parse_json;
use freemkv_tools::json_value::to_pretty;
use freemkv_tools::json_value::to_text;

fn json(text: &str) -> Json {
    match parse_json(text) {
        Ok(value) => value,
        Err(message) => panic!("{}", message),
    }
}

#[test]
fn values_are_read_from_text() {
    assert!(matches!(json("null"), Json::Null));
    assert!(matches!(json("true"), Json::Bool(true)));
    assert!(matches!(json("7"), Json::Unsigned(7)));
    assert!(matches!(json("-7"), Json::Signed(-7)));
    assert!(matches!(json("7.5"), Json::Float(_)));
    assert!(matches!(json("\"a\\nb\""), Json::Text(s) if s == "a\nb"));
    assert!(matches!(json("[1, 2]"), Json::Array(items) if items.len() == 2));
    assert!(matches!(json("{}"), Json::Object(o) if o.len() == 0));
}

#[test]
fn what_is_not_json_is_an_error() {
    let message = match parse_json("{\"a\": }") {
        Ok(_) => panic!("read"),
        Err(message) => message,
    };
    assert_eq!(message, "expected value at line 1 column 7");
    assert!(parse_json("").is_err());
    assert!(parse_json("1 2").is_err());
    assert!(parse_json("1e999").is_err());
}

#[test]
fn members_are_held_in_the_order_of_their_keys() {
    let value = json(r#"{"b": 1, "é": 2, "a": 3, "B": 4, "a": 5}"#);
    assert_eq!(to_text(&value), r#"{"B":4,"a":5,"b":1,"é":2}"#);
    let object = match value {
        Json::Object(object) => object,
        _ => panic!("not an object"),
    };
    assert_eq!(object.len(), 4);
    assert_eq!(object.key(0), "B");
    assert!(matches!(object.value(1), Json::Unsigned(5)));
    assert!(matches!(object.get("b"), Some(Json::Unsigned(1))));
    assert!(object.get("c").is_none());
}

#[test]
fn a_member_is_put_in_place_of_the_one_before() {
    let object = JsonObject::new()
        .with("m", Json::Unsigned(1))
        .with("a", Json::Unsigned(2))
        .with("z", Json::Null)
        .with("m", Json::Bool(false));
    assert_eq!(to_text(&Json::Object(object)), r#"{"a":2,"m":false,"z":null}"#);
    let built = object_from(vec![("y", Json::Null), ("x", Json::Null)]);
    assert_eq!(to_text(&built), r#"{"x":null,"y":null}"#);
}

#[test]
fn members_are_looked_up_in_objects_only() {
    assert!(matches!(json(r#"{"a": 1}"#).get("a"), Some(Json::Unsigned(1))));
    assert!(json(r#"{"a": 1}"#).get("b").is_none());
    assert!(json("[1]").get("a").is_none());
    assert!(json("\"a\"").get("a").is_none());
}

#[test]
fn equal_values_are_the_same() {
    let equal = [
        ("1", "1"),
        ("-0.0", "0.0"),
        ("1.50", "1.5"),
        ("1e2", "100.0"),
        (r#"{"a":1,"b":[2,null]}"#, r#"{ "b": [2, null], "a": 1 }"#),
        ("\"\\u0041\"", "\"A\""),
        ("-5", "-5"),
    ];
    for (a, b) in equal {
        assert!(json(a).same(&json(b)), "{} {}", a, b);
    }
    let different = [
        ("1", "2"),
        ("1", "1.0"),
        ("1", "\"1\""),
        ("null", "false"),
        ("[1,2]", "[2,1]"),
        ("[1]", "[1,1]"),
        (r#"{"a":1}"#, r#"{"b":1}"#),
        (r#"{"a":1}"#, r#"{"a":1,"b":1}"#),
        ("0.1", "0.2"),
        ("18446744073709551615", "-1"),
    ];
    for (a, b) in different {
        assert!(!json(a).same(&json(b)), "{} {}", a, b);
    }
    assert!(Json::Signed(5).same(&Json::Unsigned(5)));
}

#[test]
fn strings_are_escaped_where_json_demands_it() {
    let text = "q\" b\\ n\n t\t r\r b\u{8} f\u{c} \u{1} \u{1f} / é \u{7f}";
    assert_eq!(
        to_text(&Json::Text(text.to_string())),
        "\"q\\\" b\\\\ n\\n t\\t r\\r b\\b f\\f \\u0001 \\u001f / é \u{7f}\""
    );
}

#[test]
fn numbers_are_written_whole() {
    assert_eq!(to_text(&Json::Unsigned(u64::MAX)), "18446744073709551615");
    assert_eq!(to_text(&Json::Signed(i64::MIN)), "-9223372036854775808");
    assert_eq!(to_text(&json("0.10")), "0.1");
    assert_eq!(to_text(&json("-0.0")), "-0.0");
    assert_eq!(to_text(&json("1e2")), "100.0");
}

#[test]
fn pretty_text_puts_each_item_on_a_line() {
    let value = json(r#"{"b":[1,[],{}],"a":{"c":null}}"#);
    let text = to_pretty(&value);
    assert_eq!(
        text,
        "{\n  \"a\": {\n    \"c\": null\n  },\n  \"b\": [\n    1,\n    [],\n    {}\n  ]\n}"
    );
    assert!(json(&text).same(&value));
}

#[test]
fn pretty_text_reads_back() {
    let text = r#"{"s":"a\"b\\c\n\u0000é","n":-3,"u":18446744073709551615,"l":[true,false,null]}"#;
    let value = json(text);
    assert!(json(&to_pretty(&value)).same(&value));
    let deep = format!("{}1{}", "[".repeat(127), "]".repeat(127));
    let value = json(&deep);
    assert!(json(&to_pretty(&value)).same(&value));
    assert!(parse_json(&format!("{}1{}", "[".repeat(128), "]".repeat(128))).is_err());
}

#[test]
fn outside_values_hold_what_is_read() {
    let outside: serde_json::Value =
        serde_json::from_str(r#"{"k":[1,-2,0.5,"x",null,true],"a":{}}"#).unwrap();
    assert_eq!(to_text(&from_value(outside)), r#"{"a":{},"k":[1,-2,0.5,"x",null,true]}"#);
    assert!(matches!(from_value(serde_json::Value::from(5i64)), Json::Unsigned(5)));
}
