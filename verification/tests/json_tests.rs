use hapi_core::json::{member_number, member_text, member_value, object, text_list, Json, JsonNumber, Member};

fn obj(members: Vec<(&str, Json)>) -> Json {
    Json::Object(members.into_iter().map(|(k, v)| Member { key: k.to_string(), value: v }).collect())
}

#[test]
fn render_writes_compact_text_with_sorted_keys() {
    let value = obj(vec![
        ("b", Json::Array(vec![Json::unsigned(1), Json::integer(-2), Json::Bool(true), Json::Null])),
        ("a", Json::text("x\"y")),
    ]);
    assert_eq!(value.render(), "{\"a\":\"x\\\"y\",\"b\":[1,-2,true,null]}");
}

#[test]
fn render_keeps_real_numbers() {
    let value = Json::Array(vec![
        Json::Number(JsonNumber::Real("1.5".to_string())),
        Json::Number(JsonNumber::Real("0.9".to_string())),
        Json::Number(JsonNumber::PosInt(18446744073709551615)),
        Json::Number(JsonNumber::NegInt(-9223372036854775808)),
    ]);
    assert_eq!(value.render(), "[1.5,0.9,18446744073709551615,-9223372036854775808]");
}

#[test]
fn render_takes_the_later_of_two_members_with_one_key() {
    let value = obj(vec![("k", Json::unsigned(1)), ("k", Json::unsigned(2))]);
    assert_eq!(value.render(), "{\"k\":2}");
    assert_eq!(value.get("k").and_then(|v| v.as_u64()), Some(2));
}

#[test]
fn parse_reads_every_kind_of_value() {
    let value = Json::parse(" {\"s\": \"t\", \"n\": 7, \"m\": -3, \"r\": 2.25, \"b\": false, \"z\": null, \"l\": [1, [2]]} ").unwrap();
    assert_eq!(value.str_at("s"), Some("t"));
    assert_eq!(value.get("n").unwrap().as_u64(), Some(7));
    assert_eq!(value.get("n").unwrap().as_i64(), Some(7));
    assert_eq!(value.get("m").unwrap().as_i64(), Some(-3));
    assert_eq!(value.get("m").unwrap().as_u64(), None);
    assert!(matches!(value.get("r"), Some(Json::Number(JsonNumber::Real(t))) if t == "2.25"));
    assert_eq!(value.get("r").unwrap().as_i64(), None);
    assert!(matches!(value.get("b"), Some(Json::Bool(false))));
    assert!(matches!(value.get("z"), Some(Json::Null)));
    let list = value.get("l").unwrap();
    assert!(list.is_array());
    assert_eq!(list.as_array().unwrap().len(), 2);
    assert_eq!(list.at(0).unwrap().as_u64(), Some(1));
    assert_eq!(list.at(1).unwrap().at(0).unwrap().as_u64(), Some(2));
    assert!(list.at(2).is_none());
    assert!(value.get("missing").is_none());
    assert!(value.at(0).is_none());
}

#[test]
fn parse_rejects_what_is_no_json() {
    assert!(Json::parse("").is_none());
    assert!(Json::parse("{").is_none());
    assert!(Json::parse("[1,]").is_none());
    assert!(Json::parse("1 2").is_none());
    assert!(Json::parse("nul").is_none());
}

#[test]
fn parse_and_render_agree() {
    let text = "{\"a\":[1,2.5,\"x\"],\"b\":{\"c\":null}}";
    assert_eq!(Json::parse(text).unwrap().render(), text);
}

#[test]
fn clone_copies_the_whole_tree() {
    let value = Json::parse("{\"a\":[1,{\"b\":\"c\"}],\"d\":1.25}").unwrap();
    assert_eq!(value.clone().render(), value.render());
}

#[test]
fn accessors_tell_kinds_apart() {
    assert_eq!(Json::text("a").as_str(), Some("a"));
    assert_eq!(Json::unsigned(3).as_str(), None);
    assert_eq!(Json::integer(-1).as_i64(), Some(-1));
    assert_eq!(Json::integer(5).as_u64(), Some(5));
    assert_eq!(Json::unsigned(u64::MAX).as_i64(), None);
    assert_eq!(Json::Number(JsonNumber::NegInt(4)).as_u64(), Some(4));
    assert!(!Json::Null.is_array());
    assert!(Json::Null.as_array().is_none());
    assert!(Json::text("x").get("x").is_none());
}

#[test]
fn builders_make_members_and_lists() {
    let value = object(vec![
        member_text("name", "n"),
        member_number("count", 3),
        member_value("list", text_list(&["a", "b"])),
    ]);
    assert_eq!(value.render(), "{\"count\":3,\"list\":[\"a\",\"b\"],\"name\":\"n\"}");
}
