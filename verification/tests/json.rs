use ipdetect::json::{findJsonString, parse_json, Json};

#[test]
fn documents_are_read_with_their_members_in_order() {
    let json = parse_json(r#"{"b":[1,"x",null,true],"a":{"t":"\u00e9"},"b2":""}"#).unwrap();
    let members = match json {
        Json::Object(members) => members,
        other => panic!("unexpected: {:?}", other),
    };
    let names: Vec<&str> = members.iter().map(|member| member.0.as_str()).collect();
    assert_eq!(names, vec!["a", "b", "b2"]);
    assert!(matches!(&members[0].1, Json::Object(inner)
        if inner.len() == 1 && matches!(&inner[0].1, Json::Text(t) if t == "é")));
    match &members[1].1 {
        Json::Array(items) => {
            assert_eq!(items.len(), 4);
            assert!(matches!(items[0], Json::Scalar));
            assert!(matches!(&items[1], Json::Text(t) if t == "x"));
            assert!(matches!(items[2], Json::Scalar));
            assert!(matches!(items[3], Json::Scalar));
        }
        other => panic!("unexpected: {:?}", other),
    }
    assert!(matches!(&members[2].1, Json::Text(t) if t.is_empty()));
}

#[test]
fn names_are_ordered_by_code_points() {
    let json = parse_json("{\"\u{10000}\":1,\"\u{ffff}\":2,\"z\":3,\"\":4,\"zz\":5}").unwrap();
    let members = match json {
        Json::Object(members) => members,
        other => panic!("unexpected: {:?}", other),
    };
    let names: Vec<&str> = members.iter().map(|member| member.0.as_str()).collect();
    assert_eq!(names, vec!["", "z", "zz", "\u{ffff}", "\u{10000}"]);
}

#[test]
fn of_two_members_of_one_name_the_last_stays() {
    let json = parse_json(r#"{"ip":"first","ip":"second"}"#).unwrap();
    assert_eq!(findJsonString(&json, &["ip"]), Some("second".to_string()));
}

#[test]
fn texts_that_are_no_documents_are_refused() {
    for text in ["", "{", "{\"a\":1,}", "nul", "1 2", "'a'"] {
        assert!(parse_json(text).is_none(), "{text}");
    }
}

#[test]
fn own_members_hide_nested_ones() {
    let json = parse_json(r#"{"a":{"ip":"inner"},"query":"outer"}"#).unwrap();
    assert_eq!(findJsonString(&json, &["ip", "query"]), Some("outer".to_string()));
    assert_eq!(findJsonString(&json, &["ip"]), Some("inner".to_string()));
    assert_eq!(findJsonString(&json, &["cc"]), None);
}

#[test]
fn names_are_tried_in_their_order() {
    let json = parse_json(r#"{"a":"1","b":" 2 ","c":"3"}"#).unwrap();
    assert_eq!(findJsonString(&json, &["b", "a"]), Some("2".to_string()));
    assert_eq!(findJsonString(&json, &["x", "c"]), Some("3".to_string()));
    assert_eq!(findJsonString(&json, &[]), None);
}

#[test]
fn nested_values_are_searched_in_order() {
    let json = parse_json(r#"[7,{"z":{"k":"late"},"y":[{"k":"  "},{"k":"early"}]},{"k":"x"}]"#);
    assert_eq!(
        findJsonString(&json.unwrap(), &["k"]),
        Some("early".to_string())
    );
    let json = parse_json(r#""text""#).unwrap();
    assert_eq!(findJsonString(&json, &["text"]), None);
}
