use kvform::form::App;

fn app_with(pairs: &[(&str, &str)]) -> App {
    let mut app = App::new();
    for (k, v) in pairs.iter() {
        app.key_input = String::from(*k);
        app.value_input = String::from(*v);
        app.save_key_value();
    }
    app
}

#[test]
fn export_empty_list_is_empty_array() {
    let app = App::new();
    assert_eq!(app.export_json().unwrap(), "[]");
}

#[test]
fn export_two_pairs_in_order() {
    let app = app_with(&[("a", "1"), ("b", "2")]);
    assert_eq!(
        app.export_json().unwrap(),
        "[{\"key\":\"a\",\"value\":\"1\"},{\"key\":\"b\",\"value\":\"2\"}]"
    );
}

#[test]
fn export_escapes_quotes_and_backslashes() {
    let app = app_with(&[("a\"b", "c\\d")]);
    assert_eq!(
        app.export_json().unwrap(),
        "[{\"key\":\"a\\\"b\",\"value\":\"c\\\\d\"}]"
    );
}

#[test]
fn export_escapes_control_characters() {
    let app = app_with(&[("tab\there", "line\nbreak"), ("bell\u{7}", "esc\u{1b}end")]);
    assert_eq!(
        app.export_json().unwrap(),
        "[{\"key\":\"tab\\there\",\"value\":\"line\\nbreak\"},\
         {\"key\":\"bell\\u0007\",\"value\":\"esc\\u001bend\"}]"
    );
}

#[test]
fn export_leaves_unicode_unescaped() {
    let app = app_with(&[("clé", "värde ☃")]);
    assert_eq!(
        app.export_json().unwrap(),
        "[{\"key\":\"clé\",\"value\":\"värde ☃\"}]"
    );
}

#[test]
fn export_matches_serde_json_encoder() {
    let pairs = [
        ("name", "ratatui"),
        ("quote\"backslash\\", "control\u{1}\r\u{c}"),
        ("unicode µ☃", ""),
        ("", "empty key above, empty value here"),
    ];
    let app = app_with(&pairs);
    let mut array = Vec::new();
    for (k, v) in pairs.iter() {
        let mut object = serde_json::Map::new();
        object.insert(String::from("key"), serde_json::Value::String(String::from(*k)));
        object.insert(String::from("value"), serde_json::Value::String(String::from(*v)));
        array.push(serde_json::Value::Object(object));
    }
    let expected = serde_json::to_string(&serde_json::Value::Array(array)).unwrap();
    assert_eq!(app.export_json().unwrap(), expected);
}

#[test]
fn export_round_trips_through_a_json_parser() {
    let pairs = [
        ("plain", "ascii"),
        ("", ""),
        ("qu\"ote", "back\\slash"),
        ("tab\tnew\nline", "ctrl\u{0}\u{1}\u{1f}"),
        ("uni çode ☃", "emoji 🦀 mixed\u{8}\u{c}\r"),
        ("dup", "first"),
        ("dup", "second"),
    ];
    let app = app_with(&pairs);
    let text = app.export_json().unwrap();
    let parsed: serde_json::Value = serde_json::from_str(&text).unwrap();
    let array = parsed.as_array().unwrap();
    assert_eq!(array.len(), pairs.len());
    for (i, (k, v)) in pairs.iter().enumerate() {
        let object = array[i].as_object().unwrap();
        assert_eq!(object.len(), 2);
        assert_eq!(object.get("key").unwrap().as_str().unwrap(), *k);
        assert_eq!(object.get("value").unwrap().as_str().unwrap(), *v);
    }
}
