use ai_guardrails::json::Json;

fn text(s: &str) -> Json {
    Json::String(s.to_owned())
}

#[test]
fn parse_builds_every_kind_of_value() {
    let json = Json::parse(br#"{"a":null,"b":true,"c":"x","d":[1,[]],"e":{}}"#).unwrap();
    assert_eq!(json.get("a"), Some(&Json::Null));
    assert_eq!(json.get("b"), Some(&Json::Bool(true)));
    assert_eq!(json.get("c"), Some(&text("x")));
    assert_eq!(
        json.get("d"),
        Some(&Json::Array(vec![
            Json::Number(serde_json::Number::from(1)),
            Json::Array(Vec::new()),
        ]))
    );
    assert_eq!(json.get("e"), Some(&Json::Object(Vec::new())));
    assert_eq!(json.get("f"), None);
    assert_eq!(text("a").get("a"), None);
}

#[test]
fn parse_error_is_in_the_words_of_the_reader() {
    assert_eq!(Json::parse(b"not json at all"), Err("expected ident at line 1 column 2".to_owned()));
    assert_eq!(Json::parse(b""), Err("EOF while parsing a value at line 1 column 0".to_owned()));
}

#[test]
fn render_is_compact_and_sorted() {
    let json = Json::Object(vec![
        ("b".to_owned(), Json::Array(vec![Json::Null, Json::Bool(false)])),
        ("a".to_owned(), text("q\"\n")),
    ]);
    assert_eq!(json.render(), Ok(r#"{"a":"q\"\n","b":[null,false]}"#.to_owned()));
}

#[test]
fn display_is_compact() {
    let json = Json::Object(vec![("a".to_owned(), Json::Number(serde_json::Number::from(7)))]);
    assert_eq!(json.display(), r#"{"a":7}"#);
}

#[test]
fn later_entry_counts() {
    let json = Json::Object(vec![("a".to_owned(), text("first")), ("a".to_owned(), text("second"))]);
    assert_eq!(json.get("a"), Some(&text("second")));
    assert_eq!(json.render(), Ok(r#"{"a":"second"}"#.to_owned()));
    let read = Json::parse(br#"{"a":"first","a":"second"}"#).unwrap();
    assert_eq!(read, Json::Object(vec![("a".to_owned(), text("second"))]));
}

#[test]
fn conversion_to_values_and_back_keeps_the_document() {
    let source = r#"{"a":[1,-2,2.5,"x",null,{"b":false}],"c":{"d":[]}}"#;
    let value: serde_json::Value = serde_json::from_str(source).unwrap();
    let json = Json::from_value(value.clone());
    assert_eq!(json.into_value(), value);
}

#[test]
fn written_text_reads_back_with_spaces_after_it() {
    let source = "{\"k\":[\"v\",1,{\"n\":null}],\"u\":\"\u{e9}\u{1f600}\"}".as_bytes();
    let text = Json::parse(source).unwrap().render().unwrap();
    let padded = format!("{text}    ");
    assert_eq!(Json::parse(padded.as_bytes()), Json::parse(source));
}

#[test]
fn nesting_is_read_up_to_the_limit() {
    let deep = |levels: usize| {
        let mut source = "[".repeat(levels);
        source.push_str(&"]".repeat(levels));
        source
    };
    let json = Json::parse(deep(127).as_bytes()).unwrap();
    let text = json.render().unwrap();
    assert_eq!(text, deep(127));
    assert!(Json::parse(text.as_bytes()).is_ok());
    assert!(Json::parse(deep(128).as_bytes()).is_err());
}

#[test]
fn embedding_key_is_not_read_back() {
    let key = "$serde_json::private::RawValue".to_owned();
    let text = Json::Object(vec![(key, text("[true]"))]).render().unwrap();
    assert_eq!(text, r#"{"$serde_json::private::RawValue":"[true]"}"#);
    assert_eq!(Json::parse(text.as_bytes()), Ok(Json::Array(vec![Json::Bool(true)])));
}

#[test]
fn integers_read_back_unchanged() {
    let source = format!("[0,-1,{},{}]", u64::MAX, i64::MIN);
    let json = Json::parse(source.as_bytes()).unwrap();
    assert!(json.is_exact());
    let text = json.render().unwrap();
    assert_eq!(text, source);
    assert_eq!(Json::parse(text.as_bytes()), Json::parse(source.as_bytes()));
}

#[test]
fn floating_point_numbers_stay_so() {
    for source in ["1.0", "-0", "1e300", "18446744073709551616", "5e-324"] {
        let json = Json::parse(source.as_bytes()).unwrap();
        assert!(!json.is_exact());
        let text = json.render().unwrap();
        assert!(!Json::parse(text.as_bytes()).unwrap().is_exact());
    }
}

#[test]
fn exactness_is_told_by_what_counts() {
    let float = || Json::Number(serde_json::Number::from_f64(0.5).unwrap());
    assert!(!Json::Array(vec![Json::Null, float()]).is_exact());
    assert!(!Json::Object(vec![("a".to_owned(), float())]).is_exact());
    assert!(Json::Object(vec![("a".to_owned(), float()), ("a".to_owned(), text("x"))]).is_exact());
    assert!(!Json::Object(vec![("a".to_owned(), text("x")), ("a".to_owned(), float())]).is_exact());
}

#[test]
fn readability_is_told() {
    let mut deep = Json::Null;
    for _ in 0..127 {
        deep = Json::Array(vec![deep]);
    }
    assert!(deep.is_readable());
    assert!(!Json::Object(vec![("a".to_owned(), deep)]).is_readable());
    assert!(Json::parse(br#"{"messages":[{"role":"user"}],"n":1.5}"#).unwrap().is_readable());
    let key = || "$serde_json::private::RawValue".to_owned();
    assert!(!Json::Array(vec![Json::Object(vec![(key(), text("1"))])]).is_readable());
    let reserved = Json::Object(vec![(key(), text("1"))]);
    let shadowed = vec![("a".to_owned(), reserved), ("a".to_owned(), Json::Null)];
    assert!(Json::Object(shadowed).is_readable());
}
