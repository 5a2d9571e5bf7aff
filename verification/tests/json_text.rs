use bot_requests::json::Json;

fn object(members: Vec<(&str, Json)>) -> Json {
    Json::Object(members.into_iter().map(|(k, v)| (k.to_string(), v)).collect())
}

fn text(s: &str) -> Json {
    Json::Str(s.to_string())
}

#[test]
fn encode_scalars() {
    assert_eq!(Json::Null.to_text(), "null");
    assert_eq!(Json::Bool(true).to_text(), "true");
    assert_eq!(Json::Bool(false).to_text(), "false");
    assert_eq!(Json::Int(0).to_text(), "0");
    assert_eq!(Json::Int(7).to_text(), "7");
    assert_eq!(Json::Int(10).to_text(), "10");
    assert_eq!(Json::Int(-1).to_text(), "-1");
    assert_eq!(Json::Int(1234567890).to_text(), "1234567890");
    assert_eq!(Json::Int(i64::MAX).to_text(), "9223372036854775807");
    assert_eq!(Json::Int(i64::MIN).to_text(), "-9223372036854775808");
    assert_eq!(Json::Decimal("1.5e3".to_string()).to_text(), "1.5e3");
}

#[test]
fn encode_strings() {
    assert_eq!(text("").to_text(), r#""""#);
    assert_eq!(text("plain").to_text(), r#""plain""#);
    assert_eq!(text("a\"b\\c").to_text(), r#""a\"b\\c""#);
    assert_eq!(text("\u{8}\u{c}\n\r\t").to_text(), r#""\b\f\n\r\t""#);
    assert_eq!(text("\u{0}\u{1f}\u{1b}").to_text(), r#""\u0000\u001f\u001b""#);
    assert_eq!(text("/ \u{7f} é 日本 😀").to_text(), "\"/ \u{7f} é 日本 😀\"");
}

#[test]
fn encode_containers() {
    assert_eq!(Json::Array(vec![]).to_text(), "[]");
    assert_eq!(Json::Object(vec![]).to_text(), "{}");
    assert_eq!(Json::Array(vec![Json::Int(1)]).to_text(), "[1]");
    assert_eq!(
        Json::Array(vec![Json::Int(1), Json::Null, text("x")]).to_text(),
        r#"[1,null,"x"]"#
    );
    assert_eq!(
        object(vec![
            ("a", Json::Int(1)),
            ("b \"q\"", Json::Array(vec![object(vec![]), Json::Array(vec![Json::Bool(true)])])),
            ("a", Json::Null),
        ])
        .to_text(),
        r#"{"a":1,"b \"q\"":[{},[true]],"a":null}"#
    );
}

#[test]
fn write_to_appends() {
    let mut out = String::from("x=");
    Json::Int(5).write_to(&mut out);
    Json::Null.write_to(&mut out);
    assert_eq!(out, "x=5null");
}

#[test]
fn parse_scalars() {
    assert_eq!(Json::parse("null"), Some(Json::Null));
    assert_eq!(Json::parse("true"), Some(Json::Bool(true)));
    assert_eq!(Json::parse("false"), Some(Json::Bool(false)));
    assert_eq!(Json::parse(" \t\r\n 12 \n"), Some(Json::Int(12)));
    assert_eq!(Json::parse("\"\""), Some(text("")));
    assert_eq!(Json::parse("\"hi there\""), Some(text("hi there")));
}

#[test]
fn parse_numbers() {
    assert_eq!(Json::parse("0"), Some(Json::Int(0)));
    assert_eq!(Json::parse("-0"), Some(Json::Int(0)));
    assert_eq!(Json::parse("42"), Some(Json::Int(42)));
    assert_eq!(Json::parse("-17"), Some(Json::Int(-17)));
    assert_eq!(Json::parse("9223372036854775807"), Some(Json::Int(i64::MAX)));
    assert_eq!(Json::parse("-9223372036854775808"), Some(Json::Int(i64::MIN)));
    assert_eq!(
        Json::parse("9223372036854775808"),
        Some(Json::Decimal("9223372036854775808".to_string()))
    );
    assert_eq!(
        Json::parse("-9223372036854775809"),
        Some(Json::Decimal("-9223372036854775809".to_string()))
    );
    assert_eq!(
        Json::parse("123456789012345678901234567890"),
        Some(Json::Decimal("123456789012345678901234567890".to_string()))
    );
    assert_eq!(Json::parse("1.5"), Some(Json::Decimal("1.5".to_string())));
    assert_eq!(Json::parse("-0.25"), Some(Json::Decimal("-0.25".to_string())));
    assert_eq!(Json::parse("1e9"), Some(Json::Decimal("1e9".to_string())));
    assert_eq!(Json::parse("1E+9"), Some(Json::Decimal("1E+9".to_string())));
    assert_eq!(Json::parse("2.5e-3"), Some(Json::Decimal("2.5e-3".to_string())));
}

#[test]
fn parse_rejects_bad_numbers() {
    for bad in ["-", "+1", "01", "1.", ".5", "1e", "1e+", "1.e3", "--1", "0x10", "1 2", "- 1"] {
        assert_eq!(Json::parse(bad), None, "{}", bad);
    }
}

#[test]
fn parse_string_escapes() {
    assert_eq!(Json::parse(r#""a\"b\\c\/d""#), Some(text("a\"b\\c/d")));
    assert_eq!(Json::parse(r#""\b\f\n\r\t""#), Some(text("\u{8}\u{c}\n\r\t")));
    assert_eq!(Json::parse(r#""Aéé日""#), Some(text("Aéé日")));
    assert_eq!(Json::parse(r#""😀""#), Some(text("😀")));
    assert_eq!(Json::parse(r#""😀!""#), Some(text("😀!")));
    assert_eq!(Json::parse(r#""\u0000""#), Some(text("\u{0}")));
    assert_eq!(Json::parse("\"é 日本 😀\""), Some(text("é 日本 😀")));
}

#[test]
fn parse_rejects_bad_strings() {
    for bad in [
        "\"",
        "\"abc",
        "\"a\nb\"",
        "\"a\tb\"",
        r#""\x""#,
        r#""\u12""#,
        r#""\u12g4""#,
        r#""\uD83D""#,
        r#""\uD83Dx""#,
        r#""\uD83D\n""#,
        r#""\uD83DA""#,
        r#""\uDE00""#,
        r#""\"#,
        "'a'",
    ] {
        assert_eq!(Json::parse(bad), None, "{}", bad);
    }
}

#[test]
fn parse_containers() {
    assert_eq!(Json::parse("[]"), Some(Json::Array(vec![])));
    assert_eq!(Json::parse("[ ]"), Some(Json::Array(vec![])));
    assert_eq!(Json::parse("{}"), Some(Json::Object(vec![])));
    assert_eq!(Json::parse("{ \n }"), Some(Json::Object(vec![])));
    assert_eq!(
        Json::parse(" [ 1 , \"x\" ,null, [ ] ,{ } ] "),
        Some(Json::Array(vec![
            Json::Int(1),
            text("x"),
            Json::Null,
            Json::Array(vec![]),
            Json::Object(vec![]),
        ]))
    );
    assert_eq!(
        Json::parse(r#"{"a":1,"b" : [true , false], "a": {"c":"d"} }"#),
        Some(object(vec![
            ("a", Json::Int(1)),
            ("b", Json::Array(vec![Json::Bool(true), Json::Bool(false)])),
            ("a", object(vec![("c", text("d"))])),
        ]))
    );
}

#[test]
fn parse_rejects_bad_texts() {
    for bad in [
        "",
        "   ",
        "nul",
        "nulll",
        "tru",
        "True",
        "falsey",
        "[",
        "]",
        "[1",
        "[1,",
        "[1,]",
        "[,1]",
        "[1 2]",
        "[1],",
        "{",
        "}",
        "{\"a\"}",
        "{\"a\":}",
        "{\"a\":1,}",
        "{,}",
        "{a:1}",
        "{1:1}",
        "{\"a\" 1}",
        "{\"a\":1 \"b\":2}",
        "{\"a\":1}}",
        "[1] [2]",
        "null null",
        "\u{a0}1",
    ] {
        assert_eq!(Json::parse(bad), None, "{:?}", bad);
    }
}

fn nested(depth: usize) -> String {
    let mut out = String::new();
    for _ in 0..depth {
        out.push('[');
    }
    for _ in 0..depth {
        out.push(']');
    }
    out
}

#[test]
fn parse_nesting_limit() {
    assert!(Json::parse(&nested(1)).is_some());
    assert!(Json::parse(&nested(128)).is_some());
    assert_eq!(Json::parse(&nested(129)), None);
    assert_eq!(Json::parse(&nested(1000)), None);
    let mut objects = String::new();
    for _ in 0..128 {
        objects.push_str("{\"a\":");
    }
    objects.push('1');
    for _ in 0..128 {
        objects.push('}');
    }
    assert!(Json::parse(&objects).is_some());
    let deeper = format!("[{}]", objects);
    assert_eq!(Json::parse(&deeper), None);
}

#[test]
fn parse_what_was_encoded() {
    let value = object(vec![
        ("id", Json::Int(-5)),
        ("name", text("a \"b\" \\ \n \u{1} é 😀")),
        ("ratio", Json::Decimal("0.5".to_string())),
        ("tags", Json::Array(vec![text("x"), Json::Null, Json::Bool(false)])),
        ("inner", object(vec![("empty", Json::Array(vec![])), ("none", Json::Object(vec![]))])),
    ]);
    assert_eq!(Json::parse(&value.to_text()), Some(value));
}

#[test]
fn get_takes_the_first_member() {
    let value = object(vec![("a", Json::Int(1)), ("b", Json::Null), ("a", Json::Int(2))]);
    assert_eq!(value.get("a"), Some(&Json::Int(1)));
    assert_eq!(value.get("b"), Some(&Json::Null));
    assert_eq!(value.get("c"), None);
    assert_eq!(value.get(""), None);
    assert_eq!(Json::Array(vec![Json::Int(1)]).get("a"), None);
    assert_eq!(Json::Null.get("a"), None);
}

#[test]
fn clone_copies_the_whole_value() {
    let value = object(vec![
        ("id", Json::Int(i64::MIN)),
        ("ratio", Json::Decimal("-1.5E-7".to_string())),
        ("name", text("é \"x\"")),
        ("flags", Json::Array(vec![Json::Bool(true), Json::Null, Json::Array(vec![])])),
        ("inner", object(vec![("a", object(vec![])), ("a", Json::Int(2))])),
    ]);
    let copy = value.clone();
    assert_eq!(copy, value);
    assert_eq!(copy.to_text(), value.to_text());
    assert_eq!(Json::Null.clone(), Json::Null);
}
