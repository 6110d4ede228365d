use pdx_mods::parser::parse_content;
use pdx_mods::parser::ParadoxParser;
use pdx_mods::value::object_get;
use pdx_mods::value::DictKey;
use pdx_mods::value::ParsedValue;

#[test]
fn test_parse_single_quoted_pair() {
    let entries = parse_content("key1=\"value1\"").unwrap();
    assert_eq!(entries.len(), 1);
    assert_eq!(object_get(&entries, "key1"), Some(&ParsedValue::Str("value1".to_string())));
}

#[test]
fn test_parse_single_value_not_wrapped() {
    // a key bound once keeps its bare value: no premature array wrapping
    let entries = parse_content("k=\"a\"").unwrap();
    assert_eq!(object_get(&entries, "k"), Some(&ParsedValue::Str("a".to_string())));
}

#[test]
fn test_parse_duplicate_key_merges_to_array() {
    let entries = parse_content("k=\"a\"\nk=\"b\"").unwrap();
    assert_eq!(entries.len(), 1);
    assert_eq!(
        object_get(&entries, "k"),
        Some(
            &ParsedValue::Array(
                vec![ParsedValue::Str("a".to_string()), ParsedValue::Str("b".to_string())],
            ),
        )
    );
}

#[test]
fn test_parse_triple_key_appends() {
    let entries = parse_content("k=\"a\"\nk=\"b\"\nk=\"c\"").unwrap();
    assert_eq!(
        object_get(&entries, "k"),
        Some(
            &ParsedValue::Array(
                vec![
                    ParsedValue::Str("a".to_string()),
                    ParsedValue::Str("b".to_string()),
                    ParsedValue::Str("c".to_string()),
                ],
            ),
        )
    );
}

#[test]
fn test_parse_bare_words() {
    let entries = parse_content(
        "a=yes\nb=no\nc=hello\nd=12\ne=-3\nf=1.5\ng=1e3\nh=99999999999999999999",
    )
    .unwrap();
    assert_eq!(object_get(&entries, "a"), Some(&ParsedValue::Bool(true)));
    assert_eq!(object_get(&entries, "b"), Some(&ParsedValue::Bool(false)));
    assert_eq!(object_get(&entries, "c"), Some(&ParsedValue::Str("hello".to_string())));
    assert_eq!(object_get(&entries, "d"), Some(&ParsedValue::Int(12)));
    assert_eq!(object_get(&entries, "e"), Some(&ParsedValue::Int(-3)));
    assert_eq!(object_get(&entries, "f"), Some(&ParsedValue::Float("1.5".to_string())));
    assert_eq!(object_get(&entries, "g"), Some(&ParsedValue::Float("1e3".to_string())));
    // an integer lexeme beyond the machine range stays textual
    assert_eq!(
        object_get(&entries, "h"),
        Some(&ParsedValue::Str("99999999999999999999".to_string()))
    );
}

#[test]
fn test_parse_i64_bounds() {
    let entries =
        parse_content("min=-9223372036854775808\nmax=9223372036854775807\nover=9223372036854775808")
            .unwrap();
    assert_eq!(object_get(&entries, "min"), Some(&ParsedValue::Int(i64::MIN)));
    assert_eq!(object_get(&entries, "max"), Some(&ParsedValue::Int(i64::MAX)));
    assert_eq!(
        object_get(&entries, "over"),
        Some(&ParsedValue::Str("9223372036854775808".to_string()))
    );
}

#[test]
fn test_parse_empty_block_is_empty_array() {
    let entries = parse_content("a={}").unwrap();
    assert_eq!(object_get(&entries, "a"), Some(&ParsedValue::Array(Vec::new())));
    let entries = parse_content("a={   }").unwrap();
    assert_eq!(object_get(&entries, "a"), Some(&ParsedValue::Array(Vec::new())));
}

#[test]
fn test_parse_token_block_is_array() {
    let entries = parse_content("a={1, 2}\nb={\"x\" \"y\"}\nc={w}").unwrap();
    assert_eq!(
        object_get(&entries, "a"),
        Some(&ParsedValue::Array(vec![ParsedValue::Int(1), ParsedValue::Int(2)]))
    );
    assert_eq!(
        object_get(&entries, "b"),
        Some(
            &ParsedValue::Array(
                vec![ParsedValue::Str("x".to_string()), ParsedValue::Str("y".to_string())],
            ),
        )
    );
    // the ambiguous single-token block reads as an array, by the pinned
    // trial order
    assert_eq!(
        object_get(&entries, "c"),
        Some(&ParsedValue::Array(vec![ParsedValue::Str("w".to_string())]))
    );
}

#[test]
fn test_parse_pair_block_is_object() {
    let entries = parse_content("o={x=1,\"y\"=\"two\"}").unwrap();
    let inner = match object_get(&entries, "o") {
        Some(ParsedValue::Object(m)) => m,
        other => panic!("expected an object, got {:?}", other),
    };
    assert_eq!(object_get(inner, "x"), Some(&ParsedValue::Int(1)));
    assert_eq!(object_get(inner, "y"), Some(&ParsedValue::Str("two".to_string())));
}

#[test]
fn test_parse_pair_block_space_separated() {
    let entries = parse_content("o={x=1 y=2}").unwrap();
    let inner = match object_get(&entries, "o") {
        Some(ParsedValue::Object(m)) => m,
        other => panic!("expected an object, got {:?}", other),
    };
    assert_eq!(object_get(inner, "x"), Some(&ParsedValue::Int(1)));
    assert_eq!(object_get(inner, "y"), Some(&ParsedValue::Int(2)));
}

#[test]
fn test_parse_nested_blocks() {
    let entries = parse_content("a={inner={1 2} other={}}").unwrap();
    let inner = match object_get(&entries, "a") {
        Some(ParsedValue::Object(m)) => m,
        other => panic!("expected an object, got {:?}", other),
    };
    assert_eq!(
        object_get(inner, "inner"),
        Some(&ParsedValue::Array(vec![ParsedValue::Int(1), ParsedValue::Int(2)]))
    );
    assert_eq!(object_get(inner, "other"), Some(&ParsedValue::Array(Vec::new())));
}

#[test]
fn test_parse_numeric_and_quoted_keys() {
    let entries = parse_content("12=\"x\"\n\"a b\"=\"c\"").unwrap();
    let by_int = entries.iter().find(|e| e.0 == DictKey::Int(12)).map(|e| &e.1);
    assert_eq!(by_int, Some(&ParsedValue::Str("x".to_string())));
    assert_eq!(object_get(&entries, "a b"), Some(&ParsedValue::Str("c".to_string())));
}

#[test]
fn test_parse_duplicate_key_mixed_spelling() {
    // a quoted and a bare spelling of the same text are the same key
    let entries = parse_content("k=\"a\"\n\"k\"=\"b\"").unwrap();
    assert_eq!(entries.len(), 1);
    assert_eq!(
        object_get(&entries, "k"),
        Some(
            &ParsedValue::Array(
                vec![ParsedValue::Str("a".to_string()), ParsedValue::Str("b".to_string())],
            ),
        )
    );
}

#[test]
fn test_parse_empty_input() {
    let entries = parse_content("").unwrap();
    assert!(entries.is_empty());
    let entries = parse_content("  \n \n").unwrap();
    assert!(entries.is_empty());
}

#[test]
fn test_parse_errors() {
    // unterminated quote: the failure sits at the value's opening quote
    assert_eq!(parse_content("k=\"abc").unwrap_err().pos, 2);
    // unterminated block
    assert!(parse_content("k={").is_err());
    assert!(parse_content("k={\"a\"").is_err());
    // missing equals sign: the failure sits where the sign was expected
    assert_eq!(parse_content("k 1").unwrap_err().pos, 2);
    // trailing unconsumed input on the line: the failure sits at it
    assert_eq!(parse_content("k=1 x").unwrap_err().pos, 4);
    // a block mixing a pair with a bare token parses neither way
    assert!(parse_content("k={a=1 b}").is_err());
}

#[test]
fn test_parse_to_hash_map_descriptor() {
    let input = "version=\"0.0.1\"\ndependencies={\n\t\"Missions Expanded\"\n}\ntags={\n\t\"Utilities\"\n}\nname=\"defines\"\nsupported_version=\"1.34.5\"\npath=\"C:/Users/actur/Documents/Paradox Interactive/Europa Universalis IV/mod/defines\"";
    let entries = ParadoxParser::parse_to_hash_map(input).unwrap();
    assert_eq!(entries.len(), 6);
    assert_eq!(object_get(&entries, "version"), Some(&ParsedValue::Str("0.0.1".to_string())));
    assert_eq!(object_get(&entries, "name"), Some(&ParsedValue::Str("defines".to_string())));
    assert_eq!(
        object_get(&entries, "tags"),
        Some(&ParsedValue::Array(vec![ParsedValue::Str("Utilities".to_string())]))
    );
    assert_eq!(
        object_get(&entries, "supported_version"),
        Some(&ParsedValue::Str("1.34.5".to_string()))
    );
}

#[test]
fn test_value_accessors() {
    let s = ParsedValue::Str("x".to_string());
    assert_eq!(s.as_string(), Some("x".to_string()));
    assert_eq!(s.as_str(), Some("x"));
    assert!(s.as_array().is_none());
    assert!(s.as_map().is_none());
    let a = ParsedValue::Array(vec![ParsedValue::Null]);
    assert!(a.as_string().is_none());
    assert_eq!(a.as_array().map(|v| v.len()), Some(1));
    let o = ParsedValue::Object(Vec::new());
    assert!(o.as_map().is_some());
    assert!(o.as_array().is_none());
    assert!(ParsedValue::Int(3).as_string().is_none());
}

#[test]
fn test_to_display_string() {
    assert_eq!(ParsedValue::Null.to_display_string(), "null");
    assert_eq!(ParsedValue::Bool(true).to_display_string(), "true");
    assert_eq!(ParsedValue::Int(-42).to_display_string(), "-42");
    assert_eq!(ParsedValue::Int(i64::MIN).to_display_string(), "-9223372036854775808");
    assert_eq!(ParsedValue::Float("1.5".to_string()).to_display_string(), "1.5");
    assert_eq!(ParsedValue::Str("hi".to_string()).to_display_string(), "\"hi\"");
    let arr = ParsedValue::Array(vec![ParsedValue::Int(1), ParsedValue::Int(20)]);
    assert_eq!(arr.to_display_string(), "[1, 20]");
    let obj = ParsedValue::Object(vec![
        (DictKey::Str("a".to_string()), ParsedValue::Int(1)),
        (DictKey::Int(7), ParsedValue::Str("x".to_string())),
    ]);
    assert_eq!(obj.to_display_string(), "{\"a\": 1, \"7\": \"x\"}");
    assert_eq!(DictKey::Int(-3).to_display_string(), "-3");
    assert_eq!(DictKey::Str("k".to_string()).to_display_string(), "k");
}
