use glyphs_plist::{escape_string, numeric_ok, Error, Plist};

fn s(t: &str) -> Plist {
    Plist::String(t.to_string())
}

#[test]
fn quoting() {
    let contents = r#"
        {
            name = "UFO Filename";
            value1 = ../../build/instance_ufos/Testing_Rg.ufo;
            value2 = _;
            value3 = $;
            value4 = /;
            value5 = :;
            value6 = .;
            value7 = -;
        }
        "#;

    let plist = Plist::parse(contents).unwrap();
    let plist_expected = Plist::from_pairs(vec![
        ("name".to_string(), s("UFO Filename")),
        ("value1".to_string(), s("../../build/instance_ufos/Testing_Rg.ufo")),
        ("value2".to_string(), s("_")),
        ("value3".to_string(), s("$")),
        ("value4".to_string(), s("/")),
        ("value5".to_string(), s(":")),
        ("value6".to_string(), s(".")),
        ("value7".to_string(), s("-")),
    ]);
    assert_eq!(plist, plist_expected);
}

#[test]
fn escape_strings_inf() {
    let mut buf = String::new();
    escape_string(&mut buf, "inf");
    assert_eq!(buf, "\"inf\"");

    buf.clear();
    escape_string(&mut buf, "-inf");
    assert_eq!(buf, "\"-inf\"");

    buf.clear();
    escape_string(&mut buf, "infinity");
    assert_eq!(buf, "\"infinity\"");

    buf.clear();
    escape_string(&mut buf, "-infinity");
    assert_eq!(buf, "\"-infinity\"");
}

#[test]
fn escape_strings_numbers_are_quoted() {
    for text in ["0", "-7", "123", "1.5", "1e10", "9223372036854775807", "NaN"] {
        let mut buf = String::new();
        escape_string(&mut buf, text);
        assert_eq!(buf, format!("\"{text}\""));
    }
}

#[test]
fn escape_strings_escapes_quotes_and_backslashes() {
    let mut buf = String::new();
    escape_string(&mut buf, "a \"b\" \\ c");
    assert_eq!(buf, "\"a \\\"b\\\" \\\\ c\"");
    buf.clear();
    escape_string(&mut buf, "");
    assert_eq!(buf, "\"\"");
    buf.clear();
    escape_string(&mut buf, "glyph.alt");
    assert_eq!(buf, "glyph.alt");
}

#[test]
fn test_plist_dict() {
    let digits = Plist::from_pairs(vec![
        ("one".to_string(), Plist::Integer(1)),
        ("two".to_string(), Plist::Integer(2)),
    ]);
    let Plist::Dictionary(entries) = &digits else {
        panic!("wrong Plist variant, expected Plist::Dictionary, got {digits:?}");
    };
    assert_eq!(entries.len(), 2);
    assert_eq!(digits.get("one"), Some(&Plist::Integer(1)));
    assert_eq!(digits.get("two"), Some(&Plist::Integer(2)));

    let empty = Plist::from_pairs(vec![]);
    let Plist::Dictionary(entries) = &empty else {
        panic!("wrong Plist variant, expected Plist::Dictionary, got {digits:?}");
    };
    assert!(entries.is_empty());

    let _nested_compiles = Plist::from_pairs(vec![("inner".to_string(), digits)]);
}

#[test]
fn test_plist_array() {
    let digits = Plist::Array(vec![Plist::Integer(1), Plist::Integer(2), Plist::Integer(3)]);
    let Plist::Array(items) = &digits else {
        panic!("wrong Plist variant, expected Plist::Array, got {digits:?}");
    };
    assert_eq!(items, &vec![Plist::Integer(1), Plist::Integer(2), Plist::Integer(3)]);

    let repeated = Plist::Array((0..5).map(|_| Plist::Integer(1)).collect());
    let Plist::Array(items) = &repeated else {
        panic!("wrong Plist variant, expected Plist::Array, got {repeated:?}");
    };
    assert_eq!(items, &vec![Plist::Integer(1); 5]);

    let empty = Plist::Array(vec![]);
    let Plist::Array(items) = &empty else {
        panic!("wrong Plist variant, expected Plist::Array, got {empty:?}");
    };
    assert!(items.is_empty());
}

#[test]
fn from_pairs_sorts_keys_and_keeps_the_last_value() {
    let a = Plist::from_pairs(vec![
        ("b".to_string(), Plist::Integer(1)),
        ("a".to_string(), Plist::Integer(2)),
        ("b".to_string(), Plist::Integer(3)),
    ]);
    assert_eq!(
        a,
        Plist::Dictionary(vec![("a".to_string(), Plist::Integer(2)), ("b".to_string(), Plist::Integer(3))])
    );
}

#[test]
fn numeric_ambiguity() {
    assert_eq!(Plist::parse("0123").unwrap(), s("0123"));
    assert_eq!(Plist::parse("1AB").unwrap(), s("1AB"));
    assert_eq!(Plist::parse("0.5").unwrap(), Plist::Float("0.5".to_string()));
    assert_eq!(Plist::parse("-7").unwrap(), Plist::Integer(-7));
    assert_eq!(Plist::parse("0").unwrap(), Plist::Integer(0));
    assert_eq!(Plist::parse("ABC").unwrap(), s("ABC"));
    assert_eq!(Plist::parse("1e3").unwrap(), Plist::Float("1e3".to_string()));
    assert_eq!(Plist::parse("99999999999999999999").unwrap(), Plist::Float("99999999999999999999".to_string()));
    assert_eq!(Plist::parse("a.b").unwrap(), s("a.b"));
    assert_eq!(Plist::parse("\"12\"").unwrap(), s("12"));
    assert!(!numeric_ok("0123"));
    assert!(numeric_ok("0.5"));
    assert!(!numeric_ok("DEAD"));
    assert!(!numeric_ok(""));
}

#[test]
fn string_quoting_stability() {
    let text = s("123").to_text();
    assert_eq!(text, "\"123\"");
    assert_eq!(Plist::parse(&text).unwrap(), s("123"));
}

#[test]
fn canonical_text() {
    let p = Plist::from_pairs(vec![
        ("b".to_string(), Plist::Array(vec![Plist::Integer(-42), s("x y")])),
        ("a".to_string(), Plist::Float("0.5".to_string())),
    ]);
    assert_eq!(p.to_text(), "{\na = 0.5;\nb = (\n-42,\n\"x y\"\n);\n}");
    assert_eq!(Plist::Array(vec![]).to_text(), "(\n)");
    assert_eq!(Plist::from_pairs(vec![]).to_text(), "{\n}");
}

#[test]
fn parsed_documents_round_trip() {
    let source = r#"
        {
            glyphname = "A";
            unicode = 0041;
            layers = (
                { width = 600; name = "Regular \"1\""; nodes = ((1,2,l), (3.5,-4,c)); },
                ()
            );
            "quoted key" = "two\nlines \\ and \"quotes\"";
            octal = "\101\102";
            uuid = 12345678-ABCD;
            hex = DEAD;
            num = -7;
            zero = 0;
        }
    "#;
    let first = Plist::parse(source).unwrap();
    let text = first.to_text();
    let second = Plist::parse(&text).unwrap();
    assert_eq!(first, second);
    assert_eq!(first.get("octal"), Some(&s("AB")));
    assert_eq!(first.get("unicode"), Some(&s("0041")));
    assert_eq!(first.get("hex"), Some(&s("DEAD")));
    assert_eq!(first.get("num"), Some(&Plist::Integer(-7)));
}

#[test]
fn parse_errors() {
    assert_eq!(Plist::parse("}"), Err(Error::UnexpectedChar('}')));
    assert_eq!(Plist::parse("\"abc"), Err(Error::UnclosedString));
    assert_eq!(Plist::parse("\"a\\"), Err(Error::UnclosedString));
    assert_eq!(Plist::parse("\"a\\qb\""), Err(Error::UnknownEscape));
    assert_eq!(Plist::parse("\"\\48\""), Err(Error::UnknownEscape));
    assert_eq!(Plist::parse("{ ( = 1; }"), Err(Error::NotAString));
    assert_eq!(Plist::parse("{ a 1; }"), Err(Error::ExpectedEquals));
    assert_eq!(Plist::parse("{ a = 1 }"), Err(Error::ExpectedSemicolon));
    assert_eq!(Plist::parse("(1 2)"), Err(Error::ExpectedComma));
    assert_eq!(Plist::parse(""), Err(Error::SomethingWentWrong));
    assert_eq!(Plist::parse("  \n\t"), Err(Error::SomethingWentWrong));
}

#[test]
fn duplicate_keys_keep_the_last_value() {
    let p = Plist::parse("{ a = 1; a = 2; }").unwrap();
    assert_eq!(p, Plist::Dictionary(vec![("a".to_string(), Plist::Integer(2))]));
}

#[test]
fn trailing_text_is_not_read() {
    assert_eq!(Plist::parse("(1) garbage").unwrap(), Plist::Array(vec![Plist::Integer(1)]));
}

#[test]
fn accessors() {
    let p = Plist::parse("{ s = abc; n = 5; a = (1); }").unwrap();
    assert_eq!(p.get("s").and_then(|v| v.as_str()), Some("abc"));
    assert_eq!(p.get("n").and_then(|v| v.as_i64()), Some(5));
    assert_eq!(p.get("a").and_then(|v| v.as_array()).map(|a| a.len()), Some(1));
    assert_eq!(p.get("missing"), None);
    assert!(p.as_dict().is_some());
    assert_eq!(s("x").into_string(), "x");
    assert_eq!(Plist::Array(vec![Plist::Integer(1)]).into_vec(), vec![Plist::Integer(1)]);
    assert_eq!(p.into_dictionary().len(), 3);
}

#[test]
fn clones_are_equal() {
    let p = Plist::parse("{ a = (1, \"two\", 3.5, { b = c; }); }").unwrap();
    let q = p.clone();
    assert_eq!(p, q);
    assert_eq!(p.to_text(), q.to_text());
}

#[test]
fn hand_built_dictionaries_are_written_in_key_order() {
    let p = Plist::Dictionary(vec![
        ("b".to_string(), Plist::Integer(1)),
        ("a".to_string(), Plist::Integer(2)),
        ("b".to_string(), Plist::Integer(3)),
    ]);
    assert_eq!(p.to_text(), "{\na = 2;\nb = 3;\n}");
    assert_eq!(
        Plist::parse(&p.to_text()).unwrap(),
        Plist::from_pairs(vec![("a".to_string(), Plist::Integer(2)), ("b".to_string(), Plist::Integer(3))])
    );
}
