use fml::escape::escape_strings_in_ini_file;

fn test(source: &str, expected: &str) {
    assert_eq!(expected, escape_strings_in_ini_file(source));
}

#[test]
fn test_no_escape() {
    test("[section]", "[section]");
    test("key=value", "key=value");
    test(r#"key="value""#, r#"key="value""#);
    test(
        r"
[section]
key1=value1
key2=value2
        ",
        r"
[section]
key1=value1
key2=value2
        ",
    );
}

#[test]
fn test_escape() {
    test(r#"key=foo"bar"#, r#"key="foo"bar""#);
    test(r#"key=foo;bar"#, r#"key="foo;bar""#);
    test(
        r#"
key1=value;1
key2=value;2
        "#,
        r#"
key1="value;1"
key2="value;2"
        "#,
    );
    test(
        r#"
[se"ct;ion]
key1="value1
key2=value2"
key2=v;a"l;u"e;3
        "#,
        r#"
[se"ct;ion]
key1=""value1"
key2="value2""
key2="v;a"l;u"e;3"
        "#,
    );
}

#[test]
fn test_escape_crlf() {
    test(
        "key1=foo\"bar\r\nkey2=value2",
        "key1=\"foo\"bar\"\r\nkey2=value2",
    );
}

#[test]
fn test_escape_edge_cases() {
    // A value of a single quote counts as already quoted; an empty value
    // needs no escaping; CRLF endings survive exactly.
    test(r#"key=""#, r#"key=""#);
    test("key=", "key=");
    test("key=a;b\r\n", "key=\"a;b\"\r\n");
    test("[sec;tion]\r\nkey=v\r\n", "[sec;tion]\r\nkey=v\r\n");
}

#[test]
fn escape_is_idempotent_on_examples() {
    for s in [
        "key=foo\"bar",
        "key=foo;bar",
        "[sec]\nkey1=value;1\r\nkey2=\"q\"\n",
        "key1=foo\"bar\r\nkey2=value2",
        "",
        "plain text without keys\n",
    ] {
        let once = escape_strings_in_ini_file(s);
        assert_eq!(escape_strings_in_ini_file(&once), once);
    }
}
