use encoding_rs::mem::decode_latin1;

use ggvtogpx::ggv_ovl::{ggv_ovl_parse, ggv_ovl_parse_key_value, ggv_ovl_parse_section};

#[test]
fn test_parse() {
    let test = "[section 1]\nXKoord0=10.65544468 \n \n \n[section 2]\nfoo=bar\n";
    let (rem, res) = ggv_ovl_parse(test.as_bytes()).unwrap();
    println!("test    = {:?}", test);
    println!("    res = {:?}", res);
    println!("    rem = {:?}", decode_latin1(rem));
}

#[test]
fn test_parse_key_value() {
    let tests = [
        ("foo=bar", "foo", "bar", ""),
        ("foo = bar", "foo", "bar", ""),
        ("foo = bar; \n  ", "foo", "bar", "\n  "),
    ];
    for (t, k, v, r) in tests {
        let (rem, (key, val)) = ggv_ovl_parse_key_value(t.as_bytes()).unwrap();
        println!(
            "test = {:?}, key = {:?}, val = {:?}, rem = {:?}",
            t,
            key,
            val,
            decode_latin1(rem)
        );
        assert_eq!(key, k);
        assert_eq!(val, v);
        assert_eq!(rem, r.as_bytes());
    }
}

#[test]
fn test_parse_section() {
    let tests = [("[Foo]", "Foo", ""), ("[Foo]  ", "Foo", "  ")];
    for (t, v, r) in tests {
        let (rem, val) = ggv_ovl_parse_section(t.as_bytes()).unwrap();
        println!(
            "test = {:?}, val = {:?}, rem = {:?}",
            t,
            val,
            decode_latin1(rem)
        );
        assert_eq!(val, v);
        assert_eq!(rem, r.as_bytes());
    }
}

#[test]
fn parse_collects_sections_in_order() {
    let test = "[Overlay]\nSymbols=2\n[Symbol 1]\nTyp=3\nPunkte=1 ; comment\n";
    let (rem, res) = ggv_ovl_parse(test.as_bytes()).unwrap();
    assert_eq!(rem, b"");
    assert_eq!(res.len(), 2);
    assert_eq!(res[0].0, "Overlay");
    assert_eq!(res[0].1, vec![("Symbols".to_string(), "2".to_string())]);
    assert_eq!(res[1].0, "Symbol 1");
    assert_eq!(
        res[1].1,
        vec![
            ("Typ".to_string(), "3".to_string()),
            ("Punkte".to_string(), "1".to_string()),
        ]
    );
}

#[test]
fn parse_stops_at_unreadable_input() {
    let test = "[A]\nx=1\n!!!rest";
    let (rem, res) = ggv_ovl_parse(test.as_bytes()).unwrap();
    assert_eq!(rem, b"!!!rest");
    assert_eq!(res.len(), 1);
}

#[test]
fn parse_section_rejects_unclosed() {
    assert!(ggv_ovl_parse_section(b"[Foo").is_err());
    assert!(ggv_ovl_parse_section(b"Foo]").is_err());
    assert_eq!(
        ggv_ovl_parse_section(b"[Foo")
            .unwrap_err()
            .message(),
        "parse section"
    );
}

#[test]
fn parse_key_value_rejects_missing_equals() {
    assert!(ggv_ovl_parse_key_value(b"foo bar").is_err());
    assert!(ggv_ovl_parse_key_value(b"=bar").is_err());
    assert_eq!(
        ggv_ovl_parse_key_value(b"foo bar").unwrap_err().message(),
        "key value"
    );
}
