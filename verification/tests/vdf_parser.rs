use gmodpatchtool::vdf::{parse_vdf, VdfValue};

fn text(v: &VdfValue) -> Option<&[u8]> {
    match v {
        VdfValue::Str(s) => Some(s.as_slice()),
        VdfValue::Obj(_) => None,
    }
}

#[test]
fn parses_nested_objects_in_order() {
    let (key, value) = parse_vdf(b"\"root\" { \"a\" \"1\" \"b\" { \"c\" \"2\" } }").unwrap();
    assert_eq!(key, b"root".to_vec());
    match value {
        VdfValue::Obj(pairs) => {
            assert_eq!(pairs.len(), 2);
            assert_eq!(pairs[0].key, b"a".to_vec());
            assert_eq!(text(&pairs[0].value), Some(&b"1"[..]));
            match &pairs[1].value {
                VdfValue::Obj(inner) => assert_eq!(text(&inner[0].value), Some(&b"2"[..])),
                VdfValue::Str(_) => panic!("expected an object"),
            }
        },
        VdfValue::Str(_) => panic!("expected an object"),
    }
}

#[test]
fn handles_escapes_comments_and_bare_strings() {
    let (_, value) = parse_vdf(b"// header\nroot {\n  key \"a\\\"b\\\\c\\nd\\q\" // trailing\n}\n").unwrap();
    match value {
        VdfValue::Obj(pairs) => {
            assert_eq!(pairs[0].key, b"key".to_vec());
            assert_eq!(text(&pairs[0].value), Some(&b"a\"b\\c\nd\\q"[..]));
        },
        VdfValue::Str(_) => panic!("expected an object"),
    }
}

#[test]
fn rejects_malformed_documents() {
    assert!(parse_vdf(b"").is_none());
    assert!(parse_vdf(b"\"root\" {").is_none());
    assert!(parse_vdf(b"\"root\" { \"a\" }").is_none());
    assert!(parse_vdf(b"\"root\" { } }").is_none());
    assert!(parse_vdf(b"\"root\" \"unterminated").is_none());
}
