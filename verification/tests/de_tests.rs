use nlsd::lex::Keyword;
use nlsd::{Deserializer, Error, Key, Number, ObjectMap, ParseError, Value};

fn vint(i: i64) -> Value {
    Value::Number(Number::Integer(i))
}

fn vdec(neg: bool, whole: &[u8], frac: &[u8]) -> Value {
    Value::Number(Number::Decimal { neg, whole: whole.to_vec(), frac: frac.to_vec() })
}

fn vstr(s: &[u8]) -> Value {
    Value::String(s.to_vec())
}

fn obj(entries: Vec<(Key, Value)>) -> Value {
    Value::Object(ObjectMap { entries })
}

fn from_str(s: &[u8]) -> Result<Value, Error> {
    nlsd::de::from_str(s)
}

#[test]
fn de_deserialize_bool() {
    assert_eq!(Value::Bool(true), from_str(b"true").unwrap());
    assert_eq!(Value::Bool(false), from_str(b"false").unwrap());
    assert_eq!(Value::Bool(true), from_str(b"on").unwrap());
    assert_eq!(Value::Bool(false), from_str(b"off").unwrap());
    assert_eq!(Value::Bool(true), from_str(b"enabled").unwrap());
    assert_eq!(Value::Bool(false), from_str(b"disabled").unwrap());
}

#[test]
fn de_deserialize_unit() {
    assert_eq!(Value::Null, from_str(b"empty").unwrap());
    assert_eq!(Value::Null, from_str(b"nothing").unwrap());
}

#[test]
fn deserialize_number() {
    assert_eq!(vdec(false, b"1", b"2"), from_str(b"1.2").unwrap());
    assert_eq!(vdec(true, b"1", b"2"), from_str(b"-1.2").unwrap());

    let mut d = Deserializer::from_str(b"1");
    assert_eq!(1, d.parse_i64().unwrap());
    let mut d = Deserializer::from_str(b"-1");
    assert_eq!(-1, d.parse_i64().unwrap());
    let mut d = Deserializer::from_str(b"1");
    assert_eq!(1, d.parse_u64().unwrap());
    let mut d = Deserializer::from_str(b"0");
    assert_eq!(0, d.parse_u64().unwrap());
    let mut d = Deserializer::from_str(b"0");
    assert_eq!(0, d.parse_i64().unwrap());

    assert_eq!(vint(1), from_str(b"1").unwrap());
    assert_eq!(vint(-1), from_str(b"-1").unwrap());
    assert_eq!(vint(0), from_str(b"0").unwrap());
}

#[test]
fn de_deserialize_str() {
    assert_eq!(vstr(b"hello"), from_str(b"`hello`").unwrap());
    assert_eq!(vstr(b"escaped`string"), from_str(br"`escaped\`string`").unwrap());
}

#[test]
fn deserialize_char() {
    let mut d = Deserializer::from_str(b"`a`");
    assert_eq!(b"a".to_vec(), d.parse_char_bytes().unwrap());
    let mut d = Deserializer::from_str(b"`ab`");
    assert!(matches!(d.parse_char_bytes(), Err(Error::ExpectedChar)));
}

#[test]
fn deserialize_option() {
    let mut d = Deserializer::from_str(b"`hello`");
    assert!(!d.parse_none().unwrap());
    assert_eq!(b"hello".to_vec(), d.parse_str_value().unwrap());

    let mut d = Deserializer::from_str(b"123");
    assert!(!d.parse_none().unwrap());
    assert_eq!(123, d.parse_i64().unwrap());

    let mut d = Deserializer::from_str(b"123.123");
    assert!(!d.parse_none().unwrap());
    assert_eq!(
        Number::Decimal { neg: false, whole: b"123".to_vec(), frac: b"123".to_vec() },
        d.parse_number().unwrap()
    );

    let mut d = Deserializer::from_str(b"empty");
    assert!(d.parse_none().unwrap());

    let mut d = Deserializer::from_str(b"nothing");
    assert!(d.parse_none().unwrap());
}

#[test]
fn deserialize_list() {
    assert_eq!(Value::Array(vec![]), from_str(b"the empty list").unwrap());
    assert_eq!(Value::Array(vec![]), from_str(b"the empty `named list`").unwrap());
    assert_eq!(Value::Array(vec![vint(1)]), from_str(b"the list where an item is 1").unwrap());
    assert_eq!(
        Value::Array(vec![vint(1)]),
        from_str(b"the list henceforth `aliased list` where an item is 1").unwrap()
    );
    assert_eq!(
        Value::Array(vec![vint(1), vint(2)]),
        from_str(b"the list where an item is 1 and another item is 2").unwrap()
    );
    assert_eq!(
        Value::Array(vec![vint(1), vstr(b"string"), Value::Bool(true)]),
        from_str(b"the list where an item is 1 and another item is `string` and another item is true")
            .unwrap()
    );
}

#[test]
fn de_deserialize_map() {
    assert_eq!(
        obj(vec![(Key::String(b"name".to_vec()), vstr(b"rob"))]),
        from_str(b"the object where the `name` is `rob`").unwrap()
    );
    assert_eq!(
        obj(vec![
            (Key::String(b"name".to_vec()), vstr(b"rob")),
            (Key::String(b"id".to_vec()), vstr(b"1")),
        ]),
        from_str(b"the object where the `name` is `rob` and the `id` is `1`").unwrap()
    );
    assert_eq!(
        obj(vec![
            (Key::String(b"red".to_vec()), vint(100)),
            (Key::String(b"green".to_vec()), vint(200)),
            (Key::String(b"blue".to_vec()), vint(50)),
        ]),
        from_str(b"the object where `red` is 100 and `green` is 200 and `blue` is 50").unwrap()
    );
    assert_eq!(
        obj(vec![(Key::Bool(true), vint(1)), (Key::Bool(false), vint(0))]),
        from_str(b"the object where true is 1 and false is 0").unwrap()
    );
}

#[test]
fn deserialize_struct() {
    assert_eq!(
        obj(vec![
            (Key::String(b"user_name".to_vec()), vstr(b"rob")),
            (Key::String(b"id".to_vec()), vint(1)),
        ]),
        from_str(b"the `user` where the `user name` is `rob` and the `id` is 1").unwrap()
    );
    assert_eq!(
        obj(vec![
            (Key::String(b"user_name".to_vec()), vstr(b"rob")),
            (Key::String(b"id".to_vec()), vint(1)),
        ]),
        from_str(b"the object where `user_name` is `rob` and the `id` is 1").unwrap()
    );
}

#[test]
fn deserialize_nested_list() {
    assert_eq!(
        Value::Array(vec![vint(1), Value::Array(vec![vint(2), vint(3)]), vint(4)]),
        from_str(
            b"the list henceforth `the list` where an item is 1 and another item is the list where an item is 2 and another item is 3 and another item of `the list` is 4"
        )
        .unwrap()
    );
    assert_eq!(
        Value::Array(vec![
            Value::Array(vec![Value::Array(vec![vint(1)]), vint(2)]),
            vint(3),
        ]),
        from_str(
            b"the list henceforth `the list` where an item is the list henceforth `the second list` where an item is the list where an item is 1 and another item of `the second list` is 2 and another item of `the list` is 3"
        )
        .unwrap()
    );
    assert_eq!(
        Value::Array(vec![vint(1), Value::Array(vec![vint(2), Value::Array(vec![vint(3)])])]),
        from_str(
            b"the list where an item is 1 and another item is the list where an item is 2 and another item is the list where an item is 3"
        )
        .unwrap()
    );
}

#[test]
fn deserialize_nested_map() {
    assert_eq!(
        obj(vec![
            (
                Key::String(b"a".to_vec()),
                obj(vec![(Key::String(b"b".to_vec()), vint(1))]),
            ),
            (Key::String(b"c".to_vec()), vint(2)),
        ]),
        from_str(
            b"the object henceforth `the object` where `a` is the object where `b` is 1 and `c` of `the object` is 2"
        )
        .unwrap()
    );
}

#[test]
fn deserialize_nested_object() {
    assert_eq!(
        obj(vec![
            (Key::String(b"id".to_vec()), vint(1)),
            (
                Key::String(b"details".to_vec()),
                obj(vec![
                    (Key::String(b"name".to_vec()), vstr(b"Dave")),
                    (Key::String(b"age".to_vec()), vint(37)),
                ]),
            ),
            (Key::String(b"job".to_vec()), vstr(b"accountant")),
        ]),
        from_str(
            b"the `user` henceforth `the user` where the `id` is 1 and the `details` is the object where the `name` is `Dave` and `age` is 37 and the `job` of `the user` is `accountant`"
        )
        .unwrap()
    );
}

#[test]
fn deserialize_newtype_struct() {
    assert_eq!(
        Value::Custom(Box::new(vint(1))),
        from_str(b"the `non standard object` which is 1").unwrap()
    );
    assert_eq!(
        Value::Custom(Box::new(vstr(b"cool"))),
        from_str(b"the `non standard object` which is `cool`").unwrap()
    );
}

#[test]
fn unexpected_eof_on_blank_input() {
    assert!(matches!(from_str(b""), Err(Error::Parse(ParseError::UnexpectedEof))));
    assert!(matches!(from_str(b"   "), Err(Error::Parse(ParseError::UnexpectedEof))));
    assert!(matches!(from_str(b" \t\n "), Err(Error::Parse(ParseError::UnexpectedEof))));
}

#[test]
fn empty_string_literal() {
    assert_eq!(vstr(b""), from_str(b"``").unwrap());
}

#[test]
fn integral_float_into_integer() {
    let mut d = Deserializer::from_str(b"1.0");
    assert_eq!(1, d.parse_i64().unwrap());
    let mut d = Deserializer::from_str(b"1.5");
    assert!(matches!(d.parse_i64(), Err(Error::ExpectedInteger)));
}

#[test]
fn negative_into_unsigned() {
    let mut d = Deserializer::from_str(b"-1");
    assert!(matches!(d.parse_u64(), Err(Error::ExpectedUnsigned)));
    let mut d = Deserializer::from_str(b"-1.5");
    assert!(matches!(d.parse_u64(), Err(Error::ExpectedUnsigned)));
}

#[test]
fn foreign_scope_on_first_item() {
    assert!(matches!(
        from_str(b"the list where an item of `elsewhere` is 1"),
        Err(Error::ShouldBeDeclaredEmpty)
    ));
    assert!(matches!(
        from_str(b"the object where the `a` of `elsewhere` is 1"),
        Err(Error::ShouldBeDeclaredEmpty)
    ));
}

#[test]
fn dehumanize_forms() {
    assert_eq!(b"user_name".to_vec(), nlsd::dehumanize_snake(b"user name"));
    assert_eq!(b"some_padded_name".to_vec(), nlsd::dehumanize_snake(b"  some padded name"));
    assert_eq!(b"UserName".to_vec(), nlsd::dehumanize_camel(b"user name"));
    let cands = vec![b"user_name".to_vec(), b"UserName".to_vec(), b"user name".to_vec()];
    assert_eq!(Some(2), nlsd::dehumanize_match(b"user name", &cands));
    assert_eq!(Some(0), nlsd::dehumanize_match(b"user  name", &cands));
    assert_eq!(None, nlsd::dehumanize_match(b"missing", &cands));
}

#[test]
fn keyword_errors_carry_offsets() {
    assert!(matches!(
        from_str(b"the list where item is 1"),
        Err(Error::ExpectedKeyWord(Keyword::An))
    ));
    assert!(matches!(
        from_str(b"woops"),
        Err(Error::ExpectedKeyWord(Keyword::The))
    ));
}

#[test]
fn byte_entry_points_validate_utf8() {
    assert!(Deserializer::from_slice(b"the list").is_ok());
    assert!(matches!(
        Deserializer::from_slice(&[0xff]),
        Err(Error::InvalidUtf8)
    ));
    assert!(matches!(
        Deserializer::from_slice(&[0xe0, 0x80, 0x80]),
        Err(Error::InvalidUtf8)
    ));
    let greek = "the \u{3b1}".as_bytes();
    assert!(Deserializer::from_slice(greek).is_ok());

    assert!(nlsd::nloq::from_slice(b"the first item").is_ok());
    assert!(matches!(
        nlsd::nloq::from_slice(&[0xc0, 0xaf]),
        Err(Error::InvalidUtf8)
    ));
}

#[test]
fn deserialize_map() {
    assert_eq!(
        obj(vec![
            (Key::String(b"key1".to_vec()), vint(1)),
            (Key::String(b"key2".to_vec()), vint(2)),
        ]),
        from_str(b"the object where `key1` is 1 and `key2` is 2").unwrap()
    );
    assert_eq!(
        obj(vec![
            (Key::String(b"key1".to_vec()), Value::Bool(true)),
            (Key::Number(Number::Integer(2)), Value::Null),
        ]),
        from_str(b"the object where `key1` is true and 2 is empty").unwrap()
    );
    assert_eq!(obj(vec![]), from_str(b"the empty object").unwrap());
}

#[test]
fn deserialize_array() {
    assert_eq!(
        Value::Array(vec![vint(1), vint(2)]),
        from_str(b"the list where an item is 1 and another item is 2").unwrap()
    );
    assert_eq!(
        Value::Array(vec![Value::Bool(true), Value::Null]),
        from_str(b"the list where an item is true and another item is nothing").unwrap()
    );
    assert_eq!(Value::Array(vec![]), from_str(b"the empty list").unwrap());
}

#[test]
fn variant_tag_dispatch_errors() {
    assert_eq!(
        Err(Error::ExpectedKeyWord(Keyword::Which)),
        from_str(b"the `non standard object` where the `a` is 1")
    );
    assert_eq!(
        Err(Error::ExpectedKeyWord(Keyword::Where)),
        from_str(b"the `user` which is 1")
    );
}

#[test]
fn empty_object_keeps_its_kind() {
    match from_str(b"the empty object").unwrap() {
        Value::Object(m) => assert_eq!(m.entries.len(), 0),
        other => panic!("expected an object, got {:?}", other),
    }
    match from_str(b"the empty list").unwrap() {
        Value::Array(a) => assert_eq!(a.len(), 0),
        other => panic!("expected a list, got {:?}", other),
    }
}
