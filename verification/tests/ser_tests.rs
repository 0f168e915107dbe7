use nlsd::{humanize, to_vec, Compound, Error, Key, Number, ObjectMap, Serializer, Value};

fn vint(i: i64) -> Value {
    Value::Number(Number::Integer(i))
}

fn vdec(neg: bool, whole: &[u8], frac: &[u8]) -> Value {
    Value::Number(Number::Decimal { neg, whole: whole.to_vec(), frac: frac.to_vec() })
}

fn vstr(s: &[u8]) -> Value {
    Value::String(s.to_vec())
}

fn obj(entries: Vec<(&[u8], Value)>) -> Value {
    Value::Object(ObjectMap {
        entries: entries.into_iter().map(|(k, v)| (Key::String(k.to_vec()), v)).collect(),
    })
}

#[test]
fn humanize_string() {
    assert_eq!(humanize(b"UpperCamelCase"), b"upper camel case".to_vec());
    assert_eq!(humanize(b"camelCase"), b"camel case".to_vec());
    assert_eq!(humanize(b"snake_case"), b"snake case".to_vec());
    assert_eq!(humanize(b"CamelCaseWithACRONYM"), b"camel case with ACRONYM".to_vec());
    assert_eq!(humanize(b"middleACRONYMHere"), b"middle ACRONYM here".to_vec());
    assert_eq!(humanize(b"ACROBeginning"), b"ACRO beginning".to_vec());
    assert_eq!(humanize(b"__some_padded_name"), b"some padded name".to_vec());
}

#[test]
fn ser_serialize_bool() {
    assert_eq!(to_vec(&Value::Bool(true)).unwrap(), b"true".to_vec());
    assert_eq!(to_vec(&Value::Bool(false)).unwrap(), b"false".to_vec());
}

#[test]
fn ser_serialize_num() {
    assert_eq!(to_vec(&vint(0)).unwrap(), b"0".to_vec());
    assert_eq!(to_vec(&vint(1)).unwrap(), b"1".to_vec());
    assert_eq!(to_vec(&vint(-1)).unwrap(), b"-1".to_vec());
    assert_eq!(to_vec(&vint(12)).unwrap(), b"12".to_vec());
    assert_eq!(to_vec(&vint(-13)).unwrap(), b"-13".to_vec());
    assert_eq!(to_vec(&vdec(false, b"1", b"5")).unwrap(), b"1.5".to_vec());
    assert_eq!(to_vec(&vdec(false, b"0", b"1")).unwrap(), b"0.1".to_vec());
    assert_eq!(to_vec(&vdec(true, b"1", b"5")).unwrap(), b"-1.5".to_vec());
}

#[test]
fn ser_serialize_empty() {
    assert_eq!(to_vec(&Value::Null).unwrap(), b"empty".to_vec());
}

#[test]
fn ser_serialize_str() {
    assert_eq!(to_vec(&vstr(b"a")).unwrap(), b"`a`".to_vec());
    assert_eq!(to_vec(&vstr(b"")).unwrap(), b"``".to_vec());
    assert_eq!(to_vec(&vstr(b"cool")).unwrap(), b"`cool`".to_vec());
    assert_eq!(to_vec(&vstr(b"don't")).unwrap(), b"`don't`".to_vec());
    assert_eq!(to_vec(&vstr(b"escaped`string")).unwrap(), br"`escaped\`string`".to_vec());
}

#[test]
fn ser_serialize_list() {
    assert_eq!(to_vec(&Value::Array(vec![])).unwrap(), b"the empty list".to_vec());
    assert_eq!(
        to_vec(&Value::Array(vec![vint(1), vint(2), vint(3)])).unwrap(),
        b"the list where an item is 1 and another item is 2 and another item is 3".to_vec()
    );
    assert_eq!(
        to_vec(&Value::Array(vec![
            Value::Array(vec![vint(1), vint(2)]),
            Value::Array(vec![]),
            Value::Array(vec![vint(3), vint(4)]),
        ]))
        .unwrap(),
        b"the list henceforth `the list` where an item is the list where an item is 1 and another item is 2 and another item of `the list` is the empty list and another item is the list where an item is 3 and another item is 4".to_vec()
    );
}

#[test]
fn ser_serialize_map() {
    assert_eq!(to_vec(&obj(vec![])).unwrap(), b"the empty object".to_vec());
    assert_eq!(
        to_vec(&obj(vec![(b"key", vstr(b"value"))])).unwrap(),
        b"the object where the `key` is `value`".to_vec()
    );
    assert_eq!(
        to_vec(&obj(vec![
            (b"key", vstr(b"value")),
            (b"second_key", vstr(b"second value")),
        ]))
        .unwrap(),
        b"the object where the `key` is `value` and the `second key` is `second value`".to_vec()
    );
    assert_eq!(
        to_vec(&obj(vec![(b"a", vdec(false, b"1", b"2"))])).unwrap(),
        b"the object where the `a` is 1.2".to_vec()
    );
    assert_eq!(
        to_vec(&obj(vec![(b"a", vdec(false, b"1", b"2")), (b"b", vint(10))])).unwrap(),
        b"the object where the `a` is 1.2 and the `b` is 10".to_vec()
    );
}

#[test]
fn key_that_is_not_a_string_is_rejected() {
    assert!(matches!(
        to_vec(&Value::Object(ObjectMap { entries: vec![(Key::Bool(true), vint(1))] })),
        Err(Error::UnexpectedKeyType)
    ));
    assert!(matches!(
        to_vec(&Value::Object(ObjectMap {
            entries: vec![(Key::Number(Number::Integer(1)), vint(1))],
        })),
        Err(Error::UnexpectedKeyType)
    ));
}

#[test]
fn keys_beginning_with_the_verb_stay_bare() {
    assert_eq!(
        to_vec(&obj(vec![(b"is_admin", Value::Bool(true))])).unwrap(),
        b"the object where `is admin` is true".to_vec()
    );
}

#[test]
fn compound_builder_writes_a_list() {
    let mut serializer = Serializer::new();
    serializer.push_list_context();
    assert_eq!(serializer.current_scope(), b"the list".to_vec());
    assert_eq!(serializer.parent_scope(), b"".to_vec());

    let mut compound = Compound::new(None);
    compound.an_item();
    compound.of_scope(b"unused");
    compound.is_verb();
    compound.buffer.extend_from_slice(b"1");
    compound.an_item();
    compound.is_verb();
    compound.buffer.extend_from_slice(b"2");

    let mut out = compound.the_list();
    out.extend_from_slice(&compound.contents(b"the list"));
    assert_eq!(out, b"the list where an item is 1 and another item is 2".to_vec());
}

#[test]
fn compound_builder_marks_escaped_scopes() {
    let mut compound = Compound::new(Some(b"sample_cool".to_vec()));
    compound.an_item();
    compound.is_new_scope = true;
    compound.of_scope(b"the list");
    compound.is_verb();
    compound.buffer.extend_from_slice(b"1");

    let mut out = compound.the_list();
    out.extend_from_slice(&compound.contents(b"the list"));
    assert_eq!(
        out,
        b"the `sample cool` henceforth `the list` where an item of `the list` is 1".to_vec()
    );
}

#[test]
fn format_str_reads_back_through_parser() {
    let bodies: Vec<&[u8]> = vec![
        b"",
        b"plain words",
        b"has `ticks` inside",
        b"back\\slash in the middle",
        b"``",
    ];
    for body in bodies {
        let written = nlsd::format_str(body);
        let (start, content, rest) = nlsd::parse_string(&written).expect("written string parses");
        assert_eq!(start, 1);
        assert!(rest.is_empty());
        assert_eq!(nlsd::unescape(content, 0x60), body.to_vec());
    }
}
