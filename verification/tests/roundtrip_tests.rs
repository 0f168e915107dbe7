use nlsd::nloq;
use nlsd::{to_vec, Key, Number, ObjectMap, Query, Value};

fn vint(i: i64) -> Value {
    Value::Number(Number::Integer(i))
}

fn vstr(s: &[u8]) -> Value {
    Value::String(s.to_vec())
}

fn obj(entries: Vec<(&[u8], Value)>) -> Value {
    Value::Object(ObjectMap {
        entries: entries.into_iter().map(|(k, v)| (Key::String(k.to_vec()), v)).collect(),
    })
}

fn roundtrip(v: &Value) {
    let text = to_vec(v).unwrap();
    let back = nlsd::de::from_str(text.as_slice()).unwrap();
    assert_eq!(&back, v);
}

#[test]
fn nested_index_phrase() {
    assert_eq!(
        nloq::from_str(b"the first item of the last item"),
        vec![Query::index_from_last(0), Query::index(0)]
    );
}

#[test]
fn possessive_key_phrase() {
    assert_eq!(
        nloq::from_str(b"the name of the user of the `access event`"),
        vec![Query::key(b"access event"), Query::key(b"user"), Query::key(b"name")]
    );
}

#[test]
fn tuple_of_mixed_primitives() {
    assert_eq!(
        to_vec(&Value::Array(vec![Value::Bool(true), vint(1), vstr(b"cool")])).unwrap(),
        b"the list where an item is true and another item is 1 and another item is `cool`".to_vec()
    );
}

#[test]
fn struct_with_humanized_field() {
    assert_eq!(
        nlsd::de::from_str(b"the `user` where the `user name` is `rob` and the `id` is 1").unwrap(),
        obj(vec![(b"user_name", vstr(b"rob")), (b"id", vint(1))])
    );
}

#[test]
fn nested_list_with_scope_recovery() {
    let v = Value::Array(vec![
        Value::Array(vec![vint(1), vint(2)]),
        Value::Array(vec![]),
        Value::Array(vec![vint(3), vint(4)]),
    ]);
    let text = to_vec(&v).unwrap();
    assert_eq!(
        text,
        b"the list henceforth `the list` where an item is the list where an item is 1 and another item is 2 and another item of `the list` is the empty list and another item is the list where an item is 3 and another item is 4".to_vec()
    );
    assert_eq!(nlsd::de::from_str(text.as_slice()).unwrap(), v);
}

#[test]
fn variant_shapes() {
    assert_eq!(
        nlsd::de::from_str(b"the `non standard object` which is 1").unwrap(),
        Value::Custom(Box::new(vint(1)))
    );
    assert_eq!(
        nlsd::de::from_str(b"the `other variant` where the `name` is `bob` and the `id` is 2")
            .unwrap(),
        obj(vec![(b"name", vstr(b"bob")), (b"id", vint(2))])
    );
    assert_eq!(nlsd::de::from_str(b"`last variant`").unwrap(), vstr(b"last variant"));
}

#[test]
fn roundtrip_primitives() {
    roundtrip(&Value::Null);
    roundtrip(&Value::Bool(true));
    roundtrip(&Value::Bool(false));
    roundtrip(&vint(0));
    roundtrip(&vint(-7));
    roundtrip(&vint(i64::MAX));
    roundtrip(&vint(i64::MIN));
    roundtrip(&Value::Number(
        Number::Decimal { neg: true, whole: b"0".to_vec(), frac: b"25".to_vec() },
    ));
    roundtrip(&vstr(b"plain words"));
    roundtrip(&vstr(b"back`tick"));
    roundtrip(&vstr(b""));
}

#[test]
fn roundtrip_compounds() {
    roundtrip(&Value::Array(vec![]));
    roundtrip(&Value::Array(vec![vint(1), Value::Null, Value::Bool(false)]));
    roundtrip(&obj(vec![(b"key1", vint(1)), (b"key2", vstr(b"two"))]));
    roundtrip(&Value::Array(vec![
        vint(3),
        obj(vec![(b"inner", Value::Array(vec![vint(1), vint(2)]))]),
    ]));
    roundtrip(&Value::Custom(Box::new(obj(vec![(b"id", vint(1))]))));
    roundtrip(&obj(vec![
        (b"a", obj(vec![(b"b", vint(1))])),
        (b"c", vint(2)),
    ]));
}

#[test]
fn canonical_form_is_stable() {
    let text = b"the object henceforth `the object` where `a` is the object where `b` is 1 and `c` of `the object` is 2";
    let v = nlsd::de::from_str(text).unwrap();
    let emitted = to_vec(&v).unwrap();
    let v2 = nlsd::de::from_str(emitted.as_slice()).unwrap();
    assert_eq!(v, v2);
    let emitted2 = to_vec(&v2).unwrap();
    assert_eq!(emitted, emitted2);
}

#[test]
fn trailing_input_is_tolerated() {
    assert_eq!(nlsd::de::from_str(b"1 and then some").unwrap(), vint(1));
}
