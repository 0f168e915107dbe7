use nlsd::nloq;
use nlsd::{
    Access, AccessMut, Amount, Key, Number, ObjectMap, Query, QuerySet, SetResult, Value,
};

fn vint(i: i64) -> Value {
    Value::Number(Number::Integer(i))
}

fn obj(entries: Vec<(&[u8], Value)>) -> Value {
    Value::Object(ObjectMap {
        entries: entries.into_iter().map(|(k, v)| (Key::String(k.to_vec()), v)).collect(),
    })
}

#[test]
fn access_object() {
    let mut value = obj(vec![(b"a", vint(1)), (b"b", vint(2))]);
    let query = nloq::from_str(b"the a");
    assert_eq!(value.access(&query), Some(&vint(1)));
    assert_eq!(value.access_mut(&query), Some(&mut vint(1)));
    let query = nloq::from_str(b"the b");
    assert_eq!(value.access(&query), Some(&vint(2)));
    let query = nloq::from_str(b"the c");
    assert_eq!(value.access(&query), None);
}

#[test]
fn access_array() {
    let mut value = Value::Array(vec![vint(1), vint(2), vint(3)]);
    let query = nloq::from_str(b"the first item");
    assert_eq!(value.access(&query), Some(&vint(1)));
    assert_eq!(value.access_mut(&query), Some(&mut vint(1)));
    let query = nloq::from_str(b"the second item");
    assert_eq!(value.access(&query), Some(&vint(2)));
    let query = nloq::from_str(b"the last item");
    assert_eq!(value.access(&query), Some(&vint(3)));
    let query = nloq::from_str(b"the second to last item");
    assert_eq!(value.access(&query), Some(&vint(2)));
    let query = nloq::from_str(b"the fourth item");
    assert_eq!(value.access(&query), None);
}

#[test]
fn access_nested() {
    let mut value = Value::Array(vec![
        obj(vec![(b"a", vint(1))]),
        Value::Array(vec![vint(2), vint(3)]),
        obj(vec![(b"c", vint(4))]),
    ]);
    let query = nloq::from_str(b"the a of the first item");
    assert_eq!(value.access(&query), Some(&vint(1)));
    assert_eq!(value.access_mut(&query), Some(&mut vint(1)));
    let query = nloq::from_str(b"the c of the last item");
    assert_eq!(value.access(&query), Some(&vint(4)));
    let query = nloq::from_str(b"the last item of the second item");
    assert_eq!(value.access(&query), Some(&vint(3)));
    let query = nloq::from_str(b"the b of the first item");
    assert_eq!(value.access(&query), None);
    let query = nloq::from_str(b"the third item of the second item");
    assert_eq!(value.access(&query), None);
}

#[test]
fn access_amount() {
    let mut value = Value::Amount(Amount {
        entries: vec![
            (
                b"euros".to_vec(),
                Value::Number(
                    Number::Decimal { neg: false, whole: b"11".to_vec(), frac: b"5".to_vec() },
                ),
            ),
            (b"dollars".to_vec(), vint(10)),
        ],
    });
    let query = nloq::from_str(b"the dollars");
    assert_eq!(value.access(&query), Some(&vint(10)));
    assert_eq!(value.access_mut(&query), Some(&mut vint(10)));
    let query = nloq::from_str(b"the euros");
    assert_eq!(
        value.access(&query),
        Some(&Value::Number(
            Number::Decimal { neg: false, whole: b"11".to_vec(), frac: b"5".to_vec() },
        ))
    );
    let query = nloq::from_str(b"the bucks");
    assert_eq!(value.access(&query), None);
}

#[test]
fn query_set_array() {
    let mut value = Value::Array(vec![vint(1), vint(2), vint(3)]);

    let query = vec![Query::index(0)];
    assert_eq!(value.query_set(&query, vint(4)), SetResult::Replaced(vint(1)));
    assert_eq!(value, Value::Array(vec![vint(4), vint(2), vint(3)]));

    let query = vec![Query::index(3)];
    assert_eq!(value.query_set(&query, vint(5)), SetResult::Inserted);
    assert_eq!(value, Value::Array(vec![vint(4), vint(2), vint(3), vint(5)]));

    let query = vec![Query::index(5)];
    assert_eq!(value.query_set(&query, vint(6)), SetResult::Inserted);
    assert_eq!(
        value,
        Value::Array(vec![vint(4), vint(2), vint(3), vint(5), Value::Null, vint(6)])
    );

    let query = vec![Query::index_from_last(1)];
    assert_eq!(value.query_set(&query, vint(7)), SetResult::Replaced(Value::Null));
    assert_eq!(
        value,
        Value::Array(vec![vint(4), vint(2), vint(3), vint(5), vint(7), vint(6)])
    );

    let query = vec![Query::index_from_last(6)];
    assert_eq!(value.query_set(&query, vint(9)), SetResult::NotSet);
}

#[test]
fn query_set_object() {
    let mut value = obj(vec![(b"a", vint(1)), (b"b", vint(2))]);

    let query = vec![Query::key(b"a")];
    assert_eq!(value.query_set(&query, vint(3)), SetResult::Replaced(vint(1)));
    assert_eq!(value, obj(vec![(b"a", vint(3)), (b"b", vint(2))]));

    let query = vec![Query::key(b"c")];
    assert_eq!(value.query_set(&query, vint(4)), SetResult::Inserted);
    assert_eq!(value, obj(vec![(b"a", vint(3)), (b"b", vint(2)), (b"c", vint(4))]));
}

#[test]
fn query_set_nested() {
    let mut value = Value::Array(vec![
        obj(vec![(b"a", vint(1))]),
        Value::Array(vec![vint(2), vint(3)]),
        obj(vec![(b"c", vint(4))]),
    ]);

    let query = vec![Query::index(0), Query::key(b"a")];
    assert_eq!(value.query_set(&query, vint(2)), SetResult::Replaced(vint(1)));

    let query = vec![Query::index(2), Query::key(b"b")];
    assert_eq!(value.query_set(&query, vint(5)), SetResult::Inserted);

    let query = vec![Query::index(1), Query::index(2)];
    assert_eq!(value.query_set(&query, vint(6)), SetResult::Inserted);

    let query = vec![Query::index_from_last(1), Query::index_from_last(2)];
    assert_eq!(value.query_set(&query, vint(7)), SetResult::Replaced(vint(2)));

    let query = vec![Query::index(3), Query::key(b"key")];
    assert_eq!(value.query_set(&query, vint(8)), SetResult::NotSet);

    assert_eq!(
        value,
        Value::Array(vec![
            obj(vec![(b"a", vint(2))]),
            Value::Array(vec![vint(7), vint(3), vint(6)]),
            obj(vec![(b"c", vint(4)), (b"b", vint(5))]),
        ])
    );
}

#[test]
fn query_accessors() {
    let q = Query::index(3);
    assert!(q.is_index());
    assert!(!q.is_key());
    assert!(!q.is_from_last());
    assert_eq!(q.as_index(), Some(3));
    assert!(q.as_key().is_none());

    let q = Query::index_from_last(2);
    assert!(q.is_from_last());
    assert_eq!(q.as_index(), Some(-3));

    let q = Query::key(b"name");
    assert!(q.is_key());
    assert_eq!(q.as_key(), Some(&b"name".to_vec()));
    assert_eq!(q.to_owned(), Query::key_owned(b"name".to_vec()));

    assert_eq!(Query::from(2usize), Query::index(2));
    assert_eq!(Query::from(2isize), Query::index(2));
    assert_eq!(Query::from(-1isize), Query::index_from_last(0));
    assert_eq!(Query::from(-3isize), Query::index_from_last(2));
}
