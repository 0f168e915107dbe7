use nlsd::de::from_str_with_units;
use nlsd::{Amount, Date, DateTime, Error, Key, Number, ObjectMap, Time, Value};

fn vint(i: i64) -> Value {
    Value::Number(Number::Integer(i))
}

fn vdec(neg: bool, whole: &[u8], frac: &[u8]) -> Value {
    Value::Number(Number::Decimal { neg, whole: whole.to_vec(), frac: frac.to_vec() })
}

fn vstr(s: &[u8]) -> Value {
    Value::String(s.to_vec())
}

fn currencies() -> Vec<Vec<u8>> {
    vec![b"dollars".to_vec(), b"euros".to_vec()]
}

fn amount(entries: Vec<(&[u8], Number)>) -> Value {
    Value::Amount(Amount {
        entries: entries.into_iter().map(|(u, n)| (u.to_vec(), Value::Number(n))).collect(),
    })
}

#[test]
fn value_deserialize_num() {
    assert_eq!(vint(1), nlsd::de::from_str(b"1").unwrap());
    assert_eq!(vint(0), nlsd::de::from_str(b"0").unwrap());
    assert_eq!(vint(-1), nlsd::de::from_str(b"-1").unwrap());
    assert_eq!(vdec(false, b"1", b"1"), nlsd::de::from_str(b"1.1").unwrap());
}

#[test]
fn deserialize_time() {
    assert_eq!(
        Value::Time(Time { hour: 16, minute: 17, second: 3 }),
        nlsd::de::from_str(b"`16:17:03`").unwrap()
    );
}

#[test]
fn deserialize_date() {
    assert_eq!(
        Value::Date(Date { year: 2020, month: 8, day: 23 }),
        nlsd::de::from_str(b"`August 23 2020`").unwrap()
    );
}

#[test]
fn deserialize_datetime() {
    assert_eq!(
        Value::DateTime(
            DateTime {
                date: Date { year: 2020, month: 8, day: 23 },
                time: Time { hour: 16, minute: 17, second: 3 },
            },
        ),
        nlsd::de::from_str(b"`August 23 16:17:03 2020`").unwrap()
    );
}

#[test]
fn serialize_time() {
    assert_eq!(
        b"`14:23:02`".to_vec(),
        nlsd::to_vec(&Value::Time(Time { hour: 14, minute: 23, second: 2 })).unwrap()
    );
}

#[test]
fn serialize_date() {
    assert_eq!(
        b"`August 23 2020`".to_vec(),
        nlsd::to_vec(&Value::Date(Date { year: 2020, month: 8, day: 23 })).unwrap()
    );
}

#[test]
fn serialize_datetime() {
    assert_eq!(
        b"`August 23 14:23:02 2020`".to_vec(),
        nlsd::to_vec(
            &Value::DateTime(
                DateTime {
                    date: Date { year: 2020, month: 8, day: 23 },
                    time: Time { hour: 14, minute: 23, second: 2 },
                },
            ),
        )
        .unwrap()
    );
}

#[test]
fn deserialize_amount() {
    assert_eq!(
        amount(vec![(b"dollars", Number::Integer(10))]),
        from_str_with_units(b"`10 dollars`", &currencies()).unwrap()
    );
    assert_eq!(
        amount(vec![(
            b"euros",
            Number::Decimal { neg: false, whole: b"11".to_vec(), frac: b"5".to_vec() },
        )]),
        from_str_with_units(b"`11.5 euros`", &currencies()).unwrap()
    );
    assert_eq!(
        vstr(b"10 bucks"),
        from_str_with_units(b"`10 bucks`", &currencies()).unwrap()
    );
}

#[test]
fn deserialize_multi_amount() {
    assert_eq!(
        amount(vec![
            (b"dollars", Number::Integer(10)),
            (
                b"euros",
                Number::Decimal { neg: false, whole: b"11".to_vec(), frac: b"5".to_vec() },
            ),
        ]),
        from_str_with_units(
            b"the `amount` where `dollars` is 10 and `euros` is 11.5",
            &currencies(),
        )
        .unwrap()
    );
    assert!(matches!(
        from_str_with_units(b"the `amount` where `dollars` is 10 and `bucks` is 100", &currencies()),
        Err(Error::UnknownUnit)
    ));
}

#[test]
fn deserialize_custom() {
    assert_eq!(
        Value::Custom(
            Box::new(
                Value::Object(
                    ObjectMap {
                        entries: vec![
                            (Key::String(b"id".to_vec()), vint(1)),
                            (Key::String(b"name".to_vec()), vstr(b"bob")),
                        ],
                    },
                ),
            ),
        ),
        nlsd::de::from_str(
            b"the `non standard object` which is the `user` where the `id` is 1 and the `name` is `bob`"
        )
        .unwrap()
    );
}

#[test]
fn serialize_amount() {
    assert_eq!(
        b"`10 dollars`".to_vec(),
        nlsd::to_vec(&amount(vec![(b"dollars", Number::Integer(10))])).unwrap()
    );
    assert_eq!(
        b"the `amount` where the `dollars` is 10 and the `euros` is 11.5".to_vec(),
        nlsd::to_vec(&amount(vec![
            (b"dollars", Number::Integer(10)),
            (
                b"euros",
                Number::Decimal { neg: false, whole: b"11".to_vec(), frac: b"5".to_vec() },
            ),
        ]))
        .unwrap()
    );
}

#[test]
fn serialize_custom() {
    assert_eq!(
        b"the `non standard object` which is the object where the `id` is 1 and the `name` is `bob`"
            .to_vec(),
        nlsd::to_vec(
            &Value::Custom(
                Box::new(
                    Value::Object(
                        ObjectMap {
                            entries: vec![
                                (Key::String(b"id".to_vec()), vint(1)),
                                (Key::String(b"name".to_vec()), vstr(b"bob")),
                            ],
                        },
                    ),
                ),
            ),
        )
        .unwrap()
    );
}

#[test]
fn map_insert_and_get() {
    let mut m = ObjectMap::new();
    assert_eq!(0, m.len());
    assert!(m.insert(Key::String(b"a".to_vec()), vint(1)).is_none());
    assert!(m.insert(Key::String(b"b".to_vec()), vint(2)).is_none());
    assert_eq!(2, m.len());
    assert_eq!(Some(&vint(1)), m.get(&Key::String(b"a".to_vec())));
    assert_eq!(Some(vint(1)), m.insert(Key::String(b"a".to_vec()), vint(9)));
    assert_eq!(Some(&vint(9)), m.get(&Key::String(b"a".to_vec())));
    assert_eq!(2, m.len());
    assert!(m.get(&Key::String(b"c".to_vec())).is_none());
}

#[test]
fn amount_insert_and_remove() {
    let mut a = Amount::new();
    assert!(a.insert(b"dollars".to_vec(), Number::Integer(10)).is_none());
    assert_eq!(Some(&vint(10)), a.get(b"dollars"));
    assert_eq!(
        Some(vint(10)),
        a.insert(b"dollars".to_vec(), Number::Integer(11))
    );
    assert_eq!(1, a.len());
    assert_eq!(Some(vint(11)), a.remove(b"dollars"));
    assert!(a.get(b"dollars").is_none());
}

#[test]
fn value_shape_getters() {
    let v = vint(3);
    assert!(v.is_number());
    assert!(!v.is_null());
    assert_eq!(v.as_i64(), Some(3));
    assert_eq!(v.as_bool(), None);

    let v = Value::Bool(true);
    assert!(v.is_bool());
    assert_eq!(v.as_bool(), Some(true));

    let mut v = Value::Array(vec![vint(1)]);
    assert!(v.is_array());
    assert_eq!(v.as_array().map(|a| a.len()), Some(1));
    if let Some(items) = v.as_array_mut() {
        items.push(vint(2));
    }
    assert_eq!(v.as_array().map(|a| a.len()), Some(2));

    let v = Value::String(b"hi".to_vec());
    assert!(v.is_string());
    assert!(v.as_object().is_none());
}

#[test]
fn amount_get_mut() {
    let mut a = Amount::new();
    a.insert(b"dollars".to_vec(), Number::Integer(10));
    if let Some(v) = a.get_mut(b"dollars") {
        *v = vint(12);
    }
    assert_eq!(Some(&vint(12)), a.get(b"dollars"));
    assert!(a.get_mut(b"bucks").is_none());
}
