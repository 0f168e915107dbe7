use nlsd::nloq::{from_str, parse_index, Deserializer};
use nlsd::Query;

#[test]
fn parse_indexes() {
    assert_eq!(parse_index(b"first"), Some(1));
    assert_eq!(parse_index(b"second"), Some(2));
    assert_eq!(parse_index(b"third"), Some(3));
    assert_eq!(parse_index(b"fourth"), Some(4));
    assert_eq!(parse_index(b"fifth"), Some(5));
    assert_eq!(parse_index(b"sixth"), Some(6));
    assert_eq!(parse_index(b"seventh"), Some(7));
    assert_eq!(parse_index(b"eighth"), Some(8));
    assert_eq!(parse_index(b"ninth"), Some(9));
    assert_eq!(parse_index(b"tenth"), Some(10));
    assert_eq!(parse_index(b"eleventh"), Some(11));
    assert_eq!(parse_index(b"twelfth"), Some(12));

    assert_eq!(parse_index(b"1st"), Some(1));
    assert_eq!(parse_index(b"2nd"), Some(2));
    assert_eq!(parse_index(b"3rd"), Some(3));
    assert_eq!(parse_index(b"4th"), Some(4));
    assert_eq!(parse_index(b"5th"), Some(5));
    assert_eq!(parse_index(b"6th"), Some(6));
    assert_eq!(parse_index(b"7th"), Some(7));
    assert_eq!(parse_index(b"8th"), Some(8));
    assert_eq!(parse_index(b"9th"), Some(9));
    assert_eq!(parse_index(b"10th"), Some(10));

    assert_eq!(parse_index(b"811th"), Some(811));
    assert_eq!(parse_index(b"23rd"), Some(23));
    assert_eq!(parse_index(b"312th"), Some(312));
    assert_eq!(parse_index(b"82nd"), Some(82));
    assert_eq!(parse_index(b"915th"), Some(915));
    assert_eq!(parse_index(b"55th"), Some(55));
    assert_eq!(parse_index(b"71st"), Some(71));

    assert!(parse_index(b"-1st").is_none());
    assert!(parse_index(b"1.1st").is_none());
    assert!(parse_index(b"0th").is_none());
    assert!(parse_index(b"01st").is_none());
}

#[test]
fn deserialize_index() {
    let mut deserializer = Deserializer::from_str(b"the first item");
    assert_eq!(deserializer.next(), Some(Query::index(0)));
    assert!(deserializer.next().is_none());

    let mut deserializer = Deserializer::from_str(b"the last item");
    assert_eq!(deserializer.next(), Some(Query::index_from_last(0)));
    assert!(deserializer.next().is_none());

    let mut deserializer = Deserializer::from_str(b"the second item");
    assert_eq!(deserializer.next(), Some(Query::index(1)));
    assert!(deserializer.next().is_none());

    let mut deserializer = Deserializer::from_str(b"the 42nd item");
    assert_eq!(deserializer.next(), Some(Query::index(41)));
    assert!(deserializer.next().is_none());

    let mut deserializer = Deserializer::from_str(b"the third to last item");
    assert_eq!(deserializer.next(), Some(Query::index_from_last(2)));
    assert!(deserializer.next().is_none());

    let mut deserializer = Deserializer::from_str(b"the first item of the last item");
    assert_eq!(deserializer.next(), Some(Query::index(0)));
    assert_eq!(deserializer.next(), Some(Query::index_from_last(0)));
    assert!(deserializer.next().is_none());

    let mut deserializer = Deserializer::from_str(b"the 64th to last item of the sixth item");
    assert_eq!(deserializer.next(), Some(Query::index_from_last(63)));
    assert_eq!(deserializer.next(), Some(Query::index(5)));
    assert!(deserializer.next().is_none());

    let mut deserializer = Deserializer::from_str(b"the 1st item of the 2nd item of the 3rd item");
    let mut collected = Vec::new();
    while let Some(q) = deserializer.next() {
        collected.push(q);
    }
    assert_eq!(vec![Query::index(0), Query::index(1), Query::index(2)], collected);
}

#[test]
fn deserialize_key() {
    let mut deserializer = Deserializer::from_str(b"the key");
    assert_eq!(deserializer.next(), Some(Query::key(b"key")));
    assert!(deserializer.next().is_none());

    let mut deserializer = Deserializer::from_str(b"the `key`");
    assert_eq!(deserializer.next(), Some(Query::key(b"key")));
    assert!(deserializer.next().is_none());

    let mut deserializer = Deserializer::from_str(b"the `multi word key`");
    assert_eq!(deserializer.next(), Some(Query::key(b"multi word key")));
    assert!(deserializer.next().is_none());

    let mut deserializer = Deserializer::from_str(b"the key of the `other key`");
    assert_eq!(deserializer.next(), Some(Query::key(b"key")));
    assert_eq!(deserializer.next(), Some(Query::key(b"other key")));
    assert!(deserializer.next().is_none());

    let mut deserializer = Deserializer::from_str(b"the name of the user of the `access event`");
    assert_eq!(deserializer.next(), Some(Query::key(b"name")));
    assert_eq!(deserializer.next(), Some(Query::key(b"user")));
    assert_eq!(deserializer.next(), Some(Query::key(b"access event")));
    assert!(deserializer.next().is_none());
}

#[test]
fn deserialize_mixed() {
    let mut deserializer = Deserializer::from_str(b"the key of the first item");
    assert_eq!(deserializer.next(), Some(Query::key(b"key")));
    assert_eq!(deserializer.next(), Some(Query::index(0)));
    assert!(deserializer.next().is_none());

    let mut deserializer = Deserializer::from_str(b"the first item of the key");
    assert_eq!(deserializer.next(), Some(Query::index(0)));
    assert_eq!(deserializer.next(), Some(Query::key(b"key")));
    assert!(deserializer.next().is_none());
}

#[test]
fn query() {
    let mut deserializer = Deserializer::from_str(b"the 1st item of the 2nd item of the 3rd item");
    assert_eq!(vec![Query::index(2), Query::index(1), Query::index(0)], deserializer.query());

    let mut deserializer = Deserializer::from_str(b"the name of the user of the `access event`");
    assert_eq!(
        vec![Query::key(b"access event"), Query::key(b"user"), Query::key(b"name")],
        deserializer.query()
    );

    let mut deserializer = Deserializer::from_str(b"the key of the first item");
    assert_eq!(
        vec![Query::Index { index: 0, from_last: false }, Query::key(b"key")],
        deserializer.query()
    );
}

#[test]
fn rest_str() {
    let mut deserializer = Deserializer::from_str(b"the last item of the list with extra words");
    assert_eq!(
        vec![Query::key(b"list"), Query::index_from_last(0)],
        deserializer.query()
    );
    assert_eq!(b"with extra words", deserializer.rest());
}

#[test]
fn from_str_reverses_steps() {
    let path = from_str(b"the a of the b of the c");
    assert_eq!(vec![Query::key(b"c"), Query::key(b"b"), Query::key(b"a")], path);
}
