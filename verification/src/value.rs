use vstd::prelude::*;

use crate::num::{wf_number, Number};

verus! {

/// The mathematical shape of a number: held apart from the digits' storage.
pub enum NumberView {
    Integer(int),
    Decimal { neg: bool, whole: Seq<u8>, frac: Seq<u8> },
}

impl View for Number {
    type V = NumberView;

    open spec fn view(&self) -> NumberView {
        match self {
            Number::Integer(i) => NumberView::Integer(*i as int),
            Number::Decimal { neg, whole, frac } => NumberView::Decimal {
                neg: *neg,
                whole: whole@,
                frac: frac@,
            },
        }
    }
}

/// A key of an object: a boolean, a number, or a string.
#[derive(Debug, Clone, PartialEq, Eq)]
pub enum Key {
    Bool(bool),
    Number(Number),
    String(Vec<u8>),
}

/// The mathematical shape of a key.
pub enum KeyView {
    Bool(bool),
    Number(NumberView),
    String(Seq<u8>),
}

impl View for Key {
    type V = KeyView;

    open spec fn view(&self) -> KeyView {
        match self {
            Key::Bool(b) => KeyView::Bool(*b),
            Key::Number(n) => KeyView::Number(n@),
            Key::String(s) => KeyView::String(s@),
        }
    }
}

/// A calendar date, held as plain year, month and day numbers. Whether a
/// triple names a real date is decided by the datetime library behind
/// `parse_date`.
#[derive(Debug, Clone, Copy, PartialEq, Eq, Structural)]
pub struct Date {
    pub year: i32,
    pub month: u8,
    pub day: u8,
}

/// A time of day, held as plain hour, minute and second numbers.
#[derive(Debug, Clone, Copy, PartialEq, Eq, Structural)]
pub struct Time {
    pub hour: u8,
    pub minute: u8,
    pub second: u8,
}

/// A date together with a time of day.
#[derive(Debug, Clone, Copy, PartialEq, Eq, Structural)]
pub struct DateTime {
    pub date: Date,
    pub time: Time,
}

/// A map from keys to values with no key shape twice. Entries keep their
/// insertion order, and the sentence output follows that order; any fixed,
/// deterministic order would serve, and this one also preserves the order
/// in which a decoded sentence spelled its entries.
#[derive(Debug, PartialEq, Eq)]
pub struct ObjectMap {
    pub entries: Vec<(Key, Value)>,
}

/// One or more quantities, each a unit name with its number.
#[derive(Debug, PartialEq, Eq)]
pub struct Amount {
    pub entries: Vec<(Vec<u8>, Value)>,
}

/// A list value: a thin wrapper around a vector.
#[derive(Debug, Clone, PartialEq, Eq)]
pub struct Array<T> {
    pub items: Vec<T>,
}

impl<T> Array<T> {
    /// An empty list.
    pub fn new() -> (r: Array<T>)
        ensures
            r.items@.len() == 0,
    {
        Array { items: Vec::new() }
    }
}

/// A unit type for amounts when no unit is meaningful; it never names a
/// unit.
#[derive(Debug, Clone, Copy, PartialEq, Eq, Structural)]
pub struct NoUnit;

/// An opaque payload type for values that carry no custom data.
#[derive(Debug, Clone, Copy, PartialEq, Eq, Structural)]
pub struct NoCustom;

/// How a unit names itself in a sentence.
pub trait UnitDisplay {
    fn unit_display(&self) -> &'static str;
}

impl UnitDisplay for NoUnit {
    fn unit_display(&self) -> &'static str {
        ""
    }
}

/// The default data model: every value the document grammar can spell.
/// Strings and unit names are byte strings; hold UTF-8 in them when the
/// written sentence must be UTF-8, since the writer copies them verbatim.
#[derive(Debug, PartialEq, Eq)]
pub enum Value {
    Null,
    Bool(bool),
    Number(Number),
    Amount(Amount),
    String(Vec<u8>),
    DateTime(DateTime),
    Date(Date),
    Time(Time),
    Array(Vec<Value>),
    Object(ObjectMap),
    Custom(Box<Value>),
}

/// A unit name can stand inside a back-tick string after a number: it is
/// nonempty and holds neither whitespace nor a back-tick.
pub open spec fn unit_name_ok(u: Seq<u8>) -> bool {
    &&& u.len() > 0
    &&& forall|i: int| 0 <= i < u.len() ==> !crate::parser::is_ws(#[trigger] u[i]) && u[i] != 0x60
}

/// The key table of an object holds no key shape twice and only
/// well-formed keys.
pub open spec fn wf_map_keys(es: Seq<(Key, Value)>) -> bool {
    &&& forall|i: int, j: int|
        0 <= i < j < es.len() ==> (#[trigger] es[i].0@) != (#[trigger] es[j].0@)
    &&& forall|i: int| 0 <= i < es.len() ==> wf_key(#[trigger] es[i].0)
}

/// The unit table of an amount holds no name twice, each a printable unit
/// name, and each entry a canonical number.
pub open spec fn wf_amount_entries(es: Seq<(Vec<u8>, Value)>) -> bool {
    &&& forall|i: int, j: int|
        0 <= i < j < es.len() ==> (#[trigger] es[i].0@) != (#[trigger] es[j].0@)
    &&& forall|i: int| 0 <= i < es.len() ==> unit_name_ok(#[trigger] es[i].0@)
    &&& forall|i: int|
        0 <= i < es.len() ==> ((#[trigger] es[i].1) matches Value::Number(n) && wf_number(n))
}

/// Well-formedness of the data model: numbers are canonical, object keys
/// and unit names are distinct, and every amount entry is a number.
pub open spec fn wf_value(v: Value) -> bool
    decreases v,
{
    match v {
        Value::Null => true,
        Value::Bool(_) => true,
        Value::Number(n) => wf_number(n),
        Value::String(_) => true,
        Value::DateTime(_) => true,
        Value::Date(_) => true,
        Value::Time(_) => true,
        Value::Amount(a) => wf_amount_entries(a.entries@),
        Value::Array(vs) => forall|i: int| 0 <= i < vs@.len() ==> wf_value(#[trigger] vs@[i]),
        Value::Object(m) => {
            &&& wf_map_keys(m.entries@)
            &&& forall|i: int| 0 <= i < m.entries@.len() ==> wf_value(#[trigger] m.entries@[i].1)
        },
        Value::Custom(b) => wf_value(*b),
    }
}

pub open spec fn wf_key(k: Key) -> bool {
    match k {
        Key::Number(n) => wf_number(n),
        _ => true,
    }
}

/// Equality of values by content: numbers by their canonical shape, maps
/// entry for entry in order.
pub open spec fn value_eqv(a: Value, b: Value) -> bool
    decreases a,
{
    match (a, b) {
        (Value::Null, Value::Null) => true,
        (Value::Bool(x), Value::Bool(y)) => x == y,
        (Value::Number(x), Value::Number(y)) => x@ == y@,
        (Value::String(x), Value::String(y)) => x@ == y@,
        (Value::DateTime(x), Value::DateTime(y)) => x == y,
        (Value::Date(x), Value::Date(y)) => x == y,
        (Value::Time(x), Value::Time(y)) => x == y,
        (Value::Amount(x), Value::Amount(y)) => {
            &&& x.entries@.len() == y.entries@.len()
            &&& forall|i: int|
                0 <= i < x.entries@.len() ==> (#[trigger] x.entries@[i].0@) == y.entries@[i].0@
                    && value_eqv(x.entries@[i].1, y.entries@[i].1)
        },
        (Value::Array(xs), Value::Array(ys)) => {
            &&& xs@.len() == ys@.len()
            &&& forall|i: int| 0 <= i < xs@.len() ==> value_eqv(#[trigger] xs@[i], ys@[i])
        },
        (Value::Object(x), Value::Object(y)) => {
            &&& x.entries@.len() == y.entries@.len()
            &&& forall|i: int|
                0 <= i < x.entries@.len() ==> (#[trigger] x.entries@[i].0@) == y.entries@[i].0@
                    && value_eqv(x.entries@[i].1, y.entries@[i].1)
        },
        (Value::Custom(x), Value::Custom(y)) => value_eqv(*x, *y),
        _ => false,
    }
}

/// Content equality is reflexive.
pub proof fn lemma_value_eqv_refl(v: Value)
    ensures
        value_eqv(v, v),
    decreases v,
{
    match v {
        Value::Amount(a) => {
            assert forall|i: int| 0 <= i < a.entries@.len() implies value_eqv(
                #[trigger] a.entries@[i].1,
                a.entries@[i].1,
            ) by {
                lemma_value_eqv_refl(a.entries@[i].1);
            }
        },
        Value::Array(vs) => {
            assert forall|i: int| 0 <= i < vs@.len() implies value_eqv(
                #[trigger] vs@[i],
                vs@[i],
            ) by {
                lemma_value_eqv_refl(vs@[i]);
            }
        },
        Value::Object(m) => {
            assert forall|i: int| 0 <= i < m.entries@.len() implies value_eqv(
                #[trigger] m.entries@[i].1,
                m.entries@[i].1,
            ) by {
                lemma_value_eqv_refl(m.entries@[i].1);
            }
        },
        Value::Custom(b) => {
            lemma_value_eqv_refl(*b);
        },
        _ => {},
    }
}

/// The value under the first entry of `es` whose key has this shape.
pub open spec fn map_find(es: Seq<(Key, Value)>, k: KeyView) -> Option<Value>
    decreases es.len(),
{
    if es.len() == 0 {
        None
    } else if es[0].0@ == k {
        Some(es[0].1)
    } else {
        map_find(es.skip(1), k)
    }
}

/// The position of the first entry of `es` whose key has this shape, or
/// the length of `es` when there is none.
pub open spec fn map_index_of(es: Seq<(Key, Value)>, k: KeyView) -> int
    decreases es.len(),
{
    if es.len() == 0 {
        0
    } else if es[0].0@ == k {
        0
    } else {
        1 + map_index_of(es.skip(1), k)
    }
}

/// The value under the first entry of `es` with this unit name.
pub open spec fn amount_find(es: Seq<(Vec<u8>, Value)>, u: Seq<u8>) -> Option<Value>
    decreases es.len(),
{
    if es.len() == 0 {
        None
    } else if es[0].0@ == u {
        Some(es[0].1)
    } else {
        amount_find(es.skip(1), u)
    }
}

/// The position of the first entry of `es` with this unit name, or the
/// length of `es` when there is none.
pub open spec fn amount_index_of(es: Seq<(Vec<u8>, Value)>, u: Seq<u8>) -> int
    decreases es.len(),
{
    if es.len() == 0 {
        0
    } else if es[0].0@ == u {
        0
    } else {
        1 + amount_index_of(es.skip(1), u)
    }
}

/// A key that `map_find` misses differs from every stored key.
pub proof fn lemma_map_find_none(es: Seq<(Key, Value)>, k: KeyView)
    ensures
        map_find(es, k) is None ==> forall|j: int| 0 <= j < es.len() ==> (#[trigger] es[j].0@) != k,
    decreases es.len(),
{
    if es.len() > 0 && es[0].0@ != k {
        lemma_map_find_none(es.skip(1), k);
        if map_find(es, k) is None {
            assert forall|j: int| 0 <= j < es.len() implies (#[trigger] es[j].0@) != k by {
                if j > 0 {
                    assert(es.skip(1)[j - 1] == es[j]);
                }
            }
        }
    }
}

/// A unit name that `amount_find` misses differs from every stored name.
pub proof fn lemma_amount_find_none(es: Seq<(Vec<u8>, Value)>, k: Seq<u8>)
    ensures
        amount_find(es, k) is None ==> forall|j: int|
            0 <= j < es.len() ==> (#[trigger] es[j].0@) != k,
    decreases es.len(),
{
    if es.len() > 0 && es[0].0@ != k {
        lemma_amount_find_none(es.skip(1), k);
        if amount_find(es, k) is None {
            assert forall|j: int| 0 <= j < es.len() implies (#[trigger] es[j].0@) != k by {
                if j > 0 {
                    assert(es.skip(1)[j - 1] == es[j]);
                }
            }
        }
    }
}

/// Compare two numbers by canonical shape; on well-formed numbers this is
/// equality of the mathematical values they denote.
pub fn num_eq(a: &Number, b: &Number) -> (r: bool)
    ensures
        r == (a@ == b@),
{
    match (a, b) {
        (Number::Integer(x), Number::Integer(y)) => x == y,
        (
            Number::Decimal { neg: n1, whole: w1, frac: f1 },
            Number::Decimal { neg: n2, whole: w2, frac: f2 },
        ) => *n1 == *n2 && crate::bytes::bytes_eq(w1.as_slice(), w2.as_slice())
            && crate::bytes::bytes_eq(f1.as_slice(), f2.as_slice()),
        _ => false,
    }
}

/// Compare two keys by shape.
pub fn key_eq(a: &Key, b: &Key) -> (r: bool)
    ensures
        r == (a@ == b@),
{
    match (a, b) {
        (Key::Bool(x), Key::Bool(y)) => x == y,
        (Key::Number(x), Key::Number(y)) => num_eq(x, y),
        (Key::String(x), Key::String(y)) => crate::bytes::bytes_eq(x.as_slice(), y.as_slice()),
        _ => false,
    }
}

impl ObjectMap {
    /// An empty map.
    pub fn new() -> (r: ObjectMap)
        ensures
            r.entries@.len() == 0,
    {
        ObjectMap { entries: Vec::new() }
    }

    /// How many entries the map holds.
    pub fn len(&self) -> (r: usize)
        ensures
            r == self.entries@.len(),
    {
        self.entries.len()
    }

    /// The index of the entry whose key has the shape of `k`, if any.
    pub fn find_index(&self, k: &Key) -> (r: Option<usize>)
        ensures
            match r {
                Some(i) => i < self.entries@.len() && self.entries@[i as int].0@ == k@ && i as int
                    == map_index_of(self.entries@, k@) && map_find(self.entries@, k@) == Some(
                    self.entries@[i as int].1,
                ) && (forall|j: int| 0 <= j < i ==> (#[trigger] self.entries@[j].0@) != k@),
                None => map_find(self.entries@, k@) is None,
            },
    {
        let n = self.entries.len();
        let mut i: usize = 0;
        proof {
            assert(self.entries@.skip(0) =~= self.entries@);
        }
        while i < n
            invariant
                0 <= i <= n,
                n == self.entries@.len(),
                forall|j: int| 0 <= j < i ==> (#[trigger] self.entries@[j].0@) != k@,
                map_find(self.entries@, k@) == map_find(self.entries@.skip(i as int), k@),
                map_index_of(self.entries@, k@) == i + map_index_of(
                    self.entries@.skip(i as int),
                    k@,
                ),
            decreases n - i,
        {
            let e = &self.entries[i];
            if key_eq(&e.0, k) {
                proof {
                    assert(self.entries@.skip(i as int)[0] == self.entries@[i as int]);
                }
                return Some(i);
            }
            proof {
                assert(self.entries@.skip(i as int)[0] == self.entries@[i as int]);
                assert(self.entries@.skip(i as int).skip(1) =~= self.entries@.skip(i + 1));
            }
            i = i + 1;
        }
        proof {
            assert(self.entries@.skip(i as int) =~= Seq::<(Key, Value)>::empty());
        }
        None
    }

    /// Look a key up by shape.
    pub fn get(&self, k: &Key) -> (r: Option<&Value>)
        ensures
            match r {
                Some(v) => map_find(self.entries@, k@) == Some(*v),
                None => map_find(self.entries@, k@) is None,
            },
    {
        match self.find_index(k) {
            Some(i) => Some(&self.entries[i].1),
            None => None,
        }
    }

    /// Put `value` under `key`: replace the entry whose key has the same
    /// shape, keeping its place, or append a new entry. Returns what was
    /// replaced.
    pub fn insert(&mut self, key: Key, value: Value) -> (r: Option<Value>)
        ensures
            match r {
                Some(old_v) => {
                    &&& map_find(old(self).entries@, key@) == Some(old_v)
                    &&& 0 <= map_index_of(old(self).entries@, key@) < old(self).entries@.len()
                    &&& final(self).entries@ == old(self).entries@.update(
                        map_index_of(old(self).entries@, key@),
                        (old(self).entries@[map_index_of(old(self).entries@, key@)].0, value),
                    )
                },
                None => {
                    &&& map_find(old(self).entries@, key@) is None
                    &&& final(self).entries@ == old(self).entries@.push((key, value))
                },
            },
    {
        match self.find_index(&key) {
            Some(i) => {
                let old_entry = self.entries.remove(i);
                self.entries.insert(i, (old_entry.0, value));
                proof {
                    assert(final(self).entries@ =~= old(self).entries@.update(
                        i as int,
                        (old(self).entries@[i as int].0, value),
                    ));
                }
                Some(old_entry.1)
            },
            None => {
                self.entries.push((key, value));
                None
            },
        }
    }
}

impl Amount {
    /// An amount with no quantities yet; well-formed amounts hold at least
    /// one.
    pub fn new() -> (r: Amount)
        ensures
            r.entries@.len() == 0,
    {
        Amount { entries: Vec::new() }
    }

    /// How many quantities the amount holds.
    pub fn len(&self) -> (r: usize)
        ensures
            r == self.entries@.len(),
    {
        self.entries.len()
    }

    pub fn find_index(&self, unit: &[u8]) -> (r: Option<usize>)
        ensures
            match r {
                Some(i) => i < self.entries@.len() && self.entries@[i as int].0@ == unit@ && i as int
                    == amount_index_of(self.entries@, unit@) && amount_find(self.entries@, unit@)
                    == Some(self.entries@[i as int].1) && (forall|j: int|
                    0 <= j < i ==> (#[trigger] self.entries@[j].0@) != unit@),
                None => amount_find(self.entries@, unit@) is None,
            },
    {
        let n = self.entries.len();
        let mut i: usize = 0;
        proof {
            assert(self.entries@.skip(0) =~= self.entries@);
        }
        while i < n
            invariant
                0 <= i <= n,
                n == self.entries@.len(),
                forall|j: int| 0 <= j < i ==> (#[trigger] self.entries@[j].0@) != unit@,
                amount_find(self.entries@, unit@) == amount_find(
                    self.entries@.skip(i as int),
                    unit@,
                ),
                amount_index_of(self.entries@, unit@) == i + amount_index_of(
                    self.entries@.skip(i as int),
                    unit@,
                ),
            decreases n - i,
        {
            let e = &self.entries[i];
            if crate::bytes::bytes_eq(e.0.as_slice(), unit) {
                proof {
                    assert(self.entries@.skip(i as int)[0] == self.entries@[i as int]);
                }
                return Some(i);
            }
            proof {
                assert(self.entries@.skip(i as int)[0] == self.entries@[i as int]);
                assert(self.entries@.skip(i as int).skip(1) =~= self.entries@.skip(i + 1));
            }
            i = i + 1;
        }
        proof {
            assert(self.entries@.skip(i as int) =~= Seq::<(Vec<u8>, Value)>::empty());
        }
        None
    }

    /// The value held under a unit name.
    pub fn get(&self, unit: &[u8]) -> (r: Option<&Value>)
        ensures
            match r {
                Some(v) => amount_find(self.entries@, unit@) == Some(*v),
                None => amount_find(self.entries@, unit@) is None,
            },
    {
        match self.find_index(unit) {
            Some(i) => Some(&self.entries[i].1),
            None => None,
        }
    }

    /// Put a number under a unit name; an existing entry for the same name
    /// is replaced in place. Returns what was replaced.
    pub fn insert(&mut self, unit: Vec<u8>, value: Number) -> (r: Option<Value>)
        ensures
            match r {
                Some(old_v) => {
                    &&& amount_find(old(self).entries@, unit@) == Some(old_v)
                    &&& 0 <= amount_index_of(old(self).entries@, unit@) < old(self).entries@.len()
                    &&& final(self).entries@ == old(self).entries@.update(
                        amount_index_of(old(self).entries@, unit@),
                        (
                            old(self).entries@[amount_index_of(old(self).entries@, unit@)].0,
                            Value::Number(value),
                        ),
                    )
                },
                None => {
                    &&& amount_find(old(self).entries@, unit@) is None
                    &&& final(self).entries@ == old(self).entries@.push(
                        (unit, Value::Number(value)),
                    )
                },
            },
    {
        match self.find_index(unit.as_slice()) {
            Some(i) => {
                let old_entry = self.entries.remove(i);
                self.entries.insert(i, (old_entry.0, Value::Number(value)));
                proof {
                    assert(final(self).entries@ =~= old(self).entries@.update(
                        i as int,
                        (old(self).entries@[i as int].0, Value::Number(value)),
                    ));
                }
                Some(old_entry.1)
            },
            None => {
                self.entries.push((unit, Value::Number(value)));
                None
            },
        }
    }

    /// A mutable borrow of the value under a unit name; writes through it
    /// land at that name.
    pub fn get_mut(&mut self, unit: &[u8]) -> (r: Option<&mut Value>)
        ensures
            match r {
                Some(v) => {
                    &&& amount_find(old(self).entries@, unit@) == Some(*v)
                    &&& amount_find(final(self).entries@, unit@) == Some(*final(v))
                },
                None => {
                    &&& amount_find(old(self).entries@, unit@) is None
                    &&& *final(self) == *old(self)
                },
            },
    {
        let ghost pre = self.entries@;
        match self.find_index(unit) {
            Some(i) => {
                let e = &mut self.entries[i];
                let v = &mut e.1;
                proof {
                    lemma_amount_find_update_value(pre, i as int, unit@, *final(v));
                }
                Some(v)
            },
            None => None,
        }
    }

    /// Take the entry under a unit name out.
    pub fn remove(&mut self, unit: &[u8]) -> (r: Option<Value>)
        ensures
            match r {
                Some(old_v) => {
                    &&& amount_find(old(self).entries@, unit@) == Some(old_v)
                    &&& 0 <= amount_index_of(old(self).entries@, unit@) < old(self).entries@.len()
                    &&& final(self).entries@ == old(self).entries@.remove(
                        amount_index_of(old(self).entries@, unit@),
                    )
                },
                None => amount_find(old(self).entries@, unit@) is None && final(self).entries@
                    == old(self).entries@,
            },
    {
        match self.find_index(unit) {
            Some(i) => {
                let e = self.entries.remove(i);
                Some(e.1)
            },
            None => None,
        }
    }
}

impl Value {
    /// Is this value the `null` shape?
    pub fn is_null(&self) -> (r: bool)
        ensures
            r == (self matches Value::Null),
    {
        match self {
            Value::Null => true,
            _ => false,
        }
    }

    /// Is this value the `bool` shape?
    pub fn is_bool(&self) -> (r: bool)
        ensures
            r == (self matches Value::Bool(_)),
    {
        match self {
            Value::Bool(_) => true,
            _ => false,
        }
    }

    /// Is this value the `number` shape?
    pub fn is_number(&self) -> (r: bool)
        ensures
            r == (self matches Value::Number(_)),
    {
        match self {
            Value::Number(_) => true,
            _ => false,
        }
    }

    /// Is this value the `amount` shape?
    pub fn is_amount(&self) -> (r: bool)
        ensures
            r == (self matches Value::Amount(_)),
    {
        match self {
            Value::Amount(_) => true,
            _ => false,
        }
    }

    /// Is this value the `string` shape?
    pub fn is_string(&self) -> (r: bool)
        ensures
            r == (self matches Value::String(_)),
    {
        match self {
            Value::String(_) => true,
            _ => false,
        }
    }

    /// Is this value the `date time` shape?
    pub fn is_date_time(&self) -> (r: bool)
        ensures
            r == (self matches Value::DateTime(_)),
    {
        match self {
            Value::DateTime(_) => true,
            _ => false,
        }
    }

    /// Is this value the `date` shape?
    pub fn is_date(&self) -> (r: bool)
        ensures
            r == (self matches Value::Date(_)),
    {
        match self {
            Value::Date(_) => true,
            _ => false,
        }
    }

    /// Is this value the `time` shape?
    pub fn is_time(&self) -> (r: bool)
        ensures
            r == (self matches Value::Time(_)),
    {
        match self {
            Value::Time(_) => true,
            _ => false,
        }
    }

    /// Is this value the `array` shape?
    pub fn is_array(&self) -> (r: bool)
        ensures
            r == (self matches Value::Array(_)),
    {
        match self {
            Value::Array(_) => true,
            _ => false,
        }
    }

    /// Is this value the `object` shape?
    pub fn is_object(&self) -> (r: bool)
        ensures
            r == (self matches Value::Object(_)),
    {
        match self {
            Value::Object(_) => true,
            _ => false,
        }
    }

    /// Is this value the `custom` shape?
    pub fn is_custom(&self) -> (r: bool)
        ensures
            r == (self matches Value::Custom(_)),
    {
        match self {
            Value::Custom(_) => true,
            _ => false,
        }
    }

    /// The payload when this is a `Bool` value.
    pub fn as_bool(&self) -> (r: Option<bool>)
        ensures
            match r {
                Some(x) => self matches Value::Bool(y) && x == y,
                None => !(self matches Value::Bool(_)),
            },
    {
        match self {
            Value::Bool(x) => Some(*x),
            _ => None,
        }
    }

    /// The payload when this is a `Number` value.
    pub fn as_num(&self) -> (r: Option<&Number>)
        ensures
            match r {
                Some(x) => self matches Value::Number(y) && *x == y,
                None => !(self matches Value::Number(_)),
            },
    {
        match self {
            Value::Number(x) => Some(x),
            _ => None,
        }
    }

    /// The payload when this is a `Amount` value.
    pub fn as_amount(&self) -> (r: Option<&Amount>)
        ensures
            match r {
                Some(x) => self matches Value::Amount(y) && *x == y,
                None => !(self matches Value::Amount(_)),
            },
    {
        match self {
            Value::Amount(x) => Some(x),
            _ => None,
        }
    }

    /// The payload when this is a `DateTime` value.
    pub fn as_date_time(&self) -> (r: Option<&DateTime>)
        ensures
            match r {
                Some(x) => self matches Value::DateTime(y) && *x == y,
                None => !(self matches Value::DateTime(_)),
            },
    {
        match self {
            Value::DateTime(x) => Some(x),
            _ => None,
        }
    }

    /// The payload when this is a `Date` value.
    pub fn as_date(&self) -> (r: Option<&Date>)
        ensures
            match r {
                Some(x) => self matches Value::Date(y) && *x == y,
                None => !(self matches Value::Date(_)),
            },
    {
        match self {
            Value::Date(x) => Some(x),
            _ => None,
        }
    }

    /// The payload when this is a `Time` value.
    pub fn as_time(&self) -> (r: Option<&Time>)
        ensures
            match r {
                Some(x) => self matches Value::Time(y) && *x == y,
                None => !(self matches Value::Time(_)),
            },
    {
        match self {
            Value::Time(x) => Some(x),
            _ => None,
        }
    }

    /// The payload when this is a `Array` value.
    pub fn as_array(&self) -> (r: Option<&Vec<Value>>)
        ensures
            match r {
                Some(x) => self matches Value::Array(y) && *x == y,
                None => !(self matches Value::Array(_)),
            },
    {
        match self {
            Value::Array(x) => Some(x),
            _ => None,
        }
    }

    /// The payload when this is a `Object` value.
    pub fn as_object(&self) -> (r: Option<&ObjectMap>)
        ensures
            match r {
                Some(x) => self matches Value::Object(y) && *x == y,
                None => !(self matches Value::Object(_)),
            },
    {
        match self {
            Value::Object(x) => Some(x),
            _ => None,
        }
    }

    /// The payload when this is a `Custom` value.
    pub fn as_custom(&self) -> (r: Option<&Box<Value>>)
        ensures
            match r {
                Some(x) => self matches Value::Custom(y) && *x == y,
                None => !(self matches Value::Custom(_)),
            },
    {
        match self {
            Value::Custom(x) => Some(x),
            _ => None,
        }
    }

    /// The integer a number value carries, when it is held as one.
    pub fn as_i64(&self) -> (r: Option<i64>)
        ensures
            match r {
                Some(i) => self matches Value::Number(Number::Integer(j)) && i == j,
                None => !(self matches Value::Number(Number::Integer(_))),
            },
    {
        match self {
            Value::Number(Number::Integer(i)) => Some(*i),
            _ => None,
        }
    }

    /// A mutable borrow of the payload when this is a `Amount` value;
    /// writes through it land in this value.
    pub fn as_amount_mut(&mut self) -> (r: Option<&mut Amount>)
        ensures
            match r {
                Some(x) => {
                    &&& *old(self) matches Value::Amount(y) && *x == y
                    &&& *final(self) == Value::Amount(*final(x))
                },
                None => !(*old(self) matches Value::Amount(_)) && *final(self) == *old(self),
            },
    {
        match self {
            Value::Amount(x) => Some(x),
            _ => None,
        }
    }

    /// A mutable borrow of the payload when this is a `Array` value;
    /// writes through it land in this value.
    pub fn as_array_mut(&mut self) -> (r: Option<&mut Vec<Value>>)
        ensures
            match r {
                Some(x) => {
                    &&& *old(self) matches Value::Array(y) && *x == y
                    &&& *final(self) == Value::Array(*final(x))
                },
                None => !(*old(self) matches Value::Array(_)) && *final(self) == *old(self),
            },
    {
        match self {
            Value::Array(x) => Some(x),
            _ => None,
        }
    }

    /// A mutable borrow of the payload when this is a `Object` value;
    /// writes through it land in this value.
    pub fn as_object_mut(&mut self) -> (r: Option<&mut ObjectMap>)
        ensures
            match r {
                Some(x) => {
                    &&& *old(self) matches Value::Object(y) && *x == y
                    &&& *final(self) == Value::Object(*final(x))
                },
                None => !(*old(self) matches Value::Object(_)) && *final(self) == *old(self),
            },
    {
        match self {
            Value::Object(x) => Some(x),
            _ => None,
        }
    }

    /// A mutable borrow of the payload when this is a `Custom` value;
    /// writes through it land in this value.
    pub fn as_custom_mut(&mut self) -> (r: Option<&mut Box<Value>>)
        ensures
            match r {
                Some(x) => {
                    &&& *old(self) matches Value::Custom(y) && *x == y
                    &&& *final(self) == Value::Custom(*final(x))
                },
                None => !(*old(self) matches Value::Custom(_)) && *final(self) == *old(self),
            },
    {
        match self {
            Value::Custom(x) => Some(x),
            _ => None,
        }
    }

}

/// Replacing the value of the first entry that carries `u` makes the table
/// yield the new value for `u`.
proof fn lemma_amount_find_update_value(es: Seq<(Vec<u8>, Value)>, i: int, u: Seq<u8>, nv: Value)
    requires
        0 <= i < es.len(),
        es[i].0@ == u,
        forall|j: int| 0 <= j < i ==> (#[trigger] es[j].0@) != u,
    ensures
        amount_find(es.update(i, (es[i].0, nv)), u) == Some(nv),
    decreases i,
{
    let es2 = es.update(i, (es[i].0, nv));
    if i == 0 {
        assert(es2[0].0@ == u);
    } else {
        assert(es2[0].0@ != u);
        assert(es2.skip(1) =~= es.skip(1).update(i - 1, (es.skip(1)[i - 1].0, nv)));
        assert(forall|j: int| 0 <= j < i - 1 ==> (#[trigger] es.skip(1)[j].0@) != u);
        lemma_amount_find_update_value(es.skip(1), i - 1, u, nv);
    }
}

} // verus!
