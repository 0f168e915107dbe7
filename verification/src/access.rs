use vstd::prelude::*;

use crate::num::Number;
use crate::query::{Access, AccessMut, AccessNext, AccessNextMut, Query, QuerySet, QuerySetItem,
    QueryView, SetResult};
use crate::value::{amount_find, amount_index_of, lemma_value_eqv_refl, map_find, map_index_of,
    value_eqv, Amount, Key, KeyView, NumberView, ObjectMap, Value};

verus! {

/// The child one query step names inside a value. An index from the back
/// on a list of length `l` names position `l - 1 - index` and misses when
/// `index` is not below `l`. A forward index on an object looks the number
/// up as a key; a key on an amount looks the unit name up.
pub open spec fn spec_access_next(v: Value, q: QueryView) -> Option<Value> {
    match v {
        Value::Amount(a) => match q {
            QueryView::Index { .. } => None,
            QueryView::Key(k) => amount_find(a.entries@, k),
        },
        Value::Array(vs) => match q {
            QueryView::Index { index, from_last } => {
                if from_last {
                    if index < vs@.len() {
                        Some(vs@[vs@.len() - 1 - index])
                    } else {
                        None
                    }
                } else {
                    if index < vs@.len() {
                        Some(vs@[index as int])
                    } else {
                        None
                    }
                }
            },
            QueryView::Key(_) => None,
        },
        Value::Object(m) => match q {
            QueryView::Index { index, from_last } => {
                if from_last {
                    None
                } else {
                    map_find(m.entries@, KeyView::Number(NumberView::Integer(index as i64 as int)))
                }
            },
            QueryView::Key(k) => map_find(m.entries@, KeyView::String(k)),
        },
        _ => None,
    }
}

/// The value a whole path of steps names, outermost step first.
pub open spec fn spec_access(v: Value, qs: Seq<QueryView>) -> Option<Value>
    decreases qs.len(),
{
    if qs.len() == 0 {
        Some(v)
    } else {
        match spec_access_next(v, qs[0]) {
            None => None,
            Some(c) => spec_access(c, qs.skip(1)),
        }
    }
}

/// The views of a path of query steps.
pub open spec fn query_path(qs: Seq<Query>) -> Seq<QueryView> {
    qs.map_values(|q: Query| q@)
}

impl AccessNext for Value {
    /// Follow one query step down.
    fn access_next(&self, query: &Query) -> (r: Option<&Value>)
        ensures
            match r {
                Some(c) => spec_access_next(*self, query@) == Some(*c),
                None => spec_access_next(*self, query@) is None,
            },
    {
        match self {
            Value::Amount(a) => match query {
                Query::Index { .. } => None,
                Query::Key(k) => a.get(k.as_slice()),
            },
            Value::Array(vs) => match query {
                Query::Index { index, from_last } => {
                    if *from_last {
                        if *index < vs.len() {
                            Some(&vs[vs.len() - 1 - *index])
                        } else {
                            None
                        }
                    } else {
                        if *index < vs.len() {
                            Some(&vs[*index])
                        } else {
                            None
                        }
                    }
                },
                Query::Key(_) => None,
            },
            Value::Object(m) => match query {
                Query::Index { index, from_last } => {
                    if *from_last {
                        None
                    } else {
                        #[verifier::truncate]
                        let key = Key::Number(Number::Integer(*index as i64));
                        m.get(&key)
                    }
                },
                Query::Key(k) => {
                    let key = Key::String(crate::bytes::copy_range(k.as_slice(), 0, k.len()));
                    proof {
                        assert(key@ == KeyView::String(k@)) by {
                            assert(k@.subrange(0, k@.len() as int) =~= k@);
                        }
                    }
                    m.get(&key)
                },
            },
            _ => None,
        }
    }
}

impl Access for Value {
    /// Follow a whole path down, outermost step first.
    fn access(&self, queries: &[Query]) -> (r: Option<&Value>)
        ensures
            match r {
                Some(c) => spec_access(*self, query_path(queries@)) == Some(*c),
                None => spec_access(*self, query_path(queries@)) is None,
            },
    {
        let n = queries.len();
        let mut cur = self;
        let mut i: usize = 0;
        proof {
            assert(queries@.skip(0) =~= queries@);
        }
        while i < n
            invariant
                0 <= i <= n,
                n == queries@.len(),
                spec_access(*self, query_path(queries@)) == spec_access(
                    *cur,
                    query_path(queries@.skip(i as int)),
                ),
            decreases n - i,
        {
            let ghost pre = queries@.skip(i as int);
            proof {
                assert(query_path(pre)[0] == queries@[i as int]@);
                assert(query_path(pre).skip(1) =~= query_path(queries@.skip(i + 1)));
            }
            match cur.access_next(&queries[i]) {
                Some(c) => {
                    cur = c;
                },
                None => {
                    return None;
                },
            }
            i = i + 1;
        }
        proof {
            assert(query_path(queries@.skip(n as int)) =~= Seq::<QueryView>::empty());
        }
        Some(cur)
    }
}

impl AccessNextMut for Value {
    /// Follow one query step down, mutably. When a child is returned,
    /// writing through it is reflected at the same place of the value.
    fn access_next_mut(&mut self, query: &Query) -> (r: Option<&mut Value>)
        ensures
            match r {
                Some(c) => {
                    &&& spec_access_next(*old(self), query@) == Some(*c)
                    &&& spec_access_next(*final(self), query@) == Some(*final(c))
                    &&& slot_updated(*old(self), *final(self), query@, *final(c))
                },
                None => {
                    &&& spec_access_next(*old(self), query@) is None
                    &&& *final(self) == *old(self)
                },
            },
    {
        match self {
            Value::Amount(a) => match query {
                Query::Index { .. } => None,
                Query::Key(k) => {
                    let ghost pre = a.entries@;
                    match a.find_index(k.as_slice()) {
                        Some(i) => {
                            let e = &mut a.entries[i];
                            let c = &mut e.1;
                            proof {
                                lemma_amount_find_update(pre, i as int, k@, *final(c));
                            }
                            Some(c)
                        },
                        None => None,
                    }
                },
            },
            Value::Array(vs) => match query {
                Query::Index { index, from_last } => {
                    let index = *index;
                    if *from_last {
                        if index < vs.len() {
                            let i = vs.len() - 1 - index;
                            Some(&mut vs[i])
                        } else {
                            None
                        }
                    } else {
                        if index < vs.len() {
                            Some(&mut vs[index])
                        } else {
                            None
                        }
                    }
                },
                Query::Key(_) => None,
            },
            Value::Object(m) => match query {
                Query::Index { index, from_last } => {
                    if *from_last {
                        None
                    } else {
                        #[verifier::truncate]
                        let key = Key::Number(Number::Integer(*index as i64));
                        object_entry_mut(m, &key)
                    }
                },
                Query::Key(k) => {
                    let key = Key::String(crate::bytes::copy_range(k.as_slice(), 0, k.len()));
                    proof {
                        assert(key@ == KeyView::String(k@)) by {
                            assert(k@.subrange(0, k@.len() as int) =~= k@);
                        }
                    }
                    object_entry_mut(m, &key)
                },
            },
            _ => None,
        }
    }
}

/// A mutable borrow of the value under a key; writes through it land at
/// the same key.
fn object_entry_mut<'a>(m: &'a mut ObjectMap, key: &Key) -> (r: Option<&'a mut Value>)
    ensures
        match r {
            Some(c) => {
                &&& map_find(old(m).entries@, key@) == Some(*c)
                &&& map_find(final(m).entries@, key@) == Some(*final(c))
                &&& 0 <= map_index_of(old(m).entries@, key@) < old(m).entries@.len()
                &&& final(m).entries@ == old(m).entries@.update(
                    map_index_of(old(m).entries@, key@),
                    (old(m).entries@[map_index_of(old(m).entries@, key@)].0, *final(c)),
                )
            },
            None => {
                &&& map_find(old(m).entries@, key@) is None
                &&& *final(m) == *old(m)
            },
        },
{
    match m.find_index(key) {
        Some(i) => {
            let e = &mut m.entries[i];
            let c = &mut e.1;
            proof {
                lemma_map_find_update(old(m).entries@, i as int, key@, *final(c));
            }
            Some(c)
        },
        None => None,
    }
}

/// The position in a list that an index step names.
pub open spec fn array_pos(len: nat, index: nat, from_last: bool) -> int {
    if from_last {
        len - 1 - index
    } else {
        index as int
    }
}

/// The first entry carrying `k` sits at `map_index_of` and holds what
/// `map_find` yields.
proof fn lemma_map_find_index_of(es: Seq<(Key, Value)>, k: KeyView)
    ensures
        map_find(es, k) matches Some(v) ==> {
            &&& 0 <= map_index_of(es, k) < es.len()
            &&& es[map_index_of(es, k)].0@ == k
            &&& es[map_index_of(es, k)].1 == v
        },
        map_find(es, k) is None ==> map_index_of(es, k) == es.len(),
    decreases es.len(),
{
    if es.len() > 0 && es[0].0@ != k {
        lemma_map_find_index_of(es.skip(1), k);
    }
}

proof fn lemma_amount_find_index_of(es: Seq<(Vec<u8>, Value)>, k: Seq<u8>)
    ensures
        amount_find(es, k) matches Some(v) ==> {
            &&& 0 <= amount_index_of(es, k) < es.len()
            &&& es[amount_index_of(es, k)].0@ == k
            &&& es[amount_index_of(es, k)].1 == v
        },
        amount_find(es, k) is None ==> amount_index_of(es, k) == es.len(),
    decreases es.len(),
{
    if es.len() > 0 && es[0].0@ != k {
        lemma_amount_find_index_of(es.skip(1), k);
    }
}

/// Replacing the value of the first entry that carries `k` makes the map
/// yield the new value for `k`.
proof fn lemma_map_find_update(es: Seq<(Key, Value)>, i: int, k: KeyView, nv: Value)
    requires
        0 <= i < es.len(),
        es[i].0@ == k,
        forall|j: int| 0 <= j < i ==> (#[trigger] es[j].0@) != k,
    ensures
        map_find(es.update(i, (es[i].0, nv)), k) == Some(nv),
    decreases i,
{
    let es2 = es.update(i, (es[i].0, nv));
    if i == 0 {
        assert(es2[0].0@ == k);
    } else {
        assert(es2[0].0@ != k);
        assert(es2.skip(1) =~= es.skip(1).update(i - 1, (es.skip(1)[i - 1].0, nv)));
        assert(forall|j: int| 0 <= j < i - 1 ==> (#[trigger] es.skip(1)[j].0@) != k);
        lemma_map_find_update(es.skip(1), i - 1, k, nv);
    }
}

/// The same, for the unit table of an amount.
proof fn lemma_amount_find_update(es: Seq<(Vec<u8>, Value)>, i: int, k: Seq<u8>, nv: Value)
    requires
        0 <= i < es.len(),
        es[i].0@ == k,
        forall|j: int| 0 <= j < i ==> (#[trigger] es[j].0@) != k,
    ensures
        amount_find(es.update(i, (es[i].0, nv)), k) == Some(nv),
    decreases i,
{
    let es2 = es.update(i, (es[i].0, nv));
    if i == 0 {
        assert(es2[0].0@ == k);
    } else {
        assert(es2[0].0@ != k);
        assert(es2.skip(1) =~= es.skip(1).update(i - 1, (es.skip(1)[i - 1].0, nv)));
        assert(forall|j: int| 0 <= j < i - 1 ==> (#[trigger] es.skip(1)[j].0@) != k);
        lemma_amount_find_update(es.skip(1), i - 1, k, nv);
    }
}

proof fn lemma_object_eqv_entries(m1: ObjectMap, m2: ObjectMap)
    requires
        m2.entries@.len() == m1.entries@.len(),
        forall|i: int|
            0 <= i < m2.entries@.len() ==> (#[trigger] m2.entries@[i].0@) == m1.entries@[i].0@
                && value_eqv(m2.entries@[i].1, m1.entries@[i].1),
    ensures
        value_eqv(Value::Object(m2), Value::Object(m1)),
{
}

proof fn lemma_amount_eqv_entries(a1: Amount, a2: Amount)
    requires
        a2.entries@.len() == a1.entries@.len(),
        forall|i: int|
            0 <= i < a2.entries@.len() ==> (#[trigger] a2.entries@[i].0@) == a1.entries@[i].0@
                && value_eqv(a2.entries@[i].1, a1.entries@[i].1),
    ensures
        value_eqv(Value::Amount(a2), Value::Amount(a1)),
{
}

/// `b` is `a` with exactly the slot that `q` names holding `nc`; the
/// containers keep their length and, for tables, their keys.
pub open spec fn slot_updated(a: Value, b: Value, q: QueryView, nc: Value) -> bool {
    match (a, b) {
        (Value::Array(vs1), Value::Array(vs2)) => {
            match q {
                QueryView::Index { index, from_last } => {
                    &&& index < vs1@.len()
                    &&& vs2@ == vs1@.update(array_pos(vs1@.len(), index, from_last), nc)
                },
                _ => false,
            }
        },
        (Value::Object(m1), Value::Object(m2)) => {
            match q {
                QueryView::Index { index, from_last } => {
                    let k = KeyView::Number(NumberView::Integer(index as i64 as int));
                    let i = map_index_of(m1.entries@, k);
                    &&& !from_last
                    &&& 0 <= i < m1.entries@.len()
                    &&& m2.entries@ == m1.entries@.update(i, (m1.entries@[i].0, nc))
                },
                QueryView::Key(k) => {
                    let i = map_index_of(m1.entries@, KeyView::String(k));
                    &&& 0 <= i < m1.entries@.len()
                    &&& m2.entries@ == m1.entries@.update(i, (m1.entries@[i].0, nc))
                },
            }
        },
        (Value::Amount(a1), Value::Amount(a2)) => {
            match q {
                QueryView::Key(k) => {
                    let i = amount_index_of(a1.entries@, k);
                    &&& 0 <= i < a1.entries@.len()
                    &&& a2.entries@ == a1.entries@.update(i, (a1.entries@[i].0, nc))
                },
                _ => false,
            }
        },
        _ => false,
    }
}

proof fn lemma_array_eqv(vs1: Vec<Value>, vs2: Vec<Value>)
    requires
        vs2@.len() == vs1@.len(),
        forall|i: int| 0 <= i < vs2@.len() ==> value_eqv(#[trigger] vs2@[i], vs1@[i]),
    ensures
        value_eqv(Value::Array(vs2), Value::Array(vs1)),
{
}

proof fn lemma_object_eqv(m1: ObjectMap, m2: ObjectMap)
    requires
        m2.entries@.len() == m1.entries@.len(),
        forall|i: int| 0 <= i < m2.entries@.len() ==> (#[trigger] m2.entries@[i].0@)
            == m1.entries@[i].0@,
        forall|i: int| 0 <= i < m2.entries@.len() ==> value_eqv(
            #[trigger] m2.entries@[i].1,
            m1.entries@[i].1,
        ),
    ensures
        value_eqv(Value::Object(m2), Value::Object(m1)),
{
}

proof fn lemma_amount_eqv(a1: Amount, a2: Amount)
    requires
        a2.entries@.len() == a1.entries@.len(),
        forall|i: int| 0 <= i < a2.entries@.len() ==> (#[trigger] a2.entries@[i].0@)
            == a1.entries@[i].0@,
        forall|i: int| 0 <= i < a2.entries@.len() ==> value_eqv(
            #[trigger] a2.entries@[i].1,
            a1.entries@[i].1,
        ),
    ensures
        value_eqv(Value::Amount(a2), Value::Amount(a1)),
{
}

/// Content equality is reflexive; ambient so that untouched values are
/// known equal to themselves wherever equality by content is asked.
pub broadcast proof fn lemma_value_eqv_refl_auto(v: Value)
    ensures
        #[trigger] value_eqv(v, v),
{
    lemma_value_eqv_refl(v);
}

/// `b` is `a` with changes confined to the path `qs`: each container along
/// the path is its old self with only the next slot replaced, and the value
/// at the path's end is `nc`. With `slot_updated` keeping lengths and keys,
/// everything off the path is untouched.
pub open spec fn path_updated(a: Value, b: Value, qs: Seq<QueryView>, nc: Value) -> bool
    decreases qs.len(),
{
    if qs.len() == 0 {
        b == nc
    } else {
        &&& spec_access_next(a, qs[0]) is Some
        &&& spec_access_next(b, qs[0]) is Some
        &&& slot_updated(a, b, qs[0], spec_access_next(b, qs[0]).unwrap())
        &&& path_updated(
            spec_access_next(a, qs[0]).unwrap(),
            spec_access_next(b, qs[0]).unwrap(),
            qs.skip(1),
            nc,
        )
    }
}

/// Writing a content-equal value into the slot a step names leaves the
/// whole value content-equal; ambient so that a walk that changed nothing
/// composes back up without a step-by-step proof.
pub broadcast proof fn lemma_value_eqv_slot(a: Value, b: Value, q: QueryView, nc: Value)
    ensures
        (#[trigger] slot_updated(a, b, q, nc) && (spec_access_next(a, q) matches Some(oc)
            && value_eqv(nc, oc))) ==> value_eqv(b, a),
{
    if !(slot_updated(a, b, q, nc) && (spec_access_next(a, q) matches Some(oc) && value_eqv(
        nc,
        oc,
    ))) {
        return ;
    }
    let oc = spec_access_next(a, q).unwrap();
    match (a, b) {
        (Value::Array(vs1), Value::Array(vs2)) => {
            assert forall|i: int| 0 <= i < vs2@.len() implies value_eqv(
                #[trigger] vs2@[i],
                vs1@[i],
            ) by {
                if vs2@[i] == vs1@[i] {
                    lemma_value_eqv_refl(vs1@[i]);
                } else {
                    assert(vs2@[i] == nc && vs1@[i] == oc);
                }
            }
            lemma_array_eqv(vs1, vs2);
        },
        (Value::Object(m1), Value::Object(m2)) => {
            match q {
                QueryView::Index { index, from_last } => {
                    lemma_map_find_index_of(
                        m1.entries@,
                        KeyView::Number(NumberView::Integer(index as i64 as int)),
                    );
                },
                QueryView::Key(k) => {
                    lemma_map_find_index_of(m1.entries@, KeyView::String(k));
                },
            }
            assert forall|i: int| 0 <= i < m2.entries@.len() implies (
            #[trigger] m2.entries@[i].0@) == m1.entries@[i].0@ by {}
            assert forall|i: int| 0 <= i < m2.entries@.len() implies value_eqv(
                #[trigger] m2.entries@[i].1,
                m1.entries@[i].1,
            ) by {
                if m2.entries@[i] == m1.entries@[i] {
                    lemma_value_eqv_refl(m1.entries@[i].1);
                } else {
                    assert(m2.entries@[i].1 == nc && m1.entries@[i].1 == oc);
                }
            }
            lemma_object_eqv(m1, m2);
        },
        (Value::Amount(a1), Value::Amount(a2)) => {
            match q {
                QueryView::Key(k) => {
                    lemma_amount_find_index_of(a1.entries@, k);
                },
                _ => {},
            }
            assert forall|i: int| 0 <= i < a2.entries@.len() implies (
            #[trigger] a2.entries@[i].0@) == a1.entries@[i].0@ by {}
            assert forall|i: int| 0 <= i < a2.entries@.len() implies value_eqv(
                #[trigger] a2.entries@[i].1,
                a1.entries@[i].1,
            ) by {
                if a2.entries@[i] == a1.entries@[i] {
                    lemma_value_eqv_refl(a1.entries@[i].1);
                } else {
                    assert(a2.entries@[i].1 == nc && a1.entries@[i].1 == oc);
                }
            }
            lemma_amount_eqv(a1, a2);
        },
        _ => {},
    }
}

impl AccessMut for Value {
    /// Follow a whole path down, mutably. Writing through the returned
    /// child is reflected at the place the path names.
    fn access_mut(&mut self, queries: &[Query]) -> (r: Option<&mut Value>)
        ensures
            match r {
                Some(c) => {
                    &&& spec_access(*old(self), query_path(queries@)) == Some(*c)
                    &&& spec_access(*final(self), query_path(queries@)) == Some(*final(c))
                    &&& path_updated(*old(self), *final(self), query_path(queries@), *final(c))
                },
                None => spec_access(*old(self), query_path(queries@)) is None && value_eqv(
                    *final(self),
                    *old(self),
                ),
            },
        decreases queries@.len(),
    {
        broadcast use lemma_value_eqv_refl_auto, lemma_value_eqv_slot;

        if queries.len() == 0 {
            proof {
                assert(query_path(queries@) =~= Seq::<QueryView>::empty());
            }
            return Some(self);
        }
        let rest = &queries[1..queries.len()];
        proof {
            assert(query_path(queries@)[0] == queries@[0]@);
            assert(query_path(queries@).skip(1) =~= query_path(rest@));
        }
        match self.access_next_mut(&queries[0]) {
            Some(c) => c.access_mut(rest),
            None => None,
        }
    }
}

/// What setting `val` at one step does: the step's slot is replaced and the
/// old value returned; an exact-end forward index appends; a forward index
/// past the end grows the list with nulls; everything else does not set and
/// leaves the value as it was.
pub open spec fn set_item_rel(
    oldv: Value,
    q: QueryView,
    val: Value,
    res: SetResult<Value>,
    newv: Value,
) -> bool {
    match oldv {
        Value::Array(vs) => match q {
            QueryView::Index { index, from_last } => {
                if from_last {
                    if index < vs@.len() {
                        &&& res == SetResult::Replaced(vs@[array_pos(vs@.len(), index, true)])
                        &&& newv matches Value::Array(vs2) && vs2@ == vs@.update(
                            array_pos(vs@.len(), index, true),
                            val,
                        )
                    } else {
                        res == SetResult::<Value>::NotSet && newv == oldv
                    }
                } else {
                    if index < vs@.len() {
                        &&& res == SetResult::Replaced(vs@[index as int])
                        &&& newv matches Value::Array(vs2) && vs2@ == vs@.update(
                            index as int,
                            val,
                        )
                    } else if index == vs@.len() {
                        &&& res == SetResult::<Value>::Inserted
                        &&& newv matches Value::Array(vs2) && vs2@ == vs@.push(val)
                    } else {
                        &&& res == SetResult::<Value>::Inserted
                        &&& newv matches Value::Array(vs2) && vs2@.len() == index + 1 && vs2@
                            .subrange(0, vs@.len() as int) == vs@ && (forall|j: int|
                            vs@.len() <= j < index ==> vs2@[j] == Value::Null) && vs2@[index as int]
                            == val
                    }
                }
            },
            QueryView::Key(_) => res == SetResult::<Value>::NotSet && newv == oldv,
        },
        Value::Object(m) => match q {
            QueryView::Key(k) => {
                match map_find(m.entries@, KeyView::String(k)) {
                    Some(old_v) => {
                        &&& res == SetResult::Replaced(old_v)
                        &&& newv matches Value::Object(m2) && m2.entries@ == m.entries@.update(
                            map_index_of(m.entries@, KeyView::String(k)),
                            (m.entries@[map_index_of(m.entries@, KeyView::String(k))].0, val),
                        )
                    },
                    None => {
                        &&& res == SetResult::<Value>::Inserted
                        &&& newv matches Value::Object(m2) && m2.entries@.len() == m.entries@.len()
                            + 1 && m2.entries@.drop_last() == m.entries@ && m2.entries@.last().0@
                            == KeyView::String(k) && m2.entries@.last().1 == val
                    },
                }
            },
            QueryView::Index { .. } => res == SetResult::<Value>::NotSet && newv == oldv,
        },
        _ => res == SetResult::<Value>::NotSet && newv == oldv,
    }
}

impl QuerySetItem for Value {
    /// Set `val` at the place one step names.
    fn query_set_item(&mut self, query: &Query, val: Value) -> (r: SetResult<Value>)
        ensures
            set_item_rel(*old(self), query@, val, r, *final(self)),
    {
        match self {
            Value::Array(vs) => match query {
                Query::Index { index, from_last } => {
                    let index = *index;
                    if *from_last {
                        if index >= vs.len() {
                            return SetResult::NotSet;
                        }
                        let i = vs.len() - 1 - index;
                        let ghost pre = vs@;
                        vs.push(val);
                        let old_v = vs.swap_remove(i);
                        proof {
                            assert(vs@ =~= pre.update(i as int, pre.push(val).last()));
                        }
                        SetResult::Replaced(old_v)
                    } else {
                        if index < vs.len() {
                            let ghost pre = vs@;
                            vs.push(val);
                            let old_v = vs.swap_remove(index);
                            proof {
                                assert(vs@ =~= pre.update(index as int, pre.push(val).last()));
                            }
                            SetResult::Replaced(old_v)
                        } else if index == vs.len() {
                            vs.push(val);
                            SetResult::Inserted
                        } else {
                            let ghost pre = vs@;
                            while vs.len() < index
                                invariant
                                    pre.len() <= vs@.len() <= index,
                                    vs@.subrange(0, pre.len() as int) == pre,
                                    forall|j: int|
                                        pre.len() <= j < vs@.len() ==> vs@[j] == Value::Null,
                                decreases index - vs@.len(),
                            {
                                vs.push(Value::Null);
                                proof {
                                    assert(vs@.subrange(0, pre.len() as int) =~= pre);
                                }
                            }
                            vs.push(val);
                            proof {
                                assert(vs@.subrange(0, pre.len() as int) =~= pre);
                            }
                            SetResult::Inserted
                        }
                    }
                },
                Query::Key(_) => SetResult::NotSet,
            },
            Value::Object(m) => match query {
                Query::Key(k) => {
                    let key = Key::String(crate::bytes::copy_range(k.as_slice(), 0, k.len()));
                    proof {
                        assert(key@ == KeyView::String(k@)) by {
                            assert(k@.subrange(0, k@.len() as int) =~= k@);
                        }
                    }
                    let ghost pre = m.entries@;
                    match m.insert(key, val) {
                        Some(old_v) => {
                            proof {
                                lemma_map_find_index_of(pre, KeyView::String(k@));
                            }
                            SetResult::Replaced(old_v)
                        },
                        None => {
                            proof {
                                assert(final(m).entries@.drop_last() =~= pre);
                            }
                            SetResult::Inserted
                        },
                    }
                },
                Query::Index { .. } => SetResult::NotSet,
            },
            _ => SetResult::NotSet,
        }
    }
}

impl QuerySet for Value {
    /// Set `val` at the place a whole path names: follow every step but the
    /// last, then set at the last step. An empty path sets nothing.
    fn query_set(&mut self, queries: &[Query], val: Value) -> (r: SetResult<Value>)
        ensures
            queries@.len() == 0 ==> r == SetResult::<Value>::NotSet && *final(self) == *old(self),
            queries@.len() > 0 ==> match spec_access(
                *old(self),
                query_path(queries@).take(queries@.len() - 1),
            ) {
                None => r == SetResult::<Value>::NotSet && value_eqv(*final(self), *old(self)),
                Some(target) => spec_access(
                    *final(self),
                    query_path(queries@).take(queries@.len() - 1),
                ) matches Some(t2) && set_item_rel(
                    target,
                    query_path(queries@).last(),
                    val,
                    r,
                    t2,
                ) && path_updated(
                    *old(self),
                    *final(self),
                    query_path(queries@).take(queries@.len() - 1),
                    t2,
                ),
            },
    {
        if queries.len() == 0 {
            return SetResult::NotSet;
        }
        let n = queries.len();
        let prefix = &queries[0..n - 1];
        proof {
            assert(query_path(prefix@) =~= query_path(queries@).take(queries@.len() - 1));
            assert(query_path(queries@).last() == queries@[n - 1]@);
        }
        match self.access_mut(prefix) {
            Some(t) => t.query_set_item(&queries[n - 1], val),
            None => SetResult::NotSet,
        }
    }
}

/// An index counted from the back reaches, on a list it fits in, the same
/// item as the forward index at the mirrored position.
pub proof fn lemma_index_from_last(v: Value, index: nat)
    ensures
        match v {
            Value::Array(vs) => index < vs@.len() ==> spec_access_next(
                v,
                QueryView::Index { index, from_last: true },
            ) == spec_access_next(
                v,
                QueryView::Index { index: (vs@.len() - 1 - index) as nat, from_last: false },
            ),
            _ => true,
        },
{
}

} // verus!
