use vstd::prelude::*;

verus! {

/// A single step of an object query: a position in a list, counted from
/// the front or from the back, or a key into an object.
#[derive(Debug, Clone, PartialEq, Eq)]
pub enum Query {
    Index { index: usize, from_last: bool },
    Key(Vec<u8>),
}

/// The mathematical shape of a query step.
pub enum QueryView {
    Index { index: nat, from_last: bool },
    Key(Seq<u8>),
}

impl View for Query {
    type V = QueryView;

    open spec fn view(&self) -> QueryView {
        match self {
            Query::Index { index, from_last } => QueryView::Index {
                index: *index as nat,
                from_last: *from_last,
            },
            Query::Key(k) => QueryView::Key(k@),
        }
    }
}

/// The result of setting a value at a query step.
#[derive(Debug, Clone, PartialEq, Eq)]
pub enum SetResult<T> {
    /// The step does not name a place in the value.
    NotSet,
    /// The value was set where nothing was before.
    Inserted,
    /// The value replaced the one returned here.
    Replaced(T),
}

/// What an integer converts to: a non-negative integer names a position
/// from the front; a negative integer `n` names position `-n - 1` from the
/// back.
pub open spec fn spec_query_from_int(i: int) -> QueryView {
    if i < 0 {
        QueryView::Index { index: (-i - 1) as nat, from_last: true }
    } else {
        QueryView::Index { index: i as nat, from_last: false }
    }
}

impl Query {
    /// An index query counted from the front.
    pub fn index(index: usize) -> (r: Query)
        ensures
            r == (Query::Index { index, from_last: false }),
    {
        Query::Index { index, from_last: false }
    }

    /// An index query counted from the back.
    pub fn index_from_last(index: usize) -> (r: Query)
        ensures
            r == (Query::Index { index, from_last: true }),
    {
        Query::Index { index, from_last: true }
    }

    /// A key query from an owned byte string.
    pub fn key_owned(key: Vec<u8>) -> (r: Query)
        ensures
            r@ == QueryView::Key(key@),
    {
        Query::Key(key)
    }

    /// A key query copied from a byte slice.
    pub fn key(key: &[u8]) -> (r: Query)
        ensures
            r@ == QueryView::Key(key@),
    {
        let k = crate::bytes::copy_range(key, 0, key.len());
        proof {
            assert(k@ =~= key@);
        }
        Query::Key(k)
    }

    /// Is this an index query counted from the back?
    pub fn is_from_last(&self) -> (r: bool)
        ensures
            r == (self matches Query::Index { from_last: true, .. }),
    {
        match self {
            Query::Index { from_last, .. } => *from_last,
            _ => false,
        }
    }

    /// Is this a key query?
    pub fn is_key(&self) -> (r: bool)
        ensures
            r == (self matches Query::Key(_)),
    {
        match self {
            Query::Key(_) => true,
            _ => false,
        }
    }

    /// Is this an index query?
    pub fn is_index(&self) -> (r: bool)
        ensures
            r == (self matches Query::Index { .. }),
    {
        match self {
            Query::Index { .. } => true,
            _ => false,
        }
    }

    /// The key bytes, when this is a key query.
    pub fn as_key(&self) -> (r: Option<&Vec<u8>>)
        ensures
            match r {
                Some(k) => self matches Query::Key(k2) && k == k2,
                None => !(self matches Query::Key(_)),
            },
    {
        match self {
            Query::Key(k) => Some(k),
            _ => None,
        }
    }

    /// A signed form of an index query: the index itself when counted from
    /// the front, `-1 - index` when counted from the back.
    pub fn as_index(&self) -> (r: Option<i64>)
        requires
            self matches Query::Index { index, .. } ==> index <= 0x7fffffffffffffff,
        ensures
            match r {
                Some(i) => match *self {
                    Query::Index { index, from_last } => {
                        &&& (from_last ==> i as int == -1 - index as int)
                        &&& (!from_last ==> i as int == index as int)
                    },
                    _ => false,
                },
                None => !(self matches Query::Index { .. }),
            },
    {
        match self {
            Query::Index { index, from_last } => {
                if *from_last {
                    Some(-1 - (*index as i64))
                } else {
                    Some(*index as i64)
                }
            },
            _ => None,
        }
    }

    /// A copy of this query that owns its data.
    pub fn to_owned(&self) -> (r: Query)
        ensures
            r@ == self@,
    {
        match self {
            Query::Index { index, from_last } => Query::Index {
                index: *index,
                from_last: *from_last,
            },
            Query::Key(key) => {
                let k = crate::bytes::copy_range(key.as_slice(), 0, key.len());
                proof {
                    assert(k@ =~= key@);
                }
                Query::Key(k)
            },
        }
    }
}

impl From<isize> for Query {
    /// A non-negative integer indexes from the front; a negative integer
    /// `n` indexes position `-n - 1` from the back.
    fn from(i: isize) -> (r: Query) {
        if i < 0 {
            Query::Index { index: ((-1 - i) as usize) + 1 - 1, from_last: true }
        } else {
            Query::Index { index: i as usize, from_last: false }
        }
    }
}

impl vstd::std_specs::convert::FromSpecImpl<isize> for Query {
    open spec fn obeys_from_spec() -> bool {
        true
    }

    open spec fn from_spec(i: isize) -> Query {
        if i < 0 {
            Query::Index { index: (-1 - i) as usize, from_last: true }
        } else {
            Query::Index { index: i as usize, from_last: false }
        }
    }
}

impl From<usize> for Query {
    fn from(i: usize) -> (r: Query) {
        Query::Index { index: i, from_last: false }
    }
}

impl vstd::std_specs::convert::FromSpecImpl<usize> for Query {
    open spec fn obeys_from_spec() -> bool {
        true
    }

    open spec fn from_spec(i: usize) -> Query {
        Query::Index { index: i, from_last: false }
    }
}

/// An integer converted to a query is an index step: position `i` from the
/// front for `i` at or above zero, position `-i - 1` from the back below
/// zero.
pub proof fn lemma_query_from_int(i: isize)
    ensures
        (#[trigger] <Query as vstd::std_specs::convert::FromSpec<isize>>::from_spec(i))@
            == spec_query_from_int(i as int),
        i >= 0 ==> <Query as vstd::std_specs::convert::FromSpec<isize>>::from_spec(i)
            == (Query::Index { index: i as usize, from_last: false }),
        i < 0 ==> <Query as vstd::std_specs::convert::FromSpec<isize>>::from_spec(i)
            == (Query::Index { index: (-1 - i) as usize, from_last: true }),
{
}

/// How to reach the value one query step names.
pub trait AccessNext {
    fn access_next(&self, query: &Query) -> Option<&Self>;
}

/// How to reach the value one query step names, mutably.
pub trait AccessNextMut {
    fn access_next_mut(&mut self, query: &Query) -> Option<&mut Self>;
}

/// Follow a whole path of query steps.
pub trait Access: AccessNext {
    fn access(&self, queries: &[Query]) -> Option<&Self>;
}

/// Follow a whole path of query steps, mutably.
pub trait AccessMut: AccessNextMut {
    fn access_mut(&mut self, queries: &[Query]) -> Option<&mut Self>;
}

/// Replace the value one query step names.
pub trait QuerySetItem: Sized {
    fn query_set_item(&mut self, query: &Query, val: Self) -> SetResult<Self>;
}

/// Replace the value a whole path names: follow all steps but the last,
/// then set at the last.
pub trait QuerySet: QuerySetItem + AccessMut {
    fn query_set(&mut self, queries: &[Query], val: Self) -> SetResult<Self>;
}

} // verus!
