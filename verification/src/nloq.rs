use vstd::prelude::*;

use crate::lex::{
    kw_eighth, kw_eleventh, kw_fifth, kw_first, kw_fourth, kw_item, kw_last, kw_ninth, kw_of,
    kw_second, kw_seventh, kw_sixth, kw_tenth, kw_the, kw_third, kw_to, kw_twelfth,
    tok_is_eighth, tok_is_eleventh, tok_is_fifth, tok_is_first, tok_is_fourth, tok_is_item,
    tok_is_last, tok_is_ninth, tok_is_of, tok_is_second, tok_is_seventh, tok_is_sixth,
    tok_is_tenth, tok_is_the, tok_is_third, tok_is_to, tok_is_twelfth,
};
use crate::num::{
    all_digits, digits_val, digits_value_capped, is_digit, is_number_token, num_matches_token,
    scan_digits, wf_number,
};
use crate::parser::{
    lemma_pnext_shrinks, parse_next, parsed_matches, spec_after_kw, spec_pnext, Parsed, ParsedView,
};
use crate::query::{Query, QueryView};

verus! {

/// An ordinal suffix: `th`, `st`, `rd` or `nd`.
pub open spec fn is_ord_suffix(s: Seq<u8>) -> bool {
    ||| s == seq![0x74u8, 0x68u8]
    ||| s == seq![0x73u8, 0x74u8]
    ||| s == seq![0x72u8, 0x64u8]
    ||| s == seq![0x6eu8, 0x64u8]
}

/// The position (starting at one) a single word names: a digit run that
/// starts with one through nine and ends in an ordinal suffix, or one of
/// the twelve ordinal words.
pub open spec fn spec_parse_index(w: Seq<u8>) -> Option<nat> {
    if w.len() > 0 && 0x31 <= w[0] && w[0] <= 0x39 {
        if w.len() >= 2 && is_ord_suffix(w.subrange(w.len() - 2, w.len() as int)) {
            let d = w.subrange(0, w.len() - 2);
            if all_digits(d) && digits_val(d) <= usize::MAX as nat {
                Some(digits_val(d))
            } else {
                None
            }
        } else {
            None
        }
    } else if w == kw_first() {
        Some(1)
    } else if w == kw_second() {
        Some(2)
    } else if w == kw_third() {
        Some(3)
    } else if w == kw_fourth() {
        Some(4)
    } else if w == kw_fifth() {
        Some(5)
    } else if w == kw_sixth() {
        Some(6)
    } else if w == kw_seventh() {
        Some(7)
    } else if w == kw_eighth() {
        Some(8)
    } else if w == kw_ninth() {
        Some(9)
    } else if w == kw_tenth() {
        Some(10)
    } else if w == kw_eleventh() {
        Some(11)
    } else if w == kw_twelfth() {
        Some(12)
    } else {
        None
    }
}

proof fn lemma_first_digit_positive(d: Seq<u8>)
    requires
        d.len() > 0,
        all_digits(d),
        0x31 <= d[0],
    ensures
        digits_val(d) >= 1,
    decreases d.len(),
{
    if d.len() == 1 {
    } else {
        lemma_first_digit_positive(d.drop_last());
    }
}

/// Read an ordinal word. The result counts from one; `0th` and any other
/// ordinal with a leading zero are rejected.
pub fn parse_index(t: &[u8]) -> (r: Option<usize>)
    ensures
        match r {
            Some(v) => spec_parse_index(t@) == Some(v as nat) && v >= 1,
            None => spec_parse_index(t@) is None,
        },
{
    let len = t.len();
    if len > 0 && 0x31 <= t[0] && t[0] <= 0x39 {
        if len >= 2 {
            let a = t[len - 2];
            let b = t[len - 1];
            let suffix_ok = (a == 0x74 && b == 0x68) || (a == 0x73 && b == 0x74) || (a == 0x72
                && b == 0x64) || (a == 0x6e && b == 0x64);
            proof {
                assert(t@.subrange(len - 2, len as int) =~= seq![t@[len - 2], t@[len - 1]]);
                if suffix_ok {
                    assert(is_ord_suffix(t@.subrange(len - 2, len as int)));
                } else {
                    assert(!is_ord_suffix(t@.subrange(len - 2, len as int)));
                }
            }
            if !suffix_ok {
                return None;
            }
            let de = scan_digits(t, 0);
            if de < len - 2 {
                proof {
                    assert(t@.skip(0)[de as int] == t@[de as int]);
                    assert(!all_digits(t@.subrange(0, len - 2)));
                }
                return None;
            }
            let ghost d = t@.subrange(0, len - 2);
            proof {
                assert(forall|j: int| 0 <= j < len - 2 ==> t@.skip(0)[j] == t@[j]);
                assert(all_digits(d));
            }
            match digits_value_capped(t, 0, len - 2) {
                Some(v) => {
                    if v <= usize::MAX as u64 {
                        proof {
                            lemma_first_digit_positive(d);
                        }
                        Some(v as usize)
                    } else {
                        None
                    }
                },
                None => {
                    proof {
                        assert(u64::MAX >= usize::MAX as nat);
                    }
                    None
                },
            }
        } else {
            None
        }
    } else {
        if tok_is_first(t) {
            Some(1)
        } else if tok_is_second(t) {
            Some(2)
        } else if tok_is_third(t) {
            Some(3)
        } else if tok_is_fourth(t) {
            Some(4)
        } else if tok_is_fifth(t) {
            Some(5)
        } else if tok_is_sixth(t) {
            Some(6)
        } else if tok_is_seventh(t) {
            Some(7)
        } else if tok_is_eighth(t) {
            Some(8)
        } else if tok_is_ninth(t) {
            Some(9)
        } else if tok_is_tenth(t) {
            Some(10)
        } else if tok_is_eleventh(t) {
            Some(11)
        } else if tok_is_twelfth(t) {
            Some(12)
        } else {
            None
        }
    }
}

/// The key step an identifier falls back to when no ordinal phrase
/// follows: a bare word or a string becomes a key and the cursor returns
/// to just after the identifier; a number ends the walk.
pub open spec fn spec_key_of_ident(ident: ParsedView, s3: Seq<u8>) -> Option<(QueryView, Seq<u8>)> {
    match ident {
        ParsedView::Token(w) => Some((QueryView::Key(w), s3)),
        ParsedView::Str(k) => Some((QueryView::Key(k), s3)),
        ParsedView::Num(_) => None,
    }
}

/// Resolve one step after the identifier has been read, looking at most
/// three tokens ahead: `<ordinal> to last item`, `last item`,
/// `<ordinal> item`, or a key.
pub open spec fn spec_step_after_ident(ident: ParsedView, s3: Seq<u8>) -> Option<
    (QueryView, Seq<u8>),
> {
    match spec_pnext(s3) {
        Some((ParsedView::Token(t4), s4)) => {
            if t4 == kw_to() {
                match spec_pnext(s4) {
                    Some((ParsedView::Token(t5), s5)) => {
                        if t5 == kw_last() {
                            match spec_pnext(s5) {
                                Some((ParsedView::Token(t6), s6)) => {
                                    if t6 == kw_item() {
                                        match ident {
                                            ParsedView::Token(w) => match spec_parse_index(w) {
                                                Some(n) => Some(
                                                    (
                                                        QueryView::Index {
                                                            index: (n - 1) as nat,
                                                            from_last: true,
                                                        },
                                                        s6,
                                                    ),
                                                ),
                                                None => Some((QueryView::Key(w), s3)),
                                            },
                                            ParsedView::Str(k) => Some((QueryView::Key(k), s3)),
                                            ParsedView::Num(_) => None,
                                        }
                                    } else {
                                        spec_key_of_ident(ident, s3)
                                    }
                                },
                                _ => spec_key_of_ident(ident, s3),
                            }
                        } else {
                            spec_key_of_ident(ident, s3)
                        }
                    },
                    _ => spec_key_of_ident(ident, s3),
                }
            } else if t4 == kw_item() {
                match ident {
                    ParsedView::Token(w) => {
                        if w == kw_last() {
                            Some((QueryView::Index { index: 0, from_last: true }, s4))
                        } else {
                            match spec_parse_index(w) {
                                Some(n) => Some(
                                    (QueryView::Index { index: (n - 1) as nat, from_last: false }, s4),
                                ),
                                None => Some((QueryView::Key(w), s3)),
                            }
                        }
                    },
                    ParsedView::Str(k) => Some((QueryView::Key(k), s3)),
                    ParsedView::Num(_) => None,
                }
            } else {
                spec_key_of_ident(ident, s3)
            }
        },
        _ => spec_key_of_ident(ident, s3),
    }
}

/// One step of the query walk: after the first step each further step
/// needs a leading `of`; then `the`, an identifier, and the resolution of
/// `spec_step_after_ident`.
pub open spec fn spec_nloq_next(s: Seq<u8>, first: bool) -> Option<(QueryView, Seq<u8>)> {
    let s1o = if first {
        Some(s)
    } else {
        spec_after_kw(s, kw_of())
    };
    match s1o {
        None => None,
        Some(s1) => match spec_after_kw(s1, kw_the()) {
            None => None,
            Some(s2) => match spec_pnext(s2) {
                None => None,
                Some((ident, s3)) => spec_step_after_ident(ident, s3),
            },
        },
    }
}

/// A step never leaves the cursor where it was: on success the remaining
/// input is strictly shorter.
pub proof fn lemma_nloq_next_shrinks(s: Seq<u8>, first: bool)
    ensures
        spec_nloq_next(s, first) matches Some((_, s2)) ==> s2.len() < s.len(),
{
    lemma_pnext_shrinks(s);
    let s1o = if first {
        Some(s)
    } else {
        spec_after_kw(s, kw_of())
    };
    match s1o {
        None => {},
        Some(s1) => {
            lemma_pnext_shrinks(s1);
            match spec_after_kw(s1, kw_the()) {
                None => {},
                Some(s2) => {
                    lemma_pnext_shrinks(s2);
                    match spec_pnext(s2) {
                        None => {},
                        Some((ident, s3)) => {
                            lemma_pnext_shrinks(s3);
                            match spec_pnext(s3) {
                                None => {},
                                Some((_, s4)) => {
                                    lemma_pnext_shrinks(s4);
                                    match spec_pnext(s4) {
                                        None => {},
                                        Some((_, s5)) => {
                                            lemma_pnext_shrinks(s5);
                                        },
                                    }
                                },
                            }
                        },
                    }
                },
            }
        },
    }
}

/// The whole sequence of steps the walk reads from `s`, in surface order.
pub open spec fn spec_nloq_steps(s: Seq<u8>, first: bool) -> Seq<QueryView>
    decreases s.len(),
{
    match spec_nloq_next(s, first) {
        None => Seq::empty(),
        Some((q, s2)) => {
            proof {
                lemma_nloq_next_shrinks(s, first);
            }
            seq![q] + spec_nloq_steps(s2, false)
        },
    }
}

/// The input left when the walk first fails to read a step: the text after
/// the last matching step.
pub open spec fn spec_nloq_rest(s: Seq<u8>, first: bool) -> Seq<u8>
    decreases s.len(),
{
    match spec_nloq_next(s, first) {
        None => s,
        Some((q, s2)) => {
            proof {
                lemma_nloq_next_shrinks(s, first);
            }
            spec_nloq_rest(s2, false)
        },
    }
}

/// Reads a sentence of the object-query language from the front of its
/// input and yields one query step at a time.
#[derive(Debug)]
pub struct Deserializer {
    pub src: Vec<u8>,
    pub first: bool,
    pub index: usize,
}

impl Deserializer {
    /// The cursor stays inside the input.
    pub open spec fn wf(&self) -> bool {
        self.index <= self.src@.len()
    }

    /// The input that is still to be read.
    pub open spec fn suffix(&self) -> Seq<u8> {
        self.src@.skip(self.index as int)
    }

    pub open spec fn spec_first(&self) -> bool {
        self.first
    }

    /// Start a walk over `src`.
    pub fn from_str(src: &[u8]) -> (r: Deserializer)
        ensures
            r.wf(),
            r.suffix() == src@,
            r.spec_first(),
    {
        let v = crate::bytes::copy_range(src, 0, src.len());
        proof {
            assert(v@ =~= src@);
            assert(v@.skip(0) =~= v@);
        }
        Deserializer { src: v, first: true, index: 0 }
    }

    /// Start a walk over a byte slice: the slice must spell well-formed
    /// UTF-8, as the text entry point would have required.
    pub fn from_slice(src: &[u8]) -> (r: Result<Deserializer, crate::error::Error>)
        ensures
            match r {
                Ok(de) => crate::bytes::is_utf8(src@) && de.wf() && de.suffix() == src@
                    && de.spec_first(),
                Err(e) => !crate::bytes::is_utf8(src@) && e == crate::error::Error::InvalidUtf8,
            },
    {
        if crate::bytes::is_utf8_bytes(src) {
            Ok(Deserializer::from_str(src))
        } else {
            Err(crate::error::Error::InvalidUtf8)
        }
    }

    /// The input the walk has not consumed.
    pub fn rest(&self) -> (r: &[u8])
        requires
            self.wf(),
        ensures
            r@ == self.suffix(),
    {
        let s = self.src.as_slice();
        let r = &s[self.index..s.len()];
        proof {
            assert(r@ =~= self.suffix());
        }
        r
    }

    /// Read one item and move the cursor past it; on failure the cursor
    /// stays.
    fn pnext(&mut self) -> (r: Option<Parsed>)
        requires
            old(self).wf(),
        ensures
            final(self).wf(),
            final(self).src@ == old(self).src@,
            final(self).first == old(self).first,
            match r {
                Some(p) => {
                    &&& spec_pnext(old(self).suffix()) matches Some((pv, s2)) && parsed_matches(
                        p,
                        pv,
                    ) && final(self).suffix() == s2
                    &&& final(self).index > old(self).index
                },
                None => spec_pnext(old(self).suffix()) is None && final(self).index == old(self).index,
            },
    {
        let s = self.src.as_slice();
        let here = &s[self.index..s.len()];
        proof {
            assert(here@ =~= old(self).suffix());
        }
        match parse_next(here) {
            Ok((_, p, rest2)) => {
                let consumed = here.len() - rest2.len();
                self.index = self.index + consumed;
                proof {
                    assert(here@.skip(consumed as int) =~= rest2@);
                    assert(self.src@.skip(self.index as int) =~= here@.skip(consumed as int));
                }
                Some(p)
            },
            Err(_) => None,
        }
    }

    /// Move the cursor back to a saved position.
    fn rollback(&mut self, index: usize)
        ensures
            final(self).src@ == old(self).src@,
            final(self).first == old(self).first,
            final(self).index == index,
    {
        self.index = index;
    }

    /// Read the next query step in surface order; `None` when the input
    /// ahead is not a step, in which case the cursor does not move.
    pub fn next(&mut self) -> (r: Option<Query>)
        requires
            old(self).wf(),
        ensures
            final(self).wf(),
            final(self).src@ == old(self).src@,
            match r {
                Some(q) => {
                    &&& spec_nloq_next(old(self).suffix(), old(self).first) matches Some(
                        (qv, s2),
                    ) && q@ == qv && final(self).suffix() == s2
                    &&& !final(self).first
                    &&& final(self).index > old(self).index
                },
                None => {
                    &&& spec_nloq_next(old(self).suffix(), old(self).first) is None
                    &&& final(self).index == old(self).index
                    &&& final(self).first == old(self).first
                },
            },
    {
        let start_index = self.index;
        if !self.first {
            match self.pnext() {
                Some(Parsed::Token(t)) => {
                    if !tok_is_of(t.as_slice()) {
                        self.rollback(start_index);
                        return None;
                    }
                },
                _ => {
                    self.rollback(start_index);
                    return None;
                },
            }
        }
        match self.pnext() {
            Some(Parsed::Token(t)) => {
                if !tok_is_the(t.as_slice()) {
                    self.rollback(start_index);
                    return None;
                }
            },
            _ => {
                self.rollback(start_index);
                return None;
            },
        }
        let ident = match self.pnext() {
            Some(p) => p,
            None => {
                self.rollback(start_index);
                return None;
            },
        };
        let ident_index = self.index;
        match self.pnext() {
            Some(Parsed::Token(t4)) => {
                if tok_is_to(t4.as_slice()) {
                    let t5_ok = match self.pnext() {
                        Some(Parsed::Token(t5)) => tok_is_last(t5.as_slice()),
                        _ => false,
                    };
                    if t5_ok {
                        let t6_ok = match self.pnext() {
                            Some(Parsed::Token(t6)) => tok_is_item(t6.as_slice()),
                            _ => false,
                        };
                        if t6_ok {
                            match ident {
                                Parsed::Token(w) => {
                                    match parse_index(w.as_slice()) {
                                        Some(n) => {
                                            self.first = false;
                                            Some(Query::index_from_last(n - 1))
                                        },
                                        None => {
                                            self.first = false;
                                            self.rollback(ident_index);
                                            Some(Query::key_owned(w))
                                        },
                                    }
                                },
                                Parsed::Str(k) => {
                                    self.first = false;
                                    self.rollback(ident_index);
                                    Some(Query::key_owned(k))
                                },
                                Parsed::Number(_) => {
                                    self.rollback(start_index);
                                    None
                                },
                            }
                        } else {
                            self.step_key(ident, ident_index, start_index)
                        }
                    } else {
                        self.step_key(ident, ident_index, start_index)
                    }
                } else if tok_is_item(t4.as_slice()) {
                    match ident {
                        Parsed::Token(w) => {
                            if tok_is_last(w.as_slice()) {
                                self.first = false;
                                Some(Query::index_from_last(0))
                            } else {
                                match parse_index(w.as_slice()) {
                                    Some(n) => {
                                        self.first = false;
                                        Some(Query::index(n - 1))
                                    },
                                    None => {
                                        self.first = false;
                                        self.rollback(ident_index);
                                        Some(Query::key_owned(w))
                                    },
                                }
                            }
                        },
                        Parsed::Str(k) => {
                            self.first = false;
                            self.rollback(ident_index);
                            Some(Query::key_owned(k))
                        },
                        Parsed::Number(_) => {
                            self.rollback(start_index);
                            None
                        },
                    }
                } else {
                    self.step_key(ident, ident_index, start_index)
                }
            },
            _ => self.step_key(ident, ident_index, start_index),
        }
    }

    /// Fall back to a key step: a bare word or string identifier becomes
    /// the key and the cursor returns to just after the identifier.
    fn step_key(&mut self, ident: Parsed, ident_index: usize, start_index: usize) -> (r: Option<
        Query,
    >)
        requires
            old(self).wf(),
            ident_index <= old(self).src@.len(),
            start_index <= ident_index,
        ensures
            final(self).wf(),
            final(self).src@ == old(self).src@,
            match r {
                Some(q) => {
                    &&& spec_key_of_ident(
                        spec_ident_view(ident),
                        old(self).src@.skip(ident_index as int),
                    ) matches Some((qv, s2)) && q@ == qv && final(self).suffix() == s2
                    &&& !final(self).first
                    &&& final(self).index == ident_index
                },
                None => {
                    &&& spec_key_of_ident(
                        spec_ident_view(ident),
                        old(self).src@.skip(ident_index as int),
                    ) is None
                    &&& final(self).index == start_index
                    &&& final(self).first == old(self).first
                },
            },
    {
        match ident {
            Parsed::Token(w) => {
                self.first = false;
                self.rollback(ident_index);
                Some(Query::key_owned(w))
            },
            Parsed::Str(k) => {
                self.first = false;
                self.rollback(ident_index);
                Some(Query::key_owned(k))
            },
            Parsed::Number(_) => {
                self.rollback(start_index);
                None
            },
        }
    }
}

/// The views of a sequence of query steps.
pub open spec fn query_views(qs: Seq<Query>) -> Seq<QueryView> {
    qs.map_values(|q: Query| q@)
}

impl Deserializer {
    /// Collect every step the sentence spells and return them outermost
    /// container first: the result is the reverse of the surface order,
    /// because `the A of the B` names the `A` inside `B`.
    pub fn query(&mut self) -> (r: Vec<Query>)
        requires
            old(self).wf(),
        ensures
            final(self).wf(),
            final(self).src@ == old(self).src@,
            query_views(r@) == spec_nloq_steps(old(self).suffix(), old(self).first).reverse(),
            final(self).suffix() == spec_nloq_rest(old(self).suffix(), old(self).first),
    {
        let ghost s0 = old(self).suffix();
        let ghost f0 = old(self).first;
        let mut out: Vec<Query> = Vec::new();
        let mut done = false;
        proof {
            assert(query_views(out@) =~= Seq::<QueryView>::empty());
        }
        while !done
            invariant
                self.wf(),
                self.src@ == old(self).src@,
                spec_nloq_steps(s0, f0) == query_views(out@) + spec_nloq_steps(
                    self.suffix(),
                    self.first,
                ),
                spec_nloq_rest(s0, f0) == spec_nloq_rest(self.suffix(), self.first),
                done ==> spec_nloq_steps(self.suffix(), self.first) == Seq::<QueryView>::empty(),
                done ==> spec_nloq_rest(self.suffix(), self.first) == self.suffix(),
            decreases self.src@.len() - self.index + (if done {
                0int
            } else {
                1int
            }),
        {
            let ghost pre_suffix = self.suffix();
            let ghost pre_first = self.first;
            let ghost pre_out = out@;
            match self.next() {
                Some(q) => {
                    let ghost qv = q@;
                    out.push(q);
                    proof {
                        assert(query_views(out@) =~= query_views(pre_out) + seq![qv]);
                        assert(spec_nloq_steps(pre_suffix, pre_first) == seq![qv]
                            + spec_nloq_steps(self.suffix(), self.first));
                        assert(query_views(pre_out) + (seq![qv] + spec_nloq_steps(
                            self.suffix(),
                            self.first,
                        )) =~= (query_views(pre_out) + seq![qv]) + spec_nloq_steps(
                            self.suffix(),
                            self.first,
                        ));
                    }
                },
                None => {
                    done = true;
                },
            }
        }
        proof {
            assert(spec_nloq_steps(s0, f0) =~= query_views(out@));
        }
        let n = out.len();
        let mut rev: Vec<Query> = Vec::new();
        let mut i = n;
        while i > 0
            invariant
                i <= n,
                n == out@.len(),
                rev@.len() == n - i,
                forall|j: int| 0 <= j < n - i ==> (#[trigger] rev@[j])@ == out@[n - 1 - j]@,
            decreases i,
        {
            i = i - 1;
            let q = out[i].to_owned();
            proof {
                assert(q@ == out@[i as int]@);
            }
            rev.push(q);
        }
        proof {
            assert(query_views(rev@) =~= query_views(out@).reverse()) by {
                assert(forall|j: int|
                    0 <= j < n ==> query_views(rev@)[j] == #[trigger] query_views(
                        out@,
                    ).reverse()[j]);
            }
        }
        rev
    }
}

/// Parse a whole object-query sentence: the steps of the sentence,
/// outermost container first.
pub fn from_str(s: &[u8]) -> (r: Vec<Query>)
    ensures
        query_views(r@) == spec_nloq_steps(s@, true).reverse(),
{
    let mut de = Deserializer::from_str(s);
    de.query()
}

/// Parse a whole object-query sentence given as raw bytes, which must
/// spell well-formed UTF-8.
pub fn from_slice(s: &[u8]) -> (r: Result<Vec<Query>, crate::error::Error>)
    ensures
        match r {
            Ok(qs) => crate::bytes::is_utf8(s@) && query_views(qs@) == spec_nloq_steps(
                s@,
                true,
            ).reverse(),
            Err(e) => !crate::bytes::is_utf8(s@) && e == crate::error::Error::InvalidUtf8,
        },
{
    if crate::bytes::is_utf8_bytes(s) {
        Ok(from_str(s))
    } else {
        Err(crate::error::Error::InvalidUtf8)
    }
}

/// The spec item an exec item denotes, numbers excepted: a parsed number
/// no longer carries its token's bytes, and every use of this view treats
/// all numeric items alike.
pub open spec fn spec_ident_view(p: Parsed) -> ParsedView {
    match p {
        Parsed::Token(v) => ParsedView::Token(v@),
        Parsed::Str(v) => ParsedView::Str(v@),
        Parsed::Number(_) => ParsedView::Num(Seq::empty()),
    }
}

} // verus!
