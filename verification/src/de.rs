use vstd::prelude::*;

use crate::bytes::copy_range;
use crate::error::{spec_rebase, Error};
use crate::lex::{
    kw_an, kw_and, kw_another, kw_empty, kw_henceforth, kw_is, kw_item, kw_list, kw_object, kw_of,
    kw_the, kw_vec, kw_where, spec_false_token, spec_kw, spec_null_token, spec_true_token,
    tok_falsy, tok_null, tok_truthy, Keyword,
};
use crate::num::{wf_number, Number};
use crate::value::{
    unit_name_ok, wf_amount_entries, wf_key, wf_map_keys, wf_value, Amount, Key, ObjectMap, Value,
};
use crate::parser::{
    is_ws, parse_next, parse_number, parse_string, parse_token, parsed_matches, spec_parse_string,
    spec_parse_token, spec_pnext, Parsed, ParsedView,
};

verus! {

/// Replace every escape-byte-then-delimiter pair by the delimiter; every
/// other byte stays, the escape byte included.
pub open spec fn spec_unescape(s: Seq<u8>, delim: u8) -> Seq<u8>
    decreases s.len(),
{
    if s.len() == 0 {
        Seq::empty()
    } else if s.len() >= 2 && s[0] == 0x5c && s[1] == delim {
        seq![delim] + spec_unescape(s.skip(2), delim)
    } else {
        seq![s[0]] + spec_unescape(s.skip(1), delim)
    }
}

/// Undo the escapes of a string body read between `delim` delimiters.
pub fn unescape(s: &[u8], delim: u8) -> (r: Vec<u8>)
    ensures
        r@ == spec_unescape(s@, delim),
{
    let len = s.len();
    let mut out: Vec<u8> = Vec::new();
    let mut i: usize = 0;
    proof {
        assert(s@.skip(0) =~= s@);
        assert(out@ + spec_unescape(s@, delim) =~= spec_unescape(s@, delim));
    }
    while i < len
        invariant
            0 <= i <= len,
            len == s@.len(),
            spec_unescape(s@, delim) == out@ + spec_unescape(s@.skip(i as int), delim),
        decreases len - i,
    {
        let ghost pre_out = out@;
        let ghost tail = s@.skip(i as int);
        if i + 1 < len && s[i] == 0x5c && s[i + 1] == delim {
            out.push(delim);
            proof {
                assert(tail[0] == s@[i as int] && tail[1] == s@[i + 1]);
                assert(tail.skip(2) =~= s@.skip(i + 2));
                assert(pre_out + (seq![delim] + spec_unescape(s@.skip(i + 2), delim)) =~= (pre_out
                    + seq![delim]) + spec_unescape(s@.skip(i + 2), delim));
                assert(out@ =~= pre_out + seq![delim]);
            }
            i = i + 2;
        } else {
            let b = s[i];
            out.push(b);
            proof {
                assert(tail[0] == s@[i as int]);
                if tail.len() >= 2 {
                    assert(tail[1] == s@[i + 1]);
                }
                assert(tail.skip(1) =~= s@.skip(i + 1));
                assert(pre_out + (seq![b] + spec_unescape(s@.skip(i + 1), delim)) =~= (pre_out
                    + seq![b]) + spec_unescape(s@.skip(i + 1), delim));
                assert(out@ =~= pre_out + seq![b]);
            }
            i = i + 1;
        }
    }
    proof {
        assert(s@.skip(len as int) =~= Seq::<u8>::empty());
    }
    out
}

/// Undoing the escapes restores what was escaped: every string body
/// survives the writer's escaping and the reader's unescaping unchanged.
pub proof fn lemma_unescape_escape(s: Seq<u8>)
    ensures
        spec_unescape(crate::ser::spec_escape(s), 0x60) == s,
    decreases s.len(),
{
    let esc = crate::ser::spec_escape(s);
    if s.len() == 0 {
        assert(spec_unescape(esc, 0x60) =~= s);
    } else {
        lemma_unescape_escape(s.skip(1));
        crate::ser::lemma_escape_first(s.skip(1));
        let rest = crate::ser::spec_escape(s.skip(1));
        if s[0] == 0x60 {
            assert(esc == seq![0x5cu8, 0x60u8] + rest);
            assert(esc.skip(2) =~= rest);
            assert(spec_unescape(esc, 0x60) == seq![0x60u8] + s.skip(1));
            assert(seq![0x60u8] + s.skip(1) =~= s);
        } else {
            assert(esc == seq![s[0]] + rest);
            assert(esc.skip(1) =~= rest);
            if esc.len() >= 2 && esc[0] == 0x5c && esc[1] == 0x60 {
                assert(esc[1] == rest[0]);
                assert(false);
            }
            assert(spec_unescape(esc, 0x60) == seq![s[0]] + s.skip(1));
            assert(seq![s[0]] + s.skip(1) =~= s);
        }
    }
}

/// A written string reads back. Parsing the text the writer produces for a
/// body `s` yields exactly the escaped body, starting after the opening
/// back-tick, with no input left over; undoing the escapes restores `s`.
/// Guarded: a body ending in the escape byte would hide its own closing
/// delimiter from the reader, so such bodies are left out.
pub proof fn lemma_format_str_reads_back(s: Seq<u8>)
    requires
        s.len() == 0 || s.last() != 0x5c,
    ensures
        crate::parser::spec_parse_string(crate::ser::spec_format_str(s)) == Ok::<
            _,
            crate::parser::ParseError,
        >((1nat, crate::ser::spec_escape(s), Seq::<u8>::empty())),
        spec_unescape(crate::ser::spec_escape(s), 0x60) == s,
{
    lemma_unescape_escape(s);
    crate::ser::lemma_escape_first(s);
    crate::ser::lemma_escape_last(s);
    crate::ser::lemma_escape_no_bare_backtick(s);
    let esc = crate::ser::spec_escape(s);
    let full = crate::ser::spec_format_str(s);
    assert(full == seq![0x60u8] + esc + seq![0x60u8]);
    assert(full[0] == 0x60 && !crate::parser::is_ws(full[0]));
    crate::parser::lemma_ws_len_skip(full, 0);
    let jc: nat = (1 + esc.len()) as nat;
    assert(full.len() == jc + 1);
    assert(full[jc as int] == 0x60);
    assert forall|j: int|
        1 <= j < jc implies !(#[trigger] full[j] == 0x60 && (j == 0 || full[j - 1] != 0x5c)) by {
        assert(full[j] == esc[j - 1]);
        if esc[j - 1] == 0x60 {
            assert(j - 1 >= 1 && esc[j - 2] == 0x5c);
            assert(full[j - 1] == esc[j - 2]);
        }
    }
    crate::parser::lemma_find_close_skip(full, 1, jc, 0x60, 0x5c);
    if esc.len() == 0 {
        assert(full[jc - 1] == 0x60);
    } else {
        assert(full[jc - 1] == esc.last());
        assert(esc.last() != 0x5c);
    }
    assert(crate::parser::find_close(full, jc, 0x60, 0x5c) == Some(jc));
    assert(full.skip((jc + 1) as int) =~= Seq::<u8>::empty());
    assert(full.skip(full.len() as int) =~= Seq::<u8>::empty());
    assert(full.subrange(1, jc as int) =~= esc);
}

/// How many code points a UTF-8 byte string spells: the bytes that do not
/// continue an earlier one.
pub open spec fn utf8_count(s: Seq<u8>) -> nat
    decreases s.len(),
{
    if s.len() == 0 {
        0
    } else if s[0] & 0xc0 == 0x80 {
        utf8_count(s.skip(1))
    } else {
        (1 + utf8_count(s.skip(1))) as nat
    }
}

fn count_utf8(s: &[u8]) -> (r: usize)
    ensures
        r == utf8_count(s@),
{
    let len = s.len();
    let mut n: usize = 0;
    let mut i: usize = 0;
    proof {
        assert(s@.skip(0) =~= s@);
    }
    while i < len
        invariant
            0 <= i <= len,
            len == s@.len(),
            n <= i,
            utf8_count(s@) == n + utf8_count(s@.skip(i as int)),
        decreases len - i,
    {
        proof {
            assert(s@.skip(i as int)[0] == s@[i as int]);
            assert(s@.skip(i as int).skip(1) =~= s@.skip(i + 1));
        }
        if s[i] & 0xc0 != 0x80 {
            n = n + 1;
        }
        i = i + 1;
    }
    proof {
        assert(s@.skip(len as int) =~= Seq::<u8>::empty());
    }
    n
}

/// Reads one document from the front of its input and hands the pieces out
/// as the visitor below it asks for them. The cursor can be rolled back to
/// any earlier position to resolve an ambiguous branch.
#[derive(Debug)]
pub struct Deserializer {
    pub src: Vec<u8>,
    pub index: usize,
}

impl Deserializer {
    pub open spec fn wf(&self) -> bool {
        self.index <= self.src@.len()
    }

    /// The input that has not been consumed.
    pub open spec fn suffix(&self) -> Seq<u8> {
        self.src@.skip(self.index as int)
    }

    /// Start reading from the front of `src`.
    pub fn from_str(src: &[u8]) -> (r: Deserializer)
        ensures
            r.wf(),
            r.suffix() == src@,
            r.index == 0,
            r.src@ == src@,
    {
        let v = copy_range(src, 0, src.len());
        proof {
            assert(v@ =~= src@);
            assert(v@.skip(0) =~= v@);
        }
        Deserializer { src: v, index: 0 }
    }

    /// Start reading from raw bytes: the slice must spell well-formed
    /// UTF-8, as the text entry point would have required.
    pub fn from_slice(src: &[u8]) -> (r: Result<Deserializer, Error>)
        ensures
            match r {
                Ok(de) => crate::bytes::is_utf8(src@) && de.wf() && de.suffix() == src@
                    && de.index == 0 && de.src@ == src@,
                Err(e) => !crate::bytes::is_utf8(src@) && e == Error::InvalidUtf8,
            },
    {
        if crate::bytes::is_utf8_bytes(src) {
            Ok(Deserializer::from_str(src))
        } else {
            Err(Error::InvalidUtf8)
        }
    }

    /// The input that has not been consumed.
    pub fn src(&self) -> (r: &[u8])
        requires
            self.wf(),
        ensures
            r@ == self.suffix(),
    {
        let s = self.src.as_slice();
        let r = &s[self.index..s.len()];
        proof {
            assert(r@ =~= self.suffix());
        }
        r
    }

    /// Move the cursor back to a saved position.
    pub fn rollback(&mut self, index: usize)
        requires
            index <= old(self).src@.len(),
        ensures
            final(self).wf(),
            final(self).src@ == old(self).src@,
            final(self).index == index,
    {
        self.index = index;
    }

    /// Look at the next item without consuming it.
    pub fn peek_next(&self) -> (r: Result<Parsed, Error>)
        requires
            self.wf(),
        ensures
            match r {
                Ok(p) => spec_pnext(self.suffix()) matches Some((pv, _)) && parsed_matches(p, pv),
                Err(e) => e == Error::Parse(crate::parser::ParseError::UnexpectedEof) && spec_pnext(
                    self.suffix(),
                ) is None,
            },
    {
        let s = self.src.as_slice();
        let here = &s[self.index..s.len()];
        proof {
            assert(here@ =~= self.suffix());
        }
        match parse_next(here) {
            Ok((_, p, _)) => Ok(p),
            Err(e) => Err(Error::Parse(e)),
        }
    }

    /// Read the next item of any kind.
    pub fn parse_next(&mut self) -> (r: Result<Parsed, Error>)
        requires
            old(self).wf(),
        ensures
            final(self).wf(),
            final(self).src@ == old(self).src@,
            final(self).index >= old(self).index,
            match r {
                Ok(p) => {
                    &&& spec_pnext(old(self).suffix()) matches Some((pv, s2)) && parsed_matches(
                        p,
                        pv,
                    ) && final(self).suffix() == s2
                    &&& final(self).index > old(self).index
                },
                Err(e) => {
                    &&& e == Error::Parse(crate::parser::ParseError::UnexpectedEof)
                    &&& spec_pnext(old(self).suffix()) is None
                    &&& final(self).index == old(self).index
                },
            },
    {
        let s = self.src.as_slice();
        let here = &s[self.index..s.len()];
        proof {
            assert(here@ =~= old(self).suffix());
        }
        match parse_next(here) {
            Ok((_, p, rest2)) => {
                let consumed = here.len() - rest2.len();
                self.index = self.index + consumed;
                proof {
                    assert(here@.skip(consumed as int) =~= rest2@);
                    assert(self.src@.skip(self.index as int) =~= here@.skip(consumed as int));
                }
                Ok(p)
            },
            Err(e) => Err(Error::Parse(e)),
        }
    }

    /// Read the next item and require a bare token.
    pub fn parse_token(&mut self) -> (r: Result<Vec<u8>, Error>)
        requires
            old(self).wf(),
        ensures
            final(self).wf(),
            final(self).src@ == old(self).src@,
            final(self).index >= old(self).index,
            match r {
                Ok(t) => {
                    &&& spec_parse_token(old(self).suffix()) matches Some((_, tok, s2)) && t@
                        == tok && final(self).suffix() == s2
                    &&& final(self).index > old(self).index
                },
                Err(e) => {
                    &&& e == Error::Parse(crate::parser::ParseError::UnexpectedEof)
                    &&& spec_parse_token(old(self).suffix()) is None
                    &&& final(self).index == old(self).index
                },
            },
    {
        let s = self.src.as_slice();
        let here = &s[self.index..s.len()];
        proof {
            assert(here@ =~= old(self).suffix());
        }
        match parse_token(here) {
            Ok((_, tok, rest2)) => {
                let owned = copy_range(tok, 0, tok.len());
                let consumed = here.len() - rest2.len();
                self.index = self.index + consumed;
                proof {
                    assert(owned@ =~= tok@);
                    assert(here@.skip(consumed as int) =~= rest2@);
                    assert(self.src@.skip(self.index as int) =~= here@.skip(consumed as int));
                }
                Ok(owned)
            },
            Err(e) => Err(Error::Parse(e)),
        }
    }

    /// Read the next item and require a string literal. Returns the raw
    /// body (escapes in place) together with the delimiter that opened it.
    pub fn parse_string(&mut self) -> (r: Result<(Vec<u8>, u8), Error>)
        requires
            old(self).wf(),
        ensures
            final(self).wf(),
            final(self).src@ == old(self).src@,
            final(self).index >= old(self).index,
            match r {
                Ok((c, delim)) => {
                    &&& spec_parse_string(old(self).suffix()) matches Ok((st, body, s2)) && c@
                        == body && final(self).suffix() == s2 && delim == old(self).suffix()[st
                        - 1]
                    &&& final(self).index > old(self).index
                },
                Err(e) => {
                    &&& spec_parse_string(old(self).suffix()) matches Err(pe) && e == Error::Parse(
                        spec_rebase(pe, old(self).index as nat),
                    )
                    &&& final(self).index == old(self).index
                },
            },
    {
        let s = self.src.as_slice();
        let here = &s[self.index..s.len()];
        proof {
            assert(here@ =~= old(self).suffix());
        }
        match parse_string(here) {
            Ok((start, body, rest2)) => {
                let owned = copy_range(body, 0, body.len());
                let delim = here[start - 1];
                let consumed = here.len() - rest2.len();
                self.index = self.index + consumed;
                proof {
                    assert(owned@ =~= body@);
                    assert(here@.skip(consumed as int) =~= rest2@);
                    assert(self.src@.skip(self.index as int) =~= here@.skip(consumed as int));
                }
                Ok((owned, delim))
            },
            Err(e) => {
                proof {
                    crate::parser::lemma_string_err_bounds(old(self).suffix());
                }
                match e {
                    crate::parser::ParseError::UnexpectedEof => Err(
                        Error::Parse(crate::parser::ParseError::UnexpectedEof),
                    ),
                    crate::parser::ParseError::InvalidString(i) => Err(
                        Error::Parse(crate::parser::ParseError::InvalidString(i + self.index)),
                    ),
                    crate::parser::ParseError::InvalidNumber(i) => Err(
                        Error::Parse(crate::parser::ParseError::InvalidNumber(i + self.index)),
                    ),
                    crate::parser::ParseError::ExpectedWhitespace(i) => Err(
                        Error::Parse(crate::parser::ParseError::ExpectedWhitespace(i + self.index)),
                    ),
                }
            },
        }
    }

    /// Read the next item and require a number.
    pub fn parse_number(&mut self) -> (r: Result<Number, Error>)
        requires
            old(self).wf(),
        ensures
            final(self).wf(),
            final(self).src@ == old(self).src@,
            final(self).index >= old(self).index,
            match r {
                Ok(n) => {
                    &&& spec_parse_token(old(self).suffix()) matches Some((_, tok, s2))
                        && crate::num::is_number_token(tok) && wf_number(n)
                        && crate::num::num_matches_token(n, tok) && final(self).suffix() == s2
                    &&& final(self).index > old(self).index
                },
                Err(e) => {
                    &&& final(self).index == old(self).index
                    &&& match spec_parse_token(old(self).suffix()) {
                        None => e == Error::Parse(crate::parser::ParseError::UnexpectedEof),
                        Some((st, tok, _)) => !crate::num::is_number_token(tok) && e
                            == Error::Parse(
                            crate::parser::ParseError::InvalidNumber(
                                (st + old(self).index) as usize,
                            ),
                        ),
                    }
                },
            },
    {
        let s = self.src.as_slice();
        let here = &s[self.index..s.len()];
        proof {
            assert(here@ =~= old(self).suffix());
        }
        match parse_number(here) {
            Ok((_, n, rest2)) => {
                let consumed = here.len() - rest2.len();
                self.index = self.index + consumed;
                proof {
                    assert(here@.skip(consumed as int) =~= rest2@);
                    assert(self.src@.skip(self.index as int) =~= here@.skip(consumed as int));
                }
                Ok(n)
            },
            Err(e) => {
                proof {
                    crate::parser::lemma_token_start_bound(old(self).suffix());
                }
                match e {
                    crate::parser::ParseError::InvalidNumber(i) => Err(
                        Error::Parse(crate::parser::ParseError::InvalidNumber(i + self.index)),
                    ),
                    _ => Err(Error::Parse(crate::parser::ParseError::UnexpectedEof)),
                }
            },
        }
    }

    /// Read the next token and require it to be the given keyword.
    pub fn parse_and_expect_token(&mut self, k: Keyword) -> (r: Result<(), Error>)
        requires
            old(self).wf(),
        ensures
            final(self).wf(),
            final(self).src@ == old(self).src@,
            final(self).index >= old(self).index,
            match r {
                Ok(()) => {
                    &&& spec_parse_token(old(self).suffix()) matches Some((_, tok, s2)) && tok
                        == spec_kw(k) && final(self).suffix() == s2
                    &&& final(self).index > old(self).index
                },
                Err(e) => match spec_parse_token(old(self).suffix()) {
                    None => e == Error::Parse(crate::parser::ParseError::UnexpectedEof) && final(self).index == old(self).index,
                    Some((_, tok, s2)) => tok != spec_kw(k) && e == Error::ExpectedKeyWord(k)
                        && final(self).suffix() == s2,
                },
            },
    {
        let tok = match self.parse_token() {
            Ok(t) => t,
            Err(e) => {
                return Err(e);
            },
        };
        let kw = kw_vec(k);
        if crate::bytes::bytes_eq(tok.as_slice(), kw.as_slice()) {
            Ok(())
        } else {
            Err(Error::ExpectedKeyWord(k))
        }
    }

    /// Read a boolean word: `true`, `on` and `enabled` are true; `false`,
    /// `off` and `disabled` are false; anything else is an error.
    pub fn parse_bool(&mut self) -> (r: Result<bool, Error>)
        requires
            old(self).wf(),
        ensures
            final(self).wf(),
            final(self).src@ == old(self).src@,
            final(self).index >= old(self).index,
            match r {
                Ok(b) => {
                    &&& spec_parse_token(old(self).suffix()) matches Some((_, tok, s2)) && final(self).suffix() == s2
                    &&& final(self).index > old(self).index
                    &&& b ==> spec_true_token(
                        spec_parse_token(old(self).suffix()).unwrap().1,
                    )
                    &&& !b ==> spec_false_token(
                        spec_parse_token(old(self).suffix()).unwrap().1,
                    )
                },
                Err(e) => match spec_parse_token(old(self).suffix()) {
                    None => e == Error::Parse(crate::parser::ParseError::UnexpectedEof) && final(self).index == old(self).index,
                    Some((_, tok, _)) => !spec_true_token(tok) && !spec_false_token(tok) && e
                        == Error::ExpectedBool,
                },
            },
    {
        let tok = match self.parse_token() {
            Ok(t) => t,
            Err(e) => {
                return Err(e);
            },
        };
        if tok_truthy(tok.as_slice()) {
            Ok(true)
        } else if tok_falsy(tok.as_slice()) {
            Ok(false)
        } else {
            Err(Error::ExpectedBool)
        }
    }

    /// Read a null word: `empty` or `nothing`.
    pub fn parse_unit(&mut self) -> (r: Result<(), Error>)
        requires
            old(self).wf(),
        ensures
            final(self).wf(),
            final(self).src@ == old(self).src@,
            final(self).index >= old(self).index,
            match r {
                Ok(()) => spec_parse_token(old(self).suffix()) matches Some((_, tok, s2))
                    && spec_null_token(tok) && final(self).suffix() == s2 && final(self).index
                    > old(self).index,
                Err(e) => match spec_parse_token(old(self).suffix()) {
                    None => e == Error::Parse(crate::parser::ParseError::UnexpectedEof) && final(self).index == old(self).index,
                    Some((_, tok, _)) => !spec_null_token(tok) && e == Error::ExpectedNull,
                },
            },
    {
        let tok = match self.parse_token() {
            Ok(t) => t,
            Err(e) => {
                return Err(e);
            },
        };
        if tok_null(tok.as_slice()) {
            Ok(())
        } else {
            Err(Error::ExpectedNull)
        }
    }

    /// Peek for a null word; when one stands there it is consumed and the
    /// value is absent.
    pub fn parse_none(&mut self) -> (r: Result<bool, Error>)
        requires
            old(self).wf(),
        ensures
            final(self).wf(),
            final(self).src@ == old(self).src@,
            final(self).index >= old(self).index,
            match r {
                Ok(b) => {
                    if b {
                        spec_pnext(old(self).suffix()) matches Some((ParsedView::Token(t), s2))
                            && spec_null_token(t) && final(self).suffix() == s2
                    } else {
                        final(self).index == old(self).index && match spec_pnext(
                            old(self).suffix(),
                        ) {
                            Some((ParsedView::Token(t), _)) => !spec_null_token(t),
                            Some(_) => true,
                            None => false,
                        }
                    }
                },
                Err(e) => e == Error::Parse(crate::parser::ParseError::UnexpectedEof)
                    && spec_pnext(old(self).suffix()) is None && final(self).index == old(self).index,
            },
    {
        let p = match self.peek_next() {
            Ok(p) => p,
            Err(e) => {
                return Err(e);
            },
        };
        match p {
            Parsed::Token(t) => {
                if tok_null(t.as_slice()) {
                    let _skipped = self.parse_next();
                    Ok(true)
                } else {
                    Ok(false)
                }
            },
            _ => Ok(false),
        }
    }

    /// Read an integer. A decimal literal is accepted only when it spells a
    /// whole number that a 64-bit signed integer carries.
    pub fn parse_i64(&mut self) -> (r: Result<i64, Error>)
        requires
            old(self).wf(),
        ensures
            final(self).wf(),
            final(self).src@ == old(self).src@,
            final(self).index >= old(self).index,
            match r {
                Ok(v) => spec_parse_token(old(self).suffix()) matches Some((_, tok, s2))
                    && crate::num::is_number_token(tok) && crate::num::token_int_value(tok)
                    == Some(v as int) && final(self).suffix() == s2,
                Err(e) => match spec_parse_token(old(self).suffix()) {
                    None => e == Error::Parse(crate::parser::ParseError::UnexpectedEof) && final(self).index == old(self).index,
                    Some((st, tok, s2)) => if !crate::num::is_number_token(tok) {
                        e == Error::Parse(
                            crate::parser::ParseError::InvalidNumber(
                                (st + old(self).index) as usize,
                            ),
                        ) && final(self).index == old(self).index
                    } else {
                        e == Error::ExpectedInteger && final(self).suffix() == s2 && (
                        match crate::num::token_int_value(tok) {
                            None => true,
                            Some(m) => m < i64::MIN || m > i64::MAX,
                        })
                    },
                },
            },
    {
        match self.parse_number() {
            Ok(n) => {
                proof {
                    match spec_parse_token(old(self).suffix()) {
                        Some((st, tok, s2)) => {
                            crate::num::lemma_number_token_int_value(n, tok);
                        },
                        None => {},
                    }
                }
                match n {
                    Number::Integer(v) => Ok(v),
                    Number::Decimal { .. } => Err(Error::ExpectedInteger),
                }
            },
            Err(e) => Err(e),
        }
    }

    /// Read an unsigned integer; a negative number is rejected.
    pub fn parse_u64(&mut self) -> (r: Result<u64, Error>)
        requires
            old(self).wf(),
        ensures
            final(self).wf(),
            final(self).src@ == old(self).src@,
            final(self).index >= old(self).index,
            match r {
                Ok(v) => spec_parse_token(old(self).suffix()) matches Some((_, tok, s2))
                    && crate::num::is_number_token(tok) && v <= i64::MAX
                    && crate::num::token_int_value(tok) == Some(v as int) && final(self).suffix()
                    == s2,
                Err(e) => match spec_parse_token(old(self).suffix()) {
                    None => e == Error::Parse(crate::parser::ParseError::UnexpectedEof) && final(self).index == old(self).index,
                    Some((st, tok, s2)) => if !crate::num::is_number_token(tok) {
                        e == Error::Parse(
                            crate::parser::ParseError::InvalidNumber(
                                (st + old(self).index) as usize,
                            ),
                        ) && final(self).index == old(self).index
                    } else if crate::num::token_mantissa(tok) < 0 {
                        e == Error::ExpectedUnsigned && final(self).suffix() == s2
                    } else {
                        e == Error::ExpectedInteger && final(self).suffix() == s2 && (
                        match crate::num::token_int_value(tok) {
                            None => true,
                            Some(m) => m > i64::MAX,
                        })
                    },
                },
            },
    {
        match self.parse_number() {
            Ok(n) => {
                proof {
                    match spec_parse_token(old(self).suffix()) {
                        Some((st, tok, s2)) => {
                            crate::num::lemma_number_token_int_value(n, tok);
                        },
                        None => {},
                    }
                }
                match n {
                    Number::Integer(v) => {
                        if v < 0 {
                            Err(Error::ExpectedUnsigned)
                        } else {
                            proof {
                                assert(v as u64 as int == v as int);
                                assert(v as u64 <= i64::MAX);
                            }
                            Ok(v as u64)
                        }
                    },
                    Number::Decimal { neg, .. } => {
                        if neg {
                            Err(Error::ExpectedUnsigned)
                        } else {
                            Err(Error::ExpectedInteger)
                        }
                    },
                }
            },
            Err(e) => Err(e),
        }
    }

    /// Read a string literal and undo its escapes.
    pub fn parse_str_value(&mut self) -> (r: Result<Vec<u8>, Error>)
        requires
            old(self).wf(),
        ensures
            final(self).wf(),
            final(self).src@ == old(self).src@,
            final(self).index >= old(self).index,
            match r {
                Ok(v) => {
                    &&& spec_parse_string(old(self).suffix()) matches Ok((st, body, s2)) && v@
                        == spec_unescape(body, old(self).suffix()[st - 1]) && final(self).suffix()
                        == s2
                    &&& final(self).index > old(self).index
                },
                Err(e) => {
                    &&& spec_parse_string(old(self).suffix()) matches Err(pe) && e == Error::Parse(
                        spec_rebase(pe, old(self).index as nat),
                    )
                    &&& final(self).index == old(self).index
                },
            },
    {
        let (body, delim) = match self.parse_string() {
            Ok(v) => v,
            Err(e) => {
                return Err(e);
            },
        };
        Ok(unescape(body.as_slice(), delim))
    }

    /// Read a string literal that spells exactly one character.
    pub fn parse_char_bytes(&mut self) -> (r: Result<Vec<u8>, Error>)
        requires
            old(self).wf(),
        ensures
            final(self).wf(),
            final(self).src@ == old(self).src@,
            final(self).index >= old(self).index,
            match r {
                Ok(v) => spec_parse_string(old(self).suffix()) matches Ok((st, body, s2)) && v@
                    == spec_unescape(body, old(self).suffix()[st - 1]) && utf8_count(v@) == 1
                    && final(self).suffix() == s2,
                Err(e) => match spec_parse_string(old(self).suffix()) {
                    Err(pe) => e == Error::Parse(spec_rebase(pe, old(self).index as nat)) && final(self).index == old(self).index,
                    Ok((st, body, _)) => e == Error::ExpectedChar && utf8_count(
                        spec_unescape(body, old(self).suffix()[st - 1]),
                    ) != 1,
                },
            },
    {
        let v = match self.parse_str_value() {
            Ok(v) => v,
            Err(e) => {
                return Err(e);
            },
        };
        if count_utf8(v.as_slice()) == 1 {
            Ok(v)
        } else {
            Err(Error::ExpectedChar)
        }
    }
}

/// A phrase with whitespace runs replaced by single underscores; leading
/// whitespace adds nothing. The boolean state says whether whitespace was
/// just crossed and whether anything was written yet.
pub open spec fn snake_rec(s: Seq<u8>, was_ws: bool, empty: bool) -> Seq<u8>
    decreases s.len(),
{
    if s.len() == 0 {
        Seq::empty()
    } else if is_ws(s[0]) {
        snake_rec(s.skip(1), true, empty)
    } else {
        let pre: Seq<u8> = if was_ws && !empty {
            seq![0x5fu8]
        } else {
            Seq::empty()
        };
        pre + seq![s[0]] + snake_rec(s.skip(1), false, false)
    }
}

/// The snake form of a phrase.
pub open spec fn spec_dehumanize_snake(s: Seq<u8>) -> Seq<u8> {
    snake_rec(s, false, true)
}

/// Map an ASCII lowercase letter to its uppercase form.
pub open spec fn to_upper(b: u8) -> u8 {
    if 0x61 <= b && b <= 0x7a {
        (b - 0x20) as u8
    } else {
        b
    }
}

/// A phrase with each word's first byte raised to upper case and the
/// whitespace removed.
pub open spec fn camel_rec(s: Seq<u8>, boundary: bool) -> Seq<u8>
    decreases s.len(),
{
    if s.len() == 0 {
        Seq::empty()
    } else if is_ws(s[0]) {
        camel_rec(s.skip(1), true)
    } else if boundary {
        seq![to_upper(s[0])] + camel_rec(s.skip(1), false)
    } else {
        seq![s[0]] + camel_rec(s.skip(1), false)
    }
}

/// The camel form of a phrase.
pub open spec fn spec_dehumanize_camel(s: Seq<u8>) -> Seq<u8> {
    camel_rec(s, true)
}

/// Turn a phrase into its snake form: whitespace runs become single
/// underscores, leading whitespace is dropped.
pub fn dehumanize_snake(s: &[u8]) -> (r: Vec<u8>)
    ensures
        r@ == spec_dehumanize_snake(s@),
{
    let len = s.len();
    let mut out: Vec<u8> = Vec::new();
    let mut was_ws = false;
    let mut i: usize = 0;
    proof {
        assert(s@.skip(0) =~= s@);
    }
    while i < len
        invariant
            0 <= i <= len,
            len == s@.len(),
            spec_dehumanize_snake(s@) == out@ + snake_rec(
                s@.skip(i as int),
                was_ws,
                out@.len() == 0,
            ),
        decreases len - i,
    {
        let ghost tail = s@.skip(i as int);
        let ghost pre_out = out@;
        proof {
            assert(tail[0] == s@[i as int]);
            assert(tail.skip(1) =~= s@.skip(i + 1));
        }
        let b = s[i];
        if crate::parser::ws_byte(b) {
            was_ws = true;
        } else {
            let ghost pre: Seq<u8> = if was_ws && pre_out.len() > 0 {
                seq![0x5fu8]
            } else {
                Seq::empty()
            };
            if was_ws && out.len() > 0 {
                out.push(0x5f);
            }
            out.push(b);
            proof {
                assert(out@ =~= pre_out + pre + seq![b]);
                assert(pre_out + (pre + seq![b] + snake_rec(s@.skip(i + 1), false, false)) =~= (
                pre_out + pre + seq![b]) + snake_rec(s@.skip(i + 1), false, false));
            }
            was_ws = false;
        }
        i = i + 1;
    }
    proof {
        assert(s@.skip(len as int) =~= Seq::<u8>::empty());
    }
    out
}

/// Turn a phrase into its camel form: each word's first byte raised to
/// upper case, the whitespace removed.
pub fn dehumanize_camel(s: &[u8]) -> (r: Vec<u8>)
    ensures
        r@ == spec_dehumanize_camel(s@),
{
    let len = s.len();
    let mut out: Vec<u8> = Vec::new();
    let mut boundary = true;
    let mut i: usize = 0;
    proof {
        assert(s@.skip(0) =~= s@);
    }
    while i < len
        invariant
            0 <= i <= len,
            len == s@.len(),
            spec_dehumanize_camel(s@) == out@ + camel_rec(s@.skip(i as int), boundary),
        decreases len - i,
    {
        let ghost tail = s@.skip(i as int);
        let ghost pre_out = out@;
        proof {
            assert(tail[0] == s@[i as int]);
            assert(tail.skip(1) =~= s@.skip(i + 1));
        }
        let b = s[i];
        if crate::parser::ws_byte(b) {
            boundary = true;
        } else {
            let up: u8 = if boundary && 0x61 <= b && b <= 0x7a {
                b - 0x20
            } else {
                b
            };
            out.push(up);
            proof {
                if boundary {
                    assert(up == to_upper(b));
                    assert(pre_out + (seq![to_upper(b)] + camel_rec(s@.skip(i + 1), false)) =~= (
                    pre_out + seq![to_upper(b)]) + camel_rec(s@.skip(i + 1), false));
                } else {
                    assert(pre_out + (seq![b] + camel_rec(s@.skip(i + 1), false)) =~= (pre_out
                        + seq![b]) + camel_rec(s@.skip(i + 1), false));
                }
                assert(out@ =~= pre_out + seq![up]);
            }
            boundary = false;
        }
        i = i + 1;
    }
    proof {
        assert(s@.skip(len as int) =~= Seq::<u8>::empty());
    }
    out
}

/// The first candidate equal to `t`, or the number of candidates.
pub open spec fn first_eq(cands: Seq<Seq<u8>>, t: Seq<u8>) -> int
    decreases cands.len(),
{
    if cands.len() == 0 {
        0
    } else if cands[0] == t {
        0
    } else {
        1 + first_eq(cands.skip(1), t)
    }
}

/// The views of a candidate list.
pub open spec fn cand_views(cands: Seq<Vec<u8>>) -> Seq<Seq<u8>> {
    cands.map_values(|c: Vec<u8>| c@)
}

/// Which candidate a phrase names: the first literal match, else the first
/// match of its snake form, else the first match of its camel form.
pub open spec fn spec_dehumanize_match(s: Seq<u8>, cands: Seq<Seq<u8>>) -> Option<int> {
    if first_eq(cands, s) < cands.len() {
        Some(first_eq(cands, s))
    } else if first_eq(cands, spec_dehumanize_snake(s)) < cands.len() {
        Some(first_eq(cands, spec_dehumanize_snake(s)))
    } else if first_eq(cands, spec_dehumanize_camel(s)) < cands.len() {
        Some(first_eq(cands, spec_dehumanize_camel(s)))
    } else {
        None
    }
}

/// The position of the first candidate equal to `t`, if any.
fn find_candidate(cands: &[Vec<u8>], t: &[u8]) -> (r: Option<usize>)
    ensures
        match r {
            Some(i) => i as int == first_eq(cand_views(cands@), t@) && i < cands@.len() && (
            cands@[i as int])@ == t@,
            None => first_eq(cand_views(cands@), t@) >= cands@.len(),
        },
{
    let n = cands.len();
    let mut i: usize = 0;
    proof {
        assert(cand_views(cands@.skip(0)) =~= cand_views(cands@));
    }
    while i < n
        invariant
            0 <= i <= n,
            n == cands@.len(),
            first_eq(cand_views(cands@), t@) == i + first_eq(cand_views(cands@.skip(i as int)), t@),
        decreases n - i,
    {
        proof {
            assert(cand_views(cands@.skip(i as int))[0] == cands@[i as int]@);
            assert(cand_views(cands@.skip(i as int)).skip(1) =~= cand_views(cands@.skip(i + 1)));
        }
        if crate::bytes::bytes_eq(cands[i].as_slice(), t) {
            return Some(i);
        }
        i = i + 1;
    }
    proof {
        assert(cand_views(cands@.skip(n as int)) =~= Seq::<Seq<u8>>::empty());
    }
    None
}

/// Match a phrase against a list of field names: the phrase itself first,
/// then its snake form, then its camel form. Returns the position of the
/// matched name.
pub fn dehumanize_match(s: &[u8], cands: &[Vec<u8>]) -> (r: Option<usize>)
    ensures
        match r {
            Some(i) => spec_dehumanize_match(s@, cand_views(cands@)) == Some(i as int) && i
                < cands@.len(),
            None => spec_dehumanize_match(s@, cand_views(cands@)) is None,
        },
{
    match find_candidate(cands, s) {
        Some(i) => Some(i),
        None => {
            let snake = dehumanize_snake(s);
            match find_candidate(cands, snake.as_slice()) {
                Some(i) => Some(i),
                None => {
                    let camel = dehumanize_camel(s);
                    find_candidate(cands, camel.as_slice())
                },
            }
        },
    }
}

/// The bytes an optional owned field holds.
pub open spec fn opt_bytes_view(o: Option<Vec<u8>>) -> Option<Seq<u8>> {
    match o {
        Some(v) => Some(v@),
        None => None,
    }
}

/// What a compound's opening phrase spells: its name, its alias, its kind
/// when the phrase settles one, whether it was declared empty, and the
/// input left after the phrase. The phrase is `the`, an optional `empty`,
/// a descriptor, an optional `henceforth` alias, and — unless empty —
/// `where` and a look at the first entry.
pub open spec fn spec_describe(s: Seq<u8>) -> Result<
    (Option<Seq<u8>>, Option<Seq<u8>>, Option<CompoundKind>, bool, Seq<u8>),
    Error,
> {
    match spec_parse_token(s) {
        None => Err(Error::Parse(crate::parser::ParseError::UnexpectedEof)),
        Some((_, t0, s1)) => {
            if t0 != kw_the() {
                Err(Error::ExpectedKeyWord(Keyword::The))
            } else {
                match spec_pnext(s1) {
                    None => Err(Error::Parse(crate::parser::ParseError::UnexpectedEof)),
                    Some((p1, r1)) => {
                        if p1 matches ParsedView::Token(t) && t == kw_empty() {
                            spec_describe_descriptor(r1, true)
                        } else {
                            spec_describe_descriptor(s1, false)
                        }
                    },
                }
            }
        },
    }
}

/// What decoding a compound promises once the opening phrase has named a
/// kind `kd` and said whether the compound is empty: a declared `object`
/// yields an object, any other kind a list, and an empty compound yields
/// the empty value of that shape.
pub open spec fn spec_compound_shape(
    kd: Option<CompoundKind>,
    emp: bool,
    r: Result<Value, Error>,
) -> bool {
    &&& (match r {
        Ok(v) => {
            &&& (kd == Some(CompoundKind::Object) ==> v matches Value::Object(_))
            &&& (kd != Some(CompoundKind::Object) ==> v matches Value::Array(_))
        },
        Err(_) => true,
    })
    &&& (emp ==> (match r {
        Ok(v) => match v {
            Value::Object(m) => kd == Some(CompoundKind::Object) && m.entries@.len() == 0,
            Value::Array(a) => kd != Some(CompoundKind::Object) && a@.len() == 0,
            _ => false,
        },
        Err(_) => false,
    }))
}

/// What decoding promises of a compound that opens `the <STRING>`, once
/// the name's snake form `snake` is settled and `s2` is the input after
/// the name: the opaque tag followed by `which` wraps the inner value, the
/// quantity tag yields an amount, any other name an object; the opaque tag
/// without `which`, or `which` after any other name, is an error.
pub open spec fn spec_variant_shape(snake: Seq<u8>, s2: Seq<u8>, r: Result<Value, Error>) -> bool {
    let which = crate::parser::spec_after_kw(s2, crate::lex::kw_which()) is Some;
    &&& (match r {
        Ok(v) => {
            &&& (snake == crate::lex::kw_custom_tag() && which ==> v matches Value::Custom(_))
            &&& (snake == crate::lex::kw_amount() && !which ==> v matches Value::Amount(_))
            &&& (snake != crate::lex::kw_custom_tag() && snake != crate::lex::kw_amount() && !which
                ==> v matches Value::Object(_))
        },
        Err(_) => true,
    })
    &&& (spec_pnext(s2) is Some ==> {
        &&& (snake == crate::lex::kw_custom_tag() && !which ==> r == Err::<Value, Error>(
            Error::ExpectedKeyWord(Keyword::Which),
        ))
        &&& (snake != crate::lex::kw_custom_tag() && which ==> r == Err::<Value, Error>(
            Error::ExpectedKeyWord(Keyword::Where),
        ))
    })
}

/// The shape promise of `the <STRING> ...` read off the raw input `s1`
/// that starts at the name: vacuous where no string follows.
pub open spec fn spec_variant_shape_at(s1: Seq<u8>, r: Result<Value, Error>) -> bool {
    match spec_parse_string(s1) {
        Ok((st, body, s2)) => spec_variant_shape(
            spec_dehumanize_snake(spec_unescape(body, s1[st - 1])),
            s2,
            r,
        ),
        Err(_) => true,
    }
}

/// The descriptor after `the [empty]`: the keyword `list` or `object`
/// settles the kind; a string names the compound and leaves the kind open.
pub open spec fn spec_describe_descriptor(s: Seq<u8>, is_empty: bool) -> Result<
    (Option<Seq<u8>>, Option<Seq<u8>>, Option<CompoundKind>, bool, Seq<u8>),
    Error,
> {
    match spec_pnext(s) {
        None => Err(Error::Parse(crate::parser::ParseError::UnexpectedEof)),
        Some((ParsedView::Token(t), s3)) => {
            if t == kw_list() {
                spec_describe_scope(s3, None, Some(CompoundKind::List), is_empty)
            } else if t == kw_object() {
                spec_describe_scope(s3, None, Some(CompoundKind::Object), is_empty)
            } else {
                Err(Error::ExpectedObjectDescriptor)
            }
        },
        Some((ParsedView::Str(nm), s3)) => spec_describe_scope(s3, Some(nm), None, is_empty),
        Some((ParsedView::Num(_), _)) => Err(Error::ExpectedObjectDescriptor),
    }
}

/// The optional `henceforth <alias>` clause after the descriptor.
pub open spec fn spec_describe_scope(
    s: Seq<u8>,
    name: Option<Seq<u8>>,
    kind: Option<CompoundKind>,
    is_empty: bool,
) -> Result<(Option<Seq<u8>>, Option<Seq<u8>>, Option<CompoundKind>, bool, Seq<u8>), Error> {
    match spec_pnext(s) {
        Some((ParsedView::Token(t), s4)) => {
            if t == kw_henceforth() {
                match spec_pnext(s4) {
                    None => Err(Error::Parse(crate::parser::ParseError::UnexpectedEof)),
                    Some((ParsedView::Str(al), s5)) => spec_describe_where(
                        s5,
                        name,
                        Some(al),
                        kind,
                        is_empty,
                    ),
                    Some(_) => Err(Error::ExpectedString),
                }
            } else {
                spec_describe_where(s, name, None, kind, is_empty)
            }
        },
        _ => spec_describe_where(s, name, None, kind, is_empty),
    }
}

/// The `where` keyword of a nonempty compound, and — for a string-named
/// one — the look at the first entry that settles the kind: a leading `an`
/// means list; `the`, a primitive keyword, a string or a number means
/// object.
pub open spec fn spec_describe_where(
    s: Seq<u8>,
    name: Option<Seq<u8>>,
    scope: Option<Seq<u8>>,
    kind: Option<CompoundKind>,
    is_empty: bool,
) -> Result<(Option<Seq<u8>>, Option<Seq<u8>>, Option<CompoundKind>, bool, Seq<u8>), Error> {
    if is_empty {
        Ok((name, scope, kind, true, s))
    } else {
        match spec_parse_token(s) {
            None => Err(Error::Parse(crate::parser::ParseError::UnexpectedEof)),
            Some((_, t, s6)) => {
                if t != kw_where() {
                    Err(Error::ExpectedKeyWord(Keyword::Where))
                } else if kind is Some {
                    Ok((name, scope, kind, false, s6))
                } else {
                    match spec_pnext(s6) {
                        None => Err(Error::Parse(crate::parser::ParseError::UnexpectedEof)),
                        Some((ParsedView::Token(t2), _)) => {
                            if t2 == kw_an() {
                                Ok((name, scope, Some(CompoundKind::List), false, s6))
                            } else if t2 == kw_the() || spec_true_token(t2) || spec_false_token(t2)
                                || spec_null_token(t2) {
                                Ok((name, scope, Some(CompoundKind::Object), false, s6))
                            } else {
                                Err(Error::ExpectedKeyWord(Keyword::The))
                            }
                        },
                        Some(_) => Ok((name, scope, Some(CompoundKind::Object), false, s6)),
                    }
                }
            },
        }
    }
}

/// The entry's `is` keyword.
pub open spec fn spec_is_kw(s: Seq<u8>) -> Result<(bool, Seq<u8>), Error> {
    match spec_parse_token(s) {
        None => Err(Error::Parse(crate::parser::ParseError::UnexpectedEof)),
        Some((_, t, s2)) => {
            if t == kw_is() {
                Ok((true, s2))
            } else {
                Err(Error::ExpectedKeyWord(Keyword::Is))
            }
        },
    }
}

/// The scope check of one entry. `entry` is the input at the entry's
/// start and `abs` the absolute position of `s` in the whole input. An
/// `of` clause naming this compound's own alias is consumed; one naming
/// another alias ends the compound — back at the entry — unless the entry
/// is the first, which is the error of a compound that should have been
/// declared empty.
pub open spec fn spec_scope_check(
    s: Seq<u8>,
    abs: nat,
    entry: Seq<u8>,
    scope: Option<Seq<u8>>,
    first: bool,
) -> Result<(bool, Seq<u8>), Error> {
    match spec_pnext(s) {
        Some((ParsedView::Token(t), s1)) => {
            if t == kw_of() {
                match spec_parse_string(s1) {
                    Err(pe) => Err(
                        Error::Parse(spec_rebase(pe, (abs + s.len() - s1.len()) as nat)),
                    ),
                    Ok((st, body, s2)) => {
                        if scope == Some(body) {
                            Ok((true, s2))
                        } else if first {
                            Err(Error::ShouldBeDeclaredEmpty)
                        } else {
                            Ok((false, entry))
                        }
                    },
                }
            } else {
                Ok((true, s))
            }
        },
        _ => Ok((true, s)),
    }
}

/// The scope check of one entry followed by its `is`.
pub open spec fn spec_scope_is(
    s: Seq<u8>,
    abs: nat,
    entry: Seq<u8>,
    scope: Option<Seq<u8>>,
    first: bool,
) -> Result<(bool, Seq<u8>), Error> {
    match spec_scope_check(s, abs, entry, scope, first) {
        Err(e) => Err(e),
        Ok((false, r)) => Ok((false, r)),
        Ok((true, r)) => spec_is_kw(r),
    }
}

/// One list-entry prelude: `an item` for the first entry, `and another
/// item` later (the input ending at `and` ends the list), then the scope
/// check and `is`.
pub open spec fn spec_next_element(
    s: Seq<u8>,
    abs: nat,
    scope: Option<Seq<u8>>,
    first: bool,
) -> Result<(bool, Seq<u8>), Error> {
    if first {
        match spec_parse_token(s) {
            None => Err(Error::Parse(crate::parser::ParseError::UnexpectedEof)),
            Some((_, t, s1)) => {
                if t != kw_an() {
                    Err(Error::ExpectedKeyWord(Keyword::An))
                } else {
                    spec_elem_item(s1, (abs + s.len() - s1.len()) as nat, s, abs, scope, first)
                }
            },
        }
    } else {
        match spec_parse_token(s) {
            None => Ok((false, s)),
            Some((_, t, s1)) => {
                if t != kw_and() {
                    Err(Error::ExpectedKeyWord(Keyword::And))
                } else {
                    match spec_parse_token(s1) {
                        None => Err(Error::Parse(crate::parser::ParseError::UnexpectedEof)),
                        Some((_, t2, s2)) => {
                            if t2 != kw_another() {
                                Err(Error::ExpectedKeyWord(Keyword::Another))
                            } else {
                                spec_elem_item(s2, (abs + s.len() - s2.len()) as nat, s, abs, scope, first)
                            }
                        },
                    }
                }
            },
        }
    }
}

/// The `item` keyword of a list entry, then the scope check and `is`.
pub open spec fn spec_elem_item(
    s: Seq<u8>,
    abs: nat,
    entry: Seq<u8>,
    entry_abs: nat,
    scope: Option<Seq<u8>>,
    first: bool,
) -> Result<(bool, Seq<u8>), Error> {
    match spec_parse_token(s) {
        None => Err(Error::Parse(crate::parser::ParseError::UnexpectedEof)),
        Some((_, t, sy)) => {
            if t != kw_item() {
                Err(Error::ExpectedKeyWord(Keyword::Item))
            } else {
                spec_scope_is(sy, (abs + s.len() - sy.len()) as nat, entry, scope, first)
            }
        },
    }
}

/// One object-entry prelude up to its key: later entries need a leading
/// `and` (the input ending there ends the object), and an optional `the`
/// precedes the key. Yields the input at which the key stands.
pub open spec fn spec_next_key_start(s: Seq<u8>, first: bool) -> Result<Option<Seq<u8>>, Error> {
    if first {
        Ok(Some(spec_skip_the(s)))
    } else {
        match spec_parse_token(s) {
            None => Ok(None),
            Some((_, t, s1)) => {
                if t != kw_and() {
                    Err(Error::ExpectedKeyWord(Keyword::And))
                } else {
                    Ok(Some(spec_skip_the(s1)))
                }
            },
        }
    }
}

/// The input after an optional leading `the`.
pub open spec fn spec_skip_the(s: Seq<u8>) -> Seq<u8> {
    match spec_pnext(s) {
        Some((ParsedView::Token(t), r)) => if t == kw_the() {
            r
        } else {
            s
        },
        _ => s,
    }
}

/// The two kinds a compound can have.
#[derive(Debug, Clone, Copy, PartialEq, Eq, Structural)]
pub enum CompoundKind {
    List,
    Object,
}

/// The state of one compound being read: its name and scope alias when it
/// declared them, the kind once it is known, whether it was declared
/// empty, and whether the next entry is the first.
#[derive(Debug)]
pub struct Compound {
    pub name: Option<Vec<u8>>,
    pub scope: Option<Vec<u8>>,
    pub kind: Option<CompoundKind>,
    pub is_empty: bool,
    pub first: bool,
}

impl Compound {
    /// Has the opening phrase been read, as the specification sees it?
    pub open spec fn spec_described(&self) -> bool {
        self.kind is Some || self.is_empty
    }

    /// A compound whose opening phrase has not been read yet.
    pub fn new() -> (r: Compound)
        ensures
            r.name is None,
            r.scope is None,
            r.kind is None,
            !r.is_empty,
            r.first,
    {
        Compound { name: None, scope: None, kind: None, is_empty: false, first: true }
    }

    /// Empty compounds satisfy both kinds; otherwise the kind decides.
    pub fn is_list(&self) -> (r: bool)
        ensures
            r == (self.is_empty || self.kind == Some(CompoundKind::List)),
    {
        self.is_empty || match self.kind {
            Some(CompoundKind::List) => true,
            _ => false,
        }
    }

    pub fn is_object(&self) -> (r: bool)
        ensures
            r == (self.is_empty || self.kind == Some(CompoundKind::Object)),
    {
        self.is_empty || match self.kind {
            Some(CompoundKind::Object) => true,
            _ => false,
        }
    }

    /// Has the opening phrase been read?
    pub fn is_described(&self) -> (r: bool)
        ensures
            r == (self.kind is Some || self.is_empty),
    {
        match self.kind {
            Some(_) => true,
            None => self.is_empty,
        }
    }

    /// Read the opening phrase of a compound: `the`, an optional `empty`,
    /// the descriptor (`list`, `object` or a string name), an optional
    /// `henceforth` alias, and — unless empty — `where` and a peek at the
    /// first entry to settle the kind of a string-named compound.
    pub fn describe(&mut self, de: &mut Deserializer) -> (r: Result<(), Error>)
        requires
            old(de).wf(),
        ensures
            final(de).wf(),
            final(de).src@ == old(de).src@,
            final(de).index >= old(de).index,
            match r {
                Ok(()) => (final(self).kind is Some || final(self).is_empty) && final(de).index
                    > old(de).index,
                Err(_) => true,
            },
            (old(self).name is None && old(self).scope is None && old(self).kind is None && !old(
                self,
            ).is_empty) ==> match spec_describe(old(de).suffix()) {
                Ok((nm, sc, kd, emp, rest)) => {
                    &&& r == Ok::<(), Error>(())
                    &&& opt_bytes_view(final(self).name) == nm
                    &&& opt_bytes_view(final(self).scope) == sc
                    &&& final(self).kind == kd
                    &&& final(self).is_empty == emp
                    &&& final(de).suffix() == rest
                    &&& final(self).first == old(self).first
                },
                Err(e) => r == Err::<(), Error>(e),
            },
    {
        match de.parse_and_expect_token(Keyword::The) {
            Ok(()) => (),
            Err(e) => {
                return Err(e);
            },
        }
        match de.peek_next() {
            Ok(Parsed::Token(t)) => {
                if crate::lex::tok_is_empty(t.as_slice()) {
                    let _skipped = de.parse_token();
                    self.is_empty = true;
                }
            },
            Ok(_) => (),
            Err(e) => {
                return Err(e);
            },
        }
        match de.parse_next() {
            Ok(Parsed::Token(t)) => {
                if crate::lex::tok_is_list(t.as_slice()) {
                    self.kind = Some(CompoundKind::List);
                } else if crate::lex::tok_is_object(t.as_slice()) {
                    self.kind = Some(CompoundKind::Object);
                } else {
                    return Err(Error::ExpectedObjectDescriptor);
                }
            },
            Ok(Parsed::Str(name)) => {
                let delim_ignored = name;
                self.name = Some(delim_ignored);
            },
            Ok(Parsed::Number(_)) => {
                return Err(Error::ExpectedObjectDescriptor);
            },
            Err(e) => {
                return Err(e);
            },
        }
        match de.peek_next() {
            Ok(Parsed::Token(t)) => {
                if crate::lex::tok_is_henceforth(t.as_slice()) {
                    let consumed = match de.parse_next() {
                        Ok(_) => (),
                        Err(e) => {
                            return Err(e);
                        },
                    };
                    match de.parse_next() {
                        Ok(Parsed::Str(alias)) => {
                            self.scope = Some(alias);
                        },
                        Ok(_) => {
                            return Err(Error::ExpectedString);
                        },
                        Err(e) => {
                            return Err(e);
                        },
                    }
                }
            },
            _ => (),
        }
        if !self.is_empty {
            match de.parse_and_expect_token(Keyword::Where) {
                Ok(()) => (),
                Err(e) => {
                    return Err(e);
                },
            }
            if self.kind.is_none() {
                match de.peek_next() {
                    Ok(Parsed::Token(t)) => {
                        if crate::lex::tok_is_an(t.as_slice()) {
                            self.kind = Some(CompoundKind::List);
                        } else if crate::lex::tok_is_the(t.as_slice()) || tok_truthy(t.as_slice())
                            || tok_falsy(t.as_slice()) || tok_null(t.as_slice()) {
                            self.kind = Some(CompoundKind::Object);
                        } else {
                            return Err(Error::ExpectedKeyWord(Keyword::The));
                        }
                    },
                    Ok(Parsed::Str(_)) => {
                        self.kind = Some(CompoundKind::Object);
                    },
                    Ok(Parsed::Number(_)) => {
                        self.kind = Some(CompoundKind::Object);
                    },
                    Err(e) => {
                        return Err(e);
                    },
                }
            }
        }
        Ok(())
    }

    /// Step to the next list entry: the first uses `an item`, later ones
    /// `and another item`; an entry may carry `of <alias>`, and one that
    /// names another compound's alias ends this list. Consumes through the
    /// entry's `is`; `false` means the list is over.
    pub fn next_element_start(&mut self, de: &mut Deserializer) -> (r: Result<bool, Error>)
        requires
            old(de).wf(),
        ensures
            final(de).wf(),
            final(de).src@ == old(de).src@,
            final(de).index >= old(de).index,
            match r {
                Ok(true) => final(de).index > old(de).index,
                _ => true,
            },
            old(self).spec_described() ==> {
                if old(self).is_empty {
                    r == Ok::<bool, Error>(false) && final(de).index == old(de).index
                        && final(self).first == old(self).first
                } else if old(self).kind != Some(CompoundKind::List) {
                    r == Err::<bool, Error>(Error::ExpectedListItem) && final(de).index == old(
                        de,
                    ).index
                } else {
                    match spec_next_element(
                        old(de).suffix(),
                        old(de).index as nat,
                        opt_bytes_view(old(self).scope),
                        old(self).first,
                    ) {
                        Ok((true, rest)) => r == Ok::<bool, Error>(true) && final(de).suffix()
                            == rest && !final(self).first && final(self).scope == old(self).scope
                            && final(self).kind == old(self).kind && final(self).is_empty == old(
                            self,
                        ).is_empty,
                        Ok((false, rest)) => r == Ok::<bool, Error>(false) && final(de).suffix()
                            == rest && final(self).first == old(self).first,
                        Err(e) => r == Err::<bool, Error>(e),
                    }
                }
            },
    {
        if !self.is_described() {
            match self.describe(de) {
                Ok(()) => (),
                Err(e) => {
                    return Err(e);
                },
            }
        }
        if self.is_empty {
            return Ok(false);
        }
        if !self.is_list() {
            return Err(Error::ExpectedListItem);
        }
        let start = de.index;
        if self.first {
            match de.parse_and_expect_token(Keyword::An) {
                Ok(()) => (),
                Err(e) => {
                    return Err(e);
                },
            }
        } else {
            match de.parse_and_expect_token(Keyword::And) {
                Ok(()) => (),
                Err(Error::Parse(crate::parser::ParseError::UnexpectedEof)) => {
                    return Ok(false);
                },
                Err(e) => {
                    return Err(e);
                },
            }
            match de.parse_and_expect_token(Keyword::Another) {
                Ok(()) => (),
                Err(e) => {
                    return Err(e);
                },
            }
        }
        match de.parse_and_expect_token(Keyword::Item) {
            Ok(()) => (),
            Err(e) => {
                return Err(e);
            },
        }
        match self.check_scope(de, start) {
            Ok(true) => (),
            Ok(false) => {
                return Ok(false);
            },
            Err(e) => {
                return Err(e);
            },
        }
        match de.parse_and_expect_token(Keyword::Is) {
            Ok(()) => (),
            Err(e) => {
                return Err(e);
            },
        }
        self.first = false;
        Ok(true)
    }

    /// When the entry carries `of <alias>`: stay when the alias is this
    /// compound's scope; end the compound (rolling back to the entry) when
    /// it belongs to an outer one. A first entry of a foreign scope means
    /// the compound should have been declared empty.
    fn check_scope(&self, de: &mut Deserializer, start: usize) -> (r: Result<bool, Error>)
        requires
            old(de).wf(),
            start <= old(de).index,
        ensures
            final(de).wf(),
            final(de).src@ == old(de).src@,
            final(de).index >= start,
            match r {
                Ok(true) => final(de).index >= old(de).index,
                Ok(false) => final(de).index == start,
                Err(_) => true,
            },
            match spec_scope_check(
                old(de).suffix(),
                old(de).index as nat,
                old(de).src@.skip(start as int),
                opt_bytes_view(self.scope),
                self.first,
            ) {
                Ok((ok, rest)) => r == Ok::<bool, Error>(ok) && final(de).suffix() == rest,
                Err(e) => r == Err::<bool, Error>(e),
            },
    {
        match de.peek_next() {
            Ok(Parsed::Token(t)) => {
                if !crate::lex::tok_is_of(t.as_slice()) {
                    return Ok(true);
                }
            },
            _ => {
                return Ok(true);
            },
        }
        let consumed = match de.parse_token() {
            Ok(t) => t,
            Err(e) => {
                return Err(e);
            },
        };
        let (alias, _) = match de.parse_string() {
            Ok(v) => v,
            Err(e) => {
                return Err(e);
            },
        };
        let matches_scope = match &self.scope {
            Some(sc) => crate::bytes::bytes_eq(sc.as_slice(), alias.as_slice()),
            None => false,
        };
        if !matches_scope {
            if self.first {
                return Err(Error::ShouldBeDeclaredEmpty);
            }
            de.rollback(start);
            return Ok(false);
        }
        Ok(true)
    }

    /// Step to the next object entry: later entries need a leading `and`;
    /// an optional `the` precedes the key. Stops just before the key;
    /// `None` means the object is over. Returns the position the entry
    /// started at, for the scope check after the key.
    pub fn next_key_start(&mut self, de: &mut Deserializer) -> (r: Result<Option<usize>, Error>)
        requires
            old(de).wf(),
        ensures
            final(de).wf(),
            final(de).src@ == old(de).src@,
            final(de).index >= old(de).index,
            match r {
                Ok(Some(start)) => old(de).index <= start <= final(de).index,
                _ => true,
            },
            old(self).spec_described() ==> {
                if old(self).is_empty {
                    r == Ok::<Option<usize>, Error>(None) && final(de).index == old(de).index
                        && final(self).first == old(self).first
                } else if old(self).kind != Some(CompoundKind::Object) {
                    r == Err::<Option<usize>, Error>(Error::ExpectedObjectEntry) && final(de).index == old(de).index
                } else {
                    match spec_next_key_start(old(de).suffix(), old(self).first) {
                        Ok(Some(rest)) => r matches Ok(Some(start)) && start == old(de).index
                            && final(de).suffix() == rest && final(self).first == old(self).first
                            && final(self).scope == old(self).scope,
                        Ok(None) => r == Ok::<Option<usize>, Error>(None) && final(de).index
                            == old(de).index && final(self).first == old(self).first,
                        Err(e) => r == Err::<Option<usize>, Error>(e),
                    }
                }
            },
    {
        if !self.is_described() {
            match self.describe(de) {
                Ok(()) => (),
                Err(e) => {
                    return Err(e);
                },
            }
        }
        if self.is_empty {
            return Ok(None);
        }
        if !self.is_object() {
            return Err(Error::ExpectedObjectEntry);
        }
        let start = de.index;
        if !self.first {
            match de.parse_and_expect_token(Keyword::And) {
                Ok(()) => (),
                Err(Error::Parse(crate::parser::ParseError::UnexpectedEof)) => {
                    return Ok(None);
                },
                Err(e) => {
                    return Err(e);
                },
            }
        }
        match de.peek_next() {
            Ok(Parsed::Token(t)) => {
                if crate::lex::tok_is_the(t.as_slice()) {
                    let consumed = match de.parse_token() {
                        Ok(t2) => t2,
                        Err(e) => {
                            return Err(e);
                        },
                    };
                }
            },
            _ => (),
        }
        Ok(Some(start))
    }

    /// Finish an object entry's prelude after its key was read: the scope
    /// check, then the entry's `is`. `false` means the entry belonged to an
    /// outer compound and the cursor was rolled back to the entry.
    pub fn next_key_end(&mut self, de: &mut Deserializer, start: usize) -> (r: Result<bool, Error>)
        requires
            old(de).wf(),
            start <= old(de).index,
        ensures
            final(de).wf(),
            final(de).src@ == old(de).src@,
            final(de).index >= start,
            match r {
                Ok(true) => final(de).index > old(de).index,
                Ok(false) => final(de).index == start,
                Err(_) => true,
            },
            match spec_scope_is(
                old(de).suffix(),
                old(de).index as nat,
                old(de).src@.skip(start as int),
                opt_bytes_view(old(self).scope),
                old(self).first,
            ) {
                Ok((true, rest)) => r == Ok::<bool, Error>(true) && final(de).suffix() == rest
                    && !final(self).first && final(self).scope == old(self).scope && final(self).kind == old(self).kind && final(self).is_empty == old(self).is_empty,
                Ok((false, rest)) => r == Ok::<bool, Error>(false) && final(de).suffix() == rest
                    && final(self).first == old(self).first,
                Err(e) => r == Err::<bool, Error>(e),
            },
    {
        match self.check_scope(de, start) {
            Ok(true) => (),
            Ok(false) => {
                return Ok(false);
            },
            Err(e) => {
                return Err(e);
            },
        }
        match de.parse_and_expect_token(Keyword::Is) {
            Ok(()) => (),
            Err(e) => {
                return Err(e);
            },
        }
        self.first = false;
        Ok(true)
    }
}

/// Every unit name of a table can stand in a quantity string.
pub open spec fn units_ok(us: Seq<Vec<u8>>) -> bool {
    forall|i: int| 0 <= i < us.len() ==> unit_name_ok((#[trigger] us[i])@)
}

/// Read a primitive map key: a boolean word, a number, or a string.
pub fn parse_key(de: &mut Deserializer) -> (r: Result<Key, Error>)
    requires
        old(de).wf(),
    ensures
        final(de).wf(),
        final(de).src@ == old(de).src@,
        final(de).index >= old(de).index,
        match r {
            Ok(k) => wf_key(k) && final(de).index > old(de).index,
            Err(_) => true,
        },
        match spec_pnext(old(de).suffix()) {
            None => r == Err::<Key, Error>(Error::Parse(crate::parser::ParseError::UnexpectedEof))
                && final(de).index == old(de).index,
            Some((ParsedView::Token(t), s1)) => {
                if spec_true_token(t) {
                    r == Ok::<Key, Error>(Key::Bool(true)) && final(de).suffix() == s1
                } else if spec_false_token(t) {
                    r == Ok::<Key, Error>(Key::Bool(false)) && final(de).suffix() == s1
                } else {
                    r == Err::<Key, Error>(Error::ExpectedPrimitiveMapKey) && final(de).index
                        == old(de).index
                }
            },
            Some((ParsedView::Num(tok), s1)) => r matches Ok(k) && (k matches Key::Number(n)
                && wf_number(n) && crate::num::num_matches_token(n, tok)) && final(de).suffix()
                == s1,
            Some((ParsedView::Str(_), _)) => match spec_parse_string(old(de).suffix()) {
                Ok((st, body, s2)) => r matches Ok(k) && (k matches Key::String(b) && b@
                    == spec_unescape(body, old(de).suffix()[st - 1])) && final(de).suffix() == s2,
                Err(_) => false,
            },
        },
{
    let p = match de.peek_next() {
        Ok(p) => p,
        Err(e) => {
            return Err(e);
        },
    };
    match p {
        Parsed::Token(t) => {
            if tok_truthy(t.as_slice()) || tok_falsy(t.as_slice()) {
                match de.parse_bool() {
                    Ok(b) => Ok(Key::Bool(b)),
                    Err(e) => Err(e),
                }
            } else {
                Err(Error::ExpectedPrimitiveMapKey)
            }
        },
        Parsed::Number(_) => {
            match de.parse_number() {
                Ok(n) => Ok(Key::Number(n)),
                Err(e) => Err(e),
            }
        },
        Parsed::Str(_) => {
            match de.parse_str_value() {
                Ok(s) => Ok(Key::String(s)),
                Err(e) => Err(e),
            }
        },
    }
}

/// Put an entry into an object table, keeping it well formed.
fn object_insert_wf(m: &mut ObjectMap, key: Key, v: Value)
    requires
        wf_map_keys(old(m).entries@),
        forall|i: int|
            0 <= i < old(m).entries@.len() ==> wf_value(#[trigger] old(m).entries@[i].1),
        wf_key(key),
        wf_value(v),
    ensures
        wf_map_keys(final(m).entries@),
        forall|i: int|
            0 <= i < final(m).entries@.len() ==> wf_value(#[trigger] final(m).entries@[i].1),
{
    let ghost pre = m.entries@;
    let ghost kv = key@;
    let replaced = m.insert(key, v);
    proof {
        match replaced {
            Some(_) => {
                let i = crate::value::map_index_of(pre, kv);
                assert forall|a: int, b: int|
                    0 <= a < b < final(m).entries@.len() implies (#[trigger] final(m).entries@[a].0@) != (#[trigger] final(m).entries@[b].0@) by {
                    assert(final(m).entries@[a].0 == pre[a].0);
                    assert(final(m).entries@[b].0 == pre[b].0);
                }
            },
            None => {
                crate::value::lemma_map_find_none(pre, kv);
            },
        }
    }
}

/// Put a quantity into a unit table, keeping it well formed.
fn amount_insert_wf(a: &mut Amount, unit: Vec<u8>, n: Number)
    requires
        wf_amount_entries(old(a).entries@),
        unit_name_ok(unit@),
        wf_number(n),
    ensures
        wf_amount_entries(final(a).entries@),
{
    let ghost pre = a.entries@;
    let ghost uv = unit@;
    let replaced = a.insert(unit, n);
    proof {
        let post = a.entries@;
        match replaced {
            Some(_) => {
                let i = crate::value::amount_index_of(pre, uv);
                assert(post.len() == pre.len());
                assert forall|x: int, y: int|
                    0 <= x < y < post.len() implies (#[trigger] post[x].0@) != (
                #[trigger] post[y].0@) by {
                    assert(post[x].0 == pre[x].0);
                    assert(post[y].0 == pre[y].0);
                }
                assert forall|x: int| 0 <= x < post.len() implies unit_name_ok(
                    #[trigger] post[x].0@,
                ) by {
                    assert(post[x].0 == pre[x].0);
                }
                assert forall|x: int|
                    0 <= x < post.len() implies ((#[trigger] post[x].1) matches Value::Number(nn)
                    && wf_number(nn)) by {
                    if x != i {
                        assert(post[x].1 == pre[x].1);
                    } else {
                        assert(post[x].1 == Value::Number(n));
                    }
                }
            },
            None => {
                crate::value::lemma_amount_find_none(pre, uv);
                assert(post.len() == pre.len() + 1);
                assert forall|x: int, y: int|
                    0 <= x < y < post.len() implies (#[trigger] post[x].0@) != (
                #[trigger] post[y].0@) by {
                    if y < pre.len() {
                        assert(post[x].0 == pre[x].0);
                        assert(post[y].0 == pre[y].0);
                    } else {
                        assert(post[x].0 == pre[x].0);
                        assert(post[y].0@ == uv);
                    }
                }
                assert forall|x: int| 0 <= x < post.len() implies unit_name_ok(
                    #[trigger] post[x].0@,
                ) by {
                    if x < pre.len() {
                        assert(post[x].0 == pre[x].0);
                    } else {
                        assert(post[x].0@ == uv);
                    }
                }
                assert forall|x: int|
                    0 <= x < post.len() implies ((#[trigger] post[x].1) matches Value::Number(nn)
                    && wf_number(nn)) by {
                    if x < pre.len() {
                        assert(post[x].1 == pre[x].1);
                    } else {
                        assert(post[x].1 == Value::Number(n));
                    }
                }
            },
        }
    }
}

/// The position of the first space byte, or the length when there is none.
pub open spec fn first_space(s: Seq<u8>) -> nat
    decreases s.len(),
{
    if s.len() == 0 || s[0] == 0x20 {
        0
    } else {
        (1 + first_space(s.skip(1))) as nat
    }
}

proof fn lemma_first_space_run(s: Seq<u8>, i: nat)
    requires
        i <= s.len(),
        forall|j: int| 0 <= j < i ==> s[j] != 0x20,
        i == s.len() || s[i as int] == 0x20,
    ensures
        first_space(s) == i,
    decreases i,
{
    if i > 0 {
        lemma_first_space_run(s.skip(1), (i - 1) as nat);
    }
}

/// What a decoded string stands for: the three datetime forms are tried
/// first; then, when the text splits at its first space into a numeric
/// token and a unit the table knows, a quantity of one entry; else the
/// plain string itself.
pub open spec fn spec_classified(s: Seq<u8>, units: Seq<Vec<u8>>, v: Value) -> bool {
    match crate::datetime::datetime_of_text(s) {
        Some(dt) => v == Value::DateTime(dt),
        None => match crate::datetime::date_of_text(s) {
            Some(d) => v == Value::Date(d),
            None => match crate::datetime::time_of_text(s) {
                Some(t) => v == Value::Time(t),
                None => {
                    let sp = first_space(s);
                    if sp < s.len() && crate::num::is_number_token(s.subrange(0, sp as int))
                        && first_eq(cand_views(units), s.skip(sp + 1 as int)) < units.len() {
                        &&& v matches Value::Amount(a)
                        &&& match v {
                            Value::Amount(a) => {
                                &&& a.entries@.len() == 1
                                &&& a.entries@[0].0@ == s.skip(sp + 1 as int)
                                &&& (a.entries@[0].1 matches Value::Number(n) && wf_number(n)
                                    && crate::num::num_matches_token(n, s.subrange(0, sp as int)))
                            },
                            _ => false,
                        }
                    } else {
                        v matches Value::String(b) && b@ == s
                    }
                },
            },
        },
    }
}

/// Sort a decoded string into the value it stands for.
fn classify_string(s: Vec<u8>, units: &[Vec<u8>]) -> (r: Value)
    requires
        units_ok(units@),
    ensures
        wf_value(r),
        spec_classified(s@, units@, r),
{
    match crate::datetime::parse_datetime(s.as_slice()) {
        Some(dt) => {
            return Value::DateTime(dt);
        },
        None => (),
    }
    match crate::datetime::parse_date(s.as_slice()) {
        Some(d) => {
            return Value::Date(d);
        },
        None => (),
    }
    match crate::datetime::parse_time(s.as_slice()) {
        Some(t) => {
            return Value::Time(t);
        },
        None => (),
    }
    let len = s.len();
    let mut sp: usize = 0;
    while sp < len && s[sp] != 0x20
        invariant
            0 <= sp <= len,
            len == s@.len(),
            forall|j: int| 0 <= j < sp ==> s@[j] != 0x20,
        decreases len - sp,
    {
        sp = sp + 1;
    }
    proof {
        lemma_first_space_run(s@, sp as nat);
    }
    if sp < len {
        let prefix = &s.as_slice()[0..sp];
        let suffix = &s.as_slice()[sp + 1..len];
        match crate::num::parse_num_token(prefix) {
            Some(n) => {
                match find_candidate(units, suffix) {
                    Some(i) => {
                        let unit = copy_range(suffix, 0, suffix.len());
                        proof {
                            assert(unit@ =~= suffix@);
                            assert(suffix@ =~= s@.skip(sp + 1));
                            assert(prefix@ =~= s@.subrange(0, sp as int));
                            assert(cand_views(units@)[i as int] == units@[i as int]@);
                            assert(unit_name_ok(units@[i as int]@));
                        }
                        let mut a = Amount::new();
                        let replaced = a.insert(unit, n);
                        proof {
                            assert(a.entries@.len() == 1);
                            assert(a.entries@[0].1 == Value::Number(n));
                            assert(wf_amount_entries(a.entries@));
                        }
                        return Value::Amount(a);
                    },
                    None => (),
                }
            },
            None => (),
        }
    }
    Value::String(s)
}

/// Read one value of the default data model: a primitive, a quantity, a
/// date, a list, an object, or a tagged variant. `units` names the units
/// the model accepts inside quantities.
pub fn decode_value(de: &mut Deserializer, units: &[Vec<u8>]) -> (r: Result<Value, Error>)
    requires
        old(de).wf(),
        units_ok(units@),
    ensures
        final(de).wf(),
        final(de).src@ == old(de).src@,
        final(de).index >= old(de).index,
        match r {
            Ok(v) => wf_value(v) && final(de).index > old(de).index,
            Err(_) => true,
        },
        spec_pnext(old(de).suffix()) is None ==> r == Err::<Value, Error>(
            Error::Parse(crate::parser::ParseError::UnexpectedEof),
        ),
        match spec_pnext(old(de).suffix()) {
            Some((ParsedView::Token(t), _)) => {
                &&& spec_true_token(t) ==> r == Ok::<Value, Error>(Value::Bool(true))
                &&& spec_false_token(t) ==> r == Ok::<Value, Error>(Value::Bool(false))
                &&& spec_null_token(t) ==> r == Ok::<Value, Error>(Value::Null)
            },
            Some((ParsedView::Num(tok), s2)) => r matches Ok(v) && (v matches Value::Number(n)
                && wf_number(n) && crate::num::num_matches_token(n, tok)) && final(de).suffix()
                == s2,
            _ => true,
        },
        match spec_parse_string(old(de).suffix()) {
            Ok((st, body, rest)) => r matches Ok(v) && spec_classified(
                spec_unescape(body, old(de).suffix()[st - 1]),
                units@,
                v,
            ) && final(de).suffix() == rest,
            Err(_) => true,
        },
        match spec_pnext(old(de).suffix()) {
            Some((ParsedView::Token(t), s1)) => (t == crate::lex::kw_the() && !(spec_pnext(s1)
                matches Some((ParsedView::Str(_), _)))) ==> match spec_describe(
                old(de).suffix(),
            ) {
                Ok((nm, sc, kd, emp, rest)) => spec_compound_shape(kd, emp, r) && (emp ==> final(de).suffix() == rest),
                Err(e) => r == Err::<Value, Error>(e),
            },
            _ => true,
        },
        match spec_pnext(old(de).suffix()) {
            Some((ParsedView::Token(t), s1)) => t == crate::lex::kw_the()
                ==> spec_variant_shape_at(s1, r),
            _ => true,
        },
    decreases old(de).src@.len() - old(de).index, 2int,
{
    let p = match de.peek_next() {
        Ok(p) => p,
        Err(e) => {
            return Err(e);
        },
    };
    match p {
        Parsed::Number(_) => {
            match de.parse_number() {
                Ok(n) => Ok(Value::Number(n)),
                Err(e) => Err(e),
            }
        },
        Parsed::Str(_) => {
            match de.parse_str_value() {
                Ok(s) => Ok(classify_string(s, units)),
                Err(e) => Err(e),
            }
        },
        Parsed::Token(t) => {
            if tok_truthy(t.as_slice()) || tok_falsy(t.as_slice()) {
                match de.parse_bool() {
                    Ok(b) => Ok(Value::Bool(b)),
                    Err(e) => Err(e),
                }
            } else if tok_null(t.as_slice()) {
                match de.parse_unit() {
                    Ok(()) => Ok(Value::Null),
                    Err(e) => Err(e),
                }
            } else if crate::lex::tok_is_the(t.as_slice()) {
                let start = de.index;
                let the = match de.parse_token() {
                    Ok(t2) => t2,
                    Err(e) => {
                        return Err(e);
                    },
                };
                match de.parse_next() {
                    Ok(Parsed::Str(_)) => {
                        de.rollback(start);
                        decode_variant(de, units)
                    },
                    Ok(_) => {
                        de.rollback(start);
                        decode_compound(de, units)
                    },
                    Err(e) => Err(e),
                }
            } else {
                Err(Error::ExpectedKeyWord(Keyword::The))
            }
        },
    }
}

/// Read a compound that opens with `the`: settle its kind, then collect a
/// list or an object of the default model. Keys of a plain object stay as
/// written. A kind that the opening phrase declares `object` yields an
/// object; any other — `list`, or an empty compound whose name leaves the
/// kind open — yields a list.
fn decode_compound(de: &mut Deserializer, units: &[Vec<u8>]) -> (r: Result<Value, Error>)
    requires
        old(de).wf(),
        units_ok(units@),
    ensures
        final(de).wf(),
        final(de).src@ == old(de).src@,
        final(de).index >= old(de).index,
        match r {
            Ok(v) => wf_value(v) && final(de).index > old(de).index,
            Err(_) => true,
        },
        match spec_describe(old(de).suffix()) {
            Ok((nm, sc, kd, emp, rest)) => spec_compound_shape(kd, emp, r) && (emp ==> final(de).suffix() == rest),
            Err(e) => r == Err::<Value, Error>(e),
        },
    decreases old(de).src@.len() - old(de).index, 0int,
{
    let ghost desc = spec_describe(old(de).suffix());
    let mut c = Compound::new();
    match c.describe(de) {
        Ok(()) => (),
        Err(e) => {
            return Err(e);
        },
    }
    let as_object = match c.kind {
        Some(CompoundKind::Object) => true,
        _ => false,
    };
    if c.is_empty {
        if as_object {
            let m = ObjectMap::new();
            proof {
                assert(m.entries@ =~= Seq::<(crate::value::Key, Value)>::empty());
            }
            return Ok(Value::Object(m));
        }
        let out: Vec<Value> = Vec::new();
        proof {
            assert(out@ =~= Seq::<Value>::empty());
        }
        return Ok(Value::Array(out));
    }
    if !as_object {
        let mut out: Vec<Value> = Vec::new();
        loop
            invariant
                de.wf(),
                de.src@ == old(de).src@,
                de.index > old(de).index,
                units_ok(units@),
                forall|i: int| 0 <= i < out@.len() ==> wf_value(#[trigger] out@[i]),
                desc == spec_describe(old(de).suffix()),
                desc matches Ok(d) && !d.3 && d.2 != Some(CompoundKind::Object),
            decreases de.src@.len() - de.index,
        {
            match c.next_element_start(de) {
                Ok(true) => (),
                Ok(false) => {
                    break ;
                },
                Err(e) => {
                    return Err(e);
                },
            }
            match decode_value(de, units) {
                Ok(v) => {
                    out.push(v);
                },
                Err(e) => {
                    return Err(e);
                },
            }
        }
        Ok(Value::Array(out))
    } else {
        let mut m = ObjectMap::new();
        loop
            invariant
                de.wf(),
                de.src@ == old(de).src@,
                de.index > old(de).index,
                units_ok(units@),
                wf_map_keys(m.entries@),
                forall|i: int| 0 <= i < m.entries@.len() ==> wf_value(#[trigger] m.entries@[i].1),
                desc == spec_describe(old(de).suffix()),
                desc matches Ok(d) && !d.3 && d.2 == Some(CompoundKind::Object),
            decreases de.src@.len() - de.index,
        {
            let entry_start = match c.next_key_start(de) {
                Ok(Some(st)) => st,
                Ok(None) => {
                    break ;
                },
                Err(e) => {
                    return Err(e);
                },
            };
            let key = match parse_key(de) {
                Ok(k) => k,
                Err(e) => {
                    return Err(e);
                },
            };
            match c.next_key_end(de, entry_start) {
                Ok(true) => (),
                Ok(false) => {
                    break ;
                },
                Err(e) => {
                    return Err(e);
                },
            }
            match decode_value(de, units) {
                Ok(v) => {
                    object_insert_wf(&mut m, key, v);
                },
                Err(e) => {
                    return Err(e);
                },
            }
        }
        Ok(Value::Object(m))
    }
}

/// Read a compound that opens with `the` and a string: the synthetic
/// quantity tag gives an amount, the synthetic opaque tag followed by
/// `which is` wraps the inner value, and any other name is read as an
/// object whose keys are put in their snake form.
fn decode_variant(de: &mut Deserializer, units: &[Vec<u8>]) -> (r: Result<Value, Error>)
    requires
        old(de).wf(),
        units_ok(units@),
    ensures
        final(de).wf(),
        final(de).src@ == old(de).src@,
        final(de).index >= old(de).index,
        match r {
            Ok(v) => wf_value(v) && final(de).index > old(de).index,
            Err(_) => true,
        },
        match spec_pnext(old(de).suffix()) {
            Some((ParsedView::Token(t), s1)) => t == crate::lex::kw_the()
                ==> spec_variant_shape_at(s1, r),
            _ => true,
        },
    decreases old(de).src@.len() - old(de).index, 1int,
{
    let start = de.index;
    match de.parse_and_expect_token(Keyword::The) {
        Ok(()) => (),
        Err(e) => {
            return Err(e);
        },
    }
    let name = match de.parse_str_value() {
        Ok(n) => n,
        Err(e) => {
            return Err(e);
        },
    };
    let snake = dehumanize_snake(name.as_slice());
    let which_follows = match de.peek_next() {
        Ok(Parsed::Token(t)) => crate::lex::tok_is_which(t.as_slice()),
        Ok(_) => false,
        Err(e) => {
            return Err(e);
        },
    };
    if which_follows {
        if crate::lex::tok_is_custom_tag(snake.as_slice()) {
            match de.parse_and_expect_token(Keyword::Which) {
                Ok(()) => (),
                Err(e) => {
                    return Err(e);
                },
            }
            match de.parse_and_expect_token(Keyword::Is) {
                Ok(()) => (),
                Err(e) => {
                    return Err(e);
                },
            }
            match decode_value(de, units) {
                Ok(inner) => Ok(Value::Custom(std::boxed::Box::new(inner))),
                Err(e) => Err(e),
            }
        } else {
            Err(Error::ExpectedKeyWord(Keyword::Where))
        }
    } else {
        if crate::lex::tok_is_amount(snake.as_slice()) {
            de.rollback(start);
            decode_amount(de, units)
        } else if crate::lex::tok_is_custom_tag(snake.as_slice()) {
            Err(Error::ExpectedKeyWord(Keyword::Which))
        } else {
            de.rollback(start);
            decode_named_object(de, units)
        }
    }
}

/// Read a compound tagged as a quantity table: each key must be a string
/// naming a known unit, each value a number.
fn decode_amount(de: &mut Deserializer, units: &[Vec<u8>]) -> (r: Result<Value, Error>)
    requires
        old(de).wf(),
        units_ok(units@),
    ensures
        final(de).wf(),
        final(de).src@ == old(de).src@,
        final(de).index >= old(de).index,
        match r {
            Ok(v) => (v matches Value::Amount(_)) && wf_value(v) && final(de).index > old(
                de,
            ).index,
            Err(_) => true,
        },
    decreases old(de).src@.len() - old(de).index, 0int,
{
    let mut c = Compound::new();
    match c.describe(de) {
        Ok(()) => (),
        Err(e) => {
            return Err(e);
        },
    }
    if !c.is_object() {
        return Err(Error::ExpectedObjectEntry);
    }
    let mut a = Amount::new();
    loop
        invariant
            de.wf(),
            de.src@ == old(de).src@,
            de.index > old(de).index,
            units_ok(units@),
            wf_amount_entries(a.entries@),
        decreases de.src@.len() - de.index,
    {
        let entry_start = match c.next_key_start(de) {
            Ok(Some(st)) => st,
            Ok(None) => {
                break ;
            },
            Err(e) => {
                return Err(e);
            },
        };
        let raw = match de.parse_str_value() {
            Ok(s) => s,
            Err(e) => {
                return Err(e);
            },
        };
        let unit = dehumanize_snake(raw.as_slice());
        let known = match find_candidate(units, unit.as_slice()) {
            Some(i) => i,
            None => {
                return Err(Error::UnknownUnit);
            },
        };
        proof {
            assert(cand_views(units@)[known as int] == units@[known as int]@);
            assert(unit_name_ok(units@[known as int]@));
        }
        match c.next_key_end(de, entry_start) {
            Ok(true) => (),
            Ok(false) => {
                break ;
            },
            Err(e) => {
                return Err(e);
            },
        }
        let n = match de.parse_number() {
            Ok(n) => n,
            Err(e) => {
                return Err(e);
            },
        };
        amount_insert_wf(&mut a, unit, n);
    }
    Ok(Value::Amount(a))
}

/// Read a string-named compound as an object; its keys are strings put in
/// their snake form.
fn decode_named_object(de: &mut Deserializer, units: &[Vec<u8>]) -> (r: Result<Value, Error>)
    requires
        old(de).wf(),
        units_ok(units@),
    ensures
        final(de).wf(),
        final(de).src@ == old(de).src@,
        final(de).index >= old(de).index,
        match r {
            Ok(v) => (v matches Value::Object(_)) && wf_value(v) && final(de).index > old(
                de,
            ).index,
            Err(_) => true,
        },
    decreases old(de).src@.len() - old(de).index, 0int,
{
    let mut c = Compound::new();
    match c.describe(de) {
        Ok(()) => (),
        Err(e) => {
            return Err(e);
        },
    }
    if !c.is_object() {
        return Err(Error::ExpectedObjectEntry);
    }
    let mut m = ObjectMap::new();
    loop
        invariant
            de.wf(),
            de.src@ == old(de).src@,
            de.index > old(de).index,
            units_ok(units@),
            wf_map_keys(m.entries@),
            forall|i: int| 0 <= i < m.entries@.len() ==> wf_value(#[trigger] m.entries@[i].1),
        decreases de.src@.len() - de.index,
    {
        let entry_start = match c.next_key_start(de) {
            Ok(Some(st)) => st,
            Ok(None) => {
                break ;
            },
            Err(e) => {
                return Err(e);
            },
        };
        let raw = match de.parse_str_value() {
            Ok(s) => s,
            Err(e) => {
                return Err(e);
            },
        };
        let key = Key::String(dehumanize_snake(raw.as_slice()));
        match c.next_key_end(de, entry_start) {
            Ok(true) => (),
            Ok(false) => {
                break ;
            },
            Err(e) => {
                return Err(e);
            },
        }
        match decode_value(de, units) {
            Ok(v) => {
                object_insert_wf(&mut m, key, v);
            },
            Err(e) => {
                return Err(e);
            },
        }
    }
    Ok(Value::Object(m))
}

/// Read one value of the default data model from the front of a sentence;
/// trailing input is tolerated. No unit names are known, so quantities stay
/// plain strings.
pub fn from_str(src: &[u8]) -> (r: Result<Value, Error>)
    ensures
        r matches Ok(v) ==> wf_value(v),
        spec_pnext(src@) is None ==> r == Err::<Value, Error>(
            Error::Parse(crate::parser::ParseError::UnexpectedEof),
        ),
        match spec_pnext(src@) {
            Some((ParsedView::Token(t), _)) => {
                &&& spec_true_token(t) ==> r == Ok::<Value, Error>(Value::Bool(true))
                &&& spec_false_token(t) ==> r == Ok::<Value, Error>(Value::Bool(false))
                &&& spec_null_token(t) ==> r == Ok::<Value, Error>(Value::Null)
            },
            Some((ParsedView::Num(tok), _)) => r matches Ok(v) && (v matches Value::Number(n)
                && wf_number(n) && crate::num::num_matches_token(n, tok)),
            _ => true,
        },
        match spec_parse_string(src@) {
            Ok((st, body, _)) => r matches Ok(v) && spec_classified(
                spec_unescape(body, src@[st - 1]),
                Seq::empty(),
                v,
            ),
            Err(_) => true,
        },
        match spec_pnext(src@) {
            Some((ParsedView::Token(t), s1)) => (t == crate::lex::kw_the() && !(spec_pnext(s1)
                matches Some((ParsedView::Str(_), _)))) ==> match spec_describe(src@) {
                Ok((nm, sc, kd, emp, rest)) => spec_compound_shape(kd, emp, r),
                Err(e) => r == Err::<Value, Error>(e),
            },
            _ => true,
        },
        match spec_pnext(src@) {
            Some((ParsedView::Token(t), s1)) => t == crate::lex::kw_the()
                ==> spec_variant_shape_at(s1, r),
            _ => true,
        },
{
    let units: Vec<Vec<u8>> = Vec::new();
    let mut de = Deserializer::from_str(src);
    let r = decode_value(&mut de, units.as_slice());
    proof {
        assert(cand_views(units@) =~= cand_views(Seq::<Vec<u8>>::empty()));
        assert(units@ =~= Seq::<Vec<u8>>::empty());
    }
    r
}

/// Read one value of the default data model, with the unit names that
/// quantities may carry.
pub fn from_str_with_units(src: &[u8], units: &[Vec<u8>]) -> (r: Result<Value, Error>)
    requires
        units_ok(units@),
    ensures
        r matches Ok(v) ==> wf_value(v),
        spec_pnext(src@) is None ==> r == Err::<Value, Error>(
            Error::Parse(crate::parser::ParseError::UnexpectedEof),
        ),
        match spec_pnext(src@) {
            Some((ParsedView::Token(t), _)) => {
                &&& spec_true_token(t) ==> r == Ok::<Value, Error>(Value::Bool(true))
                &&& spec_false_token(t) ==> r == Ok::<Value, Error>(Value::Bool(false))
                &&& spec_null_token(t) ==> r == Ok::<Value, Error>(Value::Null)
            },
            Some((ParsedView::Num(tok), _)) => r matches Ok(v) && (v matches Value::Number(n)
                && wf_number(n) && crate::num::num_matches_token(n, tok)),
            _ => true,
        },
        match spec_parse_string(src@) {
            Ok((st, body, _)) => r matches Ok(v) && spec_classified(
                spec_unescape(body, src@[st - 1]),
                units@,
                v,
            ),
            Err(_) => true,
        },
        match spec_pnext(src@) {
            Some((ParsedView::Token(t), s1)) => (t == crate::lex::kw_the() && !(spec_pnext(s1)
                matches Some((ParsedView::Str(_), _)))) ==> match spec_describe(src@) {
                Ok((nm, sc, kd, emp, rest)) => spec_compound_shape(kd, emp, r),
                Err(e) => r == Err::<Value, Error>(e),
            },
            _ => true,
        },
        match spec_pnext(src@) {
            Some((ParsedView::Token(t), s1)) => t == crate::lex::kw_the()
                ==> spec_variant_shape_at(s1, r),
            _ => true,
        },
{
    let mut de = Deserializer::from_str(src);
    decode_value(&mut de, units)
}

/// An input of nothing but whitespace holds no item at all, so reading a
/// value from it fails with the end-of-input error.
pub proof fn lemma_blank_input_is_eof(s: Seq<u8>)
    requires
        forall|i: int| 0 <= i < s.len() ==> crate::parser::is_ws(s[i]),
    ensures
        spec_pnext(s) is None,
{
    crate::parser::lemma_ws_len_skip(s, s.len());
}

/// A bare word of letters is read back as exactly that token, with
/// nothing left over.
pub proof fn lemma_word_reads_back(w: Seq<u8>)
    requires
        w.len() > 0,
        forall|i: int|
            0 <= i < w.len() ==> 0x61 <= (#[trigger] w[i]) && w[i] <= 0x7a,
    ensures
        spec_pnext(w) == Some((ParsedView::Token(w), Seq::<u8>::empty())),
{
    crate::parser::lemma_ws_len_skip(w, 0);
    crate::parser::lemma_tok_len_skip(w, w.len());
    assert(w.skip(0) =~= w);
    assert(w.subrange(0, w.len() as int) =~= w);
    assert(w.skip(w.len() as int) =~= Seq::<u8>::empty());
    assert(!crate::num::is_number_token(w)) by {
        assert(crate::num::num_body(w) == w);
        assert(crate::num::digits_len(w) == 0);
    }
}

/// The sentences of the null value and of the two boolean values read back
/// as those values: the writer spells a single keyword and, by the
/// reader's contract, that keyword decodes to the value it stands for.
pub proof fn lemma_keyword_value_round_trip()
    ensures
        crate::ser::spec_encode(Value::Null, Seq::empty()) matches Ok((t, _)) && spec_pnext(t) == Some(
            (ParsedView::Token(t), Seq::<u8>::empty()),
        ) && spec_null_token(t),
        crate::ser::spec_encode(Value::Bool(true), Seq::empty()) matches Ok((t, _)) && spec_pnext(t) == Some(
            (ParsedView::Token(t), Seq::<u8>::empty()),
        ) && spec_true_token(t),
        crate::ser::spec_encode(Value::Bool(false), Seq::empty()) matches Ok((t, _)) && spec_pnext(t) == Some(
            (ParsedView::Token(t), Seq::<u8>::empty()),
        ) && spec_false_token(t),
{
    lemma_word_reads_back(crate::lex::kw_empty());
    lemma_word_reads_back(crate::lex::kw_true());
    lemma_word_reads_back(crate::lex::kw_false());
}

} // verus!
