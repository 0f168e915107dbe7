use vstd::prelude::*;

use crate::bytes::copy_range;
use crate::num::{is_number_token, num_matches_token, parse_num_token, wf_number, Number};

verus! {

/// Errors of the tokenizer. Offsets are byte positions into the slice the
/// failing call was given; the document cursor rebases them against the
/// whole input.
#[derive(Debug, Clone, Copy, PartialEq, Eq, Structural)]
pub enum ParseError {
    UnexpectedEof,
    InvalidString(usize),
    InvalidNumber(usize),
    ExpectedWhitespace(usize),
}

/// Whitespace, as the tokenizer understands it: ASCII space and the ASCII
/// control characters horizontal tab through carriage return.
pub open spec fn is_ws(b: u8) -> bool {
    b == 0x20 || (0x09 <= b && b <= 0x0d)
}

/// Length of the leading whitespace run of `s`.
pub open spec fn ws_len(s: Seq<u8>) -> nat
    decreases s.len(),
{
    if s.len() == 0 || !is_ws(s[0]) {
        0
    } else {
        (1 + ws_len(s.skip(1))) as nat
    }
}

/// Length of the leading run of non-whitespace bytes of `s`.
pub open spec fn tok_len(s: Seq<u8>) -> nat
    decreases s.len(),
{
    if s.len() == 0 || is_ws(s[0]) {
        0
    } else {
        (1 + tok_len(s.skip(1))) as nat
    }
}

pub proof fn lemma_ws_len_skip(s: Seq<u8>, i: nat)
    requires
        i <= s.len(),
        forall|j: int| 0 <= j < i ==> is_ws(s[j]),
        i == s.len() || !is_ws(s[i as int]),
    ensures
        ws_len(s) == i,
    decreases i,
{
    if i == 0 {
    } else {
        assert(is_ws(s[0]));
        lemma_ws_len_skip(s.skip(1), (i - 1) as nat);
    }
}

pub proof fn lemma_tok_len_skip(s: Seq<u8>, i: nat)
    requires
        i <= s.len(),
        forall|j: int| 0 <= j < i ==> !is_ws(s[j]),
        i == s.len() || is_ws(s[i as int]),
    ensures
        tok_len(s) == i,
    decreases i,
{
    if i == 0 {
    } else {
        assert(!is_ws(s[0]));
        lemma_tok_len_skip(s.skip(1), (i - 1) as nat);
    }
}

/// What `parse_token` returns on `s`: the byte offset where the token
/// starts, the token itself, and the remainder of the input from the first
/// byte after the whitespace that follows the token. `None` when `s` holds
/// nothing but whitespace.
pub open spec fn spec_parse_token(s: Seq<u8>) -> Option<(nat, Seq<u8>, Seq<u8>)> {
    let w = ws_len(s);
    if w == s.len() {
        None
    } else {
        let t = tok_len(s.skip(w as int));
        let e = w + t + ws_len(s.skip((w + t) as int));
        Some((w, s.subrange(w as int, (w + t) as int), s.skip(e as int)))
    }
}

/// Is `b` whitespace to the tokenizer?
pub fn ws_byte(b: u8) -> (r: bool)
    ensures
        r == is_ws(b),
{
    b == 0x20 || (0x09 <= b && b <= 0x0d)
}

/// Advance `i` over whitespace; returns the position of the first
/// non-whitespace byte at or after `from`, or the length of `src`.
fn skip_ws(src: &[u8], from: usize) -> (r: usize)
    requires
        from <= src@.len(),
    ensures
        from <= r <= src@.len(),
        ws_len(src@.skip(from as int)) == r - from,
        forall|j: int| from <= j < r ==> is_ws(src@[j]),
        r == src@.len() || !is_ws(src@[r as int]),
{
    let len = src.len();
    let mut i = from;
    while i < len && ws_byte(src[i])
        invariant
            from <= i <= len,
            len == src@.len(),
            forall|j: int| from <= j < i ==> is_ws(src@[j]),
        decreases len - i,
    {
        i = i + 1;
    }
    proof {
        lemma_ws_len_skip(src@.skip(from as int), (i - from) as nat);
    }
    i
}

/// Advance `i` over non-whitespace; returns the position of the first
/// whitespace byte at or after `from`, or the length of `src`.
fn skip_tok(src: &[u8], from: usize) -> (r: usize)
    requires
        from <= src@.len(),
    ensures
        from <= r <= src@.len(),
        tok_len(src@.skip(from as int)) == r - from,
        forall|j: int| from <= j < r ==> !is_ws(src@[j]),
        r == src@.len() || is_ws(src@[r as int]),
{
    let len = src.len();
    let mut i = from;
    while i < len && !ws_byte(src[i])
        invariant
            from <= i <= len,
            len == src@.len(),
            forall|j: int| from <= j < i ==> !is_ws(src@[j]),
        decreases len - i,
    {
        i = i + 1;
    }
    proof {
        lemma_tok_len_skip(src@.skip(from as int), (i - from) as nat);
    }
    i
}

/// Read the next whitespace-delimited token of `src`. Returns the byte
/// offset of the token's first byte, the token, and the rest of the input
/// starting at the first byte after the whitespace that follows the token.
/// Fails with `UnexpectedEof` when `src` is empty or all whitespace.
pub fn parse_token(src: &[u8]) -> (r: Result<(usize, &[u8], &[u8]), ParseError>)
    ensures
        match r {
            Ok((start, tok, rest)) => {
                &&& spec_parse_token(src@) == Some((start as nat, tok@, rest@))
                &&& tok@.len() > 0
                &&& start + tok@.len() + rest@.len() <= src@.len()
                &&& rest@ == src@.skip(src@.len() - rest@.len())
                &&& rest@.len() < src@.len()
            },
            Err(e) => e == ParseError::UnexpectedEof && spec_parse_token(src@) is None,
        },
{
    proof {
        assert(src@.skip(0) =~= src@);
    }
    let t_start = skip_ws(src, 0);
    if t_start == src.len() {
        return Err(ParseError::UnexpectedEof);
    }
    let t_end = skip_tok(src, t_start);
    let end = skip_ws(src, t_end);
    let tok = &src[t_start..t_end];
    let rest = &src[end..src.len()];
    proof {
        assert(src@.skip(end as int) =~= src@.subrange(end as int, src@.len() as int));
    }
    Ok((t_start, tok, rest))
}

/// Position of the closing delimiter: the least `j` at or after `i` where
/// `s[j]` is the delimiter and the byte before it is not the escape byte.
pub open spec fn find_close(s: Seq<u8>, i: nat, delim: u8, esc: u8) -> Option<nat>
    decreases s.len() - i,
        when i <= s.len()
{
    if i >= s.len() {
        None
    } else if s[i as int] == delim && (i == 0 || s[i - 1] != esc) {
        Some(i)
    } else {
        find_close(s, i + 1, delim, esc)
    }
}

pub proof fn lemma_find_close_skip(s: Seq<u8>, i0: nat, i: nat, delim: u8, esc: u8)
    requires
        i0 <= i <= s.len(),
        forall|j: int| i0 <= j < i ==> !(#[trigger] s[j] == delim && (j == 0 || s[j - 1] != esc)),
    ensures
        find_close(s, i0, delim, esc) == find_close(s, i, delim, esc),
    decreases i - i0,
{
    if i0 < i {
        lemma_find_close_skip(s, i0 + 1, i, delim, esc);
    }
}

/// What parsing a delimited literal out of `s` yields: the offset of the
/// first content byte, the content between the delimiters, and the rest of
/// the input after the whitespace that follows the closing delimiter.
/// The sole escape is the escape byte followed by the delimiter; an escaped
/// delimiter does not close the literal. A non-whitespace byte immediately
/// after the closing delimiter is an error.
pub open spec fn spec_parse_delimited(s: Seq<u8>, start_c: u8, end_c: u8, esc: u8) -> Result<
    (nat, Seq<u8>, Seq<u8>),
    ParseError,
> {
    let w = ws_len(s);
    if w == s.len() {
        Err(ParseError::UnexpectedEof)
    } else if s[w as int] != start_c {
        Err(ParseError::InvalidString(w as usize))
    } else {
        match find_close(s, w + 1, end_c, esc) {
            None => Err(ParseError::UnexpectedEof),
            Some(j) => {
                if j + 1 < s.len() && !is_ws(s[j + 1 as int]) {
                    Err(ParseError::ExpectedWhitespace((j + 1) as usize))
                } else {
                    let e = j + 1 + ws_len(s.skip(j + 1 as int));
                    Ok(((w + 1) as nat, s.subrange((w + 1) as int, j as int), s.skip(e as int)))
                }
            },
        }
    }
}

/// Read a delimited literal. Exactly `spec_parse_delimited`.
fn parse_delimited(src: &[u8], start_c: u8, end_c: u8, esc: u8) -> (r: Result<
    (usize, &[u8], &[u8]),
    ParseError,
>)
    ensures
        match r {
            Ok((start, content, rest)) => {
                &&& spec_parse_delimited(src@, start_c, end_c, esc) == Ok::<_, ParseError>(
                    (start as nat, content@, rest@),
                )
                &&& start + content@.len() + rest@.len() <= src@.len()
                &&& rest@ == src@.skip(src@.len() - rest@.len())
                &&& rest@.len() < src@.len()
            },
            Err(e) => spec_parse_delimited(src@, start_c, end_c, esc) == Err::<(nat, Seq<u8>, Seq<u8>), _>(e),
        },
{
    proof {
        assert(src@.skip(0) =~= src@);
    }
    let w = skip_ws(src, 0);
    if w == src.len() {
        return Err(ParseError::UnexpectedEof);
    }
    if src[w] != start_c {
        return Err(ParseError::InvalidString(w));
    }
    let len = src.len();
    let mut i = w + 1;
    let mut close: usize = 0;
    let mut found = false;
    while i < len && !(src[i] == end_c && src[i - 1] != esc)
        invariant
            w + 1 <= i <= len,
            len == src@.len(),
            w < len,
            forall|j: int| w + 1 <= j < i ==> !(#[trigger] src@[j] == end_c && (j == 0 || src@[j - 1] != esc)),
        decreases len - i,
    {
        i = i + 1;
    }
    proof {
        lemma_find_close_skip(src@, (w + 1) as nat, i as nat, end_c, esc);
    }
    if i == len {
        return Err(ParseError::UnexpectedEof);
    }
    close = i;
    if close + 1 < len && !ws_byte(src[close + 1]) {
        return Err(ParseError::ExpectedWhitespace(close + 1));
    }
    let e = skip_ws(src, close + 1);
    let content = &src[w + 1..close];
    let rest = &src[e..len];
    proof {
        assert(src@.skip(e as int) =~= src@.subrange(e as int, src@.len() as int));
    }
    Ok((w + 1, content, rest))
}

/// The back-tick, double-quote and single-quote delimiters and the
/// backslash escape.
pub open spec fn spec_parse_string(s: Seq<u8>) -> Result<(nat, Seq<u8>, Seq<u8>), ParseError> {
    let w = ws_len(s);
    if w == s.len() {
        Err(ParseError::UnexpectedEof)
    } else if s[w as int] == 0x60 || s[w as int] == 0x22 || s[w as int] == 0x27 {
        spec_parse_delimited(s, s[w as int], s[w as int], 0x5c)
    } else {
        Err(ParseError::InvalidString(w as usize))
    }
}

/// Read a string literal: the next non-whitespace byte must be one of the
/// three delimiters (back-tick, double quote, single quote); the literal
/// runs to the next unescaped occurrence of that same delimiter. Returns
/// the content with escapes still in place.
pub fn parse_string(src: &[u8]) -> (r: Result<(usize, &[u8], &[u8]), ParseError>)
    ensures
        match r {
            Ok((start, content, rest)) => {
                &&& spec_parse_string(src@) == Ok::<_, ParseError>((start as nat, content@, rest@))
                &&& start + content@.len() + rest@.len() <= src@.len()
                &&& start >= 1
                &&& rest@ == src@.skip(src@.len() - rest@.len())
                &&& rest@.len() < src@.len()
            },
            Err(e) => spec_parse_string(src@) == Err::<(nat, Seq<u8>, Seq<u8>), _>(e),
        },
{
    proof {
        assert(src@.skip(0) =~= src@);
    }
    let w = skip_ws(src, 0);
    if w == src.len() {
        return Err(ParseError::UnexpectedEof);
    }
    let d = src[w];
    if d == 0x60 || d == 0x22 || d == 0x27 {
        parse_delimited(src, d, d, 0x5c)
    } else {
        Err(ParseError::InvalidString(w))
    }
}

pub proof fn lemma_ws_len_le(s: Seq<u8>)
    ensures
        ws_len(s) <= s.len(),
    decreases s.len(),
{
    if s.len() > 0 && is_ws(s[0]) {
        lemma_ws_len_le(s.skip(1));
    }
}

pub proof fn lemma_tok_len_le(s: Seq<u8>)
    ensures
        tok_len(s) <= s.len(),
    decreases s.len(),
{
    if s.len() > 0 && !is_ws(s[0]) {
        lemma_tok_len_le(s.skip(1));
    }
}

proof fn lemma_find_close_in_range(s: Seq<u8>, i: nat, delim: u8, esc: u8)
    requires
        i <= s.len(),
    ensures
        find_close(s, i, delim, esc) matches Some(j) ==> i <= j < s.len(),
    decreases s.len() - i,
{
    if i < s.len() {
        lemma_find_close_in_range(s, i + 1, delim, esc);
    }
}

/// A successful token read consumes at least one byte.
pub proof fn lemma_parse_token_shrinks(s: Seq<u8>)
    ensures
        spec_parse_token(s) matches Some((_, _, r)) ==> r.len() < s.len(),
{
    let w = ws_len(s);
    lemma_ws_len_le(s);
    if w < s.len() {
        let t = tok_len(s.skip(w as int));
        lemma_tok_len_le(s.skip(w as int));
        lemma_ws_len_le(s.skip((w + t) as int));
        assert(t >= 1) by {
            lemma_ws_len_skip_stop(s);
        }
    }
}

proof fn lemma_ws_len_skip_stop(s: Seq<u8>)
    ensures
        ws_len(s) < s.len() ==> !is_ws(s[ws_len(s) as int]),
    decreases s.len(),
{
    if s.len() > 0 && is_ws(s[0]) {
        lemma_ws_len_skip_stop(s.skip(1));
    }
}

/// A successful string read consumes at least one byte.
pub proof fn lemma_parse_string_shrinks(s: Seq<u8>)
    ensures
        spec_parse_string(s) matches Ok((_, _, r)) ==> r.len() < s.len(),
{
    let w = ws_len(s);
    lemma_ws_len_le(s);
    if w < s.len() && (s[w as int] == 0x60 || s[w as int] == 0x22 || s[w as int] == 0x27) {
        let d = s[w as int];
        lemma_find_close_in_range(s, w + 1, d, 0x5c);
        match find_close(s, w + 1, d, 0x5c) {
            Some(j) => {
                lemma_ws_len_le(s.skip(j + 1 as int));
            },
            None => {},
        }
    }
}

/// One parsed item: a bare word, the content of a delimited string
/// (escapes still in place), or a number.
#[derive(Debug, Clone, PartialEq, Eq)]
pub enum Parsed {
    Token(Vec<u8>),
    Str(Vec<u8>),
    Number(Number),
}

/// Read the next token and require it to be numeric. On a non-numeric
/// token the error carries the token's start offset.
pub fn parse_number(src: &[u8]) -> (r: Result<(usize, Number, &[u8]), ParseError>)
    ensures
        match r {
            Ok((start, n, rest)) => {
                &&& spec_parse_token(src@) matches Some((s2, tok, r2)) && start == s2 && rest@
                    == r2 && is_number_token(tok) && wf_number(n) && num_matches_token(n, tok)
                &&& rest@ == src@.skip(src@.len() - rest@.len())
                &&& rest@.len() < src@.len()
            },
            Err(ParseError::UnexpectedEof) => spec_parse_token(src@) is None,
            Err(ParseError::InvalidNumber(i)) => spec_parse_token(src@) matches Some(
                (s2, tok, _),
            ) && i == s2 && !is_number_token(tok),
            Err(_) => false,
        },
{
    let (start, tok, rest) = match parse_token(src) {
        Ok(v) => v,
        Err(e) => {
            return Err(e);
        },
    };
    match parse_num_token(tok) {
        Some(n) => Ok((start, n, rest)),
        None => Err(ParseError::InvalidNumber(start)),
    }
}

/// Read the next item of any kind: a delimited string first, then a
/// number, then a bare token.
pub fn parse_next(src: &[u8]) -> (r: Result<(usize, Parsed, &[u8]), ParseError>)
    ensures
        match r {
            Ok((start, Parsed::Str(s), rest)) => {
                &&& spec_parse_string(src@) == Ok::<_, ParseError>((start as nat, s@, rest@))
                &&& rest@ == src@.skip(src@.len() - rest@.len())
                &&& rest@.len() < src@.len()
            },
            Ok((start, Parsed::Number(n), rest)) => {
                &&& spec_parse_string(src@) is Err
                &&& spec_parse_token(src@) matches Some((s2, tok, r2)) && start == s2 && rest@
                    == r2 && is_number_token(tok) && wf_number(n) && num_matches_token(n, tok)
                &&& rest@ == src@.skip(src@.len() - rest@.len())
                &&& rest@.len() < src@.len()
            },
            Ok((start, Parsed::Token(tok), rest)) => {
                &&& spec_parse_string(src@) is Err
                &&& spec_parse_token(src@) == Some((start as nat, tok@, rest@))
                &&& !is_number_token(tok@)
                &&& rest@ == src@.skip(src@.len() - rest@.len())
                &&& rest@.len() < src@.len()
            },
            Err(e) => {
                &&& e == ParseError::UnexpectedEof
                &&& spec_parse_string(src@) is Err
                &&& spec_parse_token(src@) is None
            },
        },
{
    match parse_string(src) {
        Ok((start, s, rest)) => {
            let owned = copy_range(s, 0, s.len());
            proof {
                assert(s@.subrange(0, s@.len() as int) =~= s@);
            }
            Ok((start, Parsed::Str(owned), rest))
        },
        Err(_) => {
            match parse_number(src) {
                Ok((start, n, rest)) => Ok((start, Parsed::Number(n), rest)),
                Err(_) => {
                    match parse_token(src) {
                        Ok((start, tok, rest)) => {
                            let owned = copy_range(tok, 0, tok.len());
                            proof {
                                assert(tok@.subrange(0, tok@.len() as int) =~= tok@);
                            }
                            Ok((start, Parsed::Token(owned), rest))
                        },
                        Err(e) => Err(e),
                    }
                },
            }
        },
    }
}

/// Every offset a failed string read reports lies inside the input.
pub proof fn lemma_string_err_bounds(s: Seq<u8>)
    ensures
        match spec_parse_string(s) {
            Err(ParseError::InvalidString(i)) => i < s.len(),
            Err(ParseError::ExpectedWhitespace(i)) => i < s.len(),
            Err(ParseError::InvalidNumber(i)) => i < s.len(),
            _ => true,
        },
{
    lemma_ws_len_le(s);
    let w = ws_len(s);
    if w < s.len() && (s[w as int] == 0x60 || s[w as int] == 0x22 || s[w as int] == 0x27) {
        let d = s[w as int];
        lemma_find_close_in_range(s, w + 1, d, 0x5c);
    }
}

/// The start offset of a token lies inside the input.
pub proof fn lemma_token_start_bound(s: Seq<u8>)
    ensures
        spec_parse_token(s) matches Some((st, _, _)) ==> st < s.len(),
{
    lemma_ws_len_le(s);
}

/// One parsed item, as the specification sees it: a bare word, a string
/// body, or a token of numeric shape (kept as its raw bytes).
pub enum ParsedView {
    Token(Seq<u8>),
    Str(Seq<u8>),
    Num(Seq<u8>),
}

/// What reading one item from `s` yields, and the remaining input: a
/// string wins over a number, a number over a bare word.
pub open spec fn spec_pnext(s: Seq<u8>) -> Option<(ParsedView, Seq<u8>)> {
    match spec_parse_string(s) {
        Ok((st, c, r)) => Some((ParsedView::Str(c), r)),
        Err(_) => match spec_parse_token(s) {
            Some((st, t, r)) => if is_number_token(t) {
                Some((ParsedView::Num(t), r))
            } else {
                Some((ParsedView::Token(t), r))
            },
            None => None,
        },
    }
}

pub proof fn lemma_pnext_shrinks(s: Seq<u8>)
    ensures
        spec_pnext(s) matches Some((_, r)) ==> r.len() < s.len(),
{
    lemma_parse_string_shrinks(s);
    lemma_parse_token_shrinks(s);
}

/// The exec item `p` denotes the spec item `pv`.
pub open spec fn parsed_matches(p: Parsed, pv: ParsedView) -> bool {
    match pv {
        ParsedView::Token(t) => p matches Parsed::Token(v) && v@ == t,
        ParsedView::Str(t) => p matches Parsed::Str(v) && v@ == t,
        ParsedView::Num(t) => p matches Parsed::Number(n) && wf_number(n) && num_matches_token(
            n,
            t,
        ),
    }
}

/// The remaining input after one keyword token, when the next item is
/// exactly that bare word.
pub open spec fn spec_after_kw(s: Seq<u8>, kw: Seq<u8>) -> Option<Seq<u8>> {
    match spec_pnext(s) {
        Some((ParsedView::Token(t), r)) => if t == kw {
            Some(r)
        } else {
            None
        },
        _ => None,
    }
}

} // verus!
