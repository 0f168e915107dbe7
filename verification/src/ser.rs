use vstd::prelude::*;

use crate::bytes::push_all;
use crate::error::Error;
use crate::lex::{
    kw_amount, kw_an, kw_and, kw_another, kw_custom_tag, kw_empty, kw_false, kw_henceforth,
    kw_is, kw_item, kw_list, kw_object, kw_of, kw_the, kw_true, kw_where, kw_which,
};
use crate::parser::{is_ws, ws_len};
use crate::value::{Amount, Key, ObjectMap, Value};

verus! {

/// A string body with every back-tick escaped.
pub open spec fn spec_escape(s: Seq<u8>) -> Seq<u8>
    decreases s.len(),
{
    if s.len() == 0 {
        Seq::empty()
    } else if s[0] == 0x60 {
        seq![0x5cu8, 0x60u8] + spec_escape(s.skip(1))
    } else {
        seq![s[0]] + spec_escape(s.skip(1))
    }
}

/// A string as it stands in a sentence: back-tick delimited, inner
/// back-ticks escaped.
pub open spec fn spec_format_str(s: Seq<u8>) -> Seq<u8> {
    seq![0x60u8] + spec_escape(s) + seq![0x60u8]
}

/// Wrap a string body in back-ticks, escaping the back-ticks it holds.
pub fn format_str(s: &[u8]) -> (r: Vec<u8>)
    ensures
        r@ == spec_format_str(s@),
{
    let len = s.len();
    let mut out: Vec<u8> = Vec::new();
    out.push(0x60);
    let mut i: usize = 0;
    proof {
        assert(s@.skip(0) =~= s@);
        assert(out@ =~= seq![0x60u8]);
    }
    while i < len
        invariant
            0 <= i <= len,
            len == s@.len(),
            seq![0x60u8] + spec_escape(s@) == out@ + spec_escape(s@.skip(i as int)),
        decreases len - i,
    {
        let ghost pre_out = out@;
        let ghost tail = s@.skip(i as int);
        proof {
            assert(tail[0] == s@[i as int]);
            assert(tail.skip(1) =~= s@.skip(i + 1));
        }
        let b = s[i];
        if b == 0x60 {
            out.push(0x5c);
            out.push(0x60);
            proof {
                assert(out@ =~= pre_out + seq![0x5cu8, 0x60u8]);
                assert(pre_out + (seq![0x5cu8, 0x60u8] + spec_escape(s@.skip(i + 1))) =~= (pre_out
                    + seq![0x5cu8, 0x60u8]) + spec_escape(s@.skip(i + 1)));
            }
        } else {
            out.push(b);
            proof {
                assert(out@ =~= pre_out + seq![b]);
                assert(pre_out + (seq![b] + spec_escape(s@.skip(i + 1))) =~= (pre_out + seq![b])
                    + spec_escape(s@.skip(i + 1)));
            }
        }
        i = i + 1;
    }
    out.push(0x60);
    proof {
        assert(s@.skip(len as int) =~= Seq::<u8>::empty());
        assert(out@ =~= (seq![0x60u8] + spec_escape(s@)) + seq![0x60u8]);
        assert(spec_format_str(s@) =~= (seq![0x60u8] + spec_escape(s@)) + seq![0x60u8]);
    }
    out
}

/// Escaping never puts a back-tick first: the first byte of the escaped
/// body is the escape byte when the body opens with a back-tick, and the
/// body's own first byte otherwise.
pub proof fn lemma_escape_first(s: Seq<u8>)
    ensures
        spec_escape(s).len() >= s.len(),
        spec_escape(s).len() == 0 <==> s.len() == 0,
        s.len() > 0 ==> spec_escape(s)[0] == (if s[0] == 0x60 {
            0x5cu8
        } else {
            s[0]
        }),
        s.len() > 0 ==> spec_escape(s)[0] != 0x60,
    decreases s.len(),
{
    if s.len() > 0 {
        lemma_escape_first(s.skip(1));
    }
}

/// Every back-tick of an escaped body sits right after an escape byte.
pub proof fn lemma_escape_no_bare_backtick(s: Seq<u8>)
    ensures
        forall|m: int|
            0 <= m < spec_escape(s).len() && #[trigger] spec_escape(s)[m] == 0x60 ==> m >= 1
                && spec_escape(s)[m - 1] == 0x5c,
    decreases s.len(),
{
    if s.len() > 0 {
        lemma_escape_no_bare_backtick(s.skip(1));
        lemma_escape_first(s.skip(1));
        let esc = spec_escape(s);
        let rest = spec_escape(s.skip(1));
        if s[0] == 0x60 {
            assert(esc == seq![0x5cu8, 0x60u8] + rest);
            assert forall|m: int|
                0 <= m < esc.len() && #[trigger] esc[m] == 0x60 implies m >= 1 && esc[m - 1]
                == 0x5c by {
                if m >= 2 {
                    assert(esc[m] == rest[m - 2]);
                    if m >= 3 {
                        assert(esc[m - 1] == rest[m - 3]);
                    } else {
                        assert(rest.len() > 0 && rest[0] != 0x60);
                    }
                }
            }
        } else {
            assert(esc == seq![s[0]] + rest);
            assert forall|m: int|
                0 <= m < esc.len() && #[trigger] esc[m] == 0x60 implies m >= 1 && esc[m - 1]
                == 0x5c by {
                assert(m >= 1);
                assert(esc[m] == rest[m - 1]);
                if m >= 2 {
                    assert(esc[m - 1] == rest[m - 2]);
                } else {
                    assert(rest.len() > 0 && rest[0] != 0x60);
                }
            }
        }
    }
}

/// The last byte of an escaped body: a back-tick when the body ends in
/// one, and the body's own last byte otherwise.
pub proof fn lemma_escape_last(s: Seq<u8>)
    ensures
        s.len() > 0 ==> spec_escape(s).last() == (if s.last() == 0x60 {
            0x60u8
        } else {
            s.last()
        }),
    decreases s.len(),
{
    if s.len() > 0 {
        lemma_escape_first(s.skip(1));
        lemma_escape_last(s.skip(1));
        let rest = spec_escape(s.skip(1));
        if s.len() == 1 {
            if s[0] == 0x60 {
                assert(spec_escape(s) =~= seq![0x5cu8, 0x60u8]);
            } else {
                assert(spec_escape(s) =~= seq![s[0]]);
            }
        } else {
            assert(s.skip(1).last() == s.last());
            if s[0] == 0x60 {
                assert(spec_escape(s).last() == rest.last());
            } else {
                assert(spec_escape(s).last() == rest.last());
            }
        }
    }
}

/// An ASCII capital letter.
pub open spec fn is_upper(b: u8) -> bool {
    0x41 <= b && b <= 0x5a
}

/// The lowercase form of an ASCII capital letter.
pub open spec fn to_lower(b: u8) -> u8 {
    if is_upper(b) {
        (b + 0x20) as u8
    } else {
        b
    }
}

/// Each pending capital spelled as a space and its lowercase form.
pub open spec fn spaced_lower(buf: Seq<u8>) -> Seq<u8>
    decreases buf.len(),
{
    if buf.len() == 0 {
        Seq::empty()
    } else {
        seq![0x20u8, to_lower(buf[0])] + spaced_lower(buf.skip(1))
    }
}

/// The humanizing walk: underscores become spaces, runs of three or more
/// capitals stay together as an acronym whose last letter starts the next
/// word, and shorter runs of capitals begin new lowercase words. `buf`
/// holds the capitals read but not yet placed.
pub open spec fn hum_rec(s: Seq<u8>, buf: Seq<u8>) -> Seq<u8>
    decreases s.len(),
{
    if s.len() == 0 {
        if buf.len() > 0 {
            seq![0x20u8] + buf
        } else {
            Seq::empty()
        }
    } else {
        let c = s[0];
        if c == 0x5f {
            seq![0x20u8] + hum_rec(s.skip(1), buf)
        } else if is_ws(c) {
            seq![c] + hum_rec(s.skip(1), buf)
        } else if is_upper(c) {
            hum_rec(s.skip(1), buf.push(c))
        } else if buf.len() > 2 {
            seq![0x20u8] + buf.drop_last() + seq![0x20u8, to_lower(buf.last()), c] + hum_rec(
                s.skip(1),
                Seq::empty(),
            )
        } else if buf.len() > 0 {
            spaced_lower(buf) + seq![c] + hum_rec(s.skip(1), Seq::empty())
        } else {
            seq![c] + hum_rec(s.skip(1), Seq::empty())
        }
    }
}

/// The length of the trailing whitespace run.
pub open spec fn ws_len_end(s: Seq<u8>) -> nat
    decreases s.len(),
{
    if s.len() == 0 || !is_ws(s.last()) {
        0
    } else {
        (1 + ws_len_end(s.drop_last())) as nat
    }
}

/// A text without its leading and trailing whitespace.
pub open spec fn spec_trim(s: Seq<u8>) -> Seq<u8> {
    if ws_len(s) == s.len() {
        Seq::empty()
    } else {
        s.subrange(ws_len(s) as int, s.len() - ws_len_end(s))
    }
}

/// A programmatic name as an English phrase.
pub open spec fn spec_humanize(s: Seq<u8>) -> Seq<u8> {
    spec_trim(hum_rec(s, Seq::empty()))
}

proof fn lemma_ws_len_end_run(s: Seq<u8>, i: nat)
    requires
        i <= s.len(),
        forall|j: int| s.len() - i <= j < s.len() ==> is_ws(s[j]),
        i == s.len() || !is_ws(s[s.len() - i - 1]),
    ensures
        ws_len_end(s) == i,
    decreases i,
{
    if i > 0 {
        assert(is_ws(s.last()));
        assert(forall|j: int|
            s.drop_last().len() - (i - 1) <= j < s.drop_last().len() ==> is_ws(
                #[trigger] s.drop_last()[j],
            ));
        lemma_ws_len_end_run(s.drop_last(), (i - 1) as nat);
    }
}

/// Cut the leading and trailing whitespace off.
fn trim(s: &Vec<u8>) -> (r: Vec<u8>)
    ensures
        r@ == spec_trim(s@),
{
    let len = s.len();
    let mut a: usize = 0;
    while a < len && crate::parser::ws_byte(s[a])
        invariant
            0 <= a <= len,
            len == s@.len(),
            forall|j: int| 0 <= j < a ==> is_ws(s@[j]),
        decreases len - a,
    {
        a = a + 1;
    }
    proof {
        crate::parser::lemma_ws_len_skip(s@, a as nat);
    }
    if a == len {
        return Vec::new();
    }
    let mut b = len;
    while b > a && crate::parser::ws_byte(s[b - 1])
        invariant
            a <= b <= len,
            len == s@.len(),
            a < len,
            !is_ws(s@[a as int]),
            forall|j: int| b <= j < len ==> is_ws(s@[j]),
        decreases b,
    {
        b = b - 1;
    }
    proof {
        assert(b > a);
        lemma_ws_len_end_run(s@, (len - b) as nat);
    }
    crate::bytes::copy_range(s.as_slice(), a, b)
}

/// Humanize a programmatic name: underscores become spaces, words split at
/// capital letters which are lowered, runs of three or more capitals are
/// kept together as acronyms, and outer whitespace is trimmed.
pub fn humanize(s: &[u8]) -> (r: Vec<u8>)
    ensures
        r@ == spec_humanize(s@),
{
    let len = s.len();
    let mut out: Vec<u8> = Vec::new();
    let mut buf: Vec<u8> = Vec::new();
    let mut i: usize = 0;
    proof {
        assert(s@.skip(0) =~= s@);
        assert(out@ + hum_rec(s@, buf@) =~= hum_rec(s@, Seq::empty()));
    }
    while i < len
        invariant
            0 <= i <= len,
            len == s@.len(),
            hum_rec(s@, Seq::empty()) == out@ + hum_rec(s@.skip(i as int), buf@),
        decreases len - i,
    {
        let ghost pre_out = out@;
        let ghost pre_buf = buf@;
        let ghost tail = s@.skip(i as int);
        proof {
            assert(tail[0] == s@[i as int]);
            assert(tail.skip(1) =~= s@.skip(i + 1));
        }
        let c = s[i];
        if c == 0x5f {
            out.push(0x20);
            proof {
                assert(out@ =~= pre_out + seq![0x20u8]);
                assert(pre_out + (seq![0x20u8] + hum_rec(s@.skip(i + 1), pre_buf)) =~= (pre_out
                    + seq![0x20u8]) + hum_rec(s@.skip(i + 1), pre_buf));
                assert(hum_rec(s@, Seq::empty()) == out@ + hum_rec(s@.skip(i + 1), buf@));
            }
        } else if crate::parser::ws_byte(c) {
            out.push(c);
            proof {
                assert(out@ =~= pre_out + seq![c]);
                assert(pre_out + (seq![c] + hum_rec(s@.skip(i + 1), pre_buf)) =~= (pre_out
                    + seq![c]) + hum_rec(s@.skip(i + 1), pre_buf));
                assert(hum_rec(s@, Seq::empty()) == out@ + hum_rec(s@.skip(i + 1), buf@));
            }
        } else if 0x41 <= c && c <= 0x5a {
            buf.push(c);
            proof {
                assert(buf@ =~= pre_buf.push(c));
                assert(hum_rec(s@, Seq::empty()) == out@ + hum_rec(s@.skip(i + 1), buf@));
            }
        } else if buf.len() > 2 {
            out.push(0x20);
            let last = buf[buf.len() - 1];
            let mut k: usize = 0;
            let n_keep = buf.len() - 1;
            proof {
                assert(pre_buf.drop_last().subrange(0, 0) =~= Seq::<u8>::empty());
                assert(out@ =~= pre_out + seq![0x20u8] + pre_buf.drop_last().subrange(0, 0));
            }
            while k < n_keep
                invariant
                    0 <= k <= n_keep,
                    n_keep == buf@.len() - 1,
                    buf@ == pre_buf,
                    out@ == pre_out + seq![0x20u8] + pre_buf.drop_last().subrange(0, k as int),
                decreases n_keep - k,
            {
                out.push(buf[k]);
                proof {
                    assert(pre_buf.drop_last().subrange(0, k + 1 as int) =~= pre_buf.drop_last()
                        .subrange(0, k as int).push(pre_buf[k as int]));
                    assert(out@ =~= pre_out + seq![0x20u8] + pre_buf.drop_last().subrange(
                        0,
                        k + 1 as int,
                    ));
                }
                k = k + 1;
            }
            out.push(0x20);
            out.push(if 0x41 <= last && last <= 0x5a {
                last + 0x20
            } else {
                last
            });
            out.push(c);
            buf.clear();
            proof {
                assert(pre_buf.drop_last().subrange(0, n_keep as int) =~= pre_buf.drop_last());
                assert(out@ =~= pre_out + (seq![0x20u8] + pre_buf.drop_last() + seq![
                    0x20u8,
                    to_lower(pre_buf.last()),
                    c,
                ]));
                assert(pre_out + (seq![0x20u8] + pre_buf.drop_last() + seq![
                    0x20u8,
                    to_lower(pre_buf.last()),
                    c,
                ] + hum_rec(s@.skip(i + 1), Seq::empty())) =~= (pre_out + (seq![0x20u8]
                    + pre_buf.drop_last() + seq![0x20u8, to_lower(pre_buf.last()), c])) + hum_rec(
                    s@.skip(i + 1),
                    Seq::empty(),
                ));
                assert(hum_rec(s@, Seq::empty()) == out@ + hum_rec(s@.skip(i + 1), buf@));
            }
        } else if buf.len() > 0 {
            let mut k: usize = 0;
            let n_all = buf.len();
            proof {
                assert(pre_buf.skip(0) =~= pre_buf);
            }
            while k < n_all
                invariant
                    0 <= k <= n_all,
                    n_all == buf@.len(),
                    buf@ == pre_buf,
                    out@ + spaced_lower(pre_buf.skip(k as int)) == pre_out + spaced_lower(pre_buf),
                decreases n_all - k,
            {
                let ghost ptail = pre_buf.skip(k as int);
                proof {
                    assert(ptail[0] == pre_buf[k as int]);
                    assert(ptail.skip(1) =~= pre_buf.skip(k + 1));
                }
                let ghost lo = out@;
                let bc = buf[k];
                out.push(0x20);
                out.push(if 0x41 <= bc && bc <= 0x5a {
                    bc + 0x20
                } else {
                    bc
                });
                proof {
                    assert(out@ =~= lo + seq![0x20u8, to_lower(pre_buf[k as int])]);
                    assert(lo + (seq![0x20u8, to_lower(pre_buf[k as int])] + spaced_lower(
                        pre_buf.skip(k + 1),
                    )) =~= (lo + seq![0x20u8, to_lower(pre_buf[k as int])]) + spaced_lower(
                        pre_buf.skip(k + 1),
                    ));
                }
                k = k + 1;
            }
            proof {
                assert(spaced_lower(pre_buf.skip(n_all as int)) =~= Seq::<u8>::empty());
                assert(out@ + Seq::<u8>::empty() =~= out@);
            }
            out.push(c);
            buf.clear();
            proof {
                assert(out@ =~= pre_out + spaced_lower(pre_buf) + seq![c]);
                assert(pre_out + (spaced_lower(pre_buf) + seq![c] + hum_rec(
                    s@.skip(i + 1),
                    Seq::empty(),
                )) =~= (pre_out + spaced_lower(pre_buf) + seq![c]) + hum_rec(
                    s@.skip(i + 1),
                    Seq::empty(),
                ));
                assert(hum_rec(s@, Seq::empty()) == out@ + hum_rec(s@.skip(i + 1), buf@));
            }
        } else {
            out.push(c);
            proof {
                assert(pre_buf =~= Seq::<u8>::empty());
                assert(out@ =~= pre_out + seq![c]);
                assert(pre_out + (seq![c] + hum_rec(s@.skip(i + 1), Seq::empty())) =~= (pre_out
                    + seq![c]) + hum_rec(s@.skip(i + 1), Seq::empty()));
                assert(hum_rec(s@, Seq::empty()) == out@ + hum_rec(s@.skip(i + 1), buf@));
            }
        }
        i = i + 1;
    }
    if buf.len() > 0 {
        out.push(0x20);
        push_all(&mut out, buf.as_slice());
        proof {
            assert(s@.skip(len as int) =~= Seq::<u8>::empty());
            assert(out@ =~= hum_rec(s@, Seq::empty()));
        }
    } else {
        proof {
            assert(s@.skip(len as int) =~= Seq::<u8>::empty());
            assert(out@ + Seq::<u8>::empty() =~= out@);
        }
    }
    trim(&out)
}

/// The views of a context stack.
pub open spec fn ctx_views(c: Seq<Vec<u8>>) -> Seq<Seq<u8>> {
    c.map_values(|p: Vec<u8>| p@)
}

/// The context phrases joined by single spaces.
pub open spec fn joined(c: Seq<Seq<u8>>) -> Seq<u8>
    decreases c.len(),
{
    if c.len() == 0 {
        Seq::empty()
    } else if c.len() == 1 {
        c[0]
    } else {
        c[0] + seq![0x20u8] + joined(c.skip(1))
    }
}

/// The context phrase a list pushes: `the list` at the top, `list` below.
pub open spec fn list_label(ctx: Seq<Seq<u8>>) -> Seq<u8> {
    if ctx.len() == 0 {
        kw_the() + seq![0x20u8] + kw_list()
    } else {
        kw_list()
    }
}

/// The context phrase an object pushes.
pub open spec fn object_label(ctx: Seq<Seq<u8>>) -> Seq<u8> {
    if ctx.len() == 0 {
        kw_the() + seq![0x20u8] + kw_object()
    } else {
        kw_object()
    }
}

/// The context phrase entry number `i` of a list pushes.
pub open spec fn item_label(i: nat) -> Seq<u8> {
    kw_item() + seq![0x20u8] + crate::num::u_text(i)
}

/// What a primitive key spells before the key rule is applied.
pub open spec fn key_bytes(k: Key) -> Seq<u8> {
    match k {
        Key::Bool(b) => if b {
            kw_true()
        } else {
            kw_false()
        },
        Key::Number(n) => crate::num::spec_num_text(n),
        Key::String(s) => spec_format_str(s@),
    }
}

/// The phrase of one object key and the context name it pushes: the key's
/// humanized form must be a back-tick string; its body is re-delimited,
/// with a leading `the` unless the body begins with the verb `is`.
pub open spec fn key_phrase(kb: Seq<u8>) -> Result<(Seq<u8>, Seq<u8>), Error> {
    let h = spec_humanize(kb);
    if h.len() > 1 && h[0] == 0x60 && h.last() == 0x60 {
        let name = h.subrange(1, h.len() - 1);
        if name.len() >= 3 && name.subrange(0, 3) == kw_is() + seq![0x20u8] {
            Ok((spec_format_str(name) + seq![0x20u8], name))
        } else {
            Ok(
                (
                    kw_the() + seq![0x20u8] + spec_format_str(name) + seq![0x20u8],
                    name,
                ),
            )
        }
    } else {
        Err(Error::UnexpectedKeyType)
    }
}

/// The text of one quantity: its number when the entry is one.
pub open spec fn amount_entry_text(v: Value) -> Seq<u8> {
    match v {
        Value::Number(n) => crate::num::spec_num_text(n),
        _ => Seq::empty(),
    }
}

/// The opening phrase before `where`: `of <parent>` when the previous
/// entry opened its own scope.
pub open spec fn of_scope_text(prev_scope: bool, parent: Seq<u8>) -> Seq<u8> {
    if prev_scope {
        kw_of() + seq![0x20u8] + spec_format_str(parent) + seq![0x20u8]
    } else {
        Seq::empty()
    }
}

/// The body of a list from its `i`-th entry on (counting from one);
/// `prev_scope` says whether the entry before opened a scope. Yields the
/// body text and whether any entry wrote an `of` clause.
pub open spec fn spec_encode_elems(
    vs: Seq<Value>,
    ctx2: Seq<Seq<u8>>,
    i: nat,
    prev_scope: bool,
) -> Result<(Seq<u8>, bool), Error>
    decreases vs, vs.len(),
{
    if vs.len() == 0 {
        Ok((Seq::empty(), false))
    } else {
        let sep: Seq<u8> = if i == 1 {
            seq![0x20u8] + kw_where() + seq![0x20u8] + kw_an() + seq![0x20u8]
        } else {
            seq![0x20u8] + kw_and() + seq![0x20u8] + kw_another() + seq![0x20u8]
        };
        let head = sep + kw_item() + seq![0x20u8] + of_scope_text(prev_scope, joined(ctx2));
        match spec_encode(vs[0], ctx2.push(item_label(i))) {
            Err(e) => Err(e),
            Ok((cb, csc)) => match spec_encode_elems(vs.skip(1), ctx2, i + 1, csc) {
                Err(e) => Err(e),
                Ok((rb, rf)) => Ok(
                    (head + kw_is() + seq![0x20u8] + cb + rb, prev_scope || rf),
                ),
            },
        }
    }
}

/// The body of an object from its `i`-th entry on.
pub open spec fn spec_encode_entries(
    es: Seq<(Key, Value)>,
    ctx2: Seq<Seq<u8>>,
    i: nat,
    prev_scope: bool,
) -> Result<(Seq<u8>, bool), Error>
    decreases es, es.len(),
{
    if es.len() == 0 {
        Ok((Seq::empty(), false))
    } else {
        let sep: Seq<u8> = if i == 1 {
            seq![0x20u8] + kw_where() + seq![0x20u8]
        } else {
            seq![0x20u8] + kw_and() + seq![0x20u8]
        };
        match key_phrase(key_bytes(es[0].0)) {
            Err(e) => Err(e),
            Ok((kp, kname)) => {
                let head = sep + kp + of_scope_text(prev_scope, joined(ctx2));
                match spec_encode(es[0].1, ctx2.push(kname)) {
                    Err(e) => Err(e),
                    Ok((cb, csc)) => match spec_encode_entries(es.skip(1), ctx2, i + 1, csc) {
                        Err(e) => Err(e),
                        Ok((rb, rf)) => Ok(
                            (head + kw_is() + seq![0x20u8] + cb + rb, prev_scope || rf),
                        ),
                    },
                }
            },
        }
    }
}

/// The body of a quantity table from its `i`-th entry on; keys are the
/// unit names as strings.
pub open spec fn spec_encode_units(
    es: Seq<(Vec<u8>, Value)>,
    ctx2: Seq<Seq<u8>>,
    i: nat,
    prev_scope: bool,
) -> Result<(Seq<u8>, bool), Error>
    decreases es, es.len(),
{
    if es.len() == 0 {
        Ok((Seq::empty(), false))
    } else {
        let sep: Seq<u8> = if i == 1 {
            seq![0x20u8] + kw_where() + seq![0x20u8]
        } else {
            seq![0x20u8] + kw_and() + seq![0x20u8]
        };
        match key_phrase(spec_format_str(es[0].0@)) {
            Err(e) => Err(e),
            Ok((kp, kname)) => {
                let head = sep + kp + of_scope_text(prev_scope, joined(ctx2));
                match spec_encode(es[0].1, ctx2.push(kname)) {
                    Err(e) => Err(e),
                    Ok((cb, csc)) => match spec_encode_units(es.skip(1), ctx2, i + 1, csc) {
                        Err(e) => Err(e),
                        Ok((rb, rf)) => Ok(
                            (head + kw_is() + seq![0x20u8] + cb + rb, prev_scope || rf),
                        ),
                    },
                }
            },
        }
    }
}

/// The sentence a value spells inside the given context, and whether the
/// value opened a scope of its own. A quantity of exactly one unit is a
/// single string `<number> <unit>`; any other quantity is an object tagged
/// `amount`; an opaque value is tagged `non standard object` and wraps its
/// inner value after `which is`.
pub open spec fn spec_encode(v: Value, ctx: Seq<Seq<u8>>) -> Result<(Seq<u8>, bool), Error>
    decreases v, 0nat,
{
    match v {
        Value::Null => Ok((kw_empty(), false)),
        Value::Bool(b) => Ok(
            (
                if b {
                    kw_true()
                } else {
                    kw_false()
                },
                false,
            ),
        ),
        Value::Number(n) => Ok((crate::num::spec_num_text(n), false)),
        Value::String(s) => Ok((spec_format_str(s@), false)),
        Value::DateTime(dt) => Ok((spec_format_str(crate::datetime::datetime_text(dt)), false)),
        Value::Date(d) => Ok((spec_format_str(crate::datetime::date_text(d)), false)),
        Value::Time(t) => Ok((spec_format_str(crate::datetime::time_text(t)), false)),
        Value::Array(vs) => {
            if vs.len() == 0 {
                Ok(
                    (
                        kw_the() + seq![0x20u8] + kw_empty() + seq![0x20u8] + kw_list(),
                        false,
                    ),
                )
            } else {
                let ctx2 = ctx.push(list_label(ctx));
                match spec_encode_elems(vs@, ctx2, 1, false) {
                    Err(e) => Err(e),
                    Ok((body, fired)) => {
                        let open = kw_the() + seq![0x20u8] + kw_list();
                        let hf: Seq<u8> = if fired {
                            seq![0x20u8] + kw_henceforth() + seq![0x20u8] + spec_format_str(
                                joined(ctx2),
                            )
                        } else {
                            Seq::empty()
                        };
                        Ok((open + hf + body, true))
                    },
                }
            }
        },
        Value::Object(m) => {
            if m.entries@.len() == 0 {
                Ok(
                    (
                        kw_the() + seq![0x20u8] + kw_empty() + seq![0x20u8] + kw_object(),
                        false,
                    ),
                )
            } else {
                let ctx2 = ctx.push(object_label(ctx));
                match spec_encode_entries(m.entries@, ctx2, 1, false) {
                    Err(e) => Err(e),
                    Ok((body, fired)) => {
                        let open = kw_the() + seq![0x20u8] + kw_object();
                        let hf: Seq<u8> = if fired {
                            seq![0x20u8] + kw_henceforth() + seq![0x20u8] + spec_format_str(
                                joined(ctx2),
                            )
                        } else {
                            Seq::empty()
                        };
                        Ok((open + hf + body, true))
                    },
                }
            }
        },
        Value::Amount(a) => {
            if a.entries@.len() == 1 {
                Ok(
                    (
                        spec_format_str(
                            amount_entry_text(a.entries@[0].1) + seq![0x20u8] + a.entries@[0].0@,
                        ),
                        false,
                    ),
                )
            } else if a.entries@.len() == 0 {
                Ok(
                    (
                        kw_the() + seq![0x20u8] + kw_empty() + seq![0x20u8] + spec_format_str(
                            spec_humanize(kw_amount()),
                        ),
                        false,
                    ),
                )
            } else {
                let ctx2 = ctx.push(spec_humanize(kw_amount()));
                match spec_encode_units(a.entries@, ctx2, 1, false) {
                    Err(e) => Err(e),
                    Ok((body, fired)) => {
                        let open = kw_the() + seq![0x20u8] + spec_format_str(
                            spec_humanize(kw_amount()),
                        );
                        let hf: Seq<u8> = if fired {
                            seq![0x20u8] + kw_henceforth() + seq![0x20u8] + spec_format_str(
                                joined(ctx2),
                            )
                        } else {
                            Seq::empty()
                        };
                        Ok((open + hf + body, true))
                    },
                }
            }
        },
        Value::Custom(b) => {
            match spec_encode(*b, ctx) {
                Err(e) => Err(e),
                Ok((ib, isc)) => Ok(
                    (
                        kw_the() + seq![0x20u8] + spec_format_str(spec_humanize(kw_custom_tag()))
                            + seq![0x20u8] + kw_which() + seq![0x20u8] + kw_is() + seq![0x20u8]
                            + ib,
                        isc,
                    ),
                ),
            }
        },
    }
}

proof fn lemma_joined_push(c: Seq<Seq<u8>>, x: Seq<u8>)
    ensures
        joined(c.push(x)) == if c.len() == 0 {
            x
        } else {
            joined(c) + seq![0x20u8] + x
        },
    decreases c.len(),
{
    if c.len() == 0 {
        assert(c.push(x)[0] == x);
    } else {
        assert(c.push(x).skip(1) =~= c.skip(1).push(x));
        lemma_joined_push(c.skip(1), x);
        if c.len() == 1 {
            assert(c.push(x)[0] == c[0]);
        } else {
            assert((c[0] + seq![0x20u8] + (joined(c.skip(1)) + seq![0x20u8] + x)) =~= ((c[0]
                + seq![0x20u8] + joined(c.skip(1))) + seq![0x20u8] + x));
        }
    }
}

/// The context stack joined into one phrase with single spaces.
fn join_ctx(ctx: &Vec<Vec<u8>>) -> (r: Vec<u8>)
    ensures
        r@ == joined(ctx_views(ctx@)),
{
    let n = ctx.len();
    let mut out: Vec<u8> = Vec::new();
    let mut i: usize = 0;
    proof {
        assert(ctx_views(ctx@.subrange(0, 0)) =~= Seq::<Seq<u8>>::empty());
    }
    while i < n
        invariant
            0 <= i <= n,
            n == ctx@.len(),
            out@ == joined(ctx_views(ctx@.subrange(0, i as int))),
        decreases n - i,
    {
        let ghost pre = ctx_views(ctx@.subrange(0, i as int));
        if i > 0 {
            out.push(0x20);
        }
        push_all(&mut out, ctx[i].as_slice());
        proof {
            assert(ctx_views(ctx@.subrange(0, i + 1 as int)) =~= pre.push(ctx@[i as int]@));
            lemma_joined_push(pre, ctx@[i as int]@);
            if i > 0 {
                assert(out@ =~= joined(pre) + seq![0x20u8] + ctx@[i as int]@);
            } else {
                assert(out@ =~= ctx@[i as int]@);
            }
        }
        i = i + 1;
    }
    proof {
        assert(ctx@.subrange(0, n as int) =~= ctx@);
    }
    out
}

/// The context phrase of list entry `i`.
pub fn item_label_vec(i: u64) -> (r: Vec<u8>)
    ensures
        r@ == item_label(i as nat),
{
    let mut out = crate::lex::kw_item_vec();
    out.push(0x20);
    let digits = crate::num::u64_text(i);
    push_all(&mut out, digits.as_slice());
    proof {
        assert(out@ =~= item_label(i as nat));
    }
    out
}

/// The serialized form of a primitive key.
fn key_bytes_vec(k: &Key) -> (r: Vec<u8>)
    ensures
        r@ == key_bytes(*k),
{
    match k {
        Key::Bool(b) => if *b {
            crate::lex::kw_true_vec()
        } else {
            crate::lex::kw_false_vec()
        },
        Key::Number(n) => crate::num::num_to_text(n),
        Key::String(s) => format_str(s.as_slice()),
    }
}

/// Apply the key rule to a serialized key: its humanized form must be a
/// back-tick string; yields the phrase and the context name.
pub fn key_phrase_vec(kb: &[u8]) -> (r: Result<(Vec<u8>, Vec<u8>), Error>)
    ensures
        match r {
            Ok((p, nm)) => key_phrase(kb@) == Ok::<_, Error>((p@, nm@)),
            Err(e) => key_phrase(kb@) == Err::<(Seq<u8>, Seq<u8>), _>(e),
        },
{
    let h = humanize(kb);
    let hl = h.len();
    if !(hl > 1 && h[0] == 0x60 && h[hl - 1] == 0x60) {
        return Err(Error::UnexpectedKeyType);
    }
    let name = crate::bytes::copy_range(h.as_slice(), 1, hl - 1);
    let bare = name.len() >= 3 && name[0] == 0x69 && name[1] == 0x73 && name[2] == 0x20;
    proof {
        let nv = spec_humanize(kb@).subrange(1, spec_humanize(kb@).len() - 1);
        assert(name@ =~= nv);
        if bare {
            assert(name@.subrange(0, 3) =~= kw_is() + seq![0x20u8]);
        } else {
            if name@.len() >= 3 {
                assert(name@.subrange(0, 3)[0] == name@[0]);
                assert(name@.subrange(0, 3)[1] == name@[1]);
                assert(name@.subrange(0, 3)[2] == name@[2]);
                assert((kw_is() + seq![0x20u8])[0] == 0x69);
                assert((kw_is() + seq![0x20u8])[1] == 0x73);
                assert((kw_is() + seq![0x20u8])[2] == 0x20);
            }
        }
    }
    let mut phrase: Vec<u8> = Vec::new();
    if !bare {
        push_all(&mut phrase, crate::lex::kw_the_vec().as_slice());
        phrase.push(0x20);
    }
    let fs = format_str(name.as_slice());
    push_all(&mut phrase, fs.as_slice());
    phrase.push(0x20);
    proof {
        if bare {
            assert(phrase@ =~= spec_format_str(name@) + seq![0x20u8]);
        } else {
            assert(phrase@ =~= kw_the() + seq![0x20u8] + spec_format_str(name@) + seq![0x20u8]);
        }
    }
    Ok((phrase, name))
}

/// The opening phrase of an empty compound.
fn empty_compound_vec(descriptor: Vec<u8>) -> (r: Vec<u8>)
    ensures
        r@ == kw_the() + seq![0x20u8] + kw_empty() + seq![0x20u8] + descriptor@,
{
    let mut out = crate::lex::kw_the_vec();
    out.push(0x20);
    push_all(&mut out, crate::lex::kw_empty_vec().as_slice());
    out.push(0x20);
    push_all(&mut out, descriptor.as_slice());
    proof {
        assert(out@ =~= kw_the() + seq![0x20u8] + kw_empty() + seq![0x20u8] + descriptor@);
    }
    out
}

/// Render a whole value as a sentence, inside the given context stack. The
/// second result says whether the value opened a scope of its own.
pub fn encode_value(v: &Value, ctx: &mut Vec<Vec<u8>>) -> (r: Result<(Vec<u8>, bool), Error>)
    ensures
        final(ctx)@ == old(ctx)@,
        match r {
            Ok((b, sc)) => spec_encode(*v, ctx_views(old(ctx)@)) == Ok::<_, Error>((b@, sc)),
            Err(e) => spec_encode(*v, ctx_views(old(ctx)@)) == Err::<(Seq<u8>, bool), _>(e),
        },
    decreases *v, 1nat,
{
    match v {
        Value::Null => Ok((crate::lex::kw_empty_vec(), false)),
        Value::Bool(b) => Ok(
            (
                if *b {
                    crate::lex::kw_true_vec()
                } else {
                    crate::lex::kw_false_vec()
                },
                false,
            ),
        ),
        Value::Number(n) => Ok((crate::num::num_to_text(n), false)),
        Value::String(s) => Ok((format_str(s.as_slice()), false)),
        Value::DateTime(dt) => {
            let t = crate::datetime::format_datetime(dt);
            Ok((format_str(t.as_slice()), false))
        },
        Value::Date(d) => {
            let t = crate::datetime::format_date(d);
            Ok((format_str(t.as_slice()), false))
        },
        Value::Time(t) => {
            let tx = crate::datetime::format_time(t);
            Ok((format_str(tx.as_slice()), false))
        },
        Value::Array(vs) => encode_list(vs, ctx),
        Value::Object(m) => encode_object(m, ctx),
        Value::Amount(a) => encode_amount(a, ctx),
        Value::Custom(b) => {
            let inner = match encode_value(b, ctx) {
                Ok(iv) => iv,
                Err(e) => {
                    return Err(e);
                },
            };
            let mut out = crate::lex::kw_the_vec();
            out.push(0x20);
            let tag = crate::lex::kw_custom_tag_vec();
            let tagh = humanize(tag.as_slice());
            let tagf = format_str(tagh.as_slice());
            push_all(&mut out, tagf.as_slice());
            out.push(0x20);
            push_all(&mut out, crate::lex::kw_which_vec().as_slice());
            out.push(0x20);
            push_all(&mut out, crate::lex::kw_is_vec().as_slice());
            out.push(0x20);
            push_all(&mut out, inner.0.as_slice());
            proof {
                assert(out@ =~= kw_the() + seq![0x20u8] + spec_format_str(
                    spec_humanize(kw_custom_tag()),
                ) + seq![0x20u8] + kw_which() + seq![0x20u8] + kw_is() + seq![0x20u8] + inner.0@);
            }
            Ok((out, inner.1))
        },
    }
}

/// The separator a list entry starts with.
fn elem_sep(first: bool) -> (r: Vec<u8>)
    ensures
        first ==> r@ == seq![0x20u8] + kw_where() + seq![0x20u8] + kw_an() + seq![0x20u8],
        !first ==> r@ == seq![0x20u8] + kw_and() + seq![0x20u8] + kw_another() + seq![0x20u8],
{
    let mut out: Vec<u8> = Vec::new();
    out.push(0x20);
    if first {
        push_all(&mut out, crate::lex::kw_where_vec().as_slice());
        out.push(0x20);
        push_all(&mut out, crate::lex::kw_an_vec().as_slice());
        out.push(0x20);
        proof {
            assert(out@ =~= seq![0x20u8] + kw_where() + seq![0x20u8] + kw_an() + seq![0x20u8]);
        }
    } else {
        push_all(&mut out, crate::lex::kw_and_vec().as_slice());
        out.push(0x20);
        push_all(&mut out, crate::lex::kw_another_vec().as_slice());
        out.push(0x20);
        proof {
            assert(out@ =~= seq![0x20u8] + kw_and() + seq![0x20u8] + kw_another() + seq![0x20u8]);
        }
    }
    out
}

/// The separator an object entry starts with.
fn entry_sep(first: bool) -> (r: Vec<u8>)
    ensures
        first ==> r@ == seq![0x20u8] + kw_where() + seq![0x20u8],
        !first ==> r@ == seq![0x20u8] + kw_and() + seq![0x20u8],
{
    let mut out: Vec<u8> = Vec::new();
    out.push(0x20);
    if first {
        push_all(&mut out, crate::lex::kw_where_vec().as_slice());
    } else {
        push_all(&mut out, crate::lex::kw_and_vec().as_slice());
    }
    out.push(0x20);
    proof {
        if first {
            assert(out@ =~= seq![0x20u8] + kw_where() + seq![0x20u8]);
        } else {
            assert(out@ =~= seq![0x20u8] + kw_and() + seq![0x20u8]);
        }
    }
    out
}

/// The clause that hands an entry back to an outer scope.
fn of_scope_vec(prev_scope: bool, parent: &Vec<u8>) -> (r: Vec<u8>)
    ensures
        r@ == of_scope_text(prev_scope, parent@),
{
    let mut out: Vec<u8> = Vec::new();
    if prev_scope {
        push_all(&mut out, crate::lex::kw_of_vec().as_slice());
        out.push(0x20);
        let f = format_str(parent.as_slice());
        push_all(&mut out, f.as_slice());
        out.push(0x20);
        proof {
            assert(out@ =~= kw_of() + seq![0x20u8] + spec_format_str(parent@) + seq![0x20u8]);
        }
    } else {
        proof {
            assert(out@ =~= of_scope_text(false, parent@));
        }
    }
    out
}

/// The opening phrase of a nonempty compound, with its alias when one is
/// owed.
fn compound_open(descriptor: Vec<u8>, fired: bool, parent: &Vec<u8>, body: Vec<u8>) -> (r: Vec<u8>)
    ensures
        fired ==> r@ == kw_the() + seq![0x20u8] + descriptor@ + (seq![0x20u8] + kw_henceforth()
            + seq![0x20u8] + spec_format_str(parent@)) + body@,
        !fired ==> r@ == kw_the() + seq![0x20u8] + descriptor@ + body@,
{
    let mut out = crate::lex::kw_the_vec();
    out.push(0x20);
    push_all(&mut out, descriptor.as_slice());
    if fired {
        out.push(0x20);
        push_all(&mut out, crate::lex::kw_henceforth_vec().as_slice());
        out.push(0x20);
        let f = format_str(parent.as_slice());
        push_all(&mut out, f.as_slice());
        proof {
            assert(out@ =~= kw_the() + seq![0x20u8] + descriptor@ + (seq![0x20u8]
                + kw_henceforth() + seq![0x20u8] + spec_format_str(parent@)));
        }
    }
    push_all(&mut out, body.as_slice());
    proof {
        if fired {
            assert(out@ =~= kw_the() + seq![0x20u8] + descriptor@ + (seq![0x20u8]
                + kw_henceforth() + seq![0x20u8] + spec_format_str(parent@)) + body@);
        } else {
            assert(out@ =~= kw_the() + seq![0x20u8] + descriptor@ + body@);
        }
    }
    out
}

/// Render a list: `the list where an item is … and another item is …`,
/// with `of` clauses where an entry follows a scope and a `henceforth`
/// alias when any such clause was written.
#[verifier::rlimit(80)]
fn encode_list(vs: &Vec<Value>, ctx: &mut Vec<Vec<u8>>) -> (r: Result<(Vec<u8>, bool), Error>)
    ensures
        final(ctx)@ == old(ctx)@,
        match r {
            Ok((b, sc)) => spec_encode(Value::Array(*vs), ctx_views(old(ctx)@)) == Ok::<_, Error>(
                (b@, sc),
            ),
            Err(e) => spec_encode(Value::Array(*vs), ctx_views(old(ctx)@)) == Err::<
                (Seq<u8>, bool),
                _,
            >(e),
        },
    decreases vs@, 0nat,
{
    let ghost ctx0 = ctx_views(ctx@);
    let n = vs.len();
    if n == 0 {
        let out = empty_compound_vec(crate::lex::kw_list_vec());
        return Ok((out, false));
    }
    let label: Vec<u8> = if ctx.len() == 0 {
        let mut l = crate::lex::kw_the_vec();
        l.push(0x20);
        push_all(&mut l, crate::lex::kw_list_vec().as_slice());
        proof {
            assert(l@ =~= list_label(ctx0));
        }
        l
    } else {
        crate::lex::kw_list_vec()
    };
    ctx.push(label);
    let ghost pctx = ctx@;
    let ghost ctx2v = ctx_views(ctx@);
    proof {
        assert(ctx2v =~= ctx0.push(list_label(ctx0)));
    }
    let parent = join_ctx(ctx);
    let mut body: Vec<u8> = Vec::new();
    let mut fired = false;
    let mut ps = false;
    let mut k: usize = 0;
    proof {
        assert(vs@.skip(0) =~= vs@);
    }
    while k < n
        invariant
            0 <= k <= n,
            n == vs@.len(),
            ctx@ == pctx,
            pctx.len() == old(ctx)@.len() + 1,
            pctx.drop_last() == old(ctx)@,
            ctx2v == ctx_views(pctx),
            ctx2v == ctx_views(old(ctx)@).push(list_label(ctx_views(old(ctx)@))),
            parent@ == joined(ctx2v),
            spec_encode_elems(vs@, ctx2v, 1, false) == (match spec_encode_elems(
                vs@.skip(k as int),
                ctx2v,
                (k + 1) as nat,
                ps,
            ) {
                Err(e) => Err(e),
                Ok((rb, rf)) => Ok(((body@ + rb), fired || rf)),
            }),
        decreases n - k,
    {
        let ghost tail = vs@.skip(k as int);
        let ghost pre_body = body@;
        let ghost pre_fired = fired;
        let ghost pre_ps = ps;
        proof {
            assert(tail[0] == vs@[k as int]);
            assert(tail.skip(1) =~= vs@.skip(k + 1));
        }
        let sep = elem_sep(k == 0);
        push_all(&mut body, sep.as_slice());
        push_all(&mut body, crate::lex::kw_item_vec().as_slice());
        body.push(0x20);
        let ofs = of_scope_vec(ps, &parent);
        push_all(&mut body, ofs.as_slice());
        push_all(&mut body, crate::lex::kw_is_vec().as_slice());
        body.push(0x20);
        let lbl = item_label_vec((k + 1) as u64);
        ctx.push(lbl);
        proof {
            assert(ctx_views(ctx@) =~= ctx2v.push(item_label((k + 1) as nat)));
        }
        let cres = encode_value(&vs[k], ctx);
        let popped = ctx.pop();
        proof {
            assert(ctx@ =~= pctx);
        }
        let (cb, csc) = match cres {
            Ok(v) => v,
            Err(e) => {
                let dropped = ctx.pop();
                proof {
                    assert(ctx@ =~= old(ctx)@);
                }
                return Err(e);
            },
        };
        push_all(&mut body, cb.as_slice());
        proof {
            let sepv: Seq<u8> = if k == 0 {
                seq![0x20u8] + kw_where() + seq![0x20u8] + kw_an() + seq![0x20u8]
            } else {
                seq![0x20u8] + kw_and() + seq![0x20u8] + kw_another() + seq![0x20u8]
            };
            let head = sepv + kw_item() + seq![0x20u8] + of_scope_text(pre_ps, joined(ctx2v));
            assert(body@ =~= pre_body + (head + kw_is() + seq![0x20u8] + cb@));
            assert forall|rb: Seq<u8>| true implies (pre_body + ((head + kw_is() + seq![0x20u8]
                + cb@) + rb)) =~= (body@ + rb) by {}
        }
        fired = fired || ps;
        ps = csc;
        k = k + 1;
    }
    proof {
        assert(vs@.skip(n as int) =~= Seq::<Value>::empty());
        assert(body@ + Seq::<u8>::empty() =~= body@);
    }
    let popped = ctx.pop();
    proof {
        assert(ctx@ =~= old(ctx)@);
    }
    let out = compound_open(crate::lex::kw_list_vec(), fired, &parent, body);
    proof {
        if fired {
            assert(out@ =~= kw_the() + seq![0x20u8] + kw_list() + (seq![0x20u8] + kw_henceforth()
                + seq![0x20u8] + spec_format_str(joined(ctx2v))) + body@);
        } else {
            assert(out@ =~= kw_the() + seq![0x20u8] + kw_list() + body@);
        }
    }
    Ok((out, true))
}

/// Render an object: `the object where the <key> is … and the <key> is …`,
/// with the same scope rules as lists. A key that does not humanize to a
/// back-tick string is an error.
#[verifier::rlimit(80)]
fn encode_object(m: &ObjectMap, ctx: &mut Vec<Vec<u8>>) -> (r: Result<(Vec<u8>, bool), Error>)
    ensures
        final(ctx)@ == old(ctx)@,
        match r {
            Ok((b, sc)) => spec_encode(Value::Object(*m), ctx_views(old(ctx)@)) == Ok::<_, Error>(
                (b@, sc),
            ),
            Err(e) => spec_encode(Value::Object(*m), ctx_views(old(ctx)@)) == Err::<
                (Seq<u8>, bool),
                _,
            >(e),
        },
    decreases m.entries@, 0nat,
{
    let ghost ctx0 = ctx_views(ctx@);
    let n = m.entries.len();
    if n == 0 {
        let out = empty_compound_vec(crate::lex::kw_object_vec());
        return Ok((out, false));
    }
    let label: Vec<u8> = if ctx.len() == 0 {
        let mut l = crate::lex::kw_the_vec();
        l.push(0x20);
        push_all(&mut l, crate::lex::kw_object_vec().as_slice());
        proof {
            assert(l@ =~= object_label(ctx0));
        }
        l
    } else {
        crate::lex::kw_object_vec()
    };
    ctx.push(label);
    let ghost pctx = ctx@;
    let ghost ctx2v = ctx_views(ctx@);
    proof {
        assert(ctx2v =~= ctx0.push(object_label(ctx0)));
    }
    let parent = join_ctx(ctx);
    let mut body: Vec<u8> = Vec::new();
    let mut fired = false;
    let mut ps = false;
    let mut k: usize = 0;
    proof {
        assert(m.entries@.skip(0) =~= m.entries@);
    }
    while k < n
        invariant
            0 <= k <= n,
            n == m.entries@.len(),
            ctx@ == pctx,
            pctx.len() == old(ctx)@.len() + 1,
            pctx.drop_last() == old(ctx)@,
            ctx2v == ctx_views(pctx),
            ctx2v == ctx_views(old(ctx)@).push(object_label(ctx_views(old(ctx)@))),
            parent@ == joined(ctx2v),
            spec_encode_entries(m.entries@, ctx2v, 1, false) == (match spec_encode_entries(
                m.entries@.skip(k as int),
                ctx2v,
                (k + 1) as nat,
                ps,
            ) {
                Err(e) => Err(e),
                Ok((rb, rf)) => Ok(((body@ + rb), fired || rf)),
            }),
        decreases n - k,
    {
        let ghost tail = m.entries@.skip(k as int);
        let ghost pre_body = body@;
        let ghost pre_ps = ps;
        proof {
            assert(tail[0] == m.entries@[k as int]);
            assert(tail.skip(1) =~= m.entries@.skip(k + 1));
        }
        let sep = entry_sep(k == 0);
        push_all(&mut body, sep.as_slice());
        let kb = key_bytes_vec(&m.entries[k].0);
        let (kp, kname) = match key_phrase_vec(kb.as_slice()) {
            Ok(v) => v,
            Err(e) => {
                let dropped = ctx.pop();
                proof {
                    assert(ctx@ =~= old(ctx)@);
                }
                return Err(e);
            },
        };
        push_all(&mut body, kp.as_slice());
        let ofs = of_scope_vec(ps, &parent);
        push_all(&mut body, ofs.as_slice());
        push_all(&mut body, crate::lex::kw_is_vec().as_slice());
        body.push(0x20);
        ctx.push(kname);
        proof {
            assert(ctx_views(ctx@) =~= ctx2v.push(
                key_phrase(key_bytes(m.entries@[k as int].0)).unwrap().1,
            ));
        }
        let cres = encode_value(&m.entries[k].1, ctx);
        let popped = ctx.pop();
        proof {
            assert(ctx@ =~= pctx);
        }
        let (cb, csc) = match cres {
            Ok(v) => v,
            Err(e) => {
                let dropped = ctx.pop();
                proof {
                    assert(ctx@ =~= old(ctx)@);
                }
                return Err(e);
            },
        };
        push_all(&mut body, cb.as_slice());
        proof {
            let sepv: Seq<u8> = if k == 0 {
                seq![0x20u8] + kw_where() + seq![0x20u8]
            } else {
                seq![0x20u8] + kw_and() + seq![0x20u8]
            };
            let kpv = key_phrase(key_bytes(m.entries@[k as int].0)).unwrap().0;
            let head = sepv + kpv + of_scope_text(pre_ps, joined(ctx2v));
            assert(body@ =~= pre_body + (head + kw_is() + seq![0x20u8] + cb@));
            assert forall|rb: Seq<u8>| true implies (pre_body + ((head + kw_is() + seq![0x20u8]
                + cb@) + rb)) =~= (body@ + rb) by {}
        }
        fired = fired || ps;
        ps = csc;
        k = k + 1;
    }
    proof {
        assert(m.entries@.skip(n as int) =~= Seq::<(Key, Value)>::empty());
        assert(body@ + Seq::<u8>::empty() =~= body@);
    }
    let popped = ctx.pop();
    proof {
        assert(ctx@ =~= old(ctx)@);
    }
    let out = compound_open(crate::lex::kw_object_vec(), fired, &parent, body);
    proof {
        if fired {
            assert(out@ =~= kw_the() + seq![0x20u8] + kw_object() + (seq![0x20u8]
                + kw_henceforth() + seq![0x20u8] + spec_format_str(joined(ctx2v))) + body@);
        } else {
            assert(out@ =~= kw_the() + seq![0x20u8] + kw_object() + body@);
        }
    }
    Ok((out, true))
}

/// Render a quantity table: one entry becomes the string
/// `<number> <unit>`; any other count becomes an object tagged `amount`.
#[verifier::rlimit(80)]
fn encode_amount(a: &Amount, ctx: &mut Vec<Vec<u8>>) -> (r: Result<(Vec<u8>, bool), Error>)
    ensures
        final(ctx)@ == old(ctx)@,
        match r {
            Ok((b, sc)) => spec_encode(Value::Amount(*a), ctx_views(old(ctx)@)) == Ok::<_, Error>(
                (b@, sc),
            ),
            Err(e) => spec_encode(Value::Amount(*a), ctx_views(old(ctx)@)) == Err::<
                (Seq<u8>, bool),
                _,
            >(e),
        },
    decreases a.entries@, 0nat,
{
    let ghost ctx0 = ctx_views(ctx@);
    let n = a.entries.len();
    let tag = crate::lex::kw_amount_vec();
    let tagh = humanize(tag.as_slice());
    if n == 1 {
        let mut t: Vec<u8> = match &a.entries[0].1 {
            Value::Number(num) => crate::num::num_to_text(num),
            _ => Vec::new(),
        };
        t.push(0x20);
        push_all(&mut t, a.entries[0].0.as_slice());
        proof {
            assert(t@ =~= amount_entry_text(a.entries@[0].1) + seq![0x20u8] + a.entries@[0].0@);
        }
        return Ok((format_str(t.as_slice()), false));
    }
    if n == 0 {
        let out = empty_compound_vec(format_str(tagh.as_slice()));
        return Ok((out, false));
    }
    let label = humanize(tag.as_slice());
    ctx.push(label);
    let ghost pctx = ctx@;
    let ghost ctx2v = ctx_views(ctx@);
    proof {
        assert(ctx2v =~= ctx0.push(spec_humanize(kw_amount())));
    }
    let parent = join_ctx(ctx);
    let mut body: Vec<u8> = Vec::new();
    let mut fired = false;
    let mut ps = false;
    let mut k: usize = 0;
    proof {
        assert(a.entries@.skip(0) =~= a.entries@);
    }
    while k < n
        invariant
            0 <= k <= n,
            n == a.entries@.len(),
            n >= 2,
            ctx@ == pctx,
            pctx.len() == old(ctx)@.len() + 1,
            pctx.drop_last() == old(ctx)@,
            ctx2v == ctx_views(pctx),
            ctx2v == ctx_views(old(ctx)@).push(spec_humanize(kw_amount())),
            parent@ == joined(ctx2v),
            spec_encode_units(a.entries@, ctx2v, 1, false) == (match spec_encode_units(
                a.entries@.skip(k as int),
                ctx2v,
                (k + 1) as nat,
                ps,
            ) {
                Err(e) => Err(e),
                Ok((rb, rf)) => Ok(((body@ + rb), fired || rf)),
            }),
        decreases n - k,
    {
        let ghost tail = a.entries@.skip(k as int);
        let ghost pre_body = body@;
        let ghost pre_ps = ps;
        proof {
            assert(tail[0] == a.entries@[k as int]);
            assert(tail.skip(1) =~= a.entries@.skip(k + 1));
        }
        let sep = entry_sep(k == 0);
        push_all(&mut body, sep.as_slice());
        let kb = format_str(a.entries[k].0.as_slice());
        let (kp, kname) = match key_phrase_vec(kb.as_slice()) {
            Ok(v) => v,
            Err(e) => {
                let dropped = ctx.pop();
                proof {
                    assert(ctx@ =~= old(ctx)@);
                }
                return Err(e);
            },
        };
        push_all(&mut body, kp.as_slice());
        let ofs = of_scope_vec(ps, &parent);
        push_all(&mut body, ofs.as_slice());
        push_all(&mut body, crate::lex::kw_is_vec().as_slice());
        body.push(0x20);
        ctx.push(kname);
        proof {
            assert(ctx_views(ctx@) =~= ctx2v.push(
                key_phrase(spec_format_str(a.entries@[k as int].0@)).unwrap().1,
            ));
        }
        let cres = encode_value(&a.entries[k].1, ctx);
        let popped = ctx.pop();
        proof {
            assert(ctx@ =~= pctx);
        }
        let (cb, csc) = match cres {
            Ok(v) => v,
            Err(e) => {
                let dropped = ctx.pop();
                proof {
                    assert(ctx@ =~= old(ctx)@);
                }
                return Err(e);
            },
        };
        push_all(&mut body, cb.as_slice());
        proof {
            let sepv: Seq<u8> = if k == 0 {
                seq![0x20u8] + kw_where() + seq![0x20u8]
            } else {
                seq![0x20u8] + kw_and() + seq![0x20u8]
            };
            let kpv = key_phrase(spec_format_str(a.entries@[k as int].0@)).unwrap().0;
            let head = sepv + kpv + of_scope_text(pre_ps, joined(ctx2v));
            assert(body@ =~= pre_body + (head + kw_is() + seq![0x20u8] + cb@));
            assert forall|rb: Seq<u8>| true implies (pre_body + ((head + kw_is() + seq![0x20u8]
                + cb@) + rb)) =~= (body@ + rb) by {}
        }
        fired = fired || ps;
        ps = csc;
        k = k + 1;
    }
    proof {
        assert(a.entries@.skip(n as int) =~= Seq::<(Vec<u8>, Value)>::empty());
        assert(body@ + Seq::<u8>::empty() =~= body@);
    }
    let popped = ctx.pop();
    proof {
        assert(ctx@ =~= old(ctx)@);
    }
    let out = compound_open(format_str(tagh.as_slice()), fired, &parent, body);
    proof {
        if fired {
            assert(out@ =~= kw_the() + seq![0x20u8] + spec_format_str(spec_humanize(kw_amount()))
                + (seq![0x20u8] + kw_henceforth() + seq![0x20u8] + spec_format_str(joined(ctx2v)))
                + body@);
        } else {
            assert(out@ =~= kw_the() + seq![0x20u8] + spec_format_str(spec_humanize(kw_amount()))
                + body@);
        }
    }
    Ok((out, true))
}

/// Render one value as a whole sentence. Every byte of the output comes
/// from a keyword, a digit, a date text, or a string or unit name held in
/// the value, carried over unchanged: the sentence is UTF-8 exactly when
/// the value's strings and unit names are.
pub fn to_vec(v: &Value) -> (r: Result<Vec<u8>, Error>)
    ensures
        match r {
            Ok(b) => spec_encode(*v, Seq::empty()) matches Ok((bs, _)) && b@ == bs,
            Err(e) => spec_encode(*v, Seq::empty()) == Err::<(Seq<u8>, bool), _>(e),
        },
{
    let mut ctx: Vec<Vec<u8>> = Vec::new();
    proof {
        assert(ctx_views(ctx@) =~= Seq::<Seq<u8>>::empty());
    }
    match encode_value(v, &mut ctx) {
        Ok((b, _)) => Ok(b),
        Err(e) => Err(e),
    }
}

/// The stateful writer a driver feeds values into: the sentence grows in
/// `out`, and `context` names the position being written, outermost phrase
/// first.
#[derive(Debug)]
pub struct Serializer {
    pub context: Vec<Vec<u8>>,
    pub out: Vec<u8>,
}

impl Serializer {
    /// A writer with an empty sentence and no surrounding context.
    pub fn new() -> (r: Serializer)
        ensures
            r.context@.len() == 0,
            r.out@.len() == 0,
    {
        Serializer { context: Vec::new(), out: Vec::new() }
    }

    /// A writer that starts inside the given context.
    pub fn with_context(context: Vec<Vec<u8>>) -> (r: Serializer)
        ensures
            r.context@ == context@,
            r.out@.len() == 0,
    {
        Serializer { context, out: Vec::new() }
    }

    /// Enter a named compound: `the <name>` at the top of a sentence, the
    /// bare name below.
    pub fn push_named_context(&mut self, name: &[u8])
        ensures
            final(self).out@ == old(self).out@,
            ctx_views(final(self).context@) == ctx_views(old(self).context@).push(
                if old(self).context@.len() == 0 {
                    kw_the() + seq![0x20u8] + spec_humanize(name@)
                } else {
                    spec_humanize(name@)
                },
            ),
    {
        let h = humanize(name);
        if self.context.len() == 0 {
            let mut l = crate::lex::kw_the_vec();
            l.push(0x20);
            push_all(&mut l, h.as_slice());
            proof {
                assert(l@ =~= kw_the() + seq![0x20u8] + spec_humanize(name@));
            }
            self.context.push(l);
        } else {
            self.context.push(h);
        }
    }

    /// Enter an unnamed list.
    pub fn push_list_context(&mut self)
        ensures
            final(self).out@ == old(self).out@,
            ctx_views(final(self).context@) == ctx_views(old(self).context@).push(
                list_label(ctx_views(old(self).context@)),
            ),
    {
        if self.context.len() == 0 {
            let mut l = crate::lex::kw_the_vec();
            l.push(0x20);
            push_all(&mut l, crate::lex::kw_list_vec().as_slice());
            proof {
                assert(l@ =~= kw_the() + seq![0x20u8] + kw_list());
            }
            self.context.push(l);
        } else {
            self.context.push(crate::lex::kw_list_vec());
        }
    }

    /// Enter an unnamed object.
    pub fn push_object_context(&mut self)
        ensures
            final(self).out@ == old(self).out@,
            ctx_views(final(self).context@) == ctx_views(old(self).context@).push(
                object_label(ctx_views(old(self).context@)),
            ),
    {
        if self.context.len() == 0 {
            let mut l = crate::lex::kw_the_vec();
            l.push(0x20);
            push_all(&mut l, crate::lex::kw_object_vec().as_slice());
            proof {
                assert(l@ =~= kw_the() + seq![0x20u8] + kw_object());
            }
            self.context.push(l);
        } else {
            self.context.push(crate::lex::kw_object_vec());
        }
    }

    /// The phrase that names the position being written.
    pub fn current_scope(&self) -> (r: Vec<u8>)
        ensures
            r@ == joined(ctx_views(self.context@)),
    {
        join_ctx(&self.context)
    }

    /// The phrase that names the surrounding position.
    pub fn parent_scope(&self) -> (r: Vec<u8>)
        ensures
            self.context@.len() == 0 ==> r@.len() == 0,
            self.context@.len() > 0 ==> r@ == joined(
                ctx_views(self.context@).drop_last(),
            ),
    {
        if self.context.len() == 0 {
            Vec::new()
        } else {
            let mut shorter: Vec<Vec<u8>> = Vec::new();
            let n = self.context.len() - 1;
            let mut i: usize = 0;
            while i < n
                invariant
                    0 <= i <= n,
                    n == self.context@.len() - 1,
                    shorter@.len() == i,
                    forall|j: int| 0 <= j < i ==> (#[trigger] shorter@[j])@ == self.context@[j]@,
                decreases n - i,
            {
                let piece = crate::bytes::copy_range(
                    self.context[i].as_slice(),
                    0,
                    self.context[i].len(),
                );
                proof {
                    assert(piece@ =~= self.context@[i as int]@);
                }
                shorter.push(piece);
                i = i + 1;
            }
            let r = join_ctx(&shorter);
            proof {
                assert(ctx_views(shorter@) =~= ctx_views(self.context@).drop_last());
            }
            r
        }
    }
}

/// One compound being written: its entries gather in `buffer` so that the
/// opening phrase and the alias can be written first once the entry count
/// and the scope question are settled.
#[derive(Debug)]
pub struct Compound {
    pub name: Option<Vec<u8>>,
    pub index: usize,
    pub is_leaf: bool,
    pub is_new_scope: bool,
    pub buffer: Vec<u8>,
}

impl Compound {
    /// A compound with nothing written yet.
    pub fn new(name: Option<Vec<u8>>) -> (r: Compound)
        ensures
            r.index == 0,
            r.is_leaf,
            !r.is_new_scope,
            r.buffer@.len() == 0,
            r.name == name,
    {
        Compound { name, index: 0, is_leaf: true, is_new_scope: false, buffer: Vec::new() }
    }

    /// Open the next list entry: `where an item` first, `and another item`
    /// later. Counts the entry.
    pub fn an_item(&mut self)
        requires
            old(self).index < usize::MAX,
        ensures
            final(self).index == old(self).index + 1,
            final(self).name == old(self).name,
            final(self).is_leaf == old(self).is_leaf,
            final(self).is_new_scope == old(self).is_new_scope,
            final(self).buffer@ == old(self).buffer@ + (if old(self).index == 0 {
                seq![0x20u8] + kw_where() + seq![0x20u8] + kw_an() + seq![0x20u8]
            } else {
                seq![0x20u8] + kw_and() + seq![0x20u8] + kw_another() + seq![0x20u8]
            }) + kw_item() + seq![0x20u8],
    {
        let sep = elem_sep(self.index == 0);
        push_all(&mut self.buffer, sep.as_slice());
        push_all(&mut self.buffer, crate::lex::kw_item_vec().as_slice());
        self.buffer.push(0x20);
        self.index = self.index + 1;
    }

    /// Hand the entry back to the outer scope when the entry before opened
    /// one: writes `of <parent>` and clears the flag.
    pub fn of_scope(&mut self, parent: &[u8])
        ensures
            final(self).index == old(self).index,
            final(self).name == old(self).name,
            final(self).buffer@ == old(self).buffer@ + of_scope_text(
                old(self).is_new_scope,
                parent@,
            ),
            !final(self).is_new_scope,
            final(self).is_leaf == (old(self).is_leaf && !old(self).is_new_scope),
    {
        if self.is_new_scope {
            push_all(&mut self.buffer, crate::lex::kw_of_vec().as_slice());
            self.buffer.push(0x20);
            let f = format_str(parent);
            push_all(&mut self.buffer, f.as_slice());
            self.buffer.push(0x20);
            self.is_new_scope = false;
            self.is_leaf = false;
            proof {
                assert(final(self).buffer@ =~= old(self).buffer@ + of_scope_text(true, parent@));
            }
        } else {
            proof {
                assert(final(self).buffer@ =~= old(self).buffer@ + of_scope_text(false, parent@));
            }
        }
    }

    /// Open the next object entry with its key: the serialized key must be
    /// a back-tick string, whose humanized body is re-delimited and
    /// prefixed with `the` unless it begins with the verb `is`. Counts the
    /// entry and returns the context name the key pushes.
    pub fn the_key(&mut self, kb: &[u8]) -> (r: Result<Vec<u8>, Error>)
        requires
            old(self).index < usize::MAX,
        ensures
            match key_phrase(kb@) {
                Ok((phrase, name)) => {
                    &&& r matches Ok(nm) && nm@ == name
                    &&& final(self).index == old(self).index + 1
                    &&& final(self).buffer@ == old(self).buffer@ + (if old(self).index == 0 {
                        seq![0x20u8] + kw_where() + seq![0x20u8]
                    } else {
                        seq![0x20u8] + kw_and() + seq![0x20u8]
                    }) + phrase
                    &&& final(self).name == old(self).name
                    &&& final(self).is_leaf == old(self).is_leaf
                    &&& final(self).is_new_scope == old(self).is_new_scope
                },
                Err(e) => r == Err::<Vec<u8>, Error>(e) && *final(self) == *old(self),
            },
    {
        let (kp, kname) = match key_phrase_vec(kb) {
            Ok(v) => v,
            Err(e) => {
                return Err(e);
            },
        };
        let sep = entry_sep(self.index == 0);
        push_all(&mut self.buffer, sep.as_slice());
        push_all(&mut self.buffer, kp.as_slice());
        self.index = self.index + 1;
        Ok(kname)
    }

    /// The entry's verb.
    pub fn is_verb(&mut self)
        ensures
            final(self).index == old(self).index,
            final(self).name == old(self).name,
            final(self).is_leaf == old(self).is_leaf,
            final(self).is_new_scope == old(self).is_new_scope,
            final(self).buffer@ == old(self).buffer@ + kw_is() + seq![0x20u8],
    {
        push_all(&mut self.buffer, crate::lex::kw_is_vec().as_slice());
        self.buffer.push(0x20);
    }

    /// The opening phrase of this compound read as a list: `the list` when
    /// entries were written, `the empty list` when none were.
    pub fn the_list(&self) -> (r: Vec<u8>)
        ensures
            self.name is None && self.index > 0 ==> r@ == kw_the() + seq![0x20u8] + kw_list(),
            self.name is None && self.index == 0 ==> r@ == kw_the() + seq![0x20u8] + kw_empty()
                + seq![0x20u8] + kw_list(),
            self.name matches Some(nm) ==> (self.index > 0 ==> r@ == kw_the() + seq![0x20u8]
                + spec_format_str(spec_humanize(nm@))) && (self.index == 0 ==> r@ == kw_the()
                + seq![0x20u8] + kw_empty() + seq![0x20u8] + spec_format_str(spec_humanize(nm@))),
    {
        let descriptor: Vec<u8> = match &self.name {
            Some(nm) => {
                let h = humanize(nm.as_slice());
                format_str(h.as_slice())
            },
            None => crate::lex::kw_list_vec(),
        };
        self.opening(descriptor)
    }

    /// The opening phrase of this compound read as an object.
    pub fn the_object(&self) -> (r: Vec<u8>)
        ensures
            self.name is None && self.index > 0 ==> r@ == kw_the() + seq![0x20u8] + kw_object(),
            self.name is None && self.index == 0 ==> r@ == kw_the() + seq![0x20u8] + kw_empty()
                + seq![0x20u8] + kw_object(),
            self.name matches Some(nm) ==> (self.index > 0 ==> r@ == kw_the() + seq![0x20u8]
                + spec_format_str(spec_humanize(nm@))) && (self.index == 0 ==> r@ == kw_the()
                + seq![0x20u8] + kw_empty() + seq![0x20u8] + spec_format_str(spec_humanize(nm@))),
    {
        let descriptor: Vec<u8> = match &self.name {
            Some(nm) => {
                let h = humanize(nm.as_slice());
                format_str(h.as_slice())
            },
            None => crate::lex::kw_object_vec(),
        };
        self.opening(descriptor)
    }

    fn opening(&self, descriptor: Vec<u8>) -> (r: Vec<u8>)
        ensures
            self.index > 0 ==> r@ == kw_the() + seq![0x20u8] + descriptor@,
            self.index == 0 ==> r@ == kw_the() + seq![0x20u8] + kw_empty() + seq![0x20u8]
                + descriptor@,
    {
        if self.index > 0 {
            let mut out = crate::lex::kw_the_vec();
            out.push(0x20);
            push_all(&mut out, descriptor.as_slice());
            proof {
                assert(out@ =~= kw_the() + seq![0x20u8] + descriptor@);
            }
            out
        } else {
            empty_compound_vec(descriptor)
        }
    }

    /// Everything after the opening phrase: the alias, when some entry was
    /// handed to an outer scope, and the gathered entries.
    pub fn contents(&self, scope: &[u8]) -> (r: Vec<u8>)
        ensures
            self.is_leaf ==> r@ == self.buffer@,
            !self.is_leaf ==> r@ == seq![0x20u8] + kw_henceforth() + seq![0x20u8]
                + spec_format_str(scope@) + self.buffer@,
    {
        let mut out: Vec<u8> = Vec::new();
        if !self.is_leaf {
            out.push(0x20);
            push_all(&mut out, crate::lex::kw_henceforth_vec().as_slice());
            out.push(0x20);
            let f = format_str(scope);
            push_all(&mut out, f.as_slice());
            proof {
                assert(out@ =~= seq![0x20u8] + kw_henceforth() + seq![0x20u8] + spec_format_str(
                    scope@,
                ));
            }
        }
        push_all(&mut out, self.buffer.as_slice());
        proof {
            if self.is_leaf {
                assert(out@ =~= self.buffer@);
            }
        }
        out
    }
}

/// A quantity of exactly one unit is written as the single string
/// `<number> <unit>`: the number's text, one space, and the unit name,
/// between back-ticks.
pub proof fn lemma_single_amount_text(a: Amount, ctx: Seq<Seq<u8>>)
    requires
        a.entries@.len() == 1,
        a.entries@[0].1 matches Value::Number(n),
    ensures
        spec_encode(Value::Amount(a), ctx) matches Ok((text, opened)) && !opened && (match a
            .entries@[0].1 {
            Value::Number(n) => text == spec_format_str(
                crate::num::spec_num_text(n) + seq![0x20u8] + a.entries@[0].0@,
            ),
            _ => false,
        }),
{
}

proof fn lemma_ws_len_end_le(s: Seq<u8>)
    ensures
        ws_len_end(s) <= s.len(),
        s.len() > 0 && !is_ws(s[0]) ==> ws_len_end(s) < s.len(),
    decreases s.len(),
{
    if s.len() > 0 && is_ws(s.last()) {
        lemma_ws_len_end_le(s.drop_last());
    }
}

/// Humanizing a text that opens with a plain byte — no whitespace, no
/// capital, no underscore — keeps that byte in front.
proof fn lemma_humanize_plain_first(s: Seq<u8>)
    requires
        s.len() > 0,
        !is_ws(s[0]),
        !is_upper(s[0]),
        s[0] != 0x5f,
    ensures
        spec_humanize(s).len() > 0,
        spec_humanize(s)[0] == s[0],
{
    let h = hum_rec(s, Seq::empty());
    assert(h == seq![s[0]] + hum_rec(s.skip(1), Seq::empty()));
    assert(h.len() > 0 && h[0] == s[0]);
    crate::parser::lemma_ws_len_skip(h, 0);
    assert(h.skip(0) =~= h);
    lemma_ws_len_end_le(h);
}

/// A boolean or numeric key never spells a back-tick string, so the key
/// rule refuses it for every such key.
pub proof fn lemma_nonstring_key_rejected(k: Key)
    requires
        crate::value::wf_key(k),
        !(k matches Key::String(_)),
    ensures
        key_phrase(key_bytes(k)) == Err::<(Seq<u8>, Seq<u8>), Error>(Error::UnexpectedKeyType),
{
    let kb = key_bytes(k);
    match k {
        Key::Bool(b) => {
            assert(kb.len() > 0 && !is_ws(kb[0]) && !is_upper(kb[0]) && kb[0] != 0x5f && kb[0]
                != 0x60);
        },
        Key::Number(n) => {
            match n {
                crate::num::Number::Integer(i) => {
                    if i < 0 {
                        assert(kb[0] == 0x2d) by {
                            assert(kb == seq![0x2du8] + crate::num::u_text((-(i as int)) as nat));
                        }
                    } else {
                        crate::num::lemma_u_text_first(i as nat);
                    }
                },
                crate::num::Number::Decimal { neg, whole, frac } => {
                    if neg {
                        assert(kb[0] == 0x2d);
                    } else {
                        assert(crate::num::is_digit(whole@[0]));
                        if frac@.len() == 0 {
                            assert(kb[0] == whole@[0]);
                        } else {
                            assert(kb[0] == (whole@ + seq![0x2eu8] + frac@)[0]);
                            assert((whole@ + seq![0x2eu8] + frac@)[0] == whole@[0]);
                        }
                    }
                },
            }
            assert(kb.len() > 0 && !is_ws(kb[0]) && !is_upper(kb[0]) && kb[0] != 0x5f && kb[0]
                != 0x60);
        },
        Key::String(_) => {},
    }
    lemma_humanize_plain_first(kb);
}

} // verus!
