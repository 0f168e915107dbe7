use vstd::prelude::*;

verus! {

/// Byte-for-byte equality of two slices.
pub fn bytes_eq(a: &[u8], b: &[u8]) -> (r: bool)
    ensures
        r == (a@ == b@),
{
    if a.len() != b.len() {
        return false;
    }
    let n = a.len();
    let mut i: usize = 0;
    while i < n
        invariant
            0 <= i <= n,
            n == a@.len() == b@.len(),
            forall|j: int| 0 <= j < i ==> a@[j] == b@[j],
        decreases n - i,
    {
        if a[i] != b[i] {
            return false;
        }
        i = i + 1;
    }
    proof {
        assert(a@ =~= b@);
    }
    true
}

/// Append a whole slice to a vector.
pub fn push_all(out: &mut Vec<u8>, s: &[u8])
    ensures
        final(out)@ == old(out)@ + s@,
{
    let n = s.len();
    let mut i: usize = 0;
    while i < n
        invariant
            0 <= i <= n,
            n == s@.len(),
            out@ == old(out)@ + s@.subrange(0, i as int),
        decreases n - i,
    {
        out.push(s[i]);
        proof {
            assert(old(out)@ + s@.subrange(0, i + 1 as int) =~= (old(out)@ + s@.subrange(
                0,
                i as int,
            )).push(s@[i as int]));
        }
        i = i + 1;
    }
    proof {
        assert(s@.subrange(0, n as int) =~= s@);
    }
}

/// Copy a sub-range of a slice into a fresh vector.
pub fn copy_range(s: &[u8], from: usize, to: usize) -> (r: Vec<u8>)
    requires
        from <= to <= s@.len(),
    ensures
        r@ == s@.subrange(from as int, to as int),
{
    let mut out: Vec<u8> = Vec::new();
    let mut i = from;
    while i < to
        invariant
            from <= i <= to <= s@.len(),
            out@ == s@.subrange(from as int, i as int),
        decreases to - i,
    {
        out.push(s[i]);
        proof {
            assert(s@.subrange(from as int, i + 1 as int) =~= s@.subrange(
                from as int,
                i as int,
            ).push(s@[i as int]));
        }
        i = i + 1;
    }
    out
}

/// A continuation byte of a multi-byte scalar.
pub open spec fn is_cont(b: u8) -> bool {
    0x80 <= b && b <= 0xbf
}

/// The length of the well-formed encoded scalar at the front of `s`, or
/// zero when none stands there: one byte up to 0x7f; two from a lead in
/// 0xc2..=0xdf; three and four with the lead-dependent ranges on the first
/// continuation that exclude overlong forms, surrogates, and values past
/// the last code point.
pub open spec fn utf8_scalar_len(s: Seq<u8>) -> nat {
    if s.len() >= 1 && s[0] <= 0x7f {
        1
    } else if s.len() >= 2 && 0xc2 <= s[0] && s[0] <= 0xdf && is_cont(s[1]) {
        2
    } else if s.len() >= 3 && ((s[0] == 0xe0 && 0xa0 <= s[1] && s[1] <= 0xbf && is_cont(s[2])) || (
    0xe1 <= s[0] && s[0] <= 0xec && is_cont(s[1]) && is_cont(s[2])) || (s[0] == 0xed && 0x80 <= s[1]
        && s[1] <= 0x9f && is_cont(s[2])) || (0xee <= s[0] && s[0] <= 0xef && is_cont(s[1])
        && is_cont(s[2]))) {
        3
    } else if s.len() >= 4 && ((s[0] == 0xf0 && 0x90 <= s[1] && s[1] <= 0xbf && is_cont(s[2])
        && is_cont(s[3])) || (0xf1 <= s[0] && s[0] <= 0xf3 && is_cont(s[1]) && is_cont(s[2])
        && is_cont(s[3])) || (s[0] == 0xf4 && 0x80 <= s[1] && s[1] <= 0x8f && is_cont(s[2])
        && is_cont(s[3]))) {
        4
    } else {
        0
    }
}

/// The bytes spell well-formed UTF-8: a sequence of well-formed scalars.
pub open spec fn is_utf8(s: Seq<u8>) -> bool
    decreases s.len(),
{
    if s.len() == 0 {
        true
    } else {
        let l = utf8_scalar_len(s);
        l > 0 && is_utf8(s.skip(l as int))
    }
}

/// The length of the scalar at position `i`, or zero.
fn scalar_len_at(s: &[u8], i: usize) -> (r: usize)
    requires
        i <= s@.len(),
    ensures
        r == utf8_scalar_len(s@.skip(i as int)),
        i + r <= s@.len(),
{
    let ghost t = s@.skip(i as int);
    let len = s.len();
    let n = len - i;
    proof {
        assert(forall|j: int| 0 <= j < n ==> t[j] == s@[i + j]);
    }
    if n >= 1 && s[i] <= 0x7f {
        1
    } else if n >= 2 && 0xc2 <= s[i] && s[i] <= 0xdf && cont(s[i + 1]) {
        2
    } else if n >= 3 && ((s[i] == 0xe0 && 0xa0 <= s[i + 1] && s[i + 1] <= 0xbf && cont(s[i + 2]))
        || (0xe1 <= s[i] && s[i] <= 0xec && cont(s[i + 1]) && cont(s[i + 2])) || (s[i] == 0xed
        && 0x80 <= s[i + 1] && s[i + 1] <= 0x9f && cont(s[i + 2])) || (0xee <= s[i] && s[i] <= 0xef
        && cont(s[i + 1]) && cont(s[i + 2]))) {
        3
    } else if n >= 4 && ((s[i] == 0xf0 && 0x90 <= s[i + 1] && s[i + 1] <= 0xbf && cont(s[i + 2])
        && cont(s[i + 3])) || (0xf1 <= s[i] && s[i] <= 0xf3 && cont(s[i + 1]) && cont(s[i + 2])
        && cont(s[i + 3])) || (s[i] == 0xf4 && 0x80 <= s[i + 1] && s[i + 1] <= 0x8f && cont(
        s[i + 2],
    ) && cont(s[i + 3]))) {
        4
    } else {
        0
    }
}

fn cont(b: u8) -> (r: bool)
    ensures
        r == is_cont(b),
{
    0x80 <= b && b <= 0xbf
}

/// Do the bytes spell well-formed UTF-8?
pub fn is_utf8_bytes(s: &[u8]) -> (r: bool)
    ensures
        r == is_utf8(s@),
{
    let len = s.len();
    let mut i: usize = 0;
    proof {
        assert(s@.skip(0) =~= s@);
    }
    while i < len
        invariant
            0 <= i <= len,
            len == s@.len(),
            is_utf8(s@) == is_utf8(s@.skip(i as int)),
        decreases len - i,
    {
        let l = scalar_len_at(s, i);
        if l == 0 {
            return false;
        }
        proof {
            assert(s@.skip(i as int).skip(l as int) =~= s@.skip(i + l));
        }
        i = i + l;
    }
    proof {
        assert(s@.skip(len as int) =~= Seq::<u8>::empty());
    }
    true
}

} // verus!
