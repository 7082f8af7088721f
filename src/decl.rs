//! Finding the value of one attribute in the content of a tag, as the reader
//! needs for `encoding` in the XML declaration.

use vstd::prelude::*;
use crate::scan::{is_whitespace, is_ws, DQUOTE, SQUOTE};
use crate::search::is_first_of1;

verus! {

pub const EQ: u8 = 0x3D;

/// Number of leading white-space bytes.
pub open spec fn ws_len(s: Seq<u8>) -> nat
    decreases s.len(),
{
    if s.len() > 0 && is_ws(s[0]) {
        1 + ws_len(s.skip(1))
    } else {
        0
    }
}

/// Number of leading bytes that belong to an attribute name: up to `=` or
/// white space.
pub open spec fn name_len(s: Seq<u8>) -> nat
    decreases s.len(),
{
    if s.len() > 0 && s[0] != EQ && !is_ws(s[0]) {
        1 + name_len(s.skip(1))
    } else {
        0
    }
}

/// Number of leading bytes that differ from `q`.
pub open spec fn until_len(s: Seq<u8>, q: u8) -> nat
    decreases s.len(),
{
    if s.len() > 0 && s[0] != q {
        1 + until_len(s.skip(1), q)
    } else {
        0
    }
}

/// The value of the first attribute named `key` in `s`, a list of
/// `name = "value"` or `name = 'value'` pairs separated by white space; `None`
/// where there is none or the list breaks off before it.
pub open spec fn attr_value(s: Seq<u8>, key: Seq<u8>) -> Option<Seq<u8>>
    decreases s.len(),
{
    let a = ws_len(s);
    let n = a + name_len(s.skip(a as int));
    let e = n + ws_len(s.skip(n as int));
    let v = e + 1 + ws_len(s.skip(e + 1 as int));
    if a >= s.len() || n == a || e >= s.len() || s[e as int] != EQ || v >= s.len() || (s[v as int]
        != SQUOTE && s[v as int] != DQUOTE) {
        None
    } else {
        let c = v + 1 + until_len(s.skip(v + 1 as int), s[v as int]);
        if c >= s.len() {
            None
        } else if s.subrange(a as int, n as int) == key {
            Some(s.subrange(v + 1 as int, c as int))
        } else {
            attr_value(s.skip(c + 1 as int), key)
        }
    }
}

proof fn lemma_ws_len_step(s: Seq<u8>, i: int)
    requires
        0 <= i < s.len(),
    ensures
        ws_len(s.skip(i)) == if is_ws(s[i]) {
            1 + ws_len(s.skip(i + 1))
        } else {
            0
        },
{
    assert(s.skip(i).skip(1) =~= s.skip(i + 1));
}

proof fn lemma_name_len_step(s: Seq<u8>, i: int)
    requires
        0 <= i < s.len(),
    ensures
        name_len(s.skip(i)) == if s[i] != EQ && !is_ws(s[i]) {
            1 + name_len(s.skip(i + 1))
        } else {
            0
        },
{
    assert(s.skip(i).skip(1) =~= s.skip(i + 1));
}

proof fn lemma_until_len_step(s: Seq<u8>, q: u8, i: int)
    requires
        0 <= i < s.len(),
    ensures
        until_len(s.skip(i), q) == if s[i] != q {
            1 + until_len(s.skip(i + 1), q)
        } else {
            0
        },
{
    assert(s.skip(i).skip(1) =~= s.skip(i + 1));
}

/// The run before `q` lies within `s`, and a byte other than `q` at the
/// front counts.
pub proof fn lemma_until_len_bound(s: Seq<u8>, q: u8)
    ensures
        until_len(s, q) <= s.len(),
        s.len() > 0 && s[0] != q ==> until_len(s, q) >= 1,
    decreases s.len(),
{
    if s.len() > 0 && s[0] != q {
        lemma_until_len_bound(s.skip(1), q);
    }
}

proof fn lemma_len_at_end(s: Seq<u8>, q: u8)
    ensures
        ws_len(s.skip(s.len() as int)) == 0,
        name_len(s.skip(s.len() as int)) == 0,
        until_len(s.skip(s.len() as int), q) == 0,
{
    assert(s.skip(s.len() as int).len() == 0);
}

/// Index of the first byte at or after `i` that is no white space.
pub(crate) fn skip_ws(s: &[u8], i: usize) -> (r: usize)
    requires
        i <= s@.len(),
    ensures
        r == i + ws_len(s@.skip(i as int)),
        r <= s@.len(),
{
    let mut j = i;
    while j < s.len() && is_whitespace(s[j])
        invariant
            i <= j <= s@.len(),
            i + ws_len(s@.skip(i as int)) == j + ws_len(s@.skip(j as int)),
        decreases s@.len() - j,
    {
        proof {
            lemma_ws_len_step(s@, j as int);
        }
        j = j + 1;
    }
    proof {
        if j < s@.len() {
            lemma_ws_len_step(s@, j as int);
        } else {
            lemma_len_at_end(s@, 0);
        }
    }
    j
}

fn skip_name(s: &[u8], i: usize) -> (r: usize)
    requires
        i <= s@.len(),
    ensures
        r == i + name_len(s@.skip(i as int)),
        r <= s@.len(),
{
    let mut j = i;
    while j < s.len() && s[j] != EQ && !is_whitespace(s[j])
        invariant
            i <= j <= s@.len(),
            i + name_len(s@.skip(i as int)) == j + name_len(s@.skip(j as int)),
        decreases s@.len() - j,
    {
        proof {
            lemma_name_len_step(s@, j as int);
        }
        j = j + 1;
    }
    proof {
        if j < s@.len() {
            lemma_name_len_step(s@, j as int);
        } else {
            lemma_len_at_end(s@, 0);
        }
    }
    j
}

fn skip_until(s: &[u8], q: u8, i: usize) -> (r: usize)
    requires
        i <= s@.len(),
    ensures
        r == i + until_len(s@.skip(i as int), q),
        r <= s@.len(),
{
    let mut j = i;
    while j < s.len() && s[j] != q
        invariant
            i <= j <= s@.len(),
            i + until_len(s@.skip(i as int), q) == j + until_len(s@.skip(j as int), q),
        decreases s@.len() - j,
    {
        proof {
            lemma_until_len_step(s@, q, j as int);
        }
        j = j + 1;
    }
    proof {
        if j < s@.len() {
            lemma_until_len_step(s@, q, j as int);
        } else {
            lemma_len_at_end(s@, q);
        }
    }
    j
}

pub(crate) fn slices_equal(a: &[u8], b: &[u8]) -> (r: bool)
    ensures
        r == (a@ == b@),
{
    if a.len() != b.len() {
        return false;
    }
    let mut i: usize = 0;
    while i < a.len()
        invariant
            a@.len() == b@.len(),
            i <= a@.len(),
            forall|j: int| 0 <= j < i ==> a@[j] == b@[j],
        decreases a@.len() - i,
    {
        if a[i] != b[i] {
            return false;
        }
        i = i + 1;
    }
    assert(a@ =~= b@);
    true
}

/// The value of the first attribute named `key` in `s` (see `attr_value`).
pub fn find_attribute<'a>(s: &'a [u8], key: &[u8]) -> (r: Option<&'a [u8]>)
    ensures
        match r {
            Some(v) => attr_value(s@, key@) == Some(v@),
            None => attr_value(s@, key@) is None,
        },
{
    let len = s.len();
    let mut base: usize = 0;
    assert(s@.skip(0) =~= s@);
    while base < len
        invariant
            len == s@.len(),
            base <= len,
            attr_value(s@, key@) == attr_value(s@.skip(base as int), key@),
        decreases len - base,
    {
        let ghost t = s@.skip(base as int);
        let a = skip_ws(s, base);
        let n = skip_name(s, a);
        let e = skip_ws(s, n);
        proof {
            assert(t.skip(a - base) =~= s@.skip(a as int));
            assert(t.skip(n - base) =~= s@.skip(n as int));
        }
        if a >= len || n == a || e >= len || s[e] != EQ {
            return None;
        }
        assert(t.skip(e - base + 1) =~= s@.skip(e + 1));
        assert(t[e - base] == s@[e as int]);
        let v = skip_ws(s, e + 1);
        if v >= len || (s[v] != SQUOTE && s[v] != DQUOTE) {
            return None;
        }
        let q = s[v];
        let c = skip_until(s, q, v + 1);
        proof {
            assert(t[v - base] == s@[v as int]);
            assert(t.skip(v - base + 1) =~= s@.skip(v + 1));
        }
        if c >= len {
            return None;
        }
        let name = vstd::slice::slice_subrange(s, a, n);
        assert(t.subrange(a - base, n - base) =~= name@);
        if slices_equal(name, key) {
            let value = vstd::slice::slice_subrange(s, v + 1, c);
            assert(t.subrange(v - base + 1, c - base) =~= value@);
            return Some(value);
        }
        proof {
            assert(t.skip(c - base + 1) =~= s@.skip(c + 1));
        }
        base = c + 1;
    }
    proof {
        assert(s@.skip(base as int).len() == 0);
        assert(ws_len(s@.skip(base as int)) == 0);
    }
    None
}

/// The `(name, value)` pairs of the attribute list `s`, up to the end or to
/// the first malformed attribute (see `attr_value`).
pub open spec fn attr_list(s: Seq<u8>) -> Seq<(Seq<u8>, Seq<u8>)>
    decreases s.len(),
{
    let a = ws_len(s);
    let n = a + name_len(s.skip(a as int));
    let e = n + ws_len(s.skip(n as int));
    let v = e + 1 + ws_len(s.skip(e + 1 as int));
    if a >= s.len() || n == a || e >= s.len() || s[e as int] != EQ || v >= s.len() || (s[v as int]
        != SQUOTE && s[v as int] != DQUOTE) {
        Seq::empty()
    } else {
        let c = v + 1 + until_len(s.skip(v + 1 as int), s[v as int]);
        if c >= s.len() {
            Seq::empty()
        } else {
            seq![(s.subrange(a as int, n as int), s.subrange(v + 1 as int, c as int))] + attr_list(
                s.skip(c + 1 as int),
            )
        }
    }
}

/// The next attribute of `s` from `base`: the bounds of its name and value
/// and where the rest of the list starts; `None` at the end of the list.
pub fn next_attribute(s: &[u8], base: usize) -> (r: Option<(usize, usize, usize, usize, usize)>)
    requires
        base <= s@.len(),
    ensures
        match r {
            Some((a, n, v0, v1, next)) => {
                &&& base <= a <= n <= v0 <= v1 < next <= s@.len()
                &&& attr_list(s@.skip(base as int)) == seq![(s@.subrange(a as int, n as int), s@.subrange(v0 as int, v1 as int))]
                    + attr_list(s@.skip(next as int))
            },
            None => attr_list(s@.skip(base as int)) == Seq::<(Seq<u8>, Seq<u8>)>::empty(),
        },
{
    let len = s.len();
    let ghost t = s@.skip(base as int);
    if base == len {
        assert(t.len() == 0);
        assert(ws_len(t) == 0);
        return None;
    }
    let a = skip_ws(s, base);
    let n = skip_name(s, a);
    let e = skip_ws(s, n);
    proof {
        assert(t.skip(a - base) =~= s@.skip(a as int));
        assert(t.skip(n - base) =~= s@.skip(n as int));
    }
    if a >= len || n == a || e >= len || s[e] != EQ {
        return None;
    }
    assert(t.skip(e - base + 1) =~= s@.skip(e + 1));
    assert(t[e - base] == s@[e as int]);
    let v = skip_ws(s, e + 1);
    if v >= len || (s[v] != SQUOTE && s[v] != DQUOTE) {
        return None;
    }
    let q = s[v];
    let c = skip_until(s, q, v + 1);
    proof {
        assert(t[v - base] == s@[v as int]);
        assert(t.skip(v - base + 1) =~= s@.skip(v + 1));
    }
    if c >= len {
        return None;
    }
    proof {
        assert(t.subrange(a - base, n - base) =~= s@.subrange(a as int, n as int));
        assert(t.subrange(v - base + 1, c - base) =~= s@.subrange(v + 1, c as int));
        assert(t.skip(c - base + 1) =~= s@.skip(c + 1));
    }
    Some((a, n, v + 1, c, c + 1))
}

/// The run before `b` ends at its first occurrence.
pub proof fn lemma_until_len_first(s: Seq<u8>, b: u8, i: int)
    requires
        is_first_of1(s, b, i),
    ensures
        until_len(s, b) == i,
    decreases i,
{
    if i > 0 {
        assert forall|j: int| 0 <= j < i - 1 implies s.skip(1)[j] != b by {
            assert(s.skip(1)[j] == s[j + 1]);
        }
        lemma_until_len_first(s.skip(1), b, i - 1);
    }
}

/// Without `b`, the run before it is all of `s`.
pub proof fn lemma_until_len_none(s: Seq<u8>, b: u8)
    requires
        forall|j: int| 0 <= j < s.len() ==> s[j] != b,
    ensures
        until_len(s, b) == s.len(),
    decreases s.len(),
{
    if s.len() > 0 {
        assert forall|j: int| 0 <= j < s.len() - 1 implies s.skip(1)[j] != b by {
            assert(s.skip(1)[j] == s[j + 1]);
        }
        lemma_until_len_none(s.skip(1), b);
    }
}

} // verus!
