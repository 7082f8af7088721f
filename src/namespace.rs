//! The namespace resolver of the namespace-aware reader: the prefixes that
//! `xmlns` attributes bind, scoped by element nesting.

use vstd::prelude::*;
use crate::decl::{
    attr_list, lemma_until_len_first, lemma_until_len_none, next_attribute, slices_equal, until_len,
};
use crate::search::find_byte;

verus! {

pub const COLON: u8 = 0x3A;

/// What a prefix resolves to.
#[derive(Debug, Clone, PartialEq, Eq)]
pub enum ResolveResult {
    /// No namespace: no prefix and no default namespace in scope, or a
    /// binding to the empty name.
    Unbound,
    /// The namespace name bound to the prefix.
    Bound(Vec<u8>),
    /// A prefix that no declaration in scope binds.
    Unknown(Vec<u8>),
}

/// The value of a `ResolveResult`.
pub enum Resolved {
    Unbound,
    Bound(Seq<u8>),
    Unknown(Seq<u8>),
}

impl View for ResolveResult {
    type V = Resolved;

    open spec fn view(&self) -> Resolved {
        match self {
            ResolveResult::Unbound => Resolved::Unbound,
            ResolveResult::Bound(v) => Resolved::Bound(v@),
            ResolveResult::Unknown(p) => Resolved::Unknown(p@),
        }
    }
}

/// One declaration: `prefix` (empty for the default namespace) bound to
/// `value` by an element at nesting `level`.
#[derive(Debug, Clone)]
pub struct NamespaceEntry {
    pub prefix: Vec<u8>,
    pub value: Vec<u8>,
    pub level: usize,
}

/// The declarations in scope, innermost last.
#[derive(Debug, Clone)]
pub struct NamespaceResolver {
    pub bindings: Vec<NamespaceEntry>,
    pub nesting_level: usize,
}

/// `xmlns`
pub open spec fn xmlns() -> Seq<u8> {
    seq![0x78u8, 0x6D, 0x6C, 0x6E, 0x73]
}

/// The prefix that an attribute named `name` declares: the empty prefix for
/// `xmlns`, `p` for `xmlns:p`, none for any other name.
pub open spec fn declared_prefix(name: Seq<u8>) -> Option<Seq<u8>> {
    if name == xmlns() {
        Some(Seq::empty())
    } else if name.len() > 5 && name.take(5) == xmlns() && name[5] == COLON {
        Some(name.skip(6))
    } else {
        None
    }
}

/// The declarations among the attributes `attrs`, in order.
pub open spec fn declarations(attrs: Seq<(Seq<u8>, Seq<u8>)>) -> Seq<(Seq<u8>, Seq<u8>)>
    decreases attrs.len(),
{
    if attrs.len() == 0 {
        Seq::empty()
    } else {
        let rest = declarations(attrs.skip(1));
        match declared_prefix(attrs[0].0) {
            Some(p) => seq![(p, attrs[0].1)] + rest,
            None => rest,
        }
    }
}

/// The prefix and the local part of a qualified name, split at its first `:`.
pub open spec fn split_name(name: Seq<u8>) -> (Option<Seq<u8>>, Seq<u8>) {
    let i = until_len(name, COLON);
    if i < name.len() {
        (Some(name.take(i as int)), name.skip(i + 1 as int))
    } else {
        (None, name)
    }
}

/// The index of the innermost declaration of `key` among the first `n`.
pub open spec fn innermost(entries: Seq<(Seq<u8>, Seq<u8>, int)>, key: Seq<u8>, n: int) -> Option<int>
    decreases n,
{
    if n <= 0 {
        None
    } else if entries[n - 1].0 == key {
        Some(n - 1)
    } else {
        innermost(entries, key, n - 1)
    }
}

/// What `prefix` resolves to under `entries`; the default namespace applies
/// to an unprefixed name only with `use_default`.
pub open spec fn resolution(
    entries: Seq<(Seq<u8>, Seq<u8>, int)>,
    prefix: Option<Seq<u8>>,
    use_default: bool,
) -> Resolved {
    let key = match prefix {
        Some(p) => p,
        None => Seq::empty(),
    };
    match innermost(entries, key, entries.len() as int) {
        None => match prefix {
            Some(p) => Resolved::Unknown(p),
            None => Resolved::Unbound,
        },
        Some(i) => if (key.len() == 0 && !use_default) || entries[i].1.len() == 0 {
            Resolved::Unbound
        } else {
            Resolved::Bound(entries[i].1)
        },
    }
}

/// `r1` is `r0` after entering an element whose tag content is `buf`, with
/// a name of `n` bytes: its declarations come into scope one level deeper
/// (the level stops at the largest `usize`).
pub open spec fn pushed(r0: NamespaceResolver, buf: Seq<u8>, n: int, r1: NamespaceResolver) -> bool {
    &&& r1.nesting_level as int == vstd::math::min(r0.nesting_level + 1, usize::MAX as int)
    &&& r1.entries() == r0.entries() + declarations(attr_list(buf.skip(n))).map_values(
        |d: (Seq<u8>, Seq<u8>)| (d.0, d.1, r1.nesting_level as int),
    )
}

/// `r1` is `r0` after leaving the innermost element: the declarations of
/// deeper levels go out of scope (the level stops at 0).
pub open spec fn popped(r0: NamespaceResolver, r1: NamespaceResolver) -> bool {
    &&& r1.nesting_level as int == vstd::math::max(r0.nesting_level - 1, 0)
    &&& r1.entries() == r0.entries().filter(
        |e: (Seq<u8>, Seq<u8>, int)| e.2 <= r1.nesting_level,
    )
}

/// The same declarations at the same level.
pub open spec fn same_scope(a: NamespaceResolver, b: NamespaceResolver) -> bool {
    a.entries() == b.entries() && a.nesting_level == b.nesting_level
}

impl NamespaceResolver {
    /// The declarations as (prefix, value, level).
    pub open spec fn entries(&self) -> Seq<(Seq<u8>, Seq<u8>, int)> {
        self.bindings@.map_values(|e: NamespaceEntry| (e.prefix@, e.value@, e.level as int))
    }

    /// Levels grow from first to last and do not pass the nesting level.
    pub open spec fn wf(&self) -> bool {
        &&& forall|i: int|
            0 <= i < self.bindings@.len() ==> #[trigger] self.bindings@[i].level
                <= self.nesting_level
        &&& forall|i: int, j: int|
            0 <= i <= j < self.bindings@.len() ==> #[trigger] self.bindings@[i].level
                <= #[trigger] self.bindings@[j].level
    }

    /// No declarations, outside any element.
    pub fn new() -> (r: NamespaceResolver)
        ensures
            r.wf(),
            r.entries() == Seq::<(Seq<u8>, Seq<u8>, int)>::empty(),
            r.nesting_level == 0,
    {
        let r = NamespaceResolver { bindings: Vec::new(), nesting_level: 0 };
        assert(r.entries() =~= Seq::<(Seq<u8>, Seq<u8>, int)>::empty());
        r
    }

    /// Enters an element whose tag content (name, then attributes) is
    /// `buf`, with a name of `name_len` bytes: its declarations come into
    /// scope one level deeper. The level stops at the largest `usize`.
    pub fn push(&mut self, buf: &[u8], name_len: usize)
        requires
            old(self).wf(),
            name_len <= buf@.len(),
        ensures
            final(self).wf(),
            pushed(*old(self), buf@, name_len as int, *final(self)),
    {
        self.nesting_level = self.nesting_level.saturating_add(1);
        let level = self.nesting_level;
        let ghost e0 = self.entries();
        let len = buf.len();
        let mut base = name_len;
        assert(declarations(attr_list(buf@.skip(name_len as int))).map_values(
            |d: (Seq<u8>, Seq<u8>)| (d.0, d.1, level as int),
        ) =~= Seq::<(Seq<u8>, Seq<u8>, int)>::empty() + declarations(attr_list(buf@.skip(base as int))).map_values(
            |d: (Seq<u8>, Seq<u8>)| (d.0, d.1, level as int),
        ));
        loop
            invariant
                self.wf(),
                self.nesting_level == level,
                level as int == vstd::math::min(old(self).nesting_level + 1, usize::MAX as int),
                e0 == old(self).entries(),
                base <= len,
                len == buf@.len(),
                self.entries().len() >= e0.len(),
                e0 + declarations(attr_list(buf@.skip(name_len as int))).map_values(
                    |d: (Seq<u8>, Seq<u8>)| (d.0, d.1, level as int),
                ) == self.entries() + declarations(attr_list(buf@.skip(base as int))).map_values(
                    |d: (Seq<u8>, Seq<u8>)| (d.0, d.1, level as int),
                ),
            decreases len - base,
        {
            let ghost rest = attr_list(buf@.skip(base as int));
            match next_attribute(buf, base) {
                None => {
                    assert(declarations(rest).map_values(
                        |d: (Seq<u8>, Seq<u8>)| (d.0, d.1, level as int),
                    ) =~= Seq::<(Seq<u8>, Seq<u8>, int)>::empty());
                    assert(self.entries() + Seq::<(Seq<u8>, Seq<u8>, int)>::empty() =~= self.entries());
                    return;
                },
                Some((a, n, v0, v1, next)) => {
                    let name = vstd::slice::slice_subrange(buf, a, n);
                    let ghost later = attr_list(buf@.skip(next as int));
                    assert(rest.skip(1) =~= later);
                    assert(rest[0] == (name@, buf@.subrange(v0 as int, v1 as int)));
                    match declared(name) {
                        Some(prefix) => {
                            let value = vstd::slice::slice_to_vec(vstd::slice::slice_subrange(buf, v0, v1));
                            let ghost before = self.entries();
                            self.bindings.push(NamespaceEntry { prefix, value, level });
                            assert(self.entries() =~= before.push((prefix@, value@, level as int)));
                            let ghost d = declarations(later).map_values(
                                |d: (Seq<u8>, Seq<u8>)| (d.0, d.1, level as int),
                            );
                            assert(declarations(rest).map_values(
                                |d: (Seq<u8>, Seq<u8>)| (d.0, d.1, level as int),
                            ) =~= seq![(prefix@, value@, level as int)] + d);
                            assert(before + (seq![(prefix@, value@, level as int)] + d) =~= before.push(
                                (prefix@, value@, level as int),
                            ) + d);
                        },
                        None => {
                            assert(declarations(rest) =~= declarations(later));
                        },
                    }
                    base = next;
                },
            }
        }
    }

    /// Leaves the innermost element: its declarations go out of scope. At
    /// the outermost level nothing changes but the declarations of level 0.
    pub fn pop(&mut self)
        requires
            old(self).wf(),
        ensures
            final(self).wf(),
            popped(*old(self), *final(self)),
    {
        self.nesting_level = self.nesting_level.saturating_sub(1);
        let level = self.nesting_level;
        let ghost e0 = self.entries();
        let mut keep = self.bindings.len();
        while keep > 0 && self.bindings[keep - 1].level > level
            invariant
                keep <= self.bindings@.len(),
                self.entries() == e0,
                forall|i: int| keep <= i < self.bindings@.len() ==> #[trigger] self.bindings@[i].level > level,
            decreases keep,
        {
            keep = keep - 1;
        }
        let ghost old_bindings = self.bindings@;
        proof {
            assert forall|i: int| 0 <= i < keep implies #[trigger] old_bindings[i].level <= level by {
                if keep > 0 {
                    assert(old_bindings[keep - 1].level <= level);
                    assert(old_bindings[i].level <= old_bindings[keep - 1].level);
                }
            }
            lemma_filter_prefix(e0, level as int, keep as int);
        }
        self.bindings.truncate(keep);
        assert(self.entries() =~= e0.take(keep as int));
    }

    /// What `prefix` resolves to (see `resolution`).
    pub fn resolve_prefix(&self, prefix: Option<&[u8]>, use_default: bool) -> (r: ResolveResult)
        ensures
            r@ == resolution(
                self.entries(),
                match prefix {
                    Some(p) => Some(p@),
                    None => None,
                },
                use_default,
            ),
    {
        let empty: Vec<u8> = Vec::new();
        let key: &[u8] = match prefix {
            Some(p) => p,
            None => empty.as_slice(),
        };
        let ghost entries = self.entries();
        let mut n = self.bindings.len();
        while n > 0 && !slices_equal(self.bindings[n - 1].prefix.as_slice(), key)
            invariant
                n <= self.bindings@.len(),
                entries == self.entries(),
                innermost(entries, key@, entries.len() as int) == innermost(entries, key@, n as int),
            decreases n,
        {
            n = n - 1;
        }
        assert(key@ == match prefix {
            Some(p) => p@,
            None => Seq::<u8>::empty(),
        });
        if n == 0 {
            match prefix {
                Some(p) => ResolveResult::Unknown(vstd::slice::slice_to_vec(p)),
                None => ResolveResult::Unbound,
            }
        } else {
            let entry = &self.bindings[n - 1];
            if (key.len() == 0 && !use_default) || entry.value.len() == 0 {
                ResolveResult::Unbound
            } else {
                ResolveResult::Bound(entry.value.clone())
            }
        }
    }

    /// The namespace of an element or attribute named `name`, and its local
    /// part; the default namespace applies to unprefixed names only with
    /// `use_default` (elements, not attributes).
    pub fn resolve<'n>(&self, name: &'n [u8], use_default: bool) -> (r: (ResolveResult, &'n [u8]))
        ensures
            r.0@ == resolution(self.entries(), split_name(name@).0, use_default),
            r.1@ == split_name(name@).1,
    {
        let (prefix, local) = split_qname(name);
        (self.resolve_prefix(prefix, use_default), local)
    }

    /// The namespace of an element named `name`.
    pub fn find(&self, name: &[u8]) -> (r: ResolveResult)
        ensures
            r@ == resolution(self.entries(), split_name(name@).0, true),
    {
        let (prefix, _) = split_qname(name);
        self.resolve_prefix(prefix, true)
    }
}

proof fn lemma_filter_prefix(e: Seq<(Seq<u8>, Seq<u8>, int)>, level: int, keep: int)
    requires
        0 <= keep <= e.len(),
        forall|i: int| 0 <= i < keep ==> #[trigger] e[i].2 <= level,
        forall|i: int| keep <= i < e.len() ==> #[trigger] e[i].2 > level,
    ensures
        e.filter(|x: (Seq<u8>, Seq<u8>, int)| x.2 <= level) == e.take(keep),
    decreases e.len(),
{
    let f = |x: (Seq<u8>, Seq<u8>, int)| x.2 <= level;
    if e.len() > 0 {
        reveal(Seq::filter);
        if keep == e.len() {
            lemma_filter_prefix(e.drop_last(), level, keep - 1);
            assert(e.drop_last().take(keep - 1) =~= e.take(keep - 1));
            assert(e.take(keep) =~= e.take(keep - 1).push(e.last()));
        } else {
            lemma_filter_prefix(e.drop_last(), level, keep);
            assert(e.drop_last().take(keep) =~= e.take(keep));
        }
    } else {
        reveal(Seq::filter);
        assert(e.take(keep) =~= e);
    }
}

/// The prefix that an attribute named `name` declares (see
/// `declared_prefix`).
fn declared(name: &[u8]) -> (r: Option<Vec<u8>>)
    ensures
        match r {
            Some(p) => declared_prefix(name@) == Some(p@),
            None => declared_prefix(name@) is None,
        },
{
    let n = name.len();
    if n >= 5 && name[0] == 0x78 && name[1] == 0x6D && name[2] == 0x6C && name[3] == 0x6E
        && name[4] == 0x73 {
        assert(name@.take(5) =~= xmlns());
        if n == 5 {
            assert(name@ =~= xmlns());
            let p: Vec<u8> = Vec::new();
            assert(p@ =~= Seq::<u8>::empty());
            return Some(p);
        }
        assert(name@ != xmlns());
        if name[5] == COLON {
            return Some(vstd::slice::slice_to_vec(vstd::slice::slice_subrange(name, 6, n)));
        }
        return None;
    }
    proof {
        if name@ == xmlns() || (name@.len() > 5 && name@.take(5) == xmlns()) {
            assert(name@[0] == xmlns()[0] || name@.take(5)[0] == xmlns()[0]);
            if name@ == xmlns() {
                assert(name@[1] == xmlns()[1] && name@[2] == xmlns()[2] && name@[3] == xmlns()[3]
                    && name@[4] == xmlns()[4]);
            } else {
                assert(name@[1] == name@.take(5)[1] && name@[2] == name@.take(5)[2] && name@[3]
                    == name@.take(5)[3] && name@[4] == name@.take(5)[4]);
            }
        }
    }
    None
}

/// Splits a qualified name at its first `:` (see `split_name`).
pub fn split_qname<'n>(name: &'n [u8]) -> (r: (Option<&'n [u8]>, &'n [u8]))
    ensures
        match r.0 {
            Some(p) => split_name(name@).0 == Some(p@),
            None => split_name(name@).0 is None,
        },
        r.1@ == split_name(name@).1,
{
    let len = name.len();
    match find_byte(COLON, name) {
        Some(i) => {
            proof {
                lemma_until_len_first(name@, COLON, i as int);
            }
            (
                Some(vstd::slice::slice_subrange(name, 0, i)),
                vstd::slice::slice_subrange(name, i + 1, len),
            )
        },
        None => {
            proof {
                lemma_until_len_none(name@, COLON);
            }
            (None, name)
        },
    }
}

} // verus!
